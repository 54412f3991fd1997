[package]
name = "r3x"
version = "0.1.0"
edition = "2021"
publish = false

[dependencies]
chrono = "=0.4.45"
serde = { version = "=1.0.229", features = ["derive"] }
serde_json = "=1.0.154"
serde_yaml = "=0.9.34"
kube = { version = "=5.0.0", features = ["runtime", "ws", "client"] }
k8s-openapi = { version = "=0.29.0", features = ["v1_35"] }
tokio = { version = "=1.54.1", features = ["full"] }
futures = "=0.3.34"
http = "=1.5.0"
secrecy = "=0.10.3"
