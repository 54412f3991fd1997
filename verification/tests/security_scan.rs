use r3x::model::{Pod, PodSpec, Container, Meta, SecurityContext, Resources, Probe, ProbeAction, IntOrString};
use r3x::security::{scan_security, score_checked};

fn meta(name: &str, ns: Option<&str>) -> Meta {
    Meta {
        name: Some(name.to_string()),
        namespace: ns.map(|s| s.to_string()),
        labels: None,
        annotations: None,
        owner_references: None,
        creation_timestamp: None,
    }
}

fn container(name: &str) -> Container {
    Container {
        name: name.to_string(),
        image: None,
        image_pull_policy: None,
        ports: None,
        resources: None,
        security_context: None,
        liveness_probe: None,
        readiness_probe: None,
        startup_probe: None,
        env_count: None,
        volume_mounts: None,
    }
}

fn spec(containers: Vec<Container>) -> PodSpec {
    PodSpec {
        node_name: None,
        host_network: None,
        host_pid: None,
        host_ipc: None,
        automount_service_account_token: None,
        service_account_name: None,
        priority_class_name: None,
        restart_policy: None,
        dns_policy: None,
        containers,
        init_containers: None,
        volumes: None,
        tolerations: None,
    }
}

#[test]
fn risky_pod_is_flagged_and_scores_zero() {
    let mut c = container("app");
    c.image = Some("nginx".to_string());
    c.security_context = Some(SecurityContext {
        privileged: Some(true),
        run_as_user: Some(0),
        allow_privilege_escalation: None,
        read_only_root_filesystem: None,
        capabilities_add: None,
    });
    let pod = Pod { metadata: meta("web", None), spec: Some(spec(vec![c])), status: None };
    let r = scan_security(&vec![pod]).unwrap();
    let titles: Vec<&str> = r.findings.iter().map(|f| f.title.as_str()).collect();
    assert_eq!(titles, vec![
        "Privileged container",
        "Running as root (UID 0)",
        "Writable root filesystem",
        "No resource limits or requests",
        "Using latest or untagged image",
        "No health probes",
        "Default service account with auto-mounted token",
    ]);
    assert_eq!(r.findings[0].severity, "critical");
    assert_eq!(r.findings[0].namespace, "default");
    assert_eq!(r.findings[0].description, "Container 'app' in pod 'web' runs in privileged mode");
    assert_eq!((r.summary.critical, r.summary.high, r.summary.medium, r.summary.low), (1, 1, 3, 2));
    assert_eq!(r.summary.total_resources_scanned, 1);
    assert_eq!(r.summary.score, 0);
}

#[test]
fn hardened_pod_scores_full() {
    let mut c = container("app");
    c.image = Some("nginx:1.25".to_string());
    c.security_context = Some(SecurityContext {
        privileged: Some(false),
        run_as_user: Some(1000),
        allow_privilege_escalation: Some(false),
        read_only_root_filesystem: Some(true),
        capabilities_add: Some(Some(vec!["CHOWN".to_string()])),
    });
    c.resources = Some(Resources {
        requests: Some(vec![("cpu".to_string(), "100m".to_string())]),
        limits: Some(vec![("cpu".to_string(), "200m".to_string())]),
    });
    c.liveness_probe = Some(Probe {
        action: ProbeAction::TcpSocket { port: IntOrString::Int(80) },
        initial_delay_seconds: None,
        period_seconds: None,
        timeout_seconds: None,
    });
    let mut s = spec(vec![c]);
    s.automount_service_account_token = Some(false);
    let pod = Pod { metadata: meta("web", Some("prod")), spec: Some(s), status: None };
    let r = scan_security(&vec![pod]).unwrap();
    assert_eq!(r.findings.len(), 0);
    assert_eq!(r.summary.score, 100);
}

#[test]
fn dangerous_capabilities_and_host_namespaces() {
    let mut c = container("c");
    c.image = Some("busybox:latest".to_string());
    c.security_context = Some(SecurityContext {
        privileged: None,
        run_as_user: None,
        allow_privilege_escalation: Some(true),
        read_only_root_filesystem: Some(true),
        capabilities_add: Some(Some(vec!["SYS_ADMIN".to_string(), "NET_RAW".to_string(), "CHOWN".to_string()])),
    });
    let mut s = spec(vec![c]);
    s.host_network = Some(true);
    s.host_pid = Some(true);
    s.host_ipc = Some(true);
    s.service_account_name = Some("builder".to_string());
    let pod = Pod { metadata: meta("p", Some("ci")), spec: Some(s), status: None };
    let r = scan_security(&vec![pod]).unwrap();
    let titles: Vec<&str> = r.findings.iter().map(|f| f.title.as_str()).collect();
    assert_eq!(titles, vec![
        "Host network enabled",
        "Host PID namespace shared",
        "Host IPC namespace shared",
        "Privilege escalation allowed",
        "Dangerous capability: SYS_ADMIN",
        "Network capability: NET_RAW",
        "No resource limits or requests",
        "Using latest or untagged image",
        "No health probes",
    ]);
}

#[test]
fn score_formula() {
    // 2 high findings over 3 pods: 100 * (60 - 10) / 60 = 83
    assert_eq!(score_checked(0, 2, 0, 0, 3, 20), Some(83));
    assert_eq!(score_checked(0, 0, 0, 0, 0, 20), Some(100));
    assert_eq!(score_checked(1, 0, 0, 0, 0, 10), Some(0));
    assert_eq!(score_checked(usize::MAX, 0, 0, 0, 1, 20), None);
}

#[test]
fn pods_without_spec_have_no_findings() {
    let pod = Pod { metadata: meta("x", None), spec: None, status: None };
    let r = scan_security(&vec![pod]).unwrap();
    assert_eq!(r.findings.len(), 0);
    assert_eq!(r.summary.score, 100);
}
