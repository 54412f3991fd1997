use r3x::json::Json;
use r3x::model::{Pod, PodSpec, Container, Meta, Resources, OwnerRef, PodStatus, Node, Condition, NodeAddress, NodeSystemInfo, Port};
use r3x::metrics::{format_cpu, format_memory, pod_allotment, pod_usages, node_usages, cluster_totals, metrics_items, record_volume_stats, pvc_usages, ClaimInfo, VolumeStat};
use r3x::restarts::{state_name, container_restart_info, pod_restart_info, timeline_events, restart_history, single_pod_history, history_scope, workload_selector, HistoryScope};
use r3x::resources::{extract_status, kind_to_plural, apply_plan, strip_managed_fields, api_version_of, namespace_info, node_readiness, applied_message};

fn obj(pairs: Vec<(&str, Json)>) -> Json {
    Json::Object(pairs.into_iter().map(|(k, v)| (k.to_string(), v)).collect())
}

fn s(x: &str) -> Json {
    Json::Str(x.to_string())
}

fn meta(name: &str, ns: Option<&str>) -> Meta {
    Meta {
        name: Some(name.to_string()),
        namespace: ns.map(|x| x.to_string()),
        labels: None,
        annotations: None,
        owner_references: None,
        creation_timestamp: None,
    }
}

fn container(name: &str, requests: Option<Vec<(&str, &str)>>, limits: Option<Vec<(&str, &str)>>) -> Container {
    let m = |v: Option<Vec<(&str, &str)>>| v.map(|v| v.into_iter().map(|(a, b)| (a.to_string(), b.to_string())).collect());
    Container {
        name: name.to_string(),
        image: None,
        image_pull_policy: None,
        ports: None,
        resources: Some(Resources { requests: m(requests), limits: m(limits) }),
        security_context: None,
        liveness_probe: None,
        readiness_probe: None,
        startup_probe: None,
        env_count: None,
        volume_mounts: None,
    }
}

fn spec(containers: Vec<Container>) -> PodSpec {
    PodSpec {
        node_name: None,
        host_network: None,
        host_pid: None,
        host_ipc: None,
        automount_service_account_token: None,
        service_account_name: None,
        priority_class_name: None,
        restart_policy: None,
        dns_policy: None,
        containers,
        init_containers: None,
        volumes: None,
        tolerations: None,
    }
}

#[test]
fn metrics_render_with_spaces() {
    assert_eq!(format_cpu(2500), "2.5 cores");
    assert_eq!(format_cpu(999), "999m");
    assert_eq!(format_memory(1610612736), "1.5 Gi");
    assert_eq!(format_memory(512), "512 B");
}

#[test]
fn requests_and_limits_sum_over_containers() {
    let sp = Some(spec(vec![
        container("a", Some(vec![("cpu", "100m"), ("memory", "64Mi")]), Some(vec![("cpu", "1")])),
        container("b", Some(vec![("cpu", "250m")]), None),
    ]));
    assert_eq!(pod_allotment(&sp), (350, 67108864, 1000, 0));
    assert_eq!(pod_allotment(&None), (0, 0, 0, 0));
}

#[test]
fn pod_usage_against_requests() {
    let raw = obj(vec![("items", Json::Array(vec![obj(vec![
        ("metadata", obj(vec![("name", s("web")), ("namespace", s("prod"))])),
        ("containers", Json::Array(vec![
            obj(vec![("name", s("a")), ("usage", obj(vec![("cpu", s("50000000n")), ("memory", s("32Mi"))]))]),
            obj(vec![("name", s("b")), ("usage", obj(vec![("cpu", s("25m")), ("memory", s("1Ki"))]))]),
        ])),
    ])]))]);
    let items = metrics_items(&raw).unwrap();
    let pods = vec![Pod {
        metadata: meta("web", Some("prod")),
        spec: Some(spec(vec![container("a", Some(vec![("cpu", "100m")]), None)])),
        status: None,
    }];
    let us = pod_usages(items, &pods);
    assert_eq!(us.len(), 1);
    let u = &us[0];
    assert_eq!(u.cpu_millicores, 75);
    assert_eq!(u.memory_bytes, 33555456);
    assert_eq!(u.cpu_total, "75m");
    assert_eq!(u.memory_total, "32 Mi");
    assert_eq!(u.containers[1].cpu, "25m");
    assert_eq!(u.req_cpu, 100);
    assert_eq!(u.cpu_request, Some("100m".to_string()));
    assert_eq!(u.memory_request, None);
    assert!(metrics_items(&obj(vec![])).is_none());
}

#[test]
fn node_usage_with_capacity() {
    let items = vec![obj(vec![
        ("metadata", obj(vec![("name", s("n1"))])),
        ("usage", obj(vec![("cpu", s("1500m")), ("memory", s("2Gi"))])),
    ])];
    let nodes = vec![Node {
        metadata: meta("n1", None),
        unschedulable: None,
        conditions: None,
        capacity: None,
        allocatable: Some(vec![("cpu".to_string(), "4".to_string()), ("memory".to_string(), "8Gi".to_string())]),
        addresses: None,
        node_info: None,
    }];
    let us = node_usages(&items, &nodes);
    assert_eq!((us[0].cpu_millicores, us[0].cpu_capacity), (1500, 4000));
    assert_eq!(us[0].memory_capacity, 8589934592);
    assert_eq!(us[0].cpu, "1.5 cores");
    assert_eq!(cluster_totals(&us), (1500, 2147483648, 4000, 8589934592));
}

#[test]
fn volume_usage_from_kubelet_stats() {
    let stats = obj(vec![("pods", Json::Array(vec![obj(vec![
        ("podRef", obj(vec![("name", s("db-0")), ("namespace", s("data"))])),
        ("volume", Json::Array(vec![
            obj(vec![("name", s("tmp"))]),
            obj(vec![("pvcRef", obj(vec![("name", s("pg"))])), ("usedBytes", Json::UInt(1073741824)), ("capacityBytes", Json::UInt(10737418240)), ("availableBytes", Json::UInt(9663676416))]),
        ])),
    ])]))]);
    let mut table: Vec<(String, VolumeStat)> = Vec::new();
    record_volume_stats(&mut table, &stats);
    assert_eq!(table.len(), 1);
    assert_eq!(table[0].0, "data/pg");
    let claims = vec![
        ClaimInfo { name: Some("pg".to_string()), namespace: Some("data".to_string()), bound_storage: Some("10Gi".to_string()), requested_storage: None, volume_name: Some("pv-1".to_string()) },
        ClaimInfo { name: Some("logs".to_string()), namespace: None, bound_storage: None, requested_storage: Some("5Gi".to_string()), volume_name: None },
        ClaimInfo { name: Some("x".to_string()), namespace: None, bound_storage: None, requested_storage: None, volume_name: None },
    ];
    let us = pvc_usages(&claims, &table);
    assert_eq!(us[0].capacity, "10.0 Gi");
    assert_eq!(us[0].used_bytes, Some(1073741824));
    assert_eq!(us[0].used_formatted, Some("1.0 Gi".to_string()));
    assert_eq!(us[0].pod_name, Some("db-0".to_string()));
    assert_eq!(us[1].capacity, "5Gi");
    assert_eq!(us[1].capacity_bytes, 5368709120);
    assert_eq!(us[1].namespace, "default");
    assert_eq!(us[1].used_bytes, None);
    assert_eq!(us[2].capacity, "-");
    assert_eq!(us[2].capacity_bytes, 0);
}

fn pod_doc(statuses: Json) -> Json {
    obj(vec![("status", obj(vec![("containerStatuses", statuses)]))])
}

#[test]
fn container_states_and_restarts() {
    assert_eq!(state_name(&obj(vec![("running", obj(vec![]))])), "Running");
    assert_eq!(state_name(&obj(vec![("waiting", obj(vec![("reason", s("CrashLoopBackOff"))]))])), "CrashLoopBackOff");
    assert_eq!(state_name(&obj(vec![("terminated", obj(vec![]))])), "Terminated");
    assert_eq!(state_name(&obj(vec![])), "Unknown");
    let cs = obj(vec![
        ("name", s("app")), ("restartCount", Json::Int(3)), ("ready", Json::Bool(false)),
        ("state", obj(vec![("waiting", obj(vec![]))])),
        ("lastState", obj(vec![("terminated", obj(vec![("reason", s("OOMKilled")), ("exitCode", Json::Int(137)), ("finishedAt", s("2024-01-01T00:00:00Z"))]))])),
    ]);
    let c = container_restart_info(&cs);
    assert_eq!((c.restart_count, c.current_ready), (3, false));
    assert_eq!(c.current_state, "Waiting");
    assert_eq!(c.last_reason, Some("OOMKilled".to_string()));
    assert_eq!(c.last_exit_code, Some(137));
}

#[test]
fn restart_history_orders_pods_and_timeline() {
    let term = |t: &str| obj(vec![("terminated", obj(vec![("reason", s("Error")), ("exitCode", Json::Int(1)), ("finishedAt", s(t))]))]);
    let p1 = Pod { metadata: Meta { creation_timestamp: Some(0), ..meta("a", Some("ns")) }, spec: None, status: None };
    let d1 = pod_doc(Json::Array(vec![obj(vec![("name", s("c")), ("restartCount", Json::Int(1)), ("lastState", term("2024-01-01T00:00:00Z"))])]));
    let p2 = Pod { metadata: meta("b", Some("ns")), spec: None, status: None };
    let d2 = pod_doc(Json::Array(vec![obj(vec![("name", s("c")), ("restartCount", Json::Int(5)), ("lastState", term("2024-02-01T00:00:00Z"))])]));
    let info = pod_restart_info(&p1, &d1, 3600);
    assert_eq!(info.age, "1h0m");
    assert_eq!(info.total_restarts, 1);
    assert_eq!(timeline_events(&p2, &d2)[0].source, "lastState");
    let h = restart_history("w".to_string(), "Deployment".to_string(), "ns".to_string(), &vec![(p1, d1), (p2, d2)], 3600);
    assert_eq!(h.total_restarts, 6);
    assert_eq!(h.pod_count, 2);
    assert_eq!(h.pods[0].pod_name, "b");
    assert_eq!(h.timeline[0].finished_at, Some("2024-02-01T00:00:00Z".to_string()));
    assert_eq!(h.timeline[1].pod_name, "a");
    assert_eq!(h.pods[1].age, "1h0m");
}

#[test]
fn single_pod_history_keeps_status_order() {
    let p = Pod { metadata: meta("solo", None), spec: None, status: None };
    let d = pod_doc(Json::Array(vec![obj(vec![("name", s("c")), ("restartCount", Json::Int(2))])]));
    let h = single_pod_history("solo".to_string(), "Pod".to_string(), "ns".to_string(), &p, &d, 0);
    assert_eq!((h.pod_count, h.total_restarts), (1, 2));
    assert_eq!(h.pods[0].age, "?");
    assert!(h.timeline.is_empty());
}

#[test]
fn history_kinds_and_selectors() {
    assert_eq!(history_scope("Deployment"), Ok(HistoryScope::Workload));
    assert_eq!(history_scope("Pod"), Ok(HistoryScope::SinglePod));
    assert_eq!(history_scope("Job"), Err("Unsupported kind: Job".to_string()));
    assert_eq!(workload_selector(&Some(vec![("app".to_string(), "web".to_string())])), Ok("app=web".to_string()));
    assert_eq!(workload_selector(&None), Err("No label selector found".to_string()));
}

#[test]
fn statuses_of_objects() {
    assert_eq!(extract_status(&obj(vec![("status", obj(vec![("phase", s("Running"))]))])), Some("Running".to_string()));
    assert_eq!(extract_status(&obj(vec![("status", obj(vec![("replicas", Json::Int(3)), ("readyReplicas", Json::Int(2))]))])), Some("2/3".to_string()));
    assert_eq!(extract_status(&obj(vec![("status", obj(vec![("desiredNumberScheduled", Json::Int(4)), ("numberReady", Json::Int(4))]))])), Some("4/4".to_string()));
    assert_eq!(extract_status(&obj(vec![("status", obj(vec![("conditions", Json::Array(vec![obj(vec![("type", s("Ready")), ("status", s("False"))])]))]))])), Some("NotReady".to_string()));
    assert_eq!(extract_status(&obj(vec![("spec", obj(vec![("type", s("NodePort"))]))])), Some("NodePort".to_string()));
    assert_eq!(extract_status(&obj(vec![("status", obj(vec![("succeeded", Json::Int(1))]))])), Some("1/1".to_string()));
    assert_eq!(extract_status(&obj(vec![("spec", obj(vec![("completions", Json::Int(2))])), ("status", obj(vec![("failed", Json::Int(1))]))])), Some("Failed(1)".to_string()));
    assert_eq!(extract_status(&obj(vec![("spec", obj(vec![("schedule", s("*/5 * * * *")), ("suspend", Json::Bool(true))]))])), Some("*/5 * * * * (Suspended)".to_string()));
    assert_eq!(extract_status(&obj(vec![("data", obj(vec![("a", s("1")), ("b", s("2"))]))])), Some("2 keys".to_string()));
    assert_eq!(extract_status(&obj(vec![("type", s("kubernetes.io/tls"))])), Some("kubernetes.io/tls (0 keys)".to_string()));
    assert_eq!(extract_status(&obj(vec![("spec", obj(vec![("rules", Json::Array(vec![obj(vec![("host", s("a.io"))]), obj(vec![]), obj(vec![("host", s("b.io"))])]))]))])), Some("a.io, b.io".to_string()));
    assert_eq!(extract_status(&obj(vec![("automountServiceAccountToken", Json::Bool(false))])), Some("NoAutoMount".to_string()));
    assert_eq!(extract_status(&obj(vec![("metadata", obj(vec![("name", s("sa"))])), ("kind", s("ServiceAccount"))])), Some("AutoMount".to_string()));
    assert_eq!(extract_status(&obj(vec![])), None);
}

#[test]
fn plural_names() {
    assert_eq!(kind_to_plural("Ingress"), "ingresses");
    assert_eq!(kind_to_plural("NetworkPolicy"), "networkpolicies");
    assert_eq!(kind_to_plural("Certificate"), "certificates");
    assert_eq!(kind_to_plural("Prometheus"), "prometheus");
}

#[test]
fn manifests_prepared_for_apply() {
    let doc = obj(vec![
        ("apiVersion", s("apps/v1")),
        ("kind", s("Deployment")),
        ("metadata", obj(vec![
            ("name", s("web")),
            ("uid", s("123")),
            ("resourceVersion", s("9")),
            ("annotations", obj(vec![("kubectl.kubernetes.io/last-applied-configuration", s("{}")), ("keep", s("me"))])),
        ])),
        ("status", obj(vec![])),
        ("spec", obj(vec![])),
    ]);
    let p = apply_plan(Ok(doc)).unwrap();
    assert_eq!((p.group.as_str(), p.version.as_str(), p.plural.as_str(), p.namespace.as_str()), ("apps", "v1", "deployments", "default"));
    match &p.object {
        Json::Object(m) => {
            let keys: Vec<&str> = m.iter().map(|(k, _)| k.as_str()).collect();
            assert_eq!(keys, vec!["apiVersion", "kind", "metadata", "spec"]);
            match &m[2].1 {
                Json::Object(md) => {
                    let keys: Vec<&str> = md.iter().map(|(k, _)| k.as_str()).collect();
                    assert_eq!(keys, vec!["name", "annotations"]);
                    match &md[1].1 {
                        Json::Object(a) => assert_eq!(a.len(), 1),
                        _ => panic!("annotations"),
                    }
                },
                _ => panic!("metadata"),
            }
        },
        _ => panic!("object"),
    }
    let core = apply_plan(Ok(obj(vec![("apiVersion", s("v1")), ("kind", s("ConfigMap")), ("metadata", obj(vec![("name", s("c")), ("namespace", s("x"))]))]))).unwrap();
    assert_eq!((core.group.as_str(), core.version.as_str(), core.namespace.as_str()), ("", "v1", "x"));
    assert_eq!(applied_message("ConfigMap", "c"), "ConfigMap 'c' applied successfully");
}

#[test]
fn manifest_errors() {
    assert_eq!(apply_plan(Err("bad".to_string())).unwrap_err(), "Invalid YAML: bad");
    assert_eq!(apply_plan(Ok(obj(vec![]))).unwrap_err(), "Missing apiVersion");
    assert_eq!(apply_plan(Ok(obj(vec![("apiVersion", s("v1"))]))).unwrap_err(), "Missing kind");
    assert_eq!(apply_plan(Ok(obj(vec![("apiVersion", s("v1")), ("kind", s("Pod"))]))).unwrap_err(), "Missing metadata.name");
}

#[test]
fn managed_fields_are_hidden() {
    let doc = obj(vec![("metadata", obj(vec![("name", s("x")), ("managedFields", Json::Array(vec![]))]))]);
    match strip_managed_fields(doc) {
        Json::Object(m) => match &m[0].1 {
            Json::Object(md) => assert_eq!(md.len(), 1),
            _ => panic!("metadata"),
        },
        _ => panic!("object"),
    }
    assert_eq!(api_version_of("", "v1"), "v1");
    assert_eq!(api_version_of("batch", "v1"), "batch/v1");
}

#[test]
fn namespaces_and_node_readiness() {
    let m = Meta { creation_timestamp: Some(0), ..meta("dev", None) };
    let n = namespace_info(&m, &Some("Active".to_string()), 172800);
    assert_eq!((n.name.as_str(), n.status.as_str(), n.age.as_str()), ("dev", "Active", "2d"));
    let n = namespace_info(&meta("x", None), &None, 0);
    assert_eq!((n.status.as_str(), n.age.as_str()), ("Unknown", "-"));
    let cond = |t: &str, st: &str| Condition { type_: t.to_string(), status: st.to_string(), reason: None, message: None, last_transition_time: None };
    assert_eq!(node_readiness(&Some(vec![cond("MemoryPressure", "False"), cond("Ready", "True")])), Some("Ready".to_string()));
    assert_eq!(node_readiness(&Some(vec![cond("Ready", "Unknown")])), Some("NotReady".to_string()));
    assert_eq!(node_readiness(&None), None);
}

#[allow(dead_code)]
fn unused(_: OwnerRef, _: PodStatus, _: NodeAddress, _: NodeSystemInfo, _: Port) {}

#[test]
fn plural_names_are_stable_under_a_second_call() {
    for k in ["Pod", "NetworkPolicy", "Widget", "Status", "CertificateRequest", "ÄBC"] {
        let p = kind_to_plural(k);
        assert!(p.ends_with('s'));
        assert_eq!(kind_to_plural(&p), p);
    }
    assert_eq!(kind_to_plural("Widget"), "widgets");
    assert_eq!(kind_to_plural("Status"), "status");
}
