use r3x::json::Json;
use r3x::model::{Meta, OwnerRef, Node, Condition, NodeAddress, NodeSystemInfo, Pod, PodSpec, Container, Port, Resources};
use r3x::discovery::{discover_api_resources, dynamic_resource_status, DiscoveredResource};
use r3x::nodes::{node_details, drain_step, drain_message, eviction_error, cordon_patch, cordon_message, node_pods_selector, DrainStep};
use r3x::logs::{get_pod_logs, get_pod_containers, log_line, container_log_lines, merge_workload_logs, WorkloadLogLine, MAX_WORKLOAD_LINES};
use r3x::portforward::{get_pod_ports, session_id, ForwardRegistry};
use r3x::cost::{container_requests, replica_count, get_selector};
use r3x::exec::{shell_command, exec_session_names, exec_failure_text};
use r3x::shell_path::{usable_shell_path, path_candidates, extend_path};

fn st(x: &str) -> String {
    x.to_string()
}

fn obj(pairs: Vec<(&str, Json)>) -> Json {
    Json::Object(pairs.into_iter().map(|(k, v)| (k.to_string(), v)).collect())
}

fn discovered(plural: &str, kind: &str, group: &str, list: bool) -> DiscoveredResource {
    DiscoveredResource {
        plural: st(plural),
        kind: st(kind),
        group: st(group),
        version: st("v1"),
        api_version: if group.is_empty() { st("v1") } else { format!("{}/v1", group) },
        cluster_scoped: kind == "Node",
        list,
        get: true,
        create: false,
        delete: true,
        watch: list,
    }
}

#[test]
fn discovered_resources_put_core_first_and_drop_unlistable() {
    let ds = vec![
        discovered("deployments", "Deployment", "apps", true),
        discovered("pods", "Pod", "", true),
        discovered("bindings", "Binding", "", false),
        discovered("nodes", "Node", "", true),
    ];
    let r = discover_api_resources(&ds);
    let kinds: Vec<&str> = r.iter().map(|x| x.kind.as_str()).collect();
    assert_eq!(kinds, vec!["Node", "Pod", "Deployment"]);
    assert_eq!(r[0].scope, "Cluster");
    assert_eq!(r[1].scope, "Namespaced");
    assert_eq!(r[1].verbs, vec![st("list"), st("get"), st("delete"), st("watch")]);
    assert_eq!(r[2].api_version, "apps/v1");
    assert!(r[2].short_names.is_empty());
}

#[test]
fn dynamic_status_reads_phase_state_or_ready_condition() {
    let phase = obj(vec![("status", obj(vec![("phase", Json::Str(st("Bound")))]))]);
    assert_eq!(dynamic_resource_status(&phase), Some(st("Bound")));
    let cond = obj(vec![(
        "status",
        obj(vec![("conditions", Json::Array(vec![obj(vec![("type", Json::Str(st("Available"))), ("status", Json::Str(st("True")))])]))]),
    )]);
    assert_eq!(dynamic_resource_status(&cond), Some(st("True")));
    assert_eq!(dynamic_resource_status(&obj(vec![])), None);
}

fn node() -> Node {
    Node {
        metadata: Meta {
            name: Some(st("worker-1")),
            namespace: None,
            labels: Some(vec![
                (st("node-role.kubernetes.io/control-plane"), st("")),
                (st("kubernetes.io/os"), st("linux")),
                (st("node-role.kubernetes.io/etcd"), st("")),
            ]),
            annotations: None,
            owner_references: None,
            creation_timestamp: Some(0),
        },
        unschedulable: Some(true),
        conditions: Some(vec![Condition {
            type_: st("Ready"),
            status: st("True"),
            reason: Some(st("KubeletReady")),
            message: None,
            last_transition_time: Some(0),
        }]),
        capacity: Some(vec![(st("cpu"), st("4")), (st("memory"), st("16Gi"))]),
        allocatable: None,
        addresses: Some(vec![NodeAddress { type_: st("InternalIP"), address: st("10.0.0.5") }]),
        node_info: Some(NodeSystemInfo {
            kubelet_version: st("v1.29.1"),
            os_image: st("Ubuntu"),
            architecture: st("amd64"),
            container_runtime_version: st("containerd://1.7"),
            kernel_version: st("6.1"),
        }),
    }
}

#[test]
fn node_details_show_roles_status_and_capacities() {
    let d = node_details(&node(), 90_000);
    assert_eq!(d.name, "worker-1");
    assert_eq!(d.status, "Ready,SchedulingDisabled");
    assert_eq!(d.roles, vec![st("control-plane"), st("etcd")]);
    assert_eq!(d.version, "v1.29.1");
    assert_eq!(d.cpu_capacity, "4");
    assert_eq!(d.pods_capacity, "-");
    assert_eq!(d.cpu_allocatable, "-");
    assert_eq!(d.internal_ip, "10.0.0.5");
    assert_eq!(d.external_ip, "-");
    assert_eq!(d.age, "1d");
    assert_eq!(d.conditions.len(), 1);
    assert_eq!(d.conditions[0].last_transition, Some(st("1970-01-01 00:00:00")));
    let mut bare = node();
    bare.metadata.labels = None;
    bare.conditions = None;
    bare.unschedulable = None;
    let b = node_details(&bare, 0);
    assert_eq!(b.roles, vec![st("<none>")]);
    assert_eq!(b.status, "Unknown");
}

fn meta_with(annotations: Option<Vec<(&str, &str)>>, owner: Option<&str>) -> Meta {
    Meta {
        name: Some(st("p")),
        namespace: Some(st("ns")),
        labels: None,
        annotations: annotations.map(|v| v.into_iter().map(|(a, b)| (st(a), st(b))).collect()),
        owner_references: owner.map(|k| vec![OwnerRef { kind: st(k), name: st("o") }]),
        creation_timestamp: None,
    }
}

#[test]
fn draining_skips_mirror_pods_and_optionally_daemon_set_pods() {
    assert_eq!(drain_step(&meta_with(Some(vec![("kubernetes.io/config.mirror", "x")]), None), false), DrainStep::Skip);
    assert_eq!(drain_step(&meta_with(None, Some("DaemonSet")), true), DrainStep::Skip);
    assert_eq!(drain_step(&meta_with(None, Some("DaemonSet")), false), DrainStep::Evict);
    assert_eq!(drain_step(&meta_with(None, Some("ReplicaSet")), true), DrainStep::Evict);
}

#[test]
fn drain_and_cordon_messages() {
    assert_eq!(drain_message("n1", 3, 1, &vec![]), "Node 'n1' drained: 3 evicted, 1 skipped");
    let errs = vec![eviction_error("ns", "a", "denied"), eviction_error("ns", "b", "timeout")];
    assert_eq!(drain_message("n1", 0, 0, &errs), "Node 'n1' drained: 0 evicted, 0 skipped, 2 errors: ns/a: denied; ns/b: timeout");
    assert_eq!(cordon_message("n1", true), "Node 'n1' cordoned");
    assert_eq!(cordon_message("n1", false), "Node 'n1' uncordoned");
    assert_eq!(node_pods_selector("n1"), "spec.nodeName=n1");
    match cordon_patch(true) {
        Json::Object(m) => match &m[0].1 {
            Json::Object(inner) => {
                assert_eq!(inner[0].0, "unschedulable");
                assert!(matches!(inner[0].1, Json::Bool(true)));
            }
            other => panic!("unexpected {:?}", other),
        },
        other => panic!("unexpected {:?}", other),
    }
}

fn container(name: &str, ports: Option<Vec<(i32, Option<&str>)>>, requests: Option<Vec<(&str, &str)>>) -> Container {
    Container {
        name: st(name),
        image: None,
        image_pull_policy: None,
        ports: ports.map(|v| v.into_iter().map(|(p, proto)| Port { container_port: p, protocol: proto.map(st), name: None }).collect()),
        resources: requests.map(|r| Resources { requests: Some(r.into_iter().map(|(a, b)| (st(a), st(b))).collect()), limits: None }),
        security_context: None,
        liveness_probe: None,
        readiness_probe: None,
        startup_probe: None,
        env_count: None,
        volume_mounts: None,
    }
}

fn spec(containers: Vec<Container>) -> PodSpec {
    PodSpec {
        node_name: None,
        host_network: None,
        host_pid: None,
        host_ipc: None,
        automount_service_account_token: None,
        service_account_name: None,
        priority_class_name: None,
        restart_policy: None,
        dns_policy: None,
        containers,
        init_containers: None,
        volumes: None,
        tolerations: None,
    }
}

#[test]
fn pod_logs_and_containers() {
    assert_eq!(get_pod_logs("a\nb\n"), vec![st("a"), st("b")]);
    let p = Pod { metadata: meta_with(None, None), spec: Some(spec(vec![container("app", None, None), container("side", None, None)])), status: None };
    assert_eq!(get_pod_containers(&p), vec![st("app"), st("side")]);
    let none = Pod { metadata: meta_with(None, None), spec: None, status: None };
    assert!(get_pod_containers(&none).is_empty());
}

#[test]
fn log_lines_split_at_the_first_space() {
    let l = log_line("p", "c", "2024-01-01T00:00:00Z hello world");
    assert_eq!(l.timestamp, "2024-01-01T00:00:00Z");
    assert_eq!(l.message, "hello world");
    let bare = log_line("p", "c", "nospace");
    assert_eq!(bare.timestamp, "");
    assert_eq!(bare.message, "nospace");
    let ls = container_log_lines("p", "c", "t1 a\n\nt2 b\n");
    assert_eq!(ls.len(), 2);
    assert_eq!(ls[1].message, "b");
}

fn wl(ts: &str, msg: &str) -> WorkloadLogLine {
    WorkloadLogLine { pod: st("p"), container: st("c"), timestamp: st(ts), message: st(msg) }
}

#[test]
fn workload_logs_merge_by_time_and_keep_the_latest() {
    let merged = merge_workload_logs(vec![wl("t3", "c"), wl("t1", "a"), wl("t2", "b"), wl("t1", "a2")]);
    let msgs: Vec<&str> = merged.iter().map(|l| l.message.as_str()).collect();
    assert_eq!(msgs, vec!["a", "a2", "b", "c"]);
    let many: Vec<WorkloadLogLine> = (0..MAX_WORKLOAD_LINES + 5).map(|i| wl(&format!("t{:05}", i), &i.to_string())).collect();
    let kept = merge_workload_logs(many);
    assert_eq!(kept.len(), MAX_WORKLOAD_LINES);
    assert_eq!(kept[0].message, "5");
}

#[test]
fn pod_ports_default_to_tcp() {
    let sp = Some(spec(vec![container("web", Some(vec![(8080, None), (53, Some("UDP"))]), None), container("side", None, None)]));
    let ports = get_pod_ports(&sp);
    assert_eq!(ports.len(), 2);
    assert_eq!(ports[0].container_name, "web");
    assert_eq!(ports[0].port, 8080);
    assert_eq!(ports[0].protocol, "TCP");
    assert_eq!(ports[1].protocol, "UDP");
    assert!(get_pod_ports(&None).is_empty());
}

#[test]
fn port_forward_sessions_are_unique_by_id() {
    assert_eq!(session_id("ns", "web", 8080, 80), "pf-ns-web-8080-80");
    let mut reg = ForwardRegistry::new();
    let s = reg.start("ns", "web", 8080, 80).unwrap();
    assert_eq!(s.status, "Active");
    assert_eq!(reg.start("ns", "web", 8080, 80).unwrap_err(), "Port forward already active: localhost:8080 -> web:80");
    assert_eq!(reg.stop("pf-ns-web-8080-80"), Ok(st("Stopped port forward: pf-ns-web-8080-80")));
    assert_eq!(reg.stop("pf-ns-web-8080-80"), Err(st("No active port forward with id: pf-ns-web-8080-80")));
    assert!(reg.sessions.is_empty());
}

#[test]
fn cost_inputs_read_requests_and_replicas() {
    assert_eq!(container_requests(&container("a", None, Some(vec![("cpu", "250m")]))), (st("250m"), st("0")));
    assert_eq!(container_requests(&container("a", None, None)), (st("0"), st("0")));
    assert_eq!(replica_count("DaemonSet", Some(3)), 0);
    assert_eq!(replica_count("Deployment", Some(3)), 3);
    assert_eq!(replica_count("StatefulSet", None), 1);
    assert_eq!(get_selector(&Some(vec![(st("app"), st("x"))])), "app=x");
}

#[test]
fn exec_sessions_and_messages() {
    assert_eq!(shell_command(), vec![st("sh"), st("-c"), st("if command -v bash >/dev/null 2>&1; then exec bash; else exec sh; fi")]);
    let (id, out, inp, exit) = exec_session_names("ns", "web", 1234);
    assert_eq!(id, "exec-ns-web-1234");
    assert_eq!(out, "exec-ns-web-1234-stdout");
    assert_eq!(inp, "exec-ns-web-1234-stdin");
    assert_eq!(exit, "exec-ns-web-1234-exit");
    assert_eq!(exec_failure_text("boom"), "Failed to exec: boom\r\n");
}

#[test]
fn shell_path_must_be_a_path() {
    assert_eq!(usable_shell_path("/usr/bin:/bin\n"), Some(st("/usr/bin:/bin")));
    assert_eq!(usable_shell_path("  \n"), None);
    assert_eq!(usable_shell_path("command not found"), None);
}

#[test]
fn path_candidates_put_plugin_and_sdk_directories_first() {
    let c = path_candidates("/home/u", &Some(st(" /opt/sdk \n")), &vec![st("/a"), st(""), st("/usr/local/bin"), st("/b")]);
    assert_eq!(c[0], "/b");
    assert_eq!(c[1], "/a");
    assert_eq!(c[2], "/opt/sdk/bin");
    assert_eq!(c[3], "/home/u/google-cloud-sdk/bin");
    assert_eq!(c.len(), 15);
    let plain = path_candidates("/h", &None, &vec![]);
    assert_eq!(plain.len(), 12);
    assert_eq!(plain[11], "/usr/local/sbin");
}

#[test]
fn search_path_gains_only_missing_directories() {
    assert_eq!(extend_path("/usr/bin:/usr/local/bin", &vec![st("/usr/local/bin"), st("/opt/homebrew/bin")]), "/usr/bin:/usr/local/bin:/opt/homebrew/bin");
    assert_eq!(extend_path("/usr/bin", &vec![]), "/usr/bin");
}
