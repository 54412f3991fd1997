use r3x::json::Json;
use r3x::model::{
    Meta, Pod, PodSpec, Container, PodStatus, ContainerStatus, ContainerState, Node, Condition, Port, Resources,
    Probe, ProbeAction, IntOrString, VolumeMount, Volume, VolumeSource, Toleration,
};
use r3x::security::SecuritySummary;
use r3x::health::{cluster_health, ResourcePressure, HealthComponent};
use r3x::summary::{cluster_overview, shorten, short_message_exec, WorkloadLists, ReplicaCounts};
use r3x::hpa::{hpa_info, vpa_info, autoscalers_at, get_autoscalers};
use r3x::describe::{describe_pod, describe_other, describe_container, copy_pairs};
use r3x::rbac_audit::{audit_rbac, analyze_role_rules, resolve_role, RoleObject, PolicyRule, BindingObject, SubjectRef, RbacAuditFinding};
use r3x::netpol::{network_policy_graph, parse_peer, NetworkPolicy, PolicySpec, PolicyRuleDef, PolicyPeer, PolicyPort};
use r3x::images::{collect_images, summarize_report, parse_trivy_json, record_scan, finish_scan, CveSummary};

fn st(x: &str) -> String {
    x.to_string()
}

fn s(x: &str) -> Json {
    Json::Str(st(x))
}

fn obj(pairs: Vec<(&str, Json)>) -> Json {
    Json::Object(pairs.into_iter().map(|(k, v)| (k.to_string(), v)).collect())
}

fn meta(name: &str, ns: &str, labels: Vec<(&str, &str)>) -> Meta {
    Meta {
        name: Some(st(name)),
        namespace: Some(st(ns)),
        labels: if labels.is_empty() { None } else { Some(labels.into_iter().map(|(a, b)| (st(a), st(b))).collect()) },
        annotations: None,
        owner_references: None,
        creation_timestamp: None,
    }
}

fn container(name: &str, image: &str) -> Container {
    Container {
        name: st(name),
        image: Some(st(image)),
        image_pull_policy: None,
        ports: None,
        resources: None,
        security_context: None,
        liveness_probe: None,
        readiness_probe: None,
        startup_probe: None,
        env_count: None,
        volume_mounts: None,
    }
}

fn spec(containers: Vec<Container>) -> PodSpec {
    PodSpec {
        node_name: None,
        host_network: None,
        host_pid: None,
        host_ipc: None,
        automount_service_account_token: None,
        service_account_name: None,
        priority_class_name: None,
        restart_policy: None,
        dns_policy: None,
        containers,
        init_containers: None,
        volumes: None,
        tolerations: None,
    }
}

fn status(phase: Option<&str>, sts: Vec<ContainerStatus>) -> PodStatus {
    PodStatus {
        phase: phase.map(st),
        pod_ip: None,
        first_pod_ip: None,
        host_ip: None,
        qos_class: None,
        start_time: None,
        conditions: None,
        container_statuses: if sts.is_empty() { None } else { Some(sts) },
        init_container_statuses: None,
    }
}

fn cstatus(name: &str, restarts: i32) -> ContainerStatus {
    ContainerStatus {
        name: st(name),
        ready: true,
        restart_count: restarts,
        image_id: st(""),
        state: Some(ContainerState { running: true, waiting: None, terminated: None }),
    }
}

fn pod(name: &str, phase: Option<&str>, sts: Vec<ContainerStatus>) -> Pod {
    Pod { metadata: meta(name, "prod", vec![]), spec: Some(spec(vec![container("app", "nginx:1.25")])), status: Some(status(phase, sts)) }
}

fn cond(t: &str, v: &str) -> Condition {
    Condition { type_: st(t), status: st(v), reason: None, message: None, last_transition_time: None }
}

fn node(name: &str, conds: Vec<Condition>) -> Node {
    Node {
        metadata: meta(name, "", vec![]),
        unschedulable: None,
        conditions: Some(conds),
        capacity: None,
        allocatable: None,
        addresses: None,
        node_info: None,
    }
}

#[test]
fn cluster_health_weighs_every_part() {
    let sec = SecuritySummary { critical: 1, high: 0, medium: 2, low: 0, total_resources_scanned: 3, score: 70 };
    let nodes = vec![
        node("n1", vec![cond("Ready", "True")]),
        node("n2", vec![cond("Ready", "False"), cond("MemoryPressure", "True")]),
    ];
    let resource = ResourcePressure {
        score: 100,
        component: HealthComponent { name: st("Resource Usage"), score: 100, status: st("healthy"), details: vec![st("ok")] },
        recommendations: vec![],
    };
    let pods = vec![pod("p1", Some("Running"), vec![]), pod("p2", Some("Pending"), vec![]), pod("p3", Some("Running"), vec![cstatus("app", 7)])];
    let flags = vec![(true, true), (false, true), (true, false)];
    let h = cluster_health(Some(&sec), Some(&nodes), resource, Some(&pods), Some(&flags), st("prod"));
    let names: Vec<&str> = h.components.iter().map(|c| c.name.as_str()).collect();
    assert_eq!(names, vec!["Security", "Node Health", "Resource Usage", "Pod Health", "Configuration"]);
    assert_eq!(h.components[0].status, "warning");
    assert_eq!(h.components[0].details, vec![st("1 critical findings"), st("2 medium findings")]);
    assert_eq!(h.components[1].score, 50);
    assert_eq!(h.components[1].details, vec![st("Node n2 is not ready"), st("Node n2 has MemoryPressure")]);
    assert_eq!(h.components[3].score, 61);
    assert_eq!(h.components[3].details, vec![st("Pod p2 is Pending"), st("p3/app has 7 restarts")]);
    assert_eq!(h.components[4].score, 66);
    assert_eq!(h.components[4].details, vec![st("1 pods without resource requests"), st("1 pods without resource limits")]);
    assert_eq!(h.overall_score, 66);
    assert_eq!(h.overall_status, "warning");
    assert_eq!(h.pod_count, 3);
    assert_eq!(h.node_count, 2);
    assert_eq!(h.namespace, "prod");
    let titles: Vec<&str> = h.recommendations.iter().map(|r| r.title.as_str()).collect();
    assert_eq!(
        titles,
        vec![
            "Fix critical security findings",
            "1 node(s) not ready",
            "1 pod(s) not running",
            "1 container(s) with high restart counts",
            "1 pods missing resource requests",
        ]
    );
}

#[test]
fn cluster_health_without_inputs_assumes_half_marks() {
    let resource = ResourcePressure {
        score: 50,
        component: HealthComponent { name: st("Resource Usage"), score: 50, status: st("warning"), details: vec![] },
        recommendations: vec![],
    };
    let h = cluster_health(None, None, resource, None, None, st("_all"));
    assert_eq!(h.components.len(), 2);
    assert_eq!(h.components[0].details, vec![st("Unable to run security scan")]);
    assert_eq!(h.overall_score, 50);
    assert_eq!(h.overall_status, "warning");
    assert!(h.recommendations.is_empty());
}

fn event(ty: &str, reason: &str, msg: &str, name: &str, at: &str) -> Json {
    obj(vec![
        ("type", s(ty)),
        ("reason", s(reason)),
        ("message", s(msg)),
        ("involvedObject", obj(vec![("kind", s("Pod")), ("name", s(name))])),
        ("lastTimestamp", s(at)),
    ])
}

#[test]
fn cluster_overview_counts_workloads_and_recent_warnings() {
    let w = WorkloadLists {
        pods: vec![pod("a", Some("Running"), vec![]), pod("b", Some("Pending"), vec![]), pod("c", Some("Succeeded"), vec![]), pod("d", None, vec![])],
        deployments: vec![ReplicaCounts { desired: Some(2), ready: Some(2) }, ReplicaCounts { desired: None, ready: None }],
        stateful_sets: vec![],
        daemon_sets: vec![Some((3, 2)), None],
        replica_sets: vec![ReplicaCounts { desired: Some(0), ready: None }, ReplicaCounts { desired: Some(2), ready: Some(2) }],
        jobs: vec![(Some(1), None), (None, Some(1))],
        cron_jobs: vec![Some(true), None],
        services: 4,
        ingresses: 1,
    };
    let long = "x".repeat(130);
    let events = obj(vec![(
        "items",
        Json::Array(vec![
            event("Warning", "BackOff", "old", "a", "2024-01-01T00:00:00Z"),
            event("Normal", "Pulled", "fine", "b", "2024-01-02T00:00:00Z"),
            event("Warning", "Failed", &long, "c", "2024-01-03T00:00:00Z"),
        ]),
    )]);
    let r = cluster_overview(3, &w, &Some(events));
    assert_eq!(r.namespace_count, 3);
    let counts: Vec<(&str, usize, usize, usize)> = r.workloads.iter().map(|c| (c.kind.as_str(), c.total, c.ready, c.not_ready)).collect();
    assert_eq!(
        counts,
        vec![
            ("Pods", 4, 1, 2),
            ("Deployments", 2, 1, 1),
            ("StatefulSets", 0, 0, 0),
            ("DaemonSets", 2, 1, 1),
            ("ReplicaSets", 1, 1, 0),
            ("Jobs", 2, 1, 1),
            ("CronJobs", 2, 1, 1),
            ("Services", 4, 4, 0),
            ("Ingresses", 1, 1, 0),
        ]
    );
    let ps = &r.pod_status;
    assert_eq!((ps.running, ps.pending, ps.succeeded, ps.failed, ps.unknown, ps.total), (1, 1, 1, 0, 1, 4));
    assert_eq!(r.recent_warnings.len(), 2);
    assert_eq!(r.recent_warnings[0].reason, "Failed");
    assert_eq!(r.recent_warnings[0].object, "Pod/c");
    assert_eq!(r.recent_warnings[0].message, format!("{}...", "x".repeat(120)));
    assert_eq!(r.recent_warnings[1].message, "old");
    assert_eq!(r.recent_warnings[1].last_seen, "2024-01-01T00:00:00Z");
    let none = cluster_overview(0, &w, &None);
    assert!(none.recent_warnings.is_empty());
}

#[test]
fn messages_are_cut_at_a_byte_limit() {
    assert_eq!(shorten("abcdef", 3), "abc...");
    assert_eq!(shorten("abc", 3), "abc");
    assert_eq!(short_message_exec("short"), "short");
}

fn hpa_item() -> Json {
    obj(vec![
        ("metadata", obj(vec![("name", s("web")), ("namespace", s("prod")), ("creationTimestamp", s("2024-01-01T00:00:00Z"))])),
        (
            "spec",
            obj(vec![
                ("scaleTargetRef", obj(vec![("kind", s("Deployment")), ("name", s("web"))])),
                ("minReplicas", Json::Int(2)),
                ("maxReplicas", Json::Int(10)),
                (
                    "metrics",
                    Json::Array(vec![obj(vec![
                        ("type", s("Resource")),
                        ("resource", obj(vec![("name", s("cpu")), ("target", obj(vec![("averageUtilization", Json::Int(70))]))])),
                    ])]),
                ),
            ]),
        ),
        (
            "status",
            obj(vec![
                ("currentReplicas", Json::Int(3)),
                ("desiredReplicas", Json::Int(4)),
                (
                    "currentMetrics",
                    Json::Array(vec![
                        obj(vec![
                            ("type", s("Resource")),
                            (
                                "resource",
                                obj(vec![
                                    ("name", s("cpu")),
                                    ("current", obj(vec![("averageUtilization", Json::Int(55)), ("averageValue", s("250m"))])),
                                ]),
                            ),
                        ]),
                        obj(vec![
                            ("type", s("Pods")),
                            ("pods", obj(vec![("metric", obj(vec![("name", s("rps"))])), ("current", obj(vec![("averageValue", s("10"))]))])),
                        ]),
                        obj(vec![("type", s("External"))]),
                    ]),
                ),
                (
                    "conditions",
                    Json::Array(vec![obj(vec![("type", s("AbleToScale")), ("status", s("True")), ("reason", s("ReadyForNewScale"))])]),
                ),
                ("lastScaleTime", s("2024-01-01T01:00:00Z")),
            ]),
        ),
    ])
}

#[test]
fn hpa_reports_replicas_metrics_and_conditions() {
    let h = hpa_info(&hpa_item(), 1_704_067_200 + 3_700);
    assert_eq!(h.name, "web");
    assert_eq!(h.target_kind, "Deployment");
    assert_eq!((h.min_replicas, h.max_replicas, h.current_replicas, h.desired_replicas), (2, 10, 3, 4));
    assert_eq!(h.metrics.len(), 3);
    assert_eq!(h.metrics[0].metric_name, "cpu");
    assert_eq!(h.metrics[0].current_value, "55%");
    assert_eq!(h.metrics[0].target_value, "70%");
    assert_eq!(h.metrics[0].current_average, Some(st("250m")));
    assert_eq!(h.metrics[1].metric_name, "rps");
    assert_eq!(h.metrics[1].current_value, "10");
    assert_eq!(h.metrics[1].target_value, "-");
    assert_eq!(h.metrics[2].metric_name, "unknown");
    assert_eq!(h.conditions[0].reason, "ReadyForNewScale");
    assert_eq!(h.conditions[0].message, "");
    assert_eq!(h.last_scale_time, Some(st("2024-01-01T01:00:00Z")));
    assert_eq!(h.age, "1h1m");
    let bare = hpa_info(&obj(vec![]), 0);
    assert_eq!((bare.min_replicas, bare.max_replicas, bare.current_replicas), (1, 1, 0));
    assert_eq!(bare.age, "?");
}

#[test]
fn vpa_reports_recommendations_with_defaults() {
    let item = obj(vec![
        ("metadata", obj(vec![("name", s("web-vpa"))])),
        ("spec", obj(vec![("targetRef", obj(vec![("kind", s("Deployment")), ("name", s("web"))]))])),
        (
            "status",
            obj(vec![(
                "recommendation",
                obj(vec![(
                    "containerRecommendations",
                    Json::Array(vec![obj(vec![("containerName", s("app")), ("target", obj(vec![("cpu", s("100m")), ("memory", s("128Mi"))]))])]),
                )]),
            )]),
        ),
    ]);
    let v = vpa_info(&item, 0);
    assert_eq!(v.update_mode, "Auto");
    assert_eq!(v.recommendations.len(), 1);
    assert_eq!(v.recommendations[0].target_cpu, "100m");
    assert_eq!(v.recommendations[0].lower_cpu, "-");
    let all = autoscalers_at(&Some(obj(vec![("items", Json::Array(vec![hpa_item()]))])), &None, 0);
    assert_eq!(all.hpas.len(), 1);
    assert!(all.vpas.is_empty());
    let now = get_autoscalers(&None, &Some(obj(vec![("items", Json::Array(vec![item]))])));
    assert!(now.hpas.is_empty());
    assert_eq!(now.vpas[0].name, "web-vpa");
}

fn described_pod() -> Pod {
    let mut c = container("app", "nginx:1.25");
    c.ports = Some(vec![Port { container_port: 8080, protocol: None, name: Some(st("http")) }]);
    c.resources = Some(Resources { requests: Some(vec![(st("cpu"), st("100m"))]), limits: Some(vec![(st("memory"), st("256Mi"))]) });
    c.liveness_probe = Some(Probe {
        action: ProbeAction::HttpGet { scheme: None, port: IntOrString::Int(8080), path: Some(st("/healthz")) },
        initial_delay_seconds: Some(5),
        period_seconds: None,
        timeout_seconds: None,
    });
    c.readiness_probe = Some(Probe {
        action: ProbeAction::TcpSocket { port: IntOrString::Str(st("http")) },
        initial_delay_seconds: None,
        period_seconds: None,
        timeout_seconds: None,
    });
    c.volume_mounts = Some(vec![VolumeMount { name: st("data"), mount_path: st("/data"), read_only: Some(true) }]);
    c.env_count = Some(3);
    let mut init = container("init", "busybox:1.36");
    init.liveness_probe = c.readiness_probe.as_ref().map(|_| Probe {
        action: ProbeAction::Exec { command: Some(vec![st("cat"), st("/tmp/ok")]) },
        initial_delay_seconds: None,
        period_seconds: None,
        timeout_seconds: None,
    });
    let mut sp = spec(vec![c]);
    sp.node_name = Some(st("node-1"));
    sp.init_containers = Some(vec![init]);
    sp.volumes = Some(vec![
        Volume { name: st("cfg"), source: VolumeSource::ConfigMap { name: st("app-config") } },
        Volume { name: st("tok"), source: VolumeSource::Secret { secret_name: None } },
        Volume { name: st("proj"), source: VolumeSource::Projected { source_count: Some(3) } },
    ]);
    sp.tolerations = Some(vec![
        Toleration { key: Some(st("node.kubernetes.io/not-ready")), operator: Some(st("Exists")), value: None, effect: Some(st("NoExecute")) },
        Toleration { key: Some(st("dedicated")), operator: None, value: Some(st("gpu")), effect: None },
    ]);
    let mut stt = status(Some("Running"), vec![cstatus("app", 2)]);
    stt.pod_ip = Some(st("10.1.1.1"));
    stt.start_time = Some(0);
    stt.conditions = Some(vec![cond("Ready", "True")]);
    stt.init_container_statuses = Some(vec![ContainerStatus {
        name: st("init"),
        ready: false,
        restart_count: 0,
        image_id: st(""),
        state: Some(ContainerState { running: false, waiting: None, terminated: Some(Some(st("Completed"))) }),
    }]);
    let mut m = meta("web-1", "prod", vec![("app", "web")]);
    m.annotations = Some(vec![(st("note"), "y".repeat(250))]);
    Pod { metadata: m, spec: Some(sp), status: Some(stt) }
}

#[test]
fn describe_pod_renders_containers_volumes_and_tolerations() {
    let r = describe_pod(&described_pod(), st("web-1"), st("prod"));
    assert_eq!(r.kind, "Pod");
    assert_eq!(r.labels, vec![(st("app"), st("web"))]);
    assert_eq!(r.annotations[0].1, format!("{}...", "y".repeat(200)));
    assert_eq!(r.creation_timestamp, "");
    let d = r.pod.unwrap();
    assert_eq!(d.node, "node-1");
    assert_eq!(d.phase, "Running");
    assert_eq!(d.pod_ip, "10.1.1.1");
    assert_eq!(d.host_ip, "-");
    assert_eq!(d.qos_class, "Unknown");
    assert_eq!(d.start_time, "1970-01-01 00:00:00 UTC");
    assert_eq!(d.conditions[0].condition_type, "Ready");
    assert_eq!(d.conditions[0].last_transition, "");
    let c = &d.containers[0];
    assert_eq!(c.state, "Running");
    assert_eq!(c.restart_count, 2);
    assert_eq!(c.ports, vec![st("8080/TCP (http)")]);
    assert_eq!((c.cpu_request.as_str(), c.cpu_limit.as_str(), c.memory_request.as_str(), c.memory_limit.as_str()), ("100m", "-", "-", "256Mi"));
    assert_eq!(c.liveness_probe, "http-get http:8080/healthz delay=5s period=10s timeout=1s");
    assert_eq!(c.readiness_probe, "tcp-socket :http delay=0s period=10s timeout=1s");
    assert_eq!(c.startup_probe, "-");
    assert_eq!(c.mounts, vec![st("data -> /data (ro)")]);
    assert_eq!(c.env_count, 3);
    let i = &d.init_containers[0];
    assert_eq!(i.state, "Terminated: Completed");
    assert_eq!(i.liveness_probe, "-");
    assert!(i.ports.is_empty());
    let vols: Vec<(&str, &str, &str)> = d.volumes.iter().map(|v| (v.name.as_str(), v.volume_type.as_str(), v.details.as_str())).collect();
    assert_eq!(vols, vec![("cfg", "ConfigMap", "app-config"), ("tok", "Secret", ""), ("proj", "Projected", "3 sources")]);
    assert_eq!(d.tolerations, vec![st("node.kubernetes.io/not-ready op=Exists effect=NoExecute"), st("dedicated=gpu effect=*")]);
    assert_eq!(d.service_account, "-");
}

#[test]
fn describe_container_shows_exec_probes() {
    let mut c = container("app", "x");
    c.liveness_probe = Some(Probe {
        action: ProbeAction::Exec { command: Some(vec![st("cat"), st("/tmp/ok")]) },
        initial_delay_seconds: None,
        period_seconds: Some(30),
        timeout_seconds: Some(2),
    });
    let d = describe_container(&c, &vec![], false);
    assert_eq!(d.liveness_probe, "exec [cat /tmp/ok] delay=0s period=30s timeout=2s");
    assert_eq!(d.state, "Unknown");
    assert!(!d.ready);
    assert_eq!(copy_pairs(&Some(vec![(st("a"), st("b"))])), vec![(st("a"), st("b"))]);
    assert!(copy_pairs(&None).is_empty());
}

#[test]
fn describe_other_reads_metadata_maps() {
    let doc = obj(vec![(
        "metadata",
        obj(vec![
            ("labels", obj(vec![("app", s("web")), ("n", Json::Int(1))])),
            ("creationTimestamp", s("2024-01-01T00:00:00Z")),
        ]),
    )]);
    let r = describe_other(st("ConfigMap"), st("cfg"), st("prod"), &doc);
    assert_eq!(r.kind, "ConfigMap");
    assert_eq!(r.labels[0], (st("app"), st("web")));
    assert_eq!(r.labels.len(), 2);
    assert!(r.annotations.is_empty());
    assert_eq!(r.creation_timestamp, "2024-01-01T00:00:00Z");
    assert!(r.pod.is_none());
}

fn rule(groups: Vec<&str>, resources: Vec<&str>, verbs: Vec<&str>) -> PolicyRule {
    PolicyRule {
        api_groups: Some(groups.into_iter().map(st).collect()),
        resources: Some(resources.into_iter().map(st).collect()),
        verbs: verbs.into_iter().map(st).collect(),
        resource_names: None,
    }
}

#[test]
fn sensitive_and_escalating_rules_are_found() {
    let role = resolve_role(
        &RoleObject {
            name: Some(st("reader")),
            namespace: Some(st("prod")),
            rules: Some(vec![rule(vec![""], vec!["secrets"], vec!["get", "list"]), rule(vec!["rbac.authorization.k8s.io"], vec!["roles"], vec!["escalate"])]),
        },
        false,
    );
    assert_eq!(role.name, "reader");
    assert_eq!(role.rules.len(), 2);
    let mut findings: Vec<RbacAuditFinding> = Vec::new();
    analyze_role_rules(&role, "rb1", "RoleBinding", &vec![st("User:bob")], &Some(st("prod")), &mut findings);
    assert_eq!(findings.len(), 2);
    assert_eq!(findings[0].severity, "high");
    assert_eq!(findings[0].title, "Access to sensitive resource: secrets");
    assert_eq!(findings[0].description, "Role 'reader' grants [get, list] on 'secrets'. Binding: 'rb1'");
    assert_eq!(findings[0].namespace, Some(st("prod")));
    assert_eq!(findings[1].severity, "critical");
    assert_eq!(findings[1].title, "Privilege escalation verbs on RBAC resources");
}

#[test]
fn full_wildcard_cluster_role_scores_zero() {
    let crs = vec![RoleObject { name: Some(st("all")), namespace: None, rules: Some(vec![rule(vec!["*"], vec!["*"], vec!["*"])]) }];
    let crbs = vec![BindingObject {
        name: Some(st("crb-all")),
        namespace: None,
        role_kind: st("ClusterRole"),
        role_name: st("all"),
        subjects: Some(vec![SubjectRef { kind: st("User"), name: st("alice"), namespace: None }]),
    }];
    let r = audit_rbac(&crs, &crbs, &vec![], &vec![]).unwrap();
    assert_eq!(r.findings.len(), 1);
    assert_eq!(r.findings[0].severity, "critical");
    assert_eq!(r.findings[0].title, "Full wildcard permissions (*.*.*)");
    assert_eq!(r.findings[0].subjects, vec![st("User:alice")]);
    assert_eq!(r.summary.critical, 1);
    assert_eq!(r.summary.total_roles_scanned, 1);
    assert_eq!(r.summary.total_bindings_scanned, 1);
    assert_eq!(r.summary.score, 0);
    let clean = audit_rbac(&vec![], &vec![], &vec![], &vec![]).unwrap();
    assert!(clean.findings.is_empty());
    assert_eq!(clean.summary.score, 100);
}

#[test]
fn default_service_account_bindings_are_flagged() {
    let crbs = vec![BindingObject {
        name: Some(st("sa-view")),
        namespace: None,
        role_kind: st("ClusterRole"),
        role_name: st("view"),
        subjects: Some(vec![SubjectRef { kind: st("ServiceAccount"), name: st("default"), namespace: Some(st("apps")) }]),
    }];
    let r = audit_rbac(&vec![], &crbs, &vec![], &vec![]).unwrap();
    assert_eq!(r.findings.len(), 1);
    assert_eq!(r.findings[0].severity, "high");
    assert_eq!(r.findings[0].title, "Default ServiceAccount bound to ClusterRole");
}

fn labeled_pod(name: &str, ns: &str, app: &str) -> Pod {
    Pod { metadata: meta(name, ns, vec![("app", app)]), spec: None, status: None }
}

#[test]
fn network_policy_graph_links_peers_to_selected_pods() {
    let pods = vec![labeled_pod("web-1", "prod", "web"), labeled_pod("db-1", "prod", "db"), labeled_pod("other", "dev", "web")];
    let np = NetworkPolicy {
        name: Some(st("allow-web")),
        namespace: Some(st("prod")),
        spec: Some(PolicySpec {
            pod_selector_labels: Some(vec![(st("app"), st("web"))]),
            policy_types: Some(vec![st("Ingress")]),
            ingress: Some(vec![PolicyRuleDef {
                ports: Some(vec![PolicyPort { protocol: None, port: Some(IntOrString::Int(80)) }]),
                peers: Some(vec![
                    PolicyPeer { pod_selector: Some(Some(vec![(st("role"), st("frontend"))])), namespace_selector: None, ip_block_cidr: None },
                    PolicyPeer { pod_selector: None, namespace_selector: None, ip_block_cidr: Some(st("10.0.0.0/8")) },
                ]),
            }]),
            egress: Some(vec![PolicyRuleDef { ports: None, peers: None }]),
        }),
    };
    let g = network_policy_graph(&pods, &vec![np]);
    assert_eq!(g.total_policies, 1);
    let p = &g.policies[0];
    assert_eq!(p.pod_selector, "app=web");
    assert_eq!(p.matched_pods, vec![st("web-1")]);
    let rules: Vec<(&str, &str, &str)> = p.rules.iter().map(|r| (r.direction.as_str(), r.peer_kind.as_str(), r.peer_label.as_str())).collect();
    assert_eq!(rules, vec![("ingress", "pod", "role=frontend"), ("ingress", "external", "10.0.0.0/8"), ("egress", "all", "all destinations")]);
    assert_eq!(p.rules[0].ports, vec![st("80/TCP")]);
    let ids: Vec<&str> = g.nodes.iter().map(|n| n.id.as_str()).collect();
    assert_eq!(ids, vec!["prod/web-1", "prod/db-1", "dev/other", "selector:prod/role=frontend", "cidr:10.0.0.0/8"]);
    assert!(g.nodes[0].has_netpol);
    assert!(!g.nodes[1].has_netpol);
    let edges: Vec<(&str, &str, &str)> = g.edges.iter().map(|e| (e.from_id.as_str(), e.to_id.as_str(), e.direction.as_str())).collect();
    assert_eq!(edges, vec![("selector:prod/role=frontend", "prod/web-1", "ingress"), ("cidr:10.0.0.0/8", "prod/web-1", "ingress")]);
    assert_eq!(g.unprotected_pods, vec![st("prod/db-1"), st("dev/other")]);
}

#[test]
fn peers_are_named_by_their_selector() {
    let ns_peer = PolicyPeer { pod_selector: None, namespace_selector: Some(Some(vec![(st("team"), st("a"))])), ip_block_cidr: None };
    assert_eq!(parse_peer(&ns_peer, "prod"), (st("namespace"), st("team=a"), st("ns:team=a")));
    let any_ns = PolicyPeer { pod_selector: None, namespace_selector: Some(None), ip_block_cidr: None };
    assert_eq!(parse_peer(&any_ns, "prod"), (st("namespace"), st("all namespaces"), st("ns:all namespaces")));
    let all_pods = PolicyPeer {
        pod_selector: Some(None),
        namespace_selector: Some(Some(vec![(st("kubernetes.io/metadata.name"), st("dev"))])),
        ip_block_cidr: None,
    };
    assert_eq!(parse_peer(&all_pods, "prod"), (st("pod"), st("all pods"), st("selector:dev/all pods")));
    let none = PolicyPeer { pod_selector: None, namespace_selector: None, ip_block_cidr: None };
    assert_eq!(parse_peer(&none, "prod"), (st("all"), st("all"), st("all")));
}

fn scan_pods() -> Vec<Pod> {
    let a = Pod { metadata: meta("a", "prod", vec![]), spec: Some(spec(vec![container("web", "nginx:latest")])), status: None };
    let mut sp = spec(vec![container("web", "nginx:latest")]);
    sp.init_containers = Some(vec![container("setup", "busybox:1.36")]);
    let b = Pod { metadata: meta("b", "prod", vec![]), spec: Some(sp), status: None };
    vec![a, b]
}

#[test]
fn images_are_collected_once_per_reference() {
    let (infos, uniques) = collect_images(&scan_pods());
    assert_eq!(infos.len(), 3);
    assert_eq!(infos[2].container_name, "setup (init)");
    assert_eq!(infos[2].pull_policy, "IfNotPresent");
    assert_eq!(infos[2].repository, "library/busybox");
    assert_eq!(uniques.len(), 2);
    assert_eq!(uniques[0].image, "nginx:latest");
    assert_eq!(uniques[0].used_by, vec![st("web")]);
    assert_eq!(uniques[0].pod_count, 2);
    assert_eq!(uniques[1].used_by, vec![st("setup (init)")]);
}

#[test]
fn scan_results_are_scored_and_sorted_by_risk() {
    let (infos, mut uniques) = collect_images(&scan_pods());
    let summary = CveSummary { critical: 1, high: 2, medium: 0, low: 0, unknown: 0, total: 3, top_cves: vec![] };
    record_scan(&mut uniques[0], Ok(summary));
    record_scan(&mut uniques[1], Err(st("trivy: timeout")));
    assert!(uniques[0].trivy_scanned);
    assert!(!uniques[1].trivy_scanned);
    assert_eq!(uniques[1].trivy_error, Some(st("trivy: timeout")));
    let swapped: Vec<_> = uniques.into_iter().rev().collect();
    let r = finish_scan("web", "Deployment", "prod", infos, swapped, true).unwrap();
    assert_eq!(r.total_images, 3);
    assert_eq!(r.unique_images, 2);
    assert_eq!((r.critical_count, r.high_count, r.medium_count, r.low_count), (1, 2, 0, 0));
    assert_eq!(r.total_findings, 3);
    assert_eq!(r.images[0].image, "nginx:latest");
    assert_eq!(r.images[0].risk_score, 45);
    assert_eq!(r.images[1].risk_score, 0);
    assert_eq!(r.overall_risk, 45);
    assert!(r.trivy_available);
}

#[test]
fn scanner_reports_are_summarised_by_severity() {
    let report = obj(vec![(
        "Results",
        Json::Array(vec![
            obj(vec![(
                "Vulnerabilities",
                Json::Array(vec![
                    obj(vec![
                        ("VulnerabilityID", s("CVE-1")),
                        ("Severity", s("high")),
                        ("PkgName", s("openssl")),
                        ("InstalledVersion", s("1.0")),
                        ("FixedVersion", s("1.1")),
                        ("Title", s("bad")),
                    ]),
                    obj(vec![("VulnerabilityID", s("CVE-2")), ("Severity", s("CRITICAL")), ("Description", s("worse"))]),
                ]),
            )]),
            obj(vec![("Target", s("x"))]),
            obj(vec![("Vulnerabilities", Json::Array(vec![obj(vec![("VulnerabilityID", s("CVE-3")), ("Severity", s("weird"))])]))]),
        ]),
    )]);
    let sm = summarize_report(&report);
    assert_eq!((sm.critical, sm.high, sm.medium, sm.low, sm.unknown, sm.total), (1, 1, 0, 0, 1, 3));
    let ids: Vec<&str> = sm.top_cves.iter().map(|c| c.id.as_str()).collect();
    assert_eq!(ids, vec!["CVE-2", "CVE-1", "CVE-3"]);
    assert_eq!(sm.top_cves[0].severity, "critical");
    assert_eq!(sm.top_cves[0].title, "worse");
    assert_eq!(sm.top_cves[0].fixed_version, "");
    assert_eq!(sm.top_cves[1].pkg_name, "openssl");
    assert_eq!(parse_trivy_json(Err(st("eof"))).unwrap_err(), "Failed to parse trivy JSON: eof");
    assert_eq!(parse_trivy_json(Ok(obj(vec![]))).unwrap().total, 0);
}

#[test]
fn parsed_scanner_report_lists_top_cves_most_severe_first() {
    let report = obj(vec![(
        "Results",
        Json::Array(vec![obj(vec![(
            "Vulnerabilities",
            Json::Array(vec![
                obj(vec![("VulnerabilityID", s("CVE-1")), ("Severity", s("LOW")), ("PkgName", s("a"))]),
                obj(vec![("VulnerabilityID", s("CVE-2")), ("Severity", s("critical")), ("PkgName", s("b"))]),
            ]),
        )])]),
    )]);
    let sm = parse_trivy_json(Ok(report)).unwrap();
    assert_eq!((sm.critical, sm.high, sm.medium, sm.low, sm.unknown, sm.total), (1, 0, 0, 1, 0, 2));
    let top: Vec<(&str, &str, &str)> = sm.top_cves.iter().map(|c| (c.id.as_str(), c.severity.as_str(), c.pkg_name.as_str())).collect();
    assert_eq!(top, vec![("CVE-2", "critical", "b"), ("CVE-1", "low", "a")]);
}
