use r3x::json::Json;
use r3x::model::{Meta, OwnerRef, Pod, PodSpec, Container, PodStatus};
use r3x::topology::{owner_key, workload_info, rs_info, pod_info, build_pod_nodes, build_topology, PodInfo};
use r3x::traffic::{get_workload_selector_sync, traffic_pod, group_by_node, add_node_counters, pod_deltas, age_of_pod, TrafficPod, PodCounters};
use r3x::cronjob::{job_run, cronjob_detail, manual_job_name, JobInfo, CronJobInfo};

fn st(x: &str) -> String {
    x.to_string()
}

fn obj(pairs: Vec<(&str, Json)>) -> Json {
    Json::Object(pairs.into_iter().map(|(k, v)| (k.to_string(), v)).collect())
}

fn meta(name: &str, ns: Option<&str>, owner: Option<(&str, &str)>) -> Meta {
    Meta {
        name: Some(st(name)),
        namespace: ns.map(st),
        labels: None,
        annotations: None,
        owner_references: owner.map(|(k, n)| vec![OwnerRef { kind: st(k), name: st(n) }]),
        creation_timestamp: None,
    }
}

fn container(name: &str) -> Container {
    Container {
        name: st(name),
        image: None,
        image_pull_policy: None,
        ports: None,
        resources: None,
        security_context: None,
        liveness_probe: None,
        readiness_probe: None,
        startup_probe: None,
        env_count: None,
        volume_mounts: None,
    }
}

fn spec(node: Option<&str>, containers: Vec<Container>) -> PodSpec {
    PodSpec {
        node_name: node.map(st),
        host_network: None,
        host_pid: None,
        host_ipc: None,
        automount_service_account_token: None,
        service_account_name: None,
        priority_class_name: None,
        restart_policy: None,
        dns_policy: None,
        containers,
        init_containers: None,
        volumes: None,
        tolerations: None,
    }
}

fn phase(p: &str) -> PodStatus {
    PodStatus {
        phase: Some(st(p)),
        pod_ip: None,
        first_pod_ip: None,
        host_ip: None,
        qos_class: None,
        start_time: None,
        conditions: None,
        container_statuses: None,
        init_container_statuses: None,
    }
}

fn pod(name: &str, ns: &str, owner: Option<(&str, &str)>, containers: Vec<&str>, p: Option<&str>) -> Pod {
    Pod {
        metadata: meta(name, Some(ns), owner),
        spec: Some(spec(None, containers.into_iter().map(container).collect())),
        status: p.map(phase),
    }
}

#[test]
fn owner_key_uses_default_namespace_when_unset() {
    assert_eq!(owner_key(&meta("web-abc", None, Some(("Deployment", "web")))), Some(st("Deployment/default/web")));
    assert_eq!(owner_key(&meta("web-abc", Some("prod"), Some(("Deployment", "web")))), Some(st("Deployment/prod/web")));
    assert_eq!(owner_key(&meta("lonely", Some("prod"), None)), None);
}

#[test]
fn pod_info_lists_containers_and_defaults_phase() {
    let p = pod_info(&pod("a", "ns", None, vec!["app", "sidecar"], None));
    assert_eq!(p.status, "Unknown");
    assert_eq!(p.containers, vec![st("app"), st("sidecar")]);
    assert_eq!(p.owner_key, None);
    let w = workload_info(&meta("web", Some("prod"), None), 2, 3);
    assert_eq!(w.status, "2/3");
}

#[test]
fn owned_pod_nodes_carry_pod_qualified_container_ids() {
    let pods = vec![pod_info(&pod("web-1", "prod", Some(("ReplicaSet", "web-abc")), vec!["app"], Some("Running")))];
    let nodes = build_pod_nodes(pods);
    assert_eq!(nodes.len(), 1);
    assert_eq!(nodes[0].id, "Pod/prod/web-1");
    assert_eq!(nodes[0].status, Some(st("Running")));
    assert_eq!(nodes[0].children[0].id, "Container/web-1/app");
    assert_eq!(nodes[0].children[0].kind, "Container");
    assert_eq!(nodes[0].children[0].status, None);
}

#[test]
fn topology_nests_deployments_replica_sets_pods_and_containers() {
    let deps = vec![workload_info(&meta("web", Some("prod"), None), 1, 1)];
    let sss = vec![workload_info(&meta("db", Some("prod"), None), 1, 1)];
    let dss = vec![];
    let rss = vec![
        rs_info(&meta("web-abc", Some("prod"), Some(("Deployment", "web"))), 1, 1),
        rs_info(&meta("old-rs", Some("prod"), None), 0, 0),
    ];
    let pods = vec![
        pod_info(&pod("web-abc-1", "prod", Some(("ReplicaSet", "web-abc")), vec!["app", "proxy"], Some("Running"))),
        pod_info(&pod("db-0", "prod", Some(("StatefulSet", "db")), vec!["postgres"], Some("Running"))),
        pod_info(&pod("lonely", "prod", None, vec!["c"], Some("Pending"))),
        pod_info(&pod("ghost", "prod", Some(("Job", "gone")), vec!["c"], Some("Succeeded"))),
    ];
    let roots = build_topology(&deps, &sss, &dss, &rss, &pods);
    assert_eq!(roots.len(), 4);
    assert_eq!(roots[0].id, "Deployment/prod/web");
    assert_eq!(roots[0].status, Some(st("1/1")));
    assert_eq!(roots[0].children.len(), 1);
    let rs = &roots[0].children[0];
    assert_eq!(rs.id, "ReplicaSet/prod/web-abc");
    assert_eq!(rs.children.len(), 1);
    assert_eq!(rs.children[0].name, "web-abc-1");
    assert_eq!(rs.children[0].children.len(), 2);
    assert_eq!(rs.children[0].children[1].id, "Container/web-abc-1/proxy");
    assert_eq!(roots[1].id, "StatefulSet/prod/db");
    assert_eq!(roots[1].children[0].id, "Pod/prod/db-0");
    assert_eq!(roots[2].id, "ReplicaSet/prod/old-rs");
    assert_eq!(roots[2].status, Some(st("0/0")));
    assert!(roots[2].children.is_empty());
    assert_eq!(roots[3].id, "Pod/prod/lonely");
    assert_eq!(roots[3].children[0].id, "Container/c");
}

#[test]
fn a_pod_group_goes_to_the_first_owner_only() {
    let sss = vec![
        workload_info(&meta("db", Some("prod"), None), 1, 1),
        workload_info(&meta("db", Some("prod"), None), 1, 1),
    ];
    let pods = vec![pod_info(&pod("db-0", "prod", Some(("StatefulSet", "db")), vec!["x"], None))];
    let roots = build_topology(&vec![], &sss, &vec![], &vec![], &pods);
    assert_eq!(roots.len(), 2);
    assert_eq!(roots[0].children.len(), 1);
    assert_eq!(roots[1].children.len(), 0);
}

#[test]
fn workload_selector_joins_labels() {
    let labels = Some(vec![(st("app"), st("web")), (st("tier"), st("front"))]);
    assert_eq!(get_workload_selector_sync(&labels), "app=web,tier=front");
    assert_eq!(get_workload_selector_sync(&None), "");
}

fn tp(name: &str, node: &str) -> TrafficPod {
    TrafficPod { name: st(name), namespace: st("ns"), node: st(node), age: st("1m") }
}

#[test]
fn traffic_pods_are_grouped_by_node_in_first_seen_order() {
    let ps = vec![tp("a", "n2"), tp("b", "n1"), tp("c", "n2"), tp("d", "")];
    let groups = group_by_node(&ps);
    assert_eq!(groups.len(), 2);
    assert_eq!(groups[0].0, "n2");
    assert_eq!(groups[0].1, vec![(st("a"), st("ns")), (st("c"), st("ns"))]);
    assert_eq!(groups[1].0, "n1");
    assert_eq!(groups[1].1, vec![(st("b"), st("ns"))]);
}

#[test]
fn traffic_pod_describes_node_and_age() {
    let mut p = pod("a", "ns", None, vec!["c"], None);
    p.spec = Some(spec(Some("node-1"), vec![container("c")]));
    p.metadata.creation_timestamp = Some(1000);
    let t = traffic_pod(&p, 1000 + 7200 + 120);
    assert_eq!(t.node, "node-1");
    assert_eq!(t.age, "2h2m");
    p.metadata.creation_timestamp = None;
    assert_eq!(traffic_pod(&p, 5).age, "?");
}

fn pod_stats(name: &str, ns: &str, rx: u64, tx: u64) -> Json {
    obj(vec![
        ("podRef", obj(vec![("name", Json::Str(st(name))), ("namespace", Json::Str(st(ns)))])),
        ("network", obj(vec![("rxBytes", Json::UInt(rx)), ("txBytes", Json::UInt(tx))])),
    ])
}

#[test]
fn node_counters_pick_the_workload_pods_from_the_summary() {
    let summary = obj(vec![(
        "pods",
        Json::Array(vec![pod_stats("other", "ns", 1, 1), pod_stats("a", "ns", 100, 200), pod_stats("a", "other-ns", 5, 5)]),
    )]);
    let mut out: Vec<PodCounters> = Vec::new();
    add_node_counters(&mut out, &summary, "n1", &vec![(st("a"), st("ns"))]);
    assert_eq!(out.len(), 1);
    assert_eq!(out[0].pod_name, "a");
    assert_eq!(out[0].node, "n1");
    assert_eq!((out[0].rx_bytes, out[0].tx_bytes), (100, 200));
    add_node_counters(&mut out, &obj(vec![]), "n2", &vec![(st("a"), st("ns"))]);
    assert_eq!(out.len(), 1);
}

fn counters(name: &str, rx: u64, tx: u64) -> PodCounters {
    PodCounters { pod_name: st(name), namespace: st("ns"), node: st("n1"), rx_bytes: rx, tx_bytes: tx }
}

#[test]
fn deltas_between_readings_saturate_at_zero() {
    let snap1 = vec![counters("a", 100, 50), counters("b", 500, 500)];
    let snap2 = vec![counters("a", 160, 80), counters("b", 400, 600), counters("c", 10, 10)];
    let d = pod_deltas(&snap1, &snap2);
    assert_eq!(d.len(), 3);
    assert_eq!((d[0].rx_delta, d[0].tx_delta), (60, 30));
    assert_eq!((d[1].rx_delta, d[1].tx_delta), (0, 100));
    assert_eq!((d[2].rx_delta, d[2].tx_delta), (0, 0));
    assert_eq!(d[2].rx_bytes, 10);
}

#[test]
fn age_of_pod_looks_up_by_name() {
    let mut ps = vec![tp("a", "n1"), tp("b", "n1")];
    ps[1].age = st("3d1h");
    assert_eq!(age_of_pod(&ps, "b"), "3d1h");
    assert_eq!(age_of_pod(&ps, "zzz"), "");
}

fn job(name: &str, owner: Option<&str>, start: Option<i64>, end: Option<i64>, active: Option<i32>, ok: Option<i32>, failed: Option<i32>) -> JobInfo {
    JobInfo {
        name: Some(st(name)),
        namespace: Some(st("batch")),
        owner_references: owner.map(|o| vec![OwnerRef { kind: st("CronJob"), name: st(o) }]),
        creation_timestamp: Some(0),
        start_time: start,
        completion_time: end,
        active,
        succeeded: ok,
        failed,
        completions: None,
        parallelism: None,
    }
}

#[test]
fn job_runs_report_status_duration_and_completions() {
    let done = job_run(&job("j1", Some("nightly"), Some(1_700_000_000), Some(1_700_000_090), None, Some(1), None), 3600);
    assert_eq!(done.status, "Succeeded");
    assert_eq!(done.start_time, Some(st("2023-11-14T22:13:20+00:00")));
    assert_eq!(done.duration_secs, Some(90));
    assert_eq!(done.completions, "1/1");
    assert_eq!(done.parallelism, 1);
    assert_eq!(done.age, "1h0m");
    let running = job_run(&job("j2", None, Some(10), None, Some(1), None, None), 60);
    assert_eq!(running.status, "Running");
    assert_eq!(running.duration_secs, None);
    let failed = job_run(&job("j3", None, None, None, None, Some(0), Some(2)), 60);
    assert_eq!(failed.status, "Failed");
    let unknown = job_run(&job("j4", None, None, None, None, None, None), 60);
    assert_eq!(unknown.status, "Unknown");
    assert_eq!(unknown.completions, "0/1");
}

#[test]
fn cronjob_detail_lists_its_own_jobs_latest_first() {
    let cj = CronJobInfo {
        name: st("nightly"),
        namespace: st("batch"),
        schedule: Some(st("0 2 * * *")),
        suspend: None,
        concurrency_policy: None,
        active_jobs: Some(1),
        last_schedule_time: Some(1_700_000_000),
        last_successful_time: None,
        creation_timestamp: None,
    };
    let jobs = vec![
        job("nightly-1", Some("nightly"), Some(1_600_000_000), Some(1_600_000_010), None, Some(1), None),
        job("other-1", Some("other"), Some(1_650_000_000), None, None, None, None),
        job("nightly-2", Some("nightly"), Some(1_700_000_000), None, Some(1), None, None),
    ];
    let d = cronjob_detail(&cj, &jobs, 1_700_000_100);
    assert_eq!(d.schedule, "0 2 * * *");
    assert!(!d.suspend);
    assert_eq!(d.active_count, 1);
    assert_eq!(d.concurrency_policy, "Allow");
    assert_eq!(d.age, "?");
    assert_eq!(d.last_successful_time, None);
    assert_eq!(d.jobs.len(), 2);
    assert_eq!(d.jobs[0].name, "nightly-2");
    assert_eq!(d.jobs[1].name, "nightly-1");
}

#[test]
fn manual_job_names_carry_the_time() {
    assert_eq!(manual_job_name("nightly", 1_700_000_000), "nightly-manual-1700000000");
}
