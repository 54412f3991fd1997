use r3x::json::Json;
use r3x::crds::{crd_info, list_crds, custom_resource_status};
use r3x::watcher::{kind_to_api_info, WatcherRegistry, watcher_update, MAX_WATCHERS, IDLE_TIMEOUT_MS, DEBOUNCE_MS};
use r3x::rbac::list_rbac_bindings;
use r3x::rbac_audit::{BindingObject, SubjectRef};
use r3x::helm::{helm_list_args, helm_releases, HelmEntry};
use r3x::scale::{check_scalable, check_restartable, scale_patch, restart_patch, scaled_message, restarted_message};
use r3x::events::{k8s_event, is_warning, list_events, EventInfo};
use r3x::resources::K8sResource;

fn st(x: &str) -> String {
    x.to_string()
}

fn s(x: &str) -> Json {
    Json::Str(st(x))
}

fn obj(pairs: Vec<(&str, Json)>) -> Json {
    Json::Object(pairs.into_iter().map(|(k, v)| (k.to_string(), v)).collect())
}

fn member<'a>(j: &'a Json, key: &str) -> Option<&'a Json> {
    match j {
        Json::Object(m) => m.iter().find(|(k, _)| k == key).map(|(_, v)| v),
        _ => None,
    }
}

fn crd(name: &str, group: &str, kind: &str, versions: Vec<Json>) -> Json {
    obj(vec![
        ("metadata", obj(vec![("name", s(name))])),
        (
            "spec",
            obj(vec![
                ("group", s(group)),
                ("scope", s("Cluster")),
                ("names", obj(vec![
                    ("kind", s(kind)),
                    ("plural", s("widgets")),
                    ("shortNames", Json::Array(vec![s("wd"), Json::Int(3), s("wdg")])),
                    ("categories", Json::Array(vec![s("all")])),
                ])),
                ("versions", Json::Array(versions)),
            ]),
        ),
    ])
}

fn version(name: &str, served: bool, storage: bool) -> Json {
    obj(vec![("name", s(name)), ("served", Json::Bool(served)), ("storage", Json::Bool(storage))])
}

#[test]
fn crd_info_prefers_the_storage_version() {
    let c = crd_info(&crd("widgets.example.com", "example.com", "Widget", vec![version("v1alpha1", true, false), version("v1", true, true)])).unwrap();
    assert_eq!(c.name, "widgets.example.com");
    assert_eq!(c.group, "example.com");
    assert_eq!(c.version, "v1");
    assert_eq!(c.kind, "Widget");
    assert_eq!(c.plural, "widgets");
    assert_eq!(c.scope, "Cluster");
    assert_eq!(c.short_names, vec![st("wd"), st("wdg")]);
    assert_eq!(c.category, Some(st("all")));
    let served = crd_info(&crd("a.b", "b", "A", vec![version("v2", false, false), version("v3", true, false)])).unwrap();
    assert_eq!(served.version, "v3");
    let none = crd_info(&crd("a.b", "b", "A", vec![])).unwrap();
    assert_eq!(none.version, "v1");
    assert!(crd_info(&obj(vec![("metadata", obj(vec![("name", s("x"))]))])).is_none());
}

#[test]
fn crds_are_sorted_by_group_then_kind() {
    let items = vec![
        crd("z.b", "b.io", "Zeta", vec![]),
        crd("a.a", "a.io", "Alpha", vec![]),
        obj(vec![]),
        crd("b.b", "b.io", "Beta", vec![]),
    ];
    let listed = list_crds(&items);
    let kinds: Vec<&str> = listed.iter().map(|c| c.kind.as_str()).collect();
    assert_eq!(kinds, vec!["Alpha", "Beta", "Zeta"]);
}

#[test]
fn custom_resource_status_falls_back_through_phase_state_and_conditions() {
    let phase = obj(vec![("status", obj(vec![("phase", s("Active")), ("state", s("x"))]))]);
    assert_eq!(custom_resource_status(&phase), Some(st("Active")));
    let state = obj(vec![("status", obj(vec![("state", s("Synced"))]))]);
    assert_eq!(custom_resource_status(&state), Some(st("Synced")));
    let cond = obj(vec![(
        "status",
        obj(vec![(
            "conditions",
            Json::Array(vec![
                obj(vec![("type", s("Progressing")), ("status", s("True"))]),
                obj(vec![("type", s("Reconciled")), ("status", s("False"))]),
            ]),
        )]),
    )]);
    assert_eq!(custom_resource_status(&cond), Some(st("False")));
    assert_eq!(custom_resource_status(&obj(vec![])), None);
}

#[test]
fn watch_targets_know_groups_and_scope() {
    let d = kind_to_api_info("deployments").unwrap();
    assert_eq!(d.api_version, "apps/v1");
    assert_eq!(d.kind, "Deployment");
    assert!(!d.cluster_scoped);
    let n = kind_to_api_info("nodes").unwrap();
    assert_eq!(n.api_version, "v1");
    assert!(n.cluster_scoped);
    assert!(kind_to_api_info("widgets").is_none());
    assert_eq!(MAX_WATCHERS, 16);
    assert_eq!(IDLE_TIMEOUT_MS, 300_000);
    assert_eq!(DEBOUNCE_MS, 300);
}

#[test]
fn registry_starts_touches_and_stops_watchers() {
    let mut reg = WatcherRegistry::new();
    let o = reg.start("dev", "pods", 1000).unwrap();
    assert!(o.started);
    assert!(o.evicted.is_empty());
    let again = reg.start("dev", "pods", 2000).unwrap();
    assert!(!again.started);
    assert_eq!(reg.entries.len(), 1);
    assert_eq!(reg.entries[0].last_accessed, 2000);
    assert_eq!(reg.start("dev", "widgets", 3000).unwrap_err(), "Unsupported kind for watching: widgets");
    assert!(reg.touch("pods", 4000));
    assert!(!reg.touch("secrets", 4000));
    assert!(reg.stop("pods"));
    assert!(!reg.stop("pods"));
    assert!(reg.entries.is_empty());
}

#[test]
fn switching_context_stops_every_watcher() {
    let mut reg = WatcherRegistry::new();
    reg.start("dev", "pods", 1).unwrap();
    reg.start("dev", "secrets", 2).unwrap();
    let o = reg.start("prod", "configmaps", 3).unwrap();
    assert_eq!(o.evicted, vec![st("pods"), st("secrets")]);
    assert_eq!(reg.context, "prod");
    assert_eq!(reg.entries.len(), 1);
    assert_eq!(reg.stop_all(), 1);
    assert_eq!(reg.context, "");
}

#[test]
fn idle_watchers_are_dropped_but_default_kinds_stay() {
    let mut reg = WatcherRegistry::new();
    reg.start("dev", "pods", 0).unwrap();
    reg.start("dev", "secrets", 0).unwrap();
    let o = reg.start("dev", "jobs", IDLE_TIMEOUT_MS + 1).unwrap();
    assert_eq!(o.evicted, vec![st("secrets")]);
    let kinds: Vec<&str> = reg.entries.iter().map(|e| e.kind.as_str()).collect();
    assert_eq!(kinds, vec!["pods", "jobs"]);
}

#[test]
fn every_watchable_kind_fits_in_the_registry() {
    let keys = [
        "pods", "deployments", "services", "configmaps", "secrets", "statefulsets", "daemonsets", "replicasets",
        "jobs", "cronjobs", "ingresses", "networkpolicies", "serviceaccounts", "persistentvolumeclaims",
        "persistentvolumes", "nodes",
    ];
    let mut reg = WatcherRegistry::new();
    for (i, k) in keys.iter().enumerate() {
        let o = reg.start("dev", k, 100 + i as u64).unwrap();
        assert!(o.started);
        assert!(o.evicted.is_empty());
    }
    assert_eq!(reg.entries.len(), MAX_WATCHERS);
    let o = reg.start("dev", "configmaps", 500).unwrap();
    assert!(!o.started);
    assert_eq!(reg.entries.len(), MAX_WATCHERS);
    assert_eq!(reg.entries[3].last_accessed, 500);
}

fn resource(name: &str) -> K8sResource {
    K8sResource { name: st(name), namespace: None, kind: st("Pod"), status: None, age: None, labels: vec![], extra: Json::Null }
}

#[test]
fn watcher_updates_are_sorted_by_name() {
    let u = watcher_update(st("pods"), vec![resource("b"), resource("a"), resource("c")]);
    assert_eq!(u.kind_key, "pods");
    let names: Vec<&str> = u.resources.iter().map(|r| r.name.as_str()).collect();
    assert_eq!(names, vec!["a", "b", "c"]);
}

fn binding(name: &str, ns: Option<&str>, subjects: Option<Vec<(&str, &str)>>) -> BindingObject {
    BindingObject {
        name: Some(st(name)),
        namespace: ns.map(st),
        role_kind: st("ClusterRole"),
        role_name: st("view"),
        subjects: subjects.map(|v| v.into_iter().map(|(k, n)| SubjectRef { kind: st(k), name: st(n), namespace: None }).collect()),
    }
}

#[test]
fn bindings_of_both_kinds_are_listed_by_name() {
    let crbs = vec![binding("zeta", Some("ignored"), Some(vec![("User", "alice")]))];
    let rbs = vec![binding("alpha", Some("apps"), None)];
    let listed = list_rbac_bindings(&crbs, &rbs);
    assert_eq!(listed.len(), 2);
    assert_eq!(listed[0].name, "alpha");
    assert_eq!(listed[0].kind, "RoleBinding");
    assert_eq!(listed[0].namespace, Some(st("apps")));
    assert!(listed[0].subjects.is_empty());
    assert_eq!(listed[1].kind, "ClusterRoleBinding");
    assert_eq!(listed[1].namespace, None);
    assert_eq!(listed[1].subjects[0].name, "alice");
}

#[test]
fn helm_list_arguments_depend_on_the_namespace() {
    assert_eq!(helm_list_args("_all"), vec![st("list"), st("--output"), st("json"), st("--all-namespaces")]);
    assert_eq!(helm_list_args("apps"), vec![st("list"), st("--output"), st("json"), st("--namespace"), st("apps")]);
}

#[test]
fn helm_releases_are_read_from_the_parsed_entries() {
    assert!(helm_releases("  []\n", Err(st("unused"))).unwrap().is_empty());
    assert!(helm_releases("", Err(st("unused"))).unwrap().is_empty());
    assert_eq!(helm_releases("garbage", Err(st("expected value"))).unwrap_err(), "Failed to parse helm output: expected value");
    let e = HelmEntry {
        name: Some(st("redis")),
        namespace: Some(st("cache")),
        revision: Some(st("3")),
        updated: None,
        status: Some(st("deployed")),
        chart: Some(st("redis-17.0.0")),
        app_version: None,
    };
    let r = helm_releases("[{...}]", Ok(vec![e])).unwrap();
    assert_eq!(r.len(), 1);
    assert_eq!(r[0].name, "redis");
    assert_eq!(r[0].updated, "");
    assert_eq!(r[0].chart, "redis-17.0.0");
}

#[test]
fn only_some_kinds_scale_or_restart() {
    assert!(check_scalable("Deployment").is_ok());
    assert!(check_scalable("StatefulSet").is_ok());
    assert_eq!(check_scalable("DaemonSet").unwrap_err(), "Scaling not supported for kind: DaemonSet");
    assert!(check_restartable("DaemonSet").is_ok());
    assert_eq!(check_restartable("Job").unwrap_err(), "Rollout restart not supported for kind: Job");
    assert_eq!(scaled_message("Deployment", "web", 3), "Scaled Deployment 'web' to 3 replicas");
    assert_eq!(restarted_message("StatefulSet", "db"), "Restarted StatefulSet 'db'");
}

#[test]
fn patches_have_the_expected_shape() {
    let p = scale_patch(5);
    match member(member(&p, "spec").unwrap(), "replicas") {
        Some(Json::Int(5)) => {}
        other => panic!("unexpected {:?}", other),
    }
    let r = restart_patch("2024-01-01T00:00:00Z");
    let ann = member(member(member(member(&r, "spec").unwrap(), "template").unwrap(), "metadata").unwrap(), "annotations").unwrap();
    match member(ann, "kubectl.kubernetes.io/restartedAt") {
        Some(Json::Str(t)) => assert_eq!(t, "2024-01-01T00:00:00Z"),
        other => panic!("unexpected {:?}", other),
    }
}

fn event(reason: &str, ty: Option<&str>, last: Option<i64>) -> EventInfo {
    EventInfo {
        kind: Some(st("Pod")),
        name: Some(st("web-1")),
        namespace: Some(st("prod")),
        reason: Some(st(reason)),
        message: None,
        type_: ty.map(st),
        count: Some(2),
        first_timestamp: None,
        last_timestamp: last,
        source_component: Some(st("kubelet")),
    }
}

#[test]
fn events_are_listed_latest_first_with_unseen_last() {
    let evs = vec![event("Old", Some("Normal"), Some(1_600_000_000)), event("Never", None, None), event("New", Some("Warning"), Some(1_700_000_000))];
    let listed = list_events(&evs);
    let reasons: Vec<&str> = listed.iter().map(|e| e.reason.as_deref().unwrap()).collect();
    assert_eq!(reasons, vec!["New", "Old", "Never"]);
    assert_eq!(listed[0].last_seen, Some(st("2023-11-14T22:13:20+00:00")));
    assert!(is_warning(&evs[2]));
    assert!(!is_warning(&evs[0]));
    assert!(!is_warning(&evs[1]));
    let one = k8s_event(&evs[1]);
    assert_eq!(one.last_seen, None);
    assert_eq!(one.source, Some(st("kubelet")));
    assert_eq!(one.count, Some(2));
}

#[test]
fn asking_again_for_a_watched_kind_starts_nothing_and_keeps_the_kinds() {
    let mut reg = WatcherRegistry::new();
    reg.start("dev", "pods", 0).unwrap();
    reg.start("dev", "jobs", 10).unwrap();
    let o = reg.start("dev", "jobs", 20).unwrap();
    assert!(!o.started);
    assert!(o.evicted.is_empty());
    let kinds: Vec<&str> = reg.entries.iter().map(|e| e.kind.as_str()).collect();
    assert_eq!(kinds, vec!["pods", "jobs"]);
    assert_eq!(reg.entries[1].last_accessed, 20);
}
