//! Listing views of cluster objects: the short status shown for an object
//! of any kind, read from its JSON document, its age, the plural resource
//! name of a kind, and a manifest made ready for server-side apply.
use vstd::prelude::*;
use crate::json::{Json, at, str_of, i64_of, bool_of, array_of, object_len, str_or, deref_opt, get, as_str, as_i64, as_bool, as_array, object_size, str_or_default};
use crate::hpa::{at2, get2};
use crate::benchmark::opt_seq;
use crate::model::{Meta, Node, Condition, StrMap, opt_view, unwrap_or_empty, unwrap_or_str, clone_opt};
use crate::describe::{pviews, copy_pairs};
use crate::age::{since_text, format_age_since};
use crate::text::{is_ascii_seq, ascii_lower_char, first_index, find_char, chars_of, string_from_range, vec_has, seq_ends_with, str_ends_with, dec_repr, int_repr, join_seq, views, seq_contains, string_of, str_eq, str_contains, append_i64, append_u64, join, lowercase, to_lower};

verus! {

/// A cluster object as a list shows it.
#[derive(Debug)]
pub struct K8sResource {
    pub name: String,
    pub namespace: Option<String>,
    pub kind: String,
    pub status: Option<String>,
    pub age: Option<String>,
    pub labels: StrMap,
    /// The whole object as a JSON document.
    pub extra: Json,
}

/// A namespace as the namespace list shows it.
#[derive(Debug)]
pub struct NamespaceInfo {
    pub name: String,
    pub status: String,
    pub age: String,
}

/// `ready/desired`.
pub open spec fn fraction_text(ready: i64, desired: i64) -> Seq<char> {
    int_repr(ready as int) + seq!['/'] + int_repr(desired as int)
}

fn fraction(ready: i64, desired: i64) -> (r: String)
    ensures
        r@ == fraction_text(ready, desired),
{
    let mut s = String::new();
    append_i64(&mut s, ready);
    s.append("/");
    append_i64(&mut s, desired);
    proof {
        reveal_strlit("/");
        assert(s@ =~= fraction_text(ready, desired));
    }
    s
}

/// The ready count against the desired count, both under `status`.
pub open spec fn replica_status(v: Json, desired_key: Seq<char>, ready_key: Seq<char>) -> Option<Seq<char>> {
    match (i64_of(at2(v, "status"@, desired_key)), i64_of(at2(v, "status"@, ready_key))) {
        (Some(d), Some(r)) => Some(fraction_text(r, d)),
        _ => None,
    }
}

fn replica_status_exec(v: &Json, desired_key: &str, ready_key: &str) -> (r: Option<String>)
    ensures
        opt_seq(r) == replica_status(*v, desired_key@, ready_key@),
{
    match (as_i64(get2(v, "status", desired_key)), as_i64(get2(v, "status", ready_key))) {
        (Some(d), Some(r)) => Some(fraction(r, d)),
        _ => None,
    }
}

/// The first condition of type `Ready` in `cs`.
pub open spec fn ready_condition(cs: Seq<Json>) -> Option<Json>
    decreases cs.len(),
{
    if cs.len() == 0 {
        None
    } else if str_of(at(Some(cs[0]), "type"@)) == Some("Ready"@) {
        Some(cs[0])
    } else {
        ready_condition(cs.drop_first())
    }
}

/// `Ready` when the `Ready` condition `c` holds, else `NotReady`.
pub open spec fn readiness_text(c: Json) -> Seq<char> {
    if str_or(at(Some(c), "status"@), "Unknown"@) == "True"@ { "Ready"@ } else { "NotReady"@ }
}

/// The readiness of a node, from its `Ready` condition.
pub open spec fn condition_status(v: Json) -> Option<Seq<char>> {
    match array_of(at2(v, "status"@, "conditions"@)) {
        Some(cs) => match ready_condition(cs) {
            Some(c) => Some(readiness_text(c)),
            None => None,
        },
        None => None,
    }
}

fn find_ready(cs: &Vec<Json>) -> (r: Option<&Json>)
    ensures
        deref_opt(r) == ready_condition(cs@),
{
    let mut i: usize = 0;
    assert(cs@.subrange(0, cs@.len() as int) =~= cs@);
    while i < cs.len()
        invariant
            i <= cs@.len(),
            ready_condition(cs@) == ready_condition(cs@.subrange(i as int, cs@.len() as int)),
        decreases cs@.len() - i,
    {
        let ghost rest = cs@.subrange(i as int, cs@.len() as int);
        assert(rest.drop_first() =~= cs@.subrange(i + 1, cs@.len() as int));
        assert(rest[0] == cs@[i as int]);
        let c = &cs[i];
        match as_str(get(Some(c), "type")) {
            Some(t) => {
                if str_eq(t.as_str(), "Ready") {
                    return Some(c);
                }
            },
            None => {},
        }
        i = i + 1;
    }
    None
}

fn condition_status_exec(v: &Json) -> (r: Option<String>)
    ensures
        opt_seq(r) == condition_status(*v),
{
    match as_array(get2(v, "status", "conditions")) {
        Some(cs) => match find_ready(cs) {
            Some(c) => {
                let st = str_or_default(get(Some(c), "status"), "Unknown");
                if str_eq(st.as_str(), "True") {
                    Some(string_of("Ready"))
                } else {
                    Some(string_of("NotReady"))
                }
            },
            None => None,
        },
        None => None,
    }
}

/// The service types a status names.
pub open spec fn is_service_type(t: Seq<char>) -> bool {
    t == "ClusterIP"@ || t == "NodePort"@ || t == "LoadBalancer"@ || t == "ExternalName"@
}

/// The type of a service.
pub open spec fn service_status(v: Json) -> Option<Seq<char>> {
    match str_of(at2(v, "spec"@, "type"@)) {
        Some(t) => if is_service_type(t) { Some(t) } else { None },
        None => None,
    }
}

fn service_status_exec(v: &Json) -> (r: Option<String>)
    ensures
        opt_seq(r) == service_status(*v),
{
    match as_str(get2(v, "spec", "type")) {
        Some(t) => {
            let s = t.as_str();
            if str_eq(s, "ClusterIP") || str_eq(s, "NodePort") || str_eq(s, "LoadBalancer") || str_eq(s, "ExternalName") {
                Some(t.clone())
            } else {
                None
            }
        },
        None => None,
    }
}

/// An integer field, 0 when absent.
pub open spec fn count_or_zero(j: Option<Json>) -> i64 {
    match i64_of(j) {
        Some(n) => n,
        None => 0,
    }
}

/// The succeeded count of a job against its completions (1 when unset).
pub open spec fn job_completion(v: Json) -> Option<Seq<char>> {
    match i64_of(at2(v, "status"@, "succeeded"@)) {
        Some(s) => Some(fraction_text(s, match i64_of(at2(v, "spec"@, "completions"@)) {
            Some(c) => c,
            None => 1,
        })),
        None => None,
    }
}

fn job_completion_exec(v: &Json) -> (r: Option<String>)
    ensures
        opt_seq(r) == job_completion(*v),
{
    match as_i64(get2(v, "status", "succeeded")) {
        Some(s) => {
            let c: i64 = match as_i64(get2(v, "spec", "completions")) {
                Some(c) => c,
                None => 1,
            };
            Some(fraction(s, c))
        },
        None => None,
    }
}

/// A job with completions set that has failed pods, or else active ones.
pub open spec fn job_progress(v: Json) -> Option<Seq<char>> {
    if at2(v, "spec"@, "completions"@) is Some {
        let failed = count_or_zero(at2(v, "status"@, "failed"@));
        let active = count_or_zero(at2(v, "status"@, "active"@));
        if failed > 0 {
            Some("Failed("@ + int_repr(failed as int) + ")"@)
        } else if active > 0 {
            Some("Running"@)
        } else {
            None
        }
    } else {
        None
    }
}

fn job_progress_exec(v: &Json) -> (r: Option<String>)
    ensures
        opt_seq(r) == job_progress(*v),
{
    if get2(v, "spec", "completions").is_none() {
        return None;
    }
    let failed: i64 = match as_i64(get2(v, "status", "failed")) {
        Some(n) => n,
        None => 0,
    };
    let active: i64 = match as_i64(get2(v, "status", "active")) {
        Some(n) => n,
        None => 0,
    };
    if failed > 0 {
        let mut s = string_of("Failed(");
        append_i64(&mut s, failed);
        s.append(")");
        Some(s)
    } else if active > 0 {
        Some(string_of("Running"))
    } else {
        None
    }
}

/// The schedule of a cron job, marked when suspended.
pub open spec fn cronjob_status(v: Json) -> Option<Seq<char>> {
    match str_of(at2(v, "spec"@, "schedule"@)) {
        Some(s) => Some(if bool_of(at2(v, "spec"@, "suspend"@)) == Some(true) { s + " (Suspended)"@ } else { s }),
        None => None,
    }
}

fn cronjob_status_exec(v: &Json) -> (r: Option<String>)
    ensures
        opt_seq(r) == cronjob_status(*v),
{
    match as_str(get2(v, "spec", "schedule")) {
        Some(s) => {
            let suspended = match as_bool(get2(v, "spec", "suspend")) {
                Some(b) => b,
                None => false,
            };
            let mut t = s.clone();
            if suspended {
                t.append(" (Suspended)");
            }
            Some(t)
        },
        None => None,
    }
}

/// The number of keys of an object's `data`.
pub open spec fn configmap_status(v: Json) -> Option<Seq<char>> {
    match object_len(at(Some(v), "data"@)) {
        Some(n) => Some(dec_repr(n) + " keys"@),
        None => None,
    }
}

fn configmap_status_exec(v: &Json) -> (r: Option<String>)
    ensures
        opt_seq(r) == configmap_status(*v),
{
    match object_size(get(Some(v), "data")) {
        Some(n) => {
            let mut s = String::new();
            append_u64(&mut s, n as u64);
            s.append(" keys");
            Some(s)
        },
        None => None,
    }
}

/// The secret types a status names.
pub open spec fn is_secret_type(t: Seq<char>) -> bool {
    seq_contains(t, "kubernetes.io"@) || seq_contains(t, "/"@) || t == "Opaque"@
}

/// The type of a secret with its number of keys.
pub open spec fn secret_status(v: Json) -> Option<Seq<char>> {
    match str_of(at(Some(v), "type"@)) {
        Some(t) => if is_secret_type(t) {
            let n: nat = match object_len(at(Some(v), "data"@)) {
                Some(n) => n,
                None => 0,
            };
            Some(t + " ("@ + dec_repr(n) + " keys)"@)
        } else {
            None
        },
        None => None,
    }
}

fn secret_status_exec(v: &Json) -> (r: Option<String>)
    ensures
        opt_seq(r) == secret_status(*v),
{
    match as_str(get(Some(v), "type")) {
        Some(t) => {
            let ts = t.as_str();
            if str_contains(ts, "kubernetes.io") || str_contains(ts, "/") || str_eq(ts, "Opaque") {
                let n: usize = match object_size(get(Some(v), "data")) {
                    Some(n) => n,
                    None => 0,
                };
                let mut s = t.clone();
                s.append(" (");
                append_u64(&mut s, n as u64);
                s.append(" keys)");
                Some(s)
            } else {
                None
            }
        },
        None => None,
    }
}

/// The hosts of ingress rules that name one, in order.
pub open spec fn hosts_of(rules: Seq<Json>) -> Seq<Seq<char>>
    decreases rules.len(),
{
    if rules.len() == 0 {
        Seq::empty()
    } else {
        let h = hosts_of(rules.drop_last());
        match str_of(at(Some(rules.last()), "host"@)) {
            Some(s) => h.push(s),
            None => h,
        }
    }
}

/// The hosts of an ingress, joined by `, `.
pub open spec fn ingress_status(v: Json) -> Option<Seq<char>> {
    match array_of(at2(v, "spec"@, "rules"@)) {
        Some(rs) => if hosts_of(rs).len() > 0 { Some(join_seq(hosts_of(rs), ", "@)) } else { None },
        None => None,
    }
}

fn ingress_status_exec(v: &Json) -> (r: Option<String>)
    ensures
        opt_seq(r) == ingress_status(*v),
{
    match as_array(get2(v, "spec", "rules")) {
        Some(rs) => {
            let mut hosts: Vec<String> = Vec::new();
            let mut i: usize = 0;
            while i < rs.len()
                invariant
                    i <= rs@.len(),
                    views(hosts@) == hosts_of(rs@.subrange(0, i as int)),
                decreases rs@.len() - i,
            {
                proof {
                    assert(rs@.subrange(0, i + 1).drop_last() =~= rs@.subrange(0, i as int));
                    assert(rs@.subrange(0, i + 1).last() == rs@[i as int]);
                }
                let ghost before = views(hosts@);
                match as_str(get(Some(&rs[i]), "host")) {
                    Some(h) => {
                        hosts.push(h.clone());
                        assert(views(hosts@) =~= before.push(h@));
                    },
                    None => {},
                }
                i = i + 1;
            }
            assert(rs@.subrange(0, rs@.len() as int) =~= rs@);
            if hosts.len() > 0 {
                Some(join(&hosts, ", "))
            } else {
                None
            }
        },
        None => None,
    }
}

/// Whether a service account mounts its token: `AutoMount` unless
/// `automountServiceAccountToken` is false.
pub open spec fn service_account_status(v: Json) -> Option<Seq<char>> {
    if at(Some(v), "secrets"@) is Some || at(Some(v), "automountServiceAccountToken"@) is Some
        || (at2(v, "metadata"@, "name"@) is Some && str_of(at(Some(v), "kind"@)) == Some("ServiceAccount"@)) {
        Some(if bool_of(at(Some(v), "automountServiceAccountToken"@)) == Some(false) { "NoAutoMount"@ } else { "AutoMount"@ })
    } else {
        None
    }
}

fn service_account_status_exec(v: &Json) -> (r: Option<String>)
    ensures
        opt_seq(r) == service_account_status(*v),
{
    let named_account = get2(v, "metadata", "name").is_some() && match as_str(get(Some(v), "kind")) {
        Some(k) => str_eq(k.as_str(), "ServiceAccount"),
        None => false,
    };
    if get(Some(v), "secrets").is_some() || get(Some(v), "automountServiceAccountToken").is_some() || named_account {
        let automount = match as_bool(get(Some(v), "automountServiceAccountToken")) {
            Some(b) => b,
            None => true,
        };
        if automount {
            Some(string_of("AutoMount"))
        } else {
            Some(string_of("NoAutoMount"))
        }
    } else {
        None
    }
}

/// `a` when present, else `b`.
pub open spec fn first_of(a: Option<Seq<char>>, b: Option<Seq<char>>) -> Option<Seq<char>> {
    if a is Some { a } else { b }
}

/// The status shown for an object, by the first that applies: its phase;
/// ready replicas against replicas; ready against desired scheduled pods;
/// node readiness; service type; job completions; failed or running job;
/// cron schedule; number of data keys; secret type; ingress hosts; token
/// mounting of a service account. None when nothing applies.
pub open spec fn status_text(v: Json) -> Option<Seq<char>> {
    first_of(str_of(at2(v, "status"@, "phase"@)),
    first_of(replica_status(v, "replicas"@, "readyReplicas"@),
    first_of(replica_status(v, "desiredNumberScheduled"@, "numberReady"@),
    first_of(condition_status(v),
    first_of(service_status(v),
    first_of(job_completion(v),
    first_of(job_progress(v),
    first_of(cronjob_status(v),
    first_of(configmap_status(v),
    first_of(secret_status(v),
    first_of(ingress_status(v),
    service_account_status(v))))))))))))
}

/// The status shown for the object whose JSON document is `value`.
pub fn extract_status(value: &Json) -> (r: Option<String>)
    ensures
        opt_seq(r) == status_text(*value),
{
    match as_str(get2(value, "status", "phase")) {
        Some(p) => return Some(p.clone()),
        None => {},
    }
    let a = replica_status_exec(value, "replicas", "readyReplicas");
    if a.is_some() {
        return a;
    }
    let b = replica_status_exec(value, "desiredNumberScheduled", "numberReady");
    if b.is_some() {
        return b;
    }
    let c = condition_status_exec(value);
    if c.is_some() {
        return c;
    }
    let d = service_status_exec(value);
    if d.is_some() {
        return d;
    }
    let e = job_completion_exec(value);
    if e.is_some() {
        return e;
    }
    let f = job_progress_exec(value);
    if f.is_some() {
        return f;
    }
    let g = cronjob_status_exec(value);
    if g.is_some() {
        return g;
    }
    let h = configmap_status_exec(value);
    if h.is_some() {
        return h;
    }
    let i = secret_status_exec(value);
    if i.is_some() {
        return i;
    }
    let j = ingress_status_exec(value);
    if j.is_some() {
        return j;
    }
    service_account_status_exec(value)
}

/// The status shown for an object, under the name other modules use.
pub fn extract_status_pub(value: &Json) -> (r: Option<String>)
    ensures
        opt_seq(r) == status_text(*value),
{
    extract_status(value)
}

/// The plural resource name of the kinds the library knows by name.
pub open spec fn known_plural(kind: Seq<char>) -> Option<Seq<char>> {
    if kind == "Pod"@ {
        Some("pods"@)
    } else if kind == "Deployment"@ {
        Some("deployments"@)
    } else if kind == "Service"@ {
        Some("services"@)
    } else if kind == "ConfigMap"@ {
        Some("configmaps"@)
    } else if kind == "Secret"@ {
        Some("secrets"@)
    } else if kind == "StatefulSet"@ {
        Some("statefulsets"@)
    } else if kind == "DaemonSet"@ {
        Some("daemonsets"@)
    } else if kind == "ReplicaSet"@ {
        Some("replicasets"@)
    } else if kind == "Job"@ {
        Some("jobs"@)
    } else if kind == "CronJob"@ {
        Some("cronjobs"@)
    } else if kind == "Ingress"@ {
        Some("ingresses"@)
    } else if kind == "NetworkPolicy"@ {
        Some("networkpolicies"@)
    } else if kind == "ServiceAccount"@ {
        Some("serviceaccounts"@)
    } else if kind == "PersistentVolume"@ {
        Some("persistentvolumes"@)
    } else if kind == "PersistentVolumeClaim"@ {
        Some("persistentvolumeclaims"@)
    } else if kind == "Namespace"@ {
        Some("namespaces"@)
    } else if kind == "Node"@ {
        Some("nodes"@)
    } else if kind == "HorizontalPodAutoscaler"@ {
        Some("horizontalpodautoscalers"@)
    } else if kind == "PodDisruptionBudget"@ {
        Some("poddisruptionbudgets"@)
    } else if kind == "Role"@ {
        Some("roles"@)
    } else if kind == "RoleBinding"@ {
        Some("rolebindings"@)
    } else if kind == "ClusterRole"@ {
        Some("clusterroles"@)
    } else if kind == "ClusterRoleBinding"@ {
        Some("clusterrolebindings"@)
    } else {
        None
    }
}

fn known_plural_exec(kind: &str) -> (r: Option<&'static str>)
    ensures
        match r {
            Some(p) => known_plural(kind@) == Some(p@),
            None => known_plural(kind@) is None,
        },
{
    if str_eq(kind, "Pod") {
        Some("pods")
    } else if str_eq(kind, "Deployment") {
        Some("deployments")
    } else if str_eq(kind, "Service") {
        Some("services")
    } else if str_eq(kind, "ConfigMap") {
        Some("configmaps")
    } else if str_eq(kind, "Secret") {
        Some("secrets")
    } else if str_eq(kind, "StatefulSet") {
        Some("statefulsets")
    } else if str_eq(kind, "DaemonSet") {
        Some("daemonsets")
    } else if str_eq(kind, "ReplicaSet") {
        Some("replicasets")
    } else if str_eq(kind, "Job") {
        Some("jobs")
    } else if str_eq(kind, "CronJob") {
        Some("cronjobs")
    } else if str_eq(kind, "Ingress") {
        Some("ingresses")
    } else if str_eq(kind, "NetworkPolicy") {
        Some("networkpolicies")
    } else if str_eq(kind, "ServiceAccount") {
        Some("serviceaccounts")
    } else if str_eq(kind, "PersistentVolume") {
        Some("persistentvolumes")
    } else if str_eq(kind, "PersistentVolumeClaim") {
        Some("persistentvolumeclaims")
    } else if str_eq(kind, "Namespace") {
        Some("namespaces")
    } else if str_eq(kind, "Node") {
        Some("nodes")
    } else if str_eq(kind, "HorizontalPodAutoscaler") {
        Some("horizontalpodautoscalers")
    } else if str_eq(kind, "PodDisruptionBudget") {
        Some("poddisruptionbudgets")
    } else if str_eq(kind, "Role") {
        Some("roles")
    } else if str_eq(kind, "RoleBinding") {
        Some("rolebindings")
    } else if str_eq(kind, "ClusterRole") {
        Some("clusterroles")
    } else if str_eq(kind, "ClusterRoleBinding") {
        Some("clusterrolebindings")
    } else {
        None
    }
}

/// The plural resource name of a kind: the known ones by name, any other
/// lowercased, with an `s` added unless it ends in one.
pub open spec fn plural_of(kind: Seq<char>) -> Seq<char> {
    match known_plural(kind) {
        Some(p) => p,
        None => {
            let low = lowercase(kind);
            if seq_ends_with(low, seq!['s']) { low } else { low + seq!['s'] }
        },
    }
}

/// No ASCII capital letter occurs in `s`.
pub open spec fn no_capitals(s: Seq<char>) -> bool {
    forall|i: int| 0 <= i < s.len() ==> !('A' <= #[trigger] s[i] && s[i] <= 'Z')
}

/// The known plurals are ASCII small-letter words ending in `s`, and only
/// a kind that starts with a capital letter has one.
proof fn lemma_known_plural_shape(x: Seq<char>)
    ensures
        known_plural(x) matches Some(p) ==> is_ascii_seq(p) && no_capitals(p) && p.len() > 0 && p.last() == 's',
        x.len() > 0 && !('A' <= x[0] && x[0] <= 'Z') ==> known_plural(x) is None,
{
        reveal_strlit("Pod");
        reveal_strlit("pods");
        reveal_strlit("Deployment");
        reveal_strlit("deployments");
        reveal_strlit("Service");
        reveal_strlit("services");
        reveal_strlit("ConfigMap");
        reveal_strlit("configmaps");
        reveal_strlit("Secret");
        reveal_strlit("secrets");
        reveal_strlit("StatefulSet");
        reveal_strlit("statefulsets");
        reveal_strlit("DaemonSet");
        reveal_strlit("daemonsets");
        reveal_strlit("ReplicaSet");
        reveal_strlit("replicasets");
        reveal_strlit("Job");
        reveal_strlit("jobs");
        reveal_strlit("CronJob");
        reveal_strlit("cronjobs");
        reveal_strlit("Ingress");
        reveal_strlit("ingresses");
        reveal_strlit("NetworkPolicy");
        reveal_strlit("networkpolicies");
        reveal_strlit("ServiceAccount");
        reveal_strlit("serviceaccounts");
        reveal_strlit("PersistentVolume");
        reveal_strlit("persistentvolumes");
        reveal_strlit("PersistentVolumeClaim");
        reveal_strlit("persistentvolumeclaims");
        reveal_strlit("Namespace");
        reveal_strlit("namespaces");
        reveal_strlit("Node");
        reveal_strlit("nodes");
        reveal_strlit("HorizontalPodAutoscaler");
        reveal_strlit("horizontalpodautoscalers");
        reveal_strlit("PodDisruptionBudget");
        reveal_strlit("poddisruptionbudgets");
        reveal_strlit("Role");
        reveal_strlit("roles");
        reveal_strlit("RoleBinding");
        reveal_strlit("rolebindings");
        reveal_strlit("ClusterRole");
        reveal_strlit("clusterroles");
        reveal_strlit("ClusterRoleBinding");
        reveal_strlit("clusterrolebindings");
}

/// The plural name of a plural name is itself, and it ends in `s`: for a
/// kind written in ASCII, asking again for the plural of what
/// `kind_to_plural` gave gives it back.
pub proof fn law_plural_is_stable(kind: Seq<char>)
    requires
        is_ascii_seq(kind),
    ensures
        seq_ends_with(plural_of(kind), seq!['s']),
        plural_of(plural_of(kind)) == plural_of(kind),
{
    let y = plural_of(kind);
    lemma_known_plural_shape(kind);
    match known_plural(kind) {
        Some(p) => {},
        None => {
            let low = kind.map_values(|c: char| ascii_lower_char(c));
            assert(lowercase(kind) == low);
            assert(is_ascii_seq(low) && no_capitals(low)) by {
                assert forall|i: int| 0 <= i < low.len() implies (#[trigger] low[i]) as int <= 127 && !('A' <= low[i] && low[i] <= 'Z') by {
                    assert(low[i] == ascii_lower_char(kind[i]));
                    assert(kind[i] as int <= 127);
                }
            }
            if !seq_ends_with(low, seq!['s']) {
                let ls = low + seq!['s'];
                assert(y == ls);
                assert(ls.last() == 's');
                assert forall|i: int| 0 <= i < ls.len() implies (#[trigger] ls[i]) as int <= 127 && !('A' <= ls[i] && ls[i] <= 'Z') by {
                    if i < low.len() { assert(ls[i] == low[i]); }
                }
            } else {
                assert(low.subrange(low.len() - 1, low.len() as int)[0] == low.last());
            }
        },
    }
    assert(is_ascii_seq(y) && no_capitals(y) && y.len() > 0 && y.last() == 's');
    assert(y.subrange(y.len() - 1, y.len() as int) =~= seq!['s']);
    lemma_known_plural_shape(y);
    assert(known_plural(y) is None);
    let ly = y.map_values(|c: char| ascii_lower_char(c));
    assert(ly =~= y) by {
        assert forall|i: int| 0 <= i < y.len() implies #[trigger] ly[i] == y[i] by {
            assert(!('A' <= y[i] && y[i] <= 'Z'));
        }
    }
    assert(lowercase(y) == ly);
}

/// The plural resource name of `kind`.
pub fn kind_to_plural(kind: &str) -> (r: String)
    ensures
        r@ == plural_of(kind@),
{
    match known_plural_exec(kind) {
        Some(p) => string_of(p),
        None => {
            let mut low = to_lower(kind);
            let ends_in_s = str_ends_with(low.as_str(), "s");
            proof {
                reveal_strlit("s");
                assert("s"@ =~= seq!['s']);
            }
            if !ends_in_s {
                low.append("s");
            }
            low
        },
    }
}

/// The age of an object created at `created`, at `now`.
pub open spec fn age_of(created: Option<i64>, now: i64) -> Option<Seq<char>> {
    match created {
        Some(c) => Some(since_text(now - c)),
        None => None,
    }
}

/// The age of an object can be computed at `now`.
pub open spec fn age_fits(created: Option<i64>, now: i64) -> bool {
    created matches Some(c) ==> i64::MIN <= now - c <= i64::MAX
}

/// `n` lists the namespace with metadata `meta` and phase `phase` at `now`.
pub open spec fn namespace_info_of(n: NamespaceInfo, meta: Meta, phase: Option<String>, now: i64) -> bool {
    &&& n.name@ == opt_view(meta.name)
    &&& n.status@ == (match phase { Some(p) => p@, None => "Unknown"@ })
    &&& n.age@ == (match age_of(meta.creation_timestamp, now) { Some(a) => a, None => "-"@ })
}

/// The namespace list entry of a namespace.
pub fn namespace_info(meta: &Meta, phase: &Option<String>, now: i64) -> (r: NamespaceInfo)
    requires
        age_fits(meta.creation_timestamp, now),
    ensures
        namespace_info_of(r, *meta, *phase, now),
{
    let status = unwrap_or_str(phase, "Unknown");
    let age = match format_age_since(meta.creation_timestamp, now) {
        Some(a) => a,
        None => string_of("-"),
    };
    NamespaceInfo { name: unwrap_or_empty(&meta.name), status, age }
}

/// The labels of an object, none when unset.
pub open spec fn labels_of(meta: Meta) -> Seq<(Seq<char>, Seq<char>)> {
    match meta.labels {
        Some(m) => pviews(m@),
        None => Seq::empty(),
    }
}

/// `r` lists an object of kind `kind` with metadata `meta`, namespace
/// `ns`, status `status` and JSON document `extra`, at `now`.
pub open spec fn listed_as(r: K8sResource, meta: Meta, kind: Seq<char>, ns: Option<Seq<char>>, status: Option<Seq<char>>, extra: Json, now: i64) -> bool {
    &&& r.name@ == opt_view(meta.name)
    &&& opt_seq(r.namespace) == ns
    &&& r.kind@ == kind
    &&& opt_seq(r.status) == status
    &&& opt_seq(r.age) == age_of(meta.creation_timestamp, now)
    &&& pviews(r.labels@) == labels_of(meta)
    &&& r.extra == extra
}

/// The list entry of a namespaced object of kind `kind`, with the status
/// its JSON document `extra` shows.
pub fn listed_resource(meta: &Meta, kind: &str, extra: Json, now: i64) -> (r: K8sResource)
    requires
        age_fits(meta.creation_timestamp, now),
    ensures
        listed_as(r, *meta, kind@, opt_seq(meta.namespace), status_text(extra), extra, now),
{
    let status = extract_status(&extra);
    K8sResource {
        name: unwrap_or_empty(&meta.name),
        namespace: clone_opt(&meta.namespace),
        kind: string_of(kind),
        status,
        age: format_age_since(meta.creation_timestamp, now),
        labels: copy_pairs(&meta.labels),
        extra,
    }
}

/// The list entry of an object of kind `kind`, in its own namespace, whose
/// status is `status`.
pub fn listed_with_status(meta: &Meta, kind: &str, status: Option<String>, extra: Json, now: i64) -> (r: K8sResource)
    requires
        age_fits(meta.creation_timestamp, now),
    ensures
        listed_as(r, *meta, kind@, opt_seq(meta.namespace), opt_seq(status), extra, now),
{
    K8sResource {
        name: unwrap_or_empty(&meta.name),
        namespace: clone_opt(&meta.namespace),
        kind: string_of(kind),
        status,
        age: format_age_since(meta.creation_timestamp, now),
        labels: copy_pairs(&meta.labels),
        extra,
    }
}

/// The list entry of a cluster-wide object of kind `kind` whose status is
/// `status`.
pub fn cluster_resource(meta: &Meta, kind: &str, status: Option<String>, extra: Json, now: i64) -> (r: K8sResource)
    requires
        age_fits(meta.creation_timestamp, now),
    ensures
        listed_as(r, *meta, kind@, None, opt_seq(status), extra, now),
{
    K8sResource {
        name: unwrap_or_empty(&meta.name),
        namespace: None,
        kind: string_of(kind),
        status,
        age: format_age_since(meta.creation_timestamp, now),
        labels: copy_pairs(&meta.labels),
        extra,
    }
}

/// The first condition of type `Ready`.
pub open spec fn first_ready(cs: Seq<Condition>) -> Option<Condition>
    decreases cs.len(),
{
    if cs.len() == 0 {
        None
    } else if cs[0].type_@ == "Ready"@ {
        Some(cs[0])
    } else {
        first_ready(cs.drop_first())
    }
}

/// `Ready` or `NotReady` by a node's `Ready` condition, none without one.
pub open spec fn node_readiness_of(conds: Option<Vec<Condition>>) -> Option<Seq<char>> {
    match conds {
        Some(cs) => match first_ready(cs@) {
            Some(c) => Some(if c.status@ == "True"@ { "Ready"@ } else { "NotReady"@ }),
            None => None,
        },
        None => None,
    }
}

/// The readiness a node list shows for a node with conditions `conds`.
pub fn node_readiness(conds: &Option<Vec<Condition>>) -> (r: Option<String>)
    ensures
        opt_seq(r) == node_readiness_of(*conds),
{
    match conds {
        Some(cs) => {
            let mut i: usize = 0;
            assert(cs@.subrange(0, cs@.len() as int) =~= cs@);
            while i < cs.len()
                invariant
                    i <= cs@.len(),
                    *conds == Some(*cs),
                    first_ready(cs@) == first_ready(cs@.subrange(i as int, cs@.len() as int)),
                decreases cs@.len() - i,
            {
                let ghost rest = cs@.subrange(i as int, cs@.len() as int);
                assert(rest.drop_first() =~= cs@.subrange(i + 1, cs@.len() as int));
                assert(rest[0] == cs@[i as int]);
                if str_eq(cs[i].type_.as_str(), "Ready") {
                    if str_eq(cs[i].status.as_str(), "True") {
                        return Some(string_of("Ready"));
                    } else {
                        return Some(string_of("NotReady"));
                    }
                }
                i = i + 1;
            }
            None
        },
        None => None,
    }
}

/// The members of `m` whose names are not among `keys`, in order.
pub open spec fn drop_keys(m: Seq<(String, Json)>, keys: Seq<Seq<char>>) -> Seq<(String, Json)>
    decreases m.len(),
{
    if m.len() == 0 {
        Seq::empty()
    } else {
        let r = drop_keys(m.drop_last(), keys);
        if keys.contains(m.last().0@) { r } else { r.push(m.last()) }
    }
}

/// Removes the members named by `keys`.
pub fn without_keys(m: Vec<(String, Json)>, keys: &Vec<String>) -> (r: Vec<(String, Json)>)
    ensures
        r@ == drop_keys(m@, views(keys@)),
{
    let ghost orig = m@;
    let mut m = m;
    let mut out: Vec<(String, Json)> = Vec::new();
    let ghost mut done: int = 0;
    proof {
        assert(orig.subrange(0, 0) =~= Seq::<(String, Json)>::empty());
        assert(orig.subrange(0, orig.len() as int) =~= orig);
    }
    while m.len() > 0
        invariant
            0 <= done <= orig.len(),
            m@ == orig.subrange(done, orig.len() as int),
            out@ == drop_keys(orig.subrange(0, done), views(keys@)),
        decreases m@.len(),
    {
        let e = m.remove(0);
        proof {
            assert(e == orig[done]);
            assert(orig.subrange(0, done + 1).drop_last() =~= orig.subrange(0, done));
            assert(orig.subrange(0, done + 1).last() == orig[done]);
            assert(m@ =~= orig.subrange(done + 1, orig.len() as int));
        }
        if !vec_has(keys, e.0.as_str()) {
            out.push(e);
        }
        proof {
            done = done + 1;
        }
    }
    proof {
        assert(orig.subrange(0, done) =~= orig);
    }
    out
}

/// `new` is the object `old` with the members named by `keys` removed,
/// when `old` is an object; else `old` unchanged.
pub open spec fn object_without(new: Json, old: Json, keys: Seq<Seq<char>>) -> bool {
    match old {
        Json::Object(o) => new matches Json::Object(n) && n@ == drop_keys(o@, keys),
        _ => new == old,
    }
}

/// Each member of `n` is the member of `o` at the same place, with the
/// value of those named `key` related to the old one by `rel`.
pub open spec fn members_with(n: Seq<(String, Json)>, o: Seq<(String, Json)>, key: Seq<char>, rel: spec_fn(Json, Json) -> bool) -> bool {
    &&& n.len() == o.len()
    &&& forall|i: int| 0 <= i < o.len() ==> {
        &&& (#[trigger] n[i]).0 == o[i].0
        &&& if o[i].0@ == key { rel(n[i].1, o[i].1) } else { n[i].1 == o[i].1 }
    }
}

/// Fields the server manages, taken out of metadata before an apply.
pub open spec fn managed_metadata_keys() -> Seq<Seq<char>> {
    seq!["managedFields"@, "resourceVersion"@, "uid"@, "creationTimestamp"@, "generation"@, "selfLink"@]
}

/// The annotation that `kubectl apply` keeps, taken out before an apply.
pub open spec fn last_applied_key() -> Seq<Seq<char>> {
    seq!["kubectl.kubernetes.io/last-applied-configuration"@]
}

/// `new` is the metadata `old` without the server-managed fields and the
/// last-applied annotation.
pub open spec fn cleaned_metadata(new: Json, old: Json) -> bool {
    match old {
        Json::Object(o) => new matches Json::Object(n) && members_with(n@, drop_keys(o@, managed_metadata_keys()), "annotations"@,
            |x: Json, y: Json| object_without(x, y, last_applied_key())),
        _ => new == old,
    }
}

/// `new` is the object `old` with its metadata cleaned and its status
/// removed, as an apply sends it.
pub open spec fn prepared_for_apply(new: Json, old: Json) -> bool {
    match old {
        Json::Object(o) => new matches Json::Object(n) && members_with(n@, drop_keys(o@, seq!["status"@]), "metadata"@,
            |x: Json, y: Json| cleaned_metadata(x, y)),
        _ => new == old,
    }
}

fn strings_of2(a: &str) -> (r: Vec<String>)
    ensures
        views(r@) == seq![a@],
{
    let mut v: Vec<String> = Vec::new();
    v.push(string_of(a));
    assert(views(v@) =~= seq![a@]);
    v
}

fn drop_members(j: Json, keys: &Vec<String>) -> (r: Json)
    ensures
        object_without(r, j, views(keys@)),
{
    match j {
        Json::Object(m) => Json::Object(without_keys(m, keys)),
        other => other,
    }
}

/// The members `m` with the value of each one named `annotations` without the last-applied annotation.
fn clean_annotation_members(m: Vec<(String, Json)>) -> (r: Vec<(String, Json)>)
    ensures
        members_with(r@, m@, "annotations"@, |x: Json, y: Json| object_without(x, y, last_applied_key())),
{
    let ghost orig = m@;
    let mut m = m;
    let mut out: Vec<(String, Json)> = Vec::new();
    let ghost mut done: int = 0;
    proof {
        assert(orig.subrange(0, orig.len() as int) =~= orig);
    }
    while m.len() > 0
        invariant
            0 <= done <= orig.len(),
            m@ == orig.subrange(done, orig.len() as int),
            out@.len() == done,
            forall|i: int| 0 <= i < done ==> {
                &&& (#[trigger] out@[i]).0 == orig[i].0
                &&& if orig[i].0@ == "annotations"@ { object_without(out@[i].1, orig[i].1, last_applied_key()) } else { out@[i].1 == orig[i].1 }
            },
        decreases m@.len(),
    {
        let e = m.remove(0);
        proof {
            assert(e == orig[done]);
            assert(m@ =~= orig.subrange(done + 1, orig.len() as int));
        }
        let (k, v) = e;
        if str_eq(k.as_str(), "annotations") {
            let nv = {
                let keys = strings_of2("kubectl.kubernetes.io/last-applied-configuration");
                assert(views(keys@) =~= last_applied_key());
                drop_members(v, &keys)
            };
            out.push((k, nv));
        } else {
            out.push((k, v));
        }
        proof {
            done = done + 1;
        }
    }
    out
}

/// The members `m` with the value of each one named `metadata` cleaned.
fn clean_metadata_members(m: Vec<(String, Json)>) -> (r: Vec<(String, Json)>)
    ensures
        members_with(r@, m@, "metadata"@, |x: Json, y: Json| cleaned_metadata(x, y)),
{
    let ghost orig = m@;
    let mut m = m;
    let mut out: Vec<(String, Json)> = Vec::new();
    let ghost mut done: int = 0;
    proof {
        assert(orig.subrange(0, orig.len() as int) =~= orig);
    }
    while m.len() > 0
        invariant
            0 <= done <= orig.len(),
            m@ == orig.subrange(done, orig.len() as int),
            out@.len() == done,
            forall|i: int| 0 <= i < done ==> {
                &&& (#[trigger] out@[i]).0 == orig[i].0
                &&& if orig[i].0@ == "metadata"@ { cleaned_metadata(out@[i].1, orig[i].1) } else { out@[i].1 == orig[i].1 }
            },
        decreases m@.len(),
    {
        let e = m.remove(0);
        proof {
            assert(e == orig[done]);
            assert(m@ =~= orig.subrange(done + 1, orig.len() as int));
        }
        let (k, v) = e;
        if str_eq(k.as_str(), "metadata") {
            let nv = clean_metadata(v);
            out.push((k, nv));
        } else {
            out.push((k, v));
        }
        proof {
            done = done + 1;
        }
    }
    out
}

fn clean_metadata(j: Json) -> (r: Json)
    ensures
        cleaned_metadata(r, j),
{
    match j {
        Json::Object(m) => {
            let mut keys: Vec<String> = Vec::new();
            keys.push(string_of("managedFields"));
            keys.push(string_of("resourceVersion"));
            keys.push(string_of("uid"));
            keys.push(string_of("creationTimestamp"));
            keys.push(string_of("generation"));
            keys.push(string_of("selfLink"));
            assert(views(keys@) =~= managed_metadata_keys());
            let kept = without_keys(m, &keys);
            Json::Object(clean_annotation_members(kept))
        },
        other => other,
    }
}

/// Makes an object ready for a server-side apply: server-managed metadata
/// fields, the last-applied annotation and the status taken out.
pub fn prepare_for_apply(value: Json) -> (r: Json)
    ensures
        prepared_for_apply(r, value),
{
    match value {
        Json::Object(m) => {
            let keys = strings_of2("status");
            assert(views(keys@) =~= seq!["status"@]);
            let kept = without_keys(m, &keys);
            Json::Object(clean_metadata_members(kept))
        },
        other => other,
    }
}

/// An object ready to be applied, with where it goes.
#[derive(Debug)]
pub struct ApplyPlan {
    pub api_version: String,
    pub kind: String,
    pub name: String,
    pub namespace: String,
    pub group: String,
    pub version: String,
    pub plural: String,
    pub object: Json,
}

/// The group and version of an API version: the parts around its first
/// `/`, or no group and the whole text.
pub open spec fn split_api_version(av: Seq<char>) -> (Seq<char>, Seq<char>) {
    match first_index(av, '/') {
        Some(i) => (av.subrange(0, i), av.subrange(i + 1, av.len() as int)),
        None => (Seq::empty(), av),
    }
}

/// Why a manifest cannot be applied: it did not parse (`Invalid YAML: `
/// and the parser's message), or it lacks its API version, kind or name.
pub open spec fn apply_error(parsed: Result<Json, String>) -> Option<Seq<char>> {
    match parsed {
        Err(e) => Some("Invalid YAML: "@ + e@),
        Ok(v) => if str_of(at(Some(v), "apiVersion"@)) is None {
            Some("Missing apiVersion"@)
        } else if str_of(at(Some(v), "kind"@)) is None {
            Some("Missing kind"@)
        } else if str_of(at2(v, "metadata"@, "name"@)) is None {
            Some("Missing metadata.name"@)
        } else {
            None
        },
    }
}

/// `p` applies the manifest `v`.
pub open spec fn plan_of(p: ApplyPlan, v: Json) -> bool {
    let av = str_or(at(Some(v), "apiVersion"@), Seq::empty());
    let kind = str_or(at(Some(v), "kind"@), Seq::empty());
    &&& p.api_version@ == av
    &&& p.kind@ == kind
    &&& p.name@ == str_or(at2(v, "metadata"@, "name"@), Seq::empty())
    &&& p.namespace@ == str_or(at2(v, "metadata"@, "namespace"@), "default"@)
    &&& (p.group@, p.version@) == split_api_version(av)
    &&& p.plural@ == plural_of(kind)
    &&& prepared_for_apply(p.object, v)
}

/// Plans the server-side apply of a parsed manifest.
pub fn apply_plan(parsed: Result<Json, String>) -> (r: Result<ApplyPlan, String>)
    ensures
        match r {
            Ok(p) => apply_error(parsed) is None && (parsed matches Ok(v) && plan_of(p, v)),
            Err(e) => apply_error(parsed) == Some(e@),
        },
{
    let value = match parsed {
        Ok(v) => v,
        Err(e) => {
            let mut m = string_of("Invalid YAML: ");
            m.append(e.as_str());
            return Err(m);
        },
    };
    let api_version = match as_str(get(Some(&value), "apiVersion")) {
        Some(s) => s.clone(),
        None => return Err(string_of("Missing apiVersion")),
    };
    let kind = match as_str(get(Some(&value), "kind")) {
        Some(s) => s.clone(),
        None => return Err(string_of("Missing kind")),
    };
    let name = match as_str(get2(&value, "metadata", "name")) {
        Some(s) => s.clone(),
        None => return Err(string_of("Missing metadata.name")),
    };
    let namespace = str_or_default(get2(&value, "metadata", "namespace"), "default");
    let chars = chars_of(api_version.as_str());
    let (group, version) = match find_char(&chars, '/') {
        Some(i) => (string_from_range(&chars, 0, i), string_from_range(&chars, i + 1, chars.len())),
        None => (String::new(), api_version.clone()),
    };
    let plural = kind_to_plural(kind.as_str());
    let ghost v0 = value;
    let object = prepare_for_apply(value);
    let p = ApplyPlan { api_version, kind, name, namespace, group, version, plural, object };
    assert(plan_of(p, v0));
    Ok(p)
}

/// The message of a successful apply: `<kind> '<name>' applied successfully`.
pub fn applied_message(kind: &str, name: &str) -> (r: String)
    ensures
        r@ == kind@ + " '"@ + name@ + "' applied successfully"@,
{
    let mut s = string_of(kind);
    s.append(" '");
    s.append(name);
    s.append("' applied successfully");
    s
}

/// `new` is the object `old` with `managedFields` taken out of its
/// metadata, as manifests are shown.
pub open spec fn without_managed_fields(new: Json, old: Json) -> bool {
    match old {
        Json::Object(o) => new matches Json::Object(n) && members_with(n@, o@, "metadata"@,
            |x: Json, y: Json| object_without(x, y, seq!["managedFields"@])),
        _ => new == old,
    }
}

/// Takes `managedFields` out of an object's metadata.
pub fn strip_managed_fields(value: Json) -> (r: Json)
    ensures
        without_managed_fields(r, value),
{
    match value {
        Json::Object(m) => {
            let ghost orig = m@;
            let mut m = m;
            let mut out: Vec<(String, Json)> = Vec::new();
            let ghost mut done: int = 0;
            let keys = strings_of2("managedFields");
            assert(views(keys@) =~= seq!["managedFields"@]);
            proof {
                assert(orig.subrange(0, orig.len() as int) =~= orig);
            }
            while m.len() > 0
                invariant
                    0 <= done <= orig.len(),
                    views(keys@) == seq!["managedFields"@],
                    m@ == orig.subrange(done, orig.len() as int),
                    out@.len() == done,
                    forall|i: int| 0 <= i < done ==> {
                        &&& (#[trigger] out@[i]).0 == orig[i].0
                        &&& if orig[i].0@ == "metadata"@ { object_without(out@[i].1, orig[i].1, seq!["managedFields"@]) } else { out@[i].1 == orig[i].1 }
                    },
                decreases m@.len(),
            {
                let e = m.remove(0);
                proof {
                    assert(e == orig[done]);
                    assert(m@ =~= orig.subrange(done + 1, orig.len() as int));
                }
                let (k, v) = e;
                if str_eq(k.as_str(), "metadata") {
                    let nv = drop_members(v, &keys);
                    out.push((k, nv));
                } else {
                    out.push((k, v));
                }
                proof {
                    done = done + 1;
                }
            }
            Json::Object(out)
        },
        other => other,
    }
}

/// The API version of a group and version: the version alone for the
/// core group, else `<group>/<version>`.
pub open spec fn api_version_text(group: Seq<char>, version: Seq<char>) -> Seq<char> {
    if group.len() == 0 { version } else { group + seq!['/'] + version }
}

/// Forms the API version of a group and version.
pub fn api_version_of(group: &str, version: &str) -> (r: String)
    ensures
        r@ == api_version_text(group@, version@),
{
    if group.is_empty() {
        string_of(version)
    } else {
        let mut s = string_of(group);
        s.append("/");
        s.append(version);
        proof {
            reveal_strlit("/");
            assert(s@ =~= api_version_text(group@, version@));
        }
        s
    }
}

} // verus!
