//! Scaling and rolling restarts of workloads: which kinds allow them, the
//! patches sent, and the messages shown.
use vstd::prelude::*;
use crate::json::{Json, at, object_len};
use crate::hpa::at2;
use crate::text::{int_repr, string_of, str_eq, append_i64};

verus! {

/// The kinds that can be scaled.
pub open spec fn scalable(kind: Seq<char>) -> bool {
    kind == "Deployment"@ || kind == "StatefulSet"@
}

/// The kinds that can be restarted.
pub open spec fn restartable(kind: Seq<char>) -> bool {
    kind == "Deployment"@ || kind == "StatefulSet"@ || kind == "DaemonSet"@
}

/// Refuses to scale a kind other than a deployment or stateful set.
pub fn check_scalable(kind: &str) -> (r: Result<(), String>)
    ensures
        match r {
            Ok(()) => scalable(kind@),
            Err(e) => !scalable(kind@) && e@ == "Scaling not supported for kind: "@ + kind@,
        },
{
    if str_eq(kind, "Deployment") || str_eq(kind, "StatefulSet") {
        Ok(())
    } else {
        let mut e = string_of("Scaling not supported for kind: ");
        e.append(kind);
        Err(e)
    }
}

/// Refuses to restart a kind other than a deployment, stateful set or
/// daemon set.
pub fn check_restartable(kind: &str) -> (r: Result<(), String>)
    ensures
        match r {
            Ok(()) => restartable(kind@),
            Err(e) => !restartable(kind@) && e@ == "Rollout restart not supported for kind: "@ + kind@,
        },
{
    if str_eq(kind, "Deployment") || str_eq(kind, "StatefulSet") || str_eq(kind, "DaemonSet") {
        Ok(())
    } else {
        let mut e = string_of("Rollout restart not supported for kind: ");
        e.append(kind);
        Err(e)
    }
}

fn object1(key: &str, value: Json) -> (r: Json)
    ensures
        object_len(Some(r)) == Some(1nat),
        at(Some(r), key@) == Some(value),
{
    let mut m: Vec<(String, Json)> = Vec::new();
    m.push((string_of(key), value));
    let r = Json::Object(m);
    proof {
        assert(m@[0].0@ == key@);
    }
    r
}

/// The merge patch that sets the replicas: `{"spec": {"replicas": n}}`.
pub fn scale_patch(replicas: i32) -> (r: Json)
    ensures
        object_len(Some(r)) == Some(1nat),
        object_len(at(Some(r), "spec"@)) == Some(1nat),
        at2(r, "spec"@, "replicas"@) == Some(Json::Int(replicas as i64)),
{
    let inner = object1("replicas", Json::Int(replicas as i64));
    object1("spec", inner)
}

/// The apply patch that restarts a workload at time `now` (RFC 3339):
/// `{"spec": {"template": {"metadata": {"annotations":
/// {"kubectl.kubernetes.io/restartedAt": now}}}}}`.
pub fn restart_patch(now: &str) -> (r: Json)
    ensures
        object_len(Some(r)) == Some(1nat),
        object_len(at(Some(r), "spec"@)) == Some(1nat),
        object_len(at2(r, "spec"@, "template"@)) == Some(1nat),
        object_len(at(at2(r, "spec"@, "template"@), "metadata"@)) == Some(1nat),
        object_len(at(at(at2(r, "spec"@, "template"@), "metadata"@), "annotations"@)) == Some(1nat),
        at(at(at(at2(r, "spec"@, "template"@), "metadata"@), "annotations"@), "kubectl.kubernetes.io/restartedAt"@)
            matches Some(Json::Str(s)) && s@ == now@,
{
    let a = object1("kubectl.kubernetes.io/restartedAt", Json::Str(string_of(now)));
    let m = object1("annotations", a);
    let t = object1("metadata", m);
    let s = object1("template", t);
    object1("spec", s)
}

/// `Scaled <kind> '<name>' to <replicas> replicas`.
pub fn scaled_message(kind: &str, name: &str, replicas: i32) -> (r: String)
    ensures
        r@ == "Scaled "@ + kind@ + " '"@ + name@ + "' to "@ + int_repr(replicas as int) + " replicas"@,
{
    let mut s = string_of("Scaled ");
    s.append(kind);
    s.append(" '");
    s.append(name);
    s.append("' to ");
    append_i64(&mut s, replicas as i64);
    s.append(" replicas");
    s
}

/// `Restarted <kind> '<name>'`.
pub fn restarted_message(kind: &str, name: &str) -> (r: String)
    ensures
        r@ == "Restarted "@ + kind@ + " '"@ + name@ + "'"@,
{
    let mut s = string_of("Restarted ");
    s.append(kind);
    s.append(" '");
    s.append(name);
    s.append("'");
    s
}

} // verus!
