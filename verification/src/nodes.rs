//! The detail of a node, and the decisions of cordoning and draining one.
use vstd::prelude::*;
use crate::model::{Node, Meta, Condition, NodeAddress, StrMap, map_get, map_lookup, opt_view, unwrap_or_empty, clone_opt};
use crate::benchmark::opt_seq;
use crate::describe::pviews;
use crate::clock::{utc_datetime, format_utc};
use crate::age::{since_text, format_age_since};
use crate::resources::{first_ready, age_of, age_fits};
use crate::json::{Json, at, object_len};
use crate::hpa::at2;
use crate::text::{views, dec_repr, seq_starts_with, string_of, str_eq, str_starts_with, chars_of, string_from_range, append_u64, join, join_seq};

verus! {

/// A condition of a node as shown.
#[derive(Debug)]
pub struct NodeCondition {
    pub condition_type: String,
    pub status: String,
    pub reason: Option<String>,
    pub message: Option<String>,
    /// `%Y-%m-%d %H:%M:%S` in UTC.
    pub last_transition: Option<String>,
}

/// The detail of a node.
#[derive(Debug)]
pub struct NodeInfo {
    pub name: String,
    pub status: String,
    pub roles: Vec<String>,
    pub version: String,
    pub os: String,
    pub arch: String,
    pub container_runtime: String,
    pub kernel_version: String,
    pub cpu_capacity: String,
    pub memory_capacity: String,
    pub pods_capacity: String,
    pub cpu_allocatable: String,
    pub memory_allocatable: String,
    pub pods_allocatable: String,
    pub conditions: Vec<NodeCondition>,
    pub age: String,
    pub internal_ip: String,
    pub external_ip: String,
}

/// The prefix of the labels that give a node its roles.
pub open spec fn role_prefix() -> Seq<char> {
    "node-role.kubernetes.io/"@
}

/// The roles a node's labels give it, in label order: the rest of each
/// label key after the role prefix.
pub open spec fn roles_in(labels: Seq<(Seq<char>, Seq<char>)>) -> Seq<Seq<char>>
    decreases labels.len(),
{
    if labels.len() == 0 {
        Seq::empty()
    } else {
        let r = roles_in(labels.drop_last());
        let k = labels.last().0;
        if seq_starts_with(k, role_prefix()) { r.push(k.skip(role_prefix().len() as int)) } else { r }
    }
}

/// The roles shown: those the labels give, else `<none>`.
pub open spec fn roles_shown(meta: Meta) -> Seq<Seq<char>> {
    let rs = match meta.labels {
        Some(m) => roles_in(pviews(m@)),
        None => Seq::empty(),
    };
    if rs.len() == 0 { seq!["<none>"@] } else { rs }
}

/// The status shown: readiness by the `Ready` condition (`Unknown`
/// without one), with `,SchedulingDisabled` for an unschedulable node.
pub open spec fn node_status_text(n: Node) -> Seq<char> {
    let ready = match n.conditions {
        Some(cs) => match first_ready(cs@) {
            Some(c) => if c.status@ == "True"@ { "Ready"@ } else { "NotReady"@ },
            None => "Unknown"@,
        },
        None => "Unknown"@,
    };
    if n.unschedulable == Some(true) { ready + ",SchedulingDisabled"@ } else { ready }
}

/// A quantity of a capacity map, `-` when absent.
pub open spec fn quantity_text(m: Option<StrMap>, key: Seq<char>) -> Seq<char> {
    match m {
        Some(mm) => match map_get(mm@, key) {
            Some(q) => q,
            None => "-"@,
        },
        None => "-"@,
    }
}

/// The first address of type `ty`.
pub open spec fn first_address(addrs: Seq<NodeAddress>, ty: Seq<char>) -> Option<NodeAddress>
    decreases addrs.len(),
{
    if addrs.len() == 0 {
        None
    } else if addrs[0].type_@ == ty {
        Some(addrs[0])
    } else {
        first_address(addrs.drop_first(), ty)
    }
}

/// The address of type `ty`, `-` when absent.
pub open spec fn address_text(addrs: Option<Vec<NodeAddress>>, ty: Seq<char>) -> Seq<char> {
    match addrs {
        Some(a) => match first_address(a@, ty) {
            Some(x) => x.address@,
            None => "-"@,
        },
        None => "-"@,
    }
}

/// `c` shows condition `k`.
pub open spec fn condition_of(c: NodeCondition, k: Condition) -> bool {
    &&& c.condition_type@ == k.type_@
    &&& c.status@ == k.status@
    &&& opt_seq(c.reason) == opt_seq(k.reason)
    &&& opt_seq(c.message) == opt_seq(k.message)
    &&& opt_seq(c.last_transition) == (match k.last_transition_time {
        Some(t) => utc_datetime(t),
        None => None,
    })
}

/// `i` shows node `n` at `now`.
pub open spec fn node_info_of(i: NodeInfo, n: Node, now: i64) -> bool {
    let conds = match n.conditions { Some(cs) => cs@, None => Seq::empty() };
    &&& i.name@ == opt_view(n.metadata.name)
    &&& i.status@ == node_status_text(n)
    &&& views(i.roles@) == roles_shown(n.metadata)
    &&& i.version@ == (match n.node_info { Some(x) => x.kubelet_version@, None => Seq::empty() })
    &&& i.os@ == (match n.node_info { Some(x) => x.os_image@, None => Seq::empty() })
    &&& i.arch@ == (match n.node_info { Some(x) => x.architecture@, None => Seq::empty() })
    &&& i.container_runtime@ == (match n.node_info { Some(x) => x.container_runtime_version@, None => Seq::empty() })
    &&& i.kernel_version@ == (match n.node_info { Some(x) => x.kernel_version@, None => Seq::empty() })
    &&& i.cpu_capacity@ == quantity_text(n.capacity, "cpu"@)
    &&& i.memory_capacity@ == quantity_text(n.capacity, "memory"@)
    &&& i.pods_capacity@ == quantity_text(n.capacity, "pods"@)
    &&& i.cpu_allocatable@ == quantity_text(n.allocatable, "cpu"@)
    &&& i.memory_allocatable@ == quantity_text(n.allocatable, "memory"@)
    &&& i.pods_allocatable@ == quantity_text(n.allocatable, "pods"@)
    &&& i.conditions@.len() == conds.len()
    &&& forall|k: int| 0 <= k < conds.len() ==> condition_of(#[trigger] i.conditions@[k], conds[k])
    &&& i.age@ == (match age_of(n.metadata.creation_timestamp, now) { Some(a) => a, None => "-"@ })
    &&& i.internal_ip@ == address_text(n.addresses, "InternalIP"@)
    &&& i.external_ip@ == address_text(n.addresses, "ExternalIP"@)
}

fn roles(meta: &Meta) -> (r: Vec<String>)
    ensures
        views(r@) == roles_shown(*meta),
{
    let mut out: Vec<String> = Vec::new();
    let ghost ls = crate::resources::labels_of(*meta);
    match &meta.labels {
        Some(m) => {
            let mut i: usize = 0;
            while i < m.len()
                invariant
                    i <= m@.len(),
                    ls == pviews(m@),
                    views(out@) == roles_in(ls.subrange(0, i as int)),
                decreases m@.len() - i,
            {
                proof {
                    assert(ls.subrange(0, i + 1).drop_last() =~= ls.subrange(0, i as int));
                    assert(ls.subrange(0, i + 1).last() == (m@[i as int].0@, m@[i as int].1@));
                    reveal_strlit("node-role.kubernetes.io/");
                }
                let k = m[i].0.as_str();
                if str_starts_with(k, "node-role.kubernetes.io/") {
                    let v = chars_of(k);
                    let rest = string_from_range(&v, 24, v.len());
                    let ghost before = views(out@);
                    out.push(rest);
                    proof {
                        assert(rest@ =~= k@.skip(24));
                        assert(views(out@) =~= before.push(rest@));
                    }
                }
                i = i + 1;
            }
            assert(ls.subrange(0, m@.len() as int) =~= ls);
        },
        None => {
            assert(views(out@) =~= Seq::<Seq<char>>::empty());
        },
    }
    if out.len() == 0 {
        let mut none: Vec<String> = Vec::new();
        none.push(string_of("<none>"));
        assert(views(none@) =~= seq!["<none>"@]);
        none
    } else {
        out
    }
}

fn quantity(m: &Option<StrMap>, key: &str) -> (r: String)
    ensures
        r@ == quantity_text(*m, key@),
{
    match m {
        Some(mm) => match map_lookup(mm, key) {
            Some(q) => q.clone(),
            None => string_of("-"),
        },
        None => string_of("-"),
    }
}

fn address(addrs: &Option<Vec<NodeAddress>>, ty: &str) -> (r: String)
    ensures
        r@ == address_text(*addrs, ty@),
{
    match addrs {
        Some(a) => {
            let mut i: usize = 0;
            assert(a@.subrange(0, a@.len() as int) =~= a@);
            while i < a.len()
                invariant
                    i <= a@.len(),
                    *addrs == Some(*a),
                    first_address(a@, ty@) == first_address(a@.subrange(i as int, a@.len() as int), ty@),
                decreases a@.len() - i,
            {
                let ghost rest = a@.subrange(i as int, a@.len() as int);
                assert(rest.drop_first() =~= a@.subrange(i + 1, a@.len() as int));
                assert(rest[0] == a@[i as int]);
                if str_eq(a[i].type_.as_str(), ty) {
                    return a[i].address.clone();
                }
                i = i + 1;
            }
            string_of("-")
        },
        None => string_of("-"),
    }
}

fn ready_text(conds: &Option<Vec<Condition>>) -> (r: String)
    ensures
        r@ == (match *conds {
            Some(cs) => match first_ready(cs@) {
                Some(c) => if c.status@ == "True"@ { "Ready"@ } else { "NotReady"@ },
                None => "Unknown"@,
            },
            None => "Unknown"@,
        }),
{
    match crate::resources::node_readiness(conds) {
        Some(s) => s,
        None => string_of("Unknown"),
    }
}

/// The detail of node `n` at Unix time `now`.
pub fn node_details(n: &Node, now: i64) -> (r: NodeInfo)
    requires
        age_fits(n.metadata.creation_timestamp, now),
    ensures
        node_info_of(r, *n, now),
{
    let mut status = ready_text(&n.conditions);
    if n.unschedulable == Some(true) {
        status.append(",SchedulingDisabled");
    }
    let mut conditions: Vec<NodeCondition> = Vec::new();
    match &n.conditions {
        Some(cs) => {
            let mut i: usize = 0;
            while i < cs.len()
                invariant
                    i <= cs@.len(),
                    conditions@.len() == i,
                    forall|k: int| 0 <= k < i ==> condition_of(#[trigger] conditions@[k], cs@[k]),
                decreases cs@.len() - i,
            {
                let c = &cs[i];
                let lt = match c.last_transition_time {
                    Some(t) => format_utc(t),
                    None => None,
                };
                conditions.push(NodeCondition {
                    condition_type: c.type_.clone(),
                    status: c.status.clone(),
                    reason: clone_opt(&c.reason),
                    message: clone_opt(&c.message),
                    last_transition: lt,
                });
                i = i + 1;
            }
        },
        None => {},
    }
    let age = match format_age_since(n.metadata.creation_timestamp, now) {
        Some(a) => a,
        None => string_of("-"),
    };
    let (version, os, arch, container_runtime, kernel_version) = match &n.node_info {
        Some(x) => (x.kubelet_version.clone(), x.os_image.clone(), x.architecture.clone(), x.container_runtime_version.clone(), x.kernel_version.clone()),
        None => (String::new(), String::new(), String::new(), String::new(), String::new()),
    };
    NodeInfo {
        name: unwrap_or_empty(&n.metadata.name),
        status,
        roles: roles(&n.metadata),
        version,
        os,
        arch,
        container_runtime,
        kernel_version,
        cpu_capacity: quantity(&n.capacity, "cpu"),
        memory_capacity: quantity(&n.capacity, "memory"),
        pods_capacity: quantity(&n.capacity, "pods"),
        cpu_allocatable: quantity(&n.allocatable, "cpu"),
        memory_allocatable: quantity(&n.allocatable, "memory"),
        pods_allocatable: quantity(&n.allocatable, "pods"),
        conditions,
        age,
        internal_ip: address(&n.addresses, "InternalIP"),
        external_ip: address(&n.addresses, "ExternalIP"),
    }
}

/// What draining does with a pod.
#[derive(Debug, PartialEq, Eq, Structural)]
pub enum DrainStep {
    /// Leave it: a mirror pod, or a daemon set's pod when those are kept.
    Skip,
    Evict,
}

/// Whether an object has the annotation `key`.
pub open spec fn has_annotation(meta: Meta, key: Seq<char>) -> bool {
    match meta.annotations {
        Some(m) => map_get(m@, key) is Some,
        None => false,
    }
}

/// Whether some owner in `rs` is a daemon set.
pub open spec fn any_daemonset(rs: Seq<crate::model::OwnerRef>) -> bool
    decreases rs.len(),
{
    if rs.len() == 0 {
        false
    } else {
        rs.last().kind@ == "DaemonSet"@ || any_daemonset(rs.drop_last())
    }
}

/// Whether some owner of an object is a daemon set.
pub open spec fn daemonset_owned(meta: Meta) -> bool {
    match meta.owner_references {
        Some(rs) => any_daemonset(rs@),
        None => false,
    }
}

/// The step for a pod with metadata `meta`: mirror pods are skipped, and
/// pods of daemon sets when `ignore_daemonsets` holds; others are evicted.
pub open spec fn drain_step_of(meta: Meta, ignore_daemonsets: bool) -> DrainStep {
    if has_annotation(meta, "kubernetes.io/config.mirror"@) {
        DrainStep::Skip
    } else if ignore_daemonsets && daemonset_owned(meta) {
        DrainStep::Skip
    } else {
        DrainStep::Evict
    }
}

/// Decides what draining does with a pod.
pub fn drain_step(meta: &Meta, ignore_daemonsets: bool) -> (r: DrainStep)
    ensures
        r == drain_step_of(*meta, ignore_daemonsets),
{
    let mirror = match &meta.annotations {
        Some(m) => map_lookup(m, "kubernetes.io/config.mirror").is_some(),
        None => false,
    };
    if mirror {
        return DrainStep::Skip;
    }
    if ignore_daemonsets {
        match &meta.owner_references {
            Some(rs) => {
                let mut i: usize = 0;
                let mut found = false;
                while i < rs.len()
                    invariant
                        i <= rs@.len(),
                        found == any_daemonset(rs@.subrange(0, i as int)),
                    decreases rs@.len() - i,
                {
                    proof {
                        assert(rs@.subrange(0, i + 1).drop_last() =~= rs@.subrange(0, i as int));
                        assert(rs@.subrange(0, i + 1).last() == rs@[i as int]);
                    }
                    if str_eq(rs[i].kind.as_str(), "DaemonSet") {
                        found = true;
                    }
                    i = i + 1;
                }
                assert(rs@.subrange(0, rs@.len() as int) =~= rs@);
                if found {
                    return DrainStep::Skip;
                }
            },
            None => {},
        }
    }
    DrainStep::Evict
}

/// The outcome of a drain: `Node '<name>' drained: <e> evicted, <s>
/// skipped`, and `, <n> errors: ` with the errors joined by `; ` when
/// there are any.
pub open spec fn drain_message_text(name: Seq<char>, evicted: nat, skipped: nat, errors: Seq<Seq<char>>) -> Seq<char> {
    let head = "Node '"@ + name + "' drained: "@ + dec_repr(evicted) + " evicted, "@ + dec_repr(skipped) + " skipped"@;
    if errors.len() == 0 { head } else { head + ", "@ + dec_repr(errors.len()) + " errors: "@ + join_seq(errors, "; "@) }
}

/// Reports the outcome of a drain.
pub fn drain_message(name: &str, evicted: usize, skipped: usize, errors: &Vec<String>) -> (r: String)
    ensures
        r@ == drain_message_text(name@, evicted as nat, skipped as nat, views(errors@)),
{
    let mut s = string_of("Node '");
    s.append(name);
    s.append("' drained: ");
    append_u64(&mut s, evicted as u64);
    s.append(" evicted, ");
    append_u64(&mut s, skipped as u64);
    s.append(" skipped");
    if errors.len() > 0 {
        s.append(", ");
        append_u64(&mut s, errors.len() as u64);
        s.append(" errors: ");
        let j = join(errors, "; ");
        s.append(j.as_str());
    }
    s
}

/// `<namespace>/<pod>: <error>`, an eviction that failed.
pub fn eviction_error(namespace: &str, pod: &str, err: &str) -> (r: String)
    ensures
        r@ == namespace@ + "/"@ + pod@ + ": "@ + err@,
{
    let mut s = string_of(namespace);
    s.append("/");
    s.append(pod);
    s.append(": ");
    s.append(err);
    s
}

/// The merge patch that cordons (`true`) or uncordons a node:
/// `{"spec": {"unschedulable": b}}`.
pub fn cordon_patch(unschedulable: bool) -> (r: Json)
    ensures
        object_len(Some(r)) == Some(1nat),
        object_len(at(Some(r), "spec"@)) == Some(1nat),
        at2(r, "spec"@, "unschedulable"@) == Some(Json::Bool(unschedulable)),
{
    let mut inner: Vec<(String, Json)> = Vec::new();
    inner.push((string_of("unschedulable"), Json::Bool(unschedulable)));
    let mut outer: Vec<(String, Json)> = Vec::new();
    let i = Json::Object(inner);
    outer.push((string_of("spec"), i));
    let r = Json::Object(outer);
    proof {
        assert(outer@[0].0@ == "spec"@);
        assert(inner@[0].0@ == "unschedulable"@);
    }
    r
}

/// `Node '<name>' cordoned` or `Node '<name>' uncordoned`.
pub fn cordon_message(name: &str, cordoned: bool) -> (r: String)
    ensures
        r@ == "Node '"@ + name@ + (if cordoned { "' cordoned"@ } else { "' uncordoned"@ }),
{
    let mut s = string_of("Node '");
    s.append(name);
    if cordoned {
        s.append("' cordoned");
    } else {
        s.append("' uncordoned");
    }
    s
}

/// The field selector of the pods on node `name`: `spec.nodeName=<name>`.
pub fn node_pods_selector(name: &str) -> (r: String)
    ensures
        r@ == "spec.nodeName="@ + name@,
{
    let mut s = string_of("spec.nodeName=");
    s.append(name);
    s
}

} // verus!
