//! Network traffic of the pods of a workload: the byte counters that the
//! kubelets report, taken twice, and how much each pod moved in between.
use vstd::prelude::*;
use crate::json::{Json, at, array_of, str_or, u64_of, get, as_array, as_u64, str_or_default};
use crate::hpa::{at2, get2};
use crate::model::{Pod, PodSpec, StrMap, opt_view, unwrap_or_empty};
use crate::restarts::{node_of, age_computable};
use crate::age::age_text;
use crate::text::{views, string_of, str_eq};
use crate::images::selector_of;

pub use crate::units::format_bytes;
pub use crate::age::format_age;

verus! {

/// Renders match labels as a label selector, `k=v` pairs joined by `,`.
pub fn get_workload_selector_sync(labels: &Option<StrMap>) -> (r: String)
    ensures
        r@ == selector_of(*labels),
{
    crate::images::get_selector(labels)
}

/// A pod of the workload: its name, namespace, node and age.
#[derive(Debug)]
pub struct TrafficPod {
    pub name: String,
    pub namespace: String,
    pub node: String,
    pub age: String,
}

/// Describes a pod at Unix time `now`; its age is `?` without a creation
/// time.
pub fn traffic_pod(pod: &Pod, now: i64) -> (r: TrafficPod)
    requires
        age_computable(*pod, now),
    ensures
        r.name@ == opt_view(pod.metadata.name),
        r.namespace@ == opt_view(pod.metadata.namespace),
        r.node@ == node_of(pod.spec),
        r.age@ == (match pod.metadata.creation_timestamp {
            Some(c) => age_text(now - c),
            None => "?"@,
        }),
{
    let node = match &pod.spec {
        Some(s) => unwrap_or_empty(&s.node_name),
        None => String::new(),
    };
    let age = match pod.metadata.creation_timestamp {
        Some(c) => format_age(now - c),
        None => string_of("?"),
    };
    TrafficPod { name: unwrap_or_empty(&pod.metadata.name), namespace: unwrap_or_empty(&pod.metadata.namespace), node, age }
}

/// The nodes that pods of `ps` are placed on, each once, in the order in
/// which they first occur.
pub open spec fn distinct_nodes(ps: Seq<TrafficPod>) -> Seq<Seq<char>>
    decreases ps.len(),
{
    if ps.len() == 0 {
        Seq::empty()
    } else {
        let d = distinct_nodes(ps.drop_last());
        let n = ps.last().node@;
        if n.len() > 0 && !d.contains(n) { d.push(n) } else { d }
    }
}

/// The pods of `ps` placed on node `node`, as (name, namespace), in order.
pub open spec fn pods_on(ps: Seq<TrafficPod>, node: Seq<char>) -> Seq<(Seq<char>, Seq<char>)>
    decreases ps.len(),
{
    if ps.len() == 0 {
        Seq::empty()
    } else {
        let r = pods_on(ps.drop_last(), node);
        if ps.last().node@ == node { r.push((ps.last().name@, ps.last().namespace@)) } else { r }
    }
}

pub open spec fn pair_views(v: Seq<(String, String)>) -> Seq<(Seq<char>, Seq<char>)> {
    v.map_values(|p: (String, String)| (p.0@, p.1@))
}

/// `groups` holds one group per node of `ps`, in the order of
/// `distinct_nodes`, with the pods on that node in order.
pub open spec fn grouped_by_node(groups: Seq<(String, Vec<(String, String)>)>, ps: Seq<TrafficPod>) -> bool {
    &&& groups.len() == distinct_nodes(ps).len()
    &&& forall|i: int| 0 <= i < groups.len() ==> {
        &&& (#[trigger] groups[i]).0@ == distinct_nodes(ps)[i]
        &&& pair_views(groups[i].1@) == pods_on(ps, distinct_nodes(ps)[i])
    }
}

proof fn lemma_absent_node(ps: Seq<TrafficPod>, n: Seq<char>)
    requires
        n.len() > 0,
        !distinct_nodes(ps).contains(n),
    ensures
        pods_on(ps, n) == Seq::<(Seq<char>, Seq<char>)>::empty(),
    decreases ps.len(),
{
    if ps.len() > 0 {
        let d = distinct_nodes(ps.drop_last());
        if d.contains(n) {
            let k = choose|k: int| 0 <= k < d.len() && d[k] == n;
            assert(distinct_nodes(ps).contains(n)) by {
                let m = ps.last().node@;
                if m.len() > 0 && !d.contains(m) {
                    assert(distinct_nodes(ps)[k] == n);
                } else {
                    assert(distinct_nodes(ps)[k] == n);
                }
            }
        }
        lemma_absent_node(ps.drop_last(), n);
        if ps.last().node@ == n {
            assert(distinct_nodes(ps).contains(n)) by {
                assert(distinct_nodes(ps).last() == n);
            }
        }
    }
}

proof fn lemma_distinct_nodes(ps: Seq<TrafficPod>)
    ensures
        forall|i: int, j: int| 0 <= i < j < distinct_nodes(ps).len() ==> distinct_nodes(ps)[i] != distinct_nodes(ps)[j],
        forall|i: int| 0 <= i < distinct_nodes(ps).len() ==> distinct_nodes(ps)[i].len() > 0,
    decreases ps.len(),
{
    if ps.len() > 0 {
        lemma_distinct_nodes(ps.drop_last());
        let d = distinct_nodes(ps.drop_last());
        let n = ps.last().node@;
        if n.len() > 0 && !d.contains(n) {
            assert forall|i: int, j: int| 0 <= i < j < d.push(n).len() implies d.push(n)[i] != d.push(n)[j] by {
                if j == d.len() {
                    assert(d.push(n)[i] == d[i]);
                    if d[i] == n {
                        assert(d.contains(n));
                    }
                }
            }
        }
    }
}

/// Groups the pods by the node they are placed on, to ask each node once.
pub fn group_by_node(ps: &Vec<TrafficPod>) -> (r: Vec<(String, Vec<(String, String)>)>)
    ensures
        grouped_by_node(r@, ps@),
{
    let mut groups: Vec<(String, Vec<(String, String)>)> = Vec::new();
    let mut i: usize = 0;
    while i < ps.len()
        invariant
            i <= ps@.len(),
            grouped_by_node(groups@, ps@.subrange(0, i as int)),
        decreases ps@.len() - i,
    {
        let ghost pre = ps@.subrange(0, i as int);
        let ghost next = ps@.subrange(0, i + 1);
        let ghost dpre = distinct_nodes(pre);
        proof {
            assert(next.drop_last() =~= pre);
            assert(next.last() == ps@[i as int]);
        }
        let p = &ps[i];
        if !p.node.as_str().is_empty() {
            let mut k: usize = 0;
            let mut found = false;
            while k < groups.len() && !found
                invariant
                    k <= groups@.len(),
                    groups@.len() == dpre.len(),
                    forall|t: int| 0 <= t < groups@.len() ==> (#[trigger] groups@[t]).0@ == dpre[t],
                    forall|t: int| 0 <= t < k ==> dpre[t] != p.node@,
                    found ==> k < groups@.len() && dpre[k as int] == p.node@,
                decreases groups@.len() - k + (if found { 0int } else { 1int }),
            {
                if str_eq(groups[k].0.as_str(), p.node.as_str()) {
                    found = true;
                } else {
                    k = k + 1;
                }
            }
            if found {
                let ghost old_groups = groups@;
                let mut g = groups.remove(k);
                g.1.push((p.name.clone(), p.namespace.clone()));
                groups.insert(k, g);
                proof {
                    assert(dpre[k as int] == p.node@);
                    assert(dpre.contains(p.node@));
                    assert(distinct_nodes(next) == dpre);
                    assert(groups@ =~= old_groups.update(k as int, g));
                    assert forall|t: int| 0 <= t < groups@.len() implies {
                        &&& (#[trigger] groups@[t]).0@ == distinct_nodes(next)[t]
                        &&& pair_views(groups@[t].1@) == pods_on(next, distinct_nodes(next)[t])
                    } by {
                        if t == k {
                            assert(pair_views(g.1@) =~= pair_views(old_groups[t].1@).push((p.name@, p.namespace@)));
                        } else {
                            assert(groups@[t] == old_groups[t]);
                            lemma_distinct_nodes(pre);
                        }
                    }
                }
            } else {
                let ghost old_groups = groups@;
                let mut v: Vec<(String, String)> = Vec::new();
                v.push((p.name.clone(), p.namespace.clone()));
                groups.push((p.node.clone(), v));
                proof {
                    assert(!dpre.contains(p.node@));
                    lemma_absent_node(pre, p.node@);
                    assert(distinct_nodes(next) == dpre.push(p.node@));
                    assert(pair_views(v@) =~= seq![(p.name@, p.namespace@)]);
                    assert(pods_on(next, p.node@) =~= seq![(p.name@, p.namespace@)]);
                    assert forall|t: int| 0 <= t < groups@.len() implies {
                        &&& (#[trigger] groups@[t]).0@ == distinct_nodes(next)[t]
                        &&& pair_views(groups@[t].1@) == pods_on(next, distinct_nodes(next)[t])
                    } by {
                        if t < old_groups.len() {
                            assert(groups@[t] == old_groups[t]);
                            assert(dpre[t] != p.node@);
                        }
                    }
                }
            }
        } else {
            proof {
                assert(distinct_nodes(next) == dpre);
                assert forall|t: int| 0 <= t < groups@.len() implies {
                    &&& (#[trigger] groups@[t]).0@ == distinct_nodes(next)[t]
                    &&& pair_views(groups@[t].1@) == pods_on(next, distinct_nodes(next)[t])
                } by {
                    lemma_distinct_nodes(pre);
                }
            }
        }
        i = i + 1;
    }
    assert(ps@.subrange(0, ps@.len() as int) =~= ps@);
    groups
}

/// A pod's byte counters as the kubelet of its node reported them.
#[derive(Debug)]
pub struct PodCounters {
    pub pod_name: String,
    pub namespace: String,
    pub node: String,
    pub rx_bytes: u64,
    pub tx_bytes: u64,
}

/// A byte counter of a pod's network statistics, 0 when absent.
pub open spec fn net_count(ps: Json, key: Seq<char>) -> u64 {
    match u64_of(at2(ps, "network"@, key)) {
        Some(n) => n,
        None => 0,
    }
}

/// The counters of pod statistics `ps` for each entry of `pods` it names,
/// in the order of `pods`.
pub open spec fn matches_of(ps: Json, pods: Seq<(Seq<char>, Seq<char>)>, node: Seq<char>) -> Seq<(Seq<char>, Seq<char>, Seq<char>, u64, u64)>
    decreases pods.len(),
{
    if pods.len() == 0 {
        Seq::empty()
    } else {
        let r = matches_of(ps, pods.drop_last(), node);
        let (pn, pns) = pods.last();
        if str_or(at2(ps, "podRef"@, "name"@), Seq::empty()) == pn && str_or(at2(ps, "podRef"@, "namespace"@), Seq::empty()) == pns {
            r.push((pn, pns, node, net_count(ps, "rxBytes"@), net_count(ps, "txBytes"@)))
        } else {
            r
        }
    }
}

/// The counters for `pods` in the pod statistics `stats`, in order.
pub open spec fn counters_in(stats: Seq<Json>, pods: Seq<(Seq<char>, Seq<char>)>, node: Seq<char>) -> Seq<(Seq<char>, Seq<char>, Seq<char>, u64, u64)>
    decreases stats.len(),
{
    if stats.len() == 0 {
        Seq::empty()
    } else {
        counters_in(stats.drop_last(), pods, node) + matches_of(stats.last(), pods, node)
    }
}

/// The counters of a stats summary of node `node` for the pods `pods`.
pub open spec fn node_counters(summary: Json, pods: Seq<(Seq<char>, Seq<char>)>, node: Seq<char>) -> Seq<(Seq<char>, Seq<char>, Seq<char>, u64, u64)> {
    match array_of(at(Some(summary), "pods"@)) {
        Some(ps) => counters_in(ps, pods, node),
        None => Seq::empty(),
    }
}

pub open spec fn counters_view(c: PodCounters) -> (Seq<char>, Seq<char>, Seq<char>, u64, u64) {
    (c.pod_name@, c.namespace@, c.node@, c.rx_bytes, c.tx_bytes)
}

pub open spec fn counters_views(v: Seq<PodCounters>) -> Seq<(Seq<char>, Seq<char>, Seq<char>, u64, u64)> {
    v.map_values(|c: PodCounters| counters_view(c))
}

fn net_count_exec(ps: &Json, key: &str) -> (r: u64)
    ensures
        r == net_count(*ps, key@),
{
    match as_u64(get2(ps, "network", key)) {
        Some(n) => n,
        None => 0,
    }
}

/// Adds to `out` the counters in a stats summary of node `node` for each
/// of `pods`, in the order of the summary and then of `pods`.
pub fn add_node_counters(out: &mut Vec<PodCounters>, summary: &Json, node: &str, pods: &Vec<(String, String)>)
    ensures
        counters_views(final(out)@) == counters_views(old(out)@) + node_counters(*summary, pair_views(pods@), node@),
{
    let ghost start = counters_views(out@);
    let ghost pv = pair_views(pods@);
    match as_array(get(Some(summary), "pods")) {
        Some(stats) => {
            let mut i: usize = 0;
            proof {
                assert(counters_views(out@) =~= start + counters_in(stats@.subrange(0, 0), pv, node@));
            }
            while i < stats.len()
                invariant
                    i <= stats@.len(),
                    pv == pair_views(pods@),
                    counters_views(out@) == start + counters_in(stats@.subrange(0, i as int), pv, node@),
                decreases stats@.len() - i,
            {
                let ghost mid = counters_views(out@);
                let ps = &stats[i];
                let name = str_or_default(get2(ps, "podRef", "name"), "");
                let ns = str_or_default(get2(ps, "podRef", "namespace"), "");
                proof {
                    reveal_strlit("");
                    assert(""@ =~= Seq::<char>::empty());
                }
                let mut j: usize = 0;
                proof {
                    assert(pv.subrange(0, 0) =~= Seq::<(Seq<char>, Seq<char>)>::empty());
                    assert(counters_views(out@) =~= mid + matches_of(*ps, pv.subrange(0, 0), node@));
                }
                while j < pods.len()
                    invariant
                        j <= pods@.len(),
                        pv == pair_views(pods@),
                        name@ == str_or(at2(*ps, "podRef"@, "name"@), Seq::empty()),
                        ns@ == str_or(at2(*ps, "podRef"@, "namespace"@), Seq::empty()),
                        counters_views(out@) == mid + matches_of(*ps, pv.subrange(0, j as int), node@),
                    decreases pods@.len() - j,
                {
                    let ghost before = counters_views(out@);
                    proof {
                        assert(pv.subrange(0, j + 1).drop_last() =~= pv.subrange(0, j as int));
                        assert(pv.subrange(0, j + 1).last() == (pods@[j as int].0@, pods@[j as int].1@));
                    }
                    if str_eq(name.as_str(), pods[j].0.as_str()) && str_eq(ns.as_str(), pods[j].1.as_str()) {
                        let c = PodCounters {
                            pod_name: pods[j].0.clone(),
                            namespace: pods[j].1.clone(),
                            node: string_of(node),
                            rx_bytes: net_count_exec(ps, "rxBytes"),
                            tx_bytes: net_count_exec(ps, "txBytes"),
                        };
                        out.push(c);
                        proof {
                            assert(counters_views(out@) =~= before.push(counters_view(c)));
                        }
                    }
                    j = j + 1;
                }
                proof {
                    assert(pv.subrange(0, pods@.len() as int) =~= pv);
                    assert(stats@.subrange(0, i + 1).drop_last() =~= stats@.subrange(0, i as int));
                    assert(stats@.subrange(0, i + 1).last() == stats@[i as int]);
                    assert(counters_views(out@) =~= start + counters_in(stats@.subrange(0, i + 1), pv, node@));
                }
                i = i + 1;
            }
            proof {
                assert(stats@.subrange(0, stats@.len() as int) =~= stats@);
            }
        },
        None => {
            assert(counters_views(out@) =~= start + node_counters(*summary, pv, node@));
        },
    }
}

/// The traffic of a pod between two readings of its counters.
#[derive(Debug)]
pub struct PodDelta {
    pub pod_name: String,
    pub namespace: String,
    pub node: String,
    /// The counters at the second reading.
    pub rx_bytes: u64,
    pub tx_bytes: u64,
    /// The bytes moved since the first reading; 0 when the counter went
    /// down, or when the first reading lacks the pod.
    pub rx_delta: u64,
    pub tx_delta: u64,
}

/// The counters of the last entry of `snap` for pod `name`.
pub open spec fn last_counters(snap: Seq<PodCounters>, name: Seq<char>) -> Option<(u64, u64)>
    decreases snap.len(),
{
    if snap.len() == 0 {
        None
    } else if snap.last().pod_name@ == name {
        Some((snap.last().rx_bytes, snap.last().tx_bytes))
    } else {
        last_counters(snap.drop_last(), name)
    }
}

/// `a - b`, or 0 when `b` is larger.
pub open spec fn saturating_diff(a: u64, b: u64) -> u64 {
    if a >= b { (a - b) as u64 } else { 0 }
}

/// `d` is the traffic of the second reading `c` against the first
/// reading `snap1`.
pub open spec fn delta_of(d: PodDelta, c: PodCounters, snap1: Seq<PodCounters>) -> bool {
    let (rx1, tx1) = match last_counters(snap1, c.pod_name@) {
        Some(p) => p,
        None => (c.rx_bytes, c.tx_bytes),
    };
    &&& d.pod_name@ == c.pod_name@
    &&& d.namespace@ == c.namespace@
    &&& d.node@ == c.node@
    &&& d.rx_bytes == c.rx_bytes
    &&& d.tx_bytes == c.tx_bytes
    &&& d.rx_delta == saturating_diff(c.rx_bytes, rx1)
    &&& d.tx_delta == saturating_diff(c.tx_bytes, tx1)
}

fn find_counters(snap: &Vec<PodCounters>, name: &str) -> (r: Option<(u64, u64)>)
    ensures
        r == last_counters(snap@, name@),
{
    let mut i = snap.len();
    assert(snap@.subrange(0, i as int) =~= snap@);
    while i > 0
        invariant
            i <= snap@.len(),
            last_counters(snap@, name@) == last_counters(snap@.subrange(0, i as int), name@),
        decreases i,
    {
        let ghost pre = snap@.subrange(0, i as int);
        assert(pre.drop_last() =~= snap@.subrange(0, i - 1));
        assert(pre.last() == snap@[i - 1]);
        if str_eq(snap[i - 1].pod_name.as_str(), name) {
            return Some((snap[i - 1].rx_bytes, snap[i - 1].tx_bytes));
        }
        i = i - 1;
    }
    None
}

/// The traffic of each pod of the second reading, in its order.
pub fn pod_deltas(snap1: &Vec<PodCounters>, snap2: &Vec<PodCounters>) -> (r: Vec<PodDelta>)
    ensures
        r@.len() == snap2@.len(),
        forall|i: int| 0 <= i < snap2@.len() ==> delta_of(#[trigger] r@[i], snap2@[i], snap1@),
{
    let mut out: Vec<PodDelta> = Vec::new();
    let mut i: usize = 0;
    while i < snap2.len()
        invariant
            i <= snap2@.len(),
            out@.len() == i,
            forall|k: int| 0 <= k < i ==> delta_of(#[trigger] out@[k], snap2@[k], snap1@),
        decreases snap2@.len() - i,
    {
        let c = &snap2[i];
        let (rx1, tx1) = match find_counters(snap1, c.pod_name.as_str()) {
            Some(p) => p,
            None => (c.rx_bytes, c.tx_bytes),
        };
        let d = PodDelta {
            pod_name: c.pod_name.clone(),
            namespace: c.namespace.clone(),
            node: c.node.clone(),
            rx_bytes: c.rx_bytes,
            tx_bytes: c.tx_bytes,
            rx_delta: c.rx_bytes.saturating_sub(rx1),
            tx_delta: c.tx_bytes.saturating_sub(tx1),
        };
        out.push(d);
        i = i + 1;
    }
    out
}

/// The last pod of `pods` named `name`.
pub open spec fn last_pod(pods: Seq<TrafficPod>, name: Seq<char>) -> Option<TrafficPod>
    decreases pods.len(),
{
    if pods.len() == 0 {
        None
    } else if pods.last().name@ == name {
        Some(pods.last())
    } else {
        last_pod(pods.drop_last(), name)
    }
}

/// The age shown for pod `name`: that of the last pod so named, empty
/// when none is.
pub fn age_of_pod(pods: &Vec<TrafficPod>, name: &str) -> (r: String)
    ensures
        r@ == (match last_pod(pods@, name@) { Some(p) => p.age@, None => Seq::empty() }),
{
    let mut i = pods.len();
    assert(pods@.subrange(0, i as int) =~= pods@);
    while i > 0
        invariant
            i <= pods@.len(),
            last_pod(pods@, name@) == last_pod(pods@.subrange(0, i as int), name@),
        decreases i,
    {
        let ghost pre = pods@.subrange(0, i as int);
        assert(pre.drop_last() =~= pods@.subrange(0, i - 1));
        assert(pre.last() == pods@[i - 1]);
        if str_eq(pods[i - 1].name.as_str(), name) {
            return pods[i - 1].age.clone();
        }
        i = i - 1;
    }
    String::new()
}

} // verus!
