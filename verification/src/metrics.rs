//! Resource usage of pods, nodes and volumes, as the metrics API and the
//! kubelets report it, set against what the cluster declares: requests and
//! limits of pods, allocatable capacity of nodes, sizes of claims.
//! Sums wrap around at 2^64.
use vstd::prelude::*;
use vstd::wrapping::u64_specs::wrapping_add;
use crate::json::{Json, at, array_of, str_or, u64_of, deref_opt, get, as_array, as_u64, str_or_default};
use crate::model::{Pod, PodSpec, Container, Node, StrMap, map_get, map_lookup, opt_view, opt_view_or, unwrap_or_str, unwrap_or_empty, clone_opt};
use crate::benchmark::{sample_of, current_of, current_resources, usage, opt_seq};
use crate::hpa::{at2, get2};
use crate::quantity::{parse_cpu, parse_memory, parse_cpu_spec, parse_memory_spec};
use crate::units::{cpu_repr, memory_repr, render_cpu, render_memory};
use crate::text::str_eq;

verus! {

/// Usage of one container of a pod.
#[derive(Debug)]
pub struct ContainerMetrics {
    pub name: String,
    pub cpu: String,
    pub memory: String,
    pub cpu_millicores: u64,
    pub memory_bytes: u64,
}

/// `m` millicores as shown: `1.5 cores`, `250m`.
pub open spec fn cpu_text(m: u64) -> Seq<char> {
    cpu_repr(m as nat, seq![' ', 'c', 'o', 'r', 'e', 's'])
}

/// `b` bytes as shown: `1.5 Gi`, `512 Mi`, `4 Ki`, `100 B`.
pub open spec fn memory_text(b: u64) -> Seq<char> {
    memory_repr(b as nat, seq![' '])
}

/// Renders millicores: one decimal and ` cores` from one core up, else `<m>m`.
pub fn format_cpu(millicores: u64) -> (r: String)
    ensures
        r@ == cpu_text(millicores),
{
    render_cpu(millicores, true)
}

/// Renders bytes in binary units, with a space before the unit.
pub fn format_memory(bytes: u64) -> (r: String)
    ensures
        r@ == memory_text(bytes),
{
    render_memory(bytes, true)
}

/// The CPU and memory requests and limits of `cs`, summed:
/// (request CPU, request memory, limit CPU, limit memory).
pub open spec fn allotment_of(cs: Seq<Container>) -> (u64, u64, u64, u64)
    decreases cs.len(),
{
    if cs.len() == 0 {
        (0, 0, 0, 0)
    } else {
        let p = allotment_of(cs.drop_last());
        let c = current_of(cs.last());
        (wrapping_add(p.0, c.0), wrapping_add(p.1, c.1), wrapping_add(p.2, c.2), wrapping_add(p.3, c.3))
    }
}

/// The allotment of the containers of a pod spec, all zero without one.
pub open spec fn pod_allotment_of(spec: Option<PodSpec>) -> (u64, u64, u64, u64) {
    match spec {
        Some(s) => allotment_of(s.containers@),
        None => (0, 0, 0, 0),
    }
}

/// Sums the requests and limits of the containers of `spec`.
pub fn pod_allotment(spec: &Option<PodSpec>) -> (r: (u64, u64, u64, u64))
    ensures
        r == pod_allotment_of(*spec),
{
    let mut t: (u64, u64, u64, u64) = (0, 0, 0, 0);
    match spec {
        Some(s) => {
            let mut i: usize = 0;
            while i < s.containers.len()
                invariant
                    i <= s.containers@.len(),
                    t == allotment_of(s.containers@.subrange(0, i as int)),
                decreases s.containers@.len() - i,
            {
                proof {
                    assert(s.containers@.subrange(0, i + 1).drop_last() =~= s.containers@.subrange(0, i as int));
                }
                let c = current_resources(&s.containers[i]);
                t = (t.0.wrapping_add(c.req_cpu), t.1.wrapping_add(c.req_mem), t.2.wrapping_add(c.lim_cpu), t.3.wrapping_add(c.lim_mem));
                i = i + 1;
            }
            proof {
                assert(s.containers@.subrange(0, s.containers@.len() as int) =~= s.containers@);
            }
        },
        None => {},
    }
    t
}

/// The key of an object: `<namespace>/<name>`.
pub open spec fn object_key(ns: Seq<char>, name: Seq<char>) -> Seq<char> {
    ns + seq!['/'] + name
}

/// Builds `<namespace>/<name>`.
pub fn object_key_exec(ns: &str, name: &str) -> (r: String)
    ensures
        r@ == object_key(ns@, name@),
{
    let mut s = String::from_str(ns);
    s.append("/");
    s.append(name);
    proof {
        reveal_strlit("/");
    }
    s
}

/// The key of a pod, its namespace taken as `default` when unset.
pub open spec fn pod_key_of(p: Pod) -> Seq<char> {
    object_key(opt_view_or(p.metadata.namespace, "default"@), opt_view(p.metadata.name))
}

/// The allotment of the last pod in `pods` whose key is `key`, all zero
/// when none has it.
pub open spec fn allotment_for(pods: Seq<Pod>, key: Seq<char>) -> (u64, u64, u64, u64)
    decreases pods.len(),
{
    if pods.len() == 0 {
        (0, 0, 0, 0)
    } else if pod_key_of(pods.last()) == key {
        pod_allotment_of(pods.last().spec)
    } else {
        allotment_for(pods.drop_last(), key)
    }
}

fn pod_key(p: &Pod) -> (r: String)
    ensures
        r@ == pod_key_of(*p),
{
    let ns = unwrap_or_str(&p.metadata.namespace, "default");
    let name = unwrap_or_empty(&p.metadata.name);
    object_key_exec(ns.as_str(), name.as_str())
}

/// The allotment of the pod with key `key` among `pods`.
pub fn find_allotment(pods: &Vec<Pod>, key: &str) -> (r: (u64, u64, u64, u64))
    ensures
        r == allotment_for(pods@, key@),
{
    let mut i = pods.len();
    assert(pods@.subrange(0, i as int) =~= pods@);
    while i > 0
        invariant
            i <= pods@.len(),
            allotment_for(pods@, key@) == allotment_for(pods@.subrange(0, i as int), key@),
        decreases i,
    {
        let ghost pre = pods@.subrange(0, i as int);
        assert(pre.drop_last() =~= pods@.subrange(0, i - 1));
        assert(pre.last() == pods@[i - 1]);
        let k = pod_key(&pods[i - 1]);
        if str_eq(k.as_str(), key) {
            return pod_allotment(&pods[i - 1].spec);
        }
        i = i - 1;
    }
    (0, 0, 0, 0)
}

/// Usage of a pod: per container and in total, with the pod's requests
/// and limits; the shares of them are left to the caller.
#[derive(Debug)]
pub struct PodUsage {
    pub name: String,
    pub namespace: String,
    pub containers: Vec<ContainerMetrics>,
    pub cpu_total: String,
    pub memory_total: String,
    pub cpu_millicores: u64,
    pub memory_bytes: u64,
    pub req_cpu: u64,
    pub req_mem: u64,
    pub lim_cpu: u64,
    pub lim_mem: u64,
    pub cpu_request: Option<String>,
    pub memory_request: Option<String>,
    pub cpu_limit: Option<String>,
    pub memory_limit: Option<String>,
}

/// The containers listed by a metrics item, none when it lists none.
pub open spec fn item_containers(item: Json) -> Seq<Json> {
    match array_of(at(Some(item), "containers"@)) {
        Some(cs) => cs,
        None => Seq::empty(),
    }
}

/// CPU and memory usage of `cs`, summed.
pub open spec fn usage_totals(cs: Seq<Json>) -> (u64, u64)
    decreases cs.len(),
{
    if cs.len() == 0 {
        (0, 0)
    } else {
        let t = usage_totals(cs.drop_last());
        let s = sample_of(cs.last()).1;
        (wrapping_add(t.0, s.0), wrapping_add(t.1, s.1))
    }
}

/// `m` reports the usage of container `c`.
pub open spec fn container_metrics_of(m: ContainerMetrics, c: Json) -> bool {
    let (name, (cpu, mem)) = sample_of(c);
    &&& m.name@ == name
    &&& m.cpu_millicores == cpu
    &&& m.memory_bytes == mem
    &&& m.cpu@ == cpu_text(cpu)
    &&& m.memory@ == memory_text(mem)
}

/// The rendering of a nonzero amount, none for zero.
pub open spec fn shown_if_set(x: u64, text: Seq<char>) -> Option<Seq<char>> {
    if x > 0 { Some(text) } else { None }
}

/// The name of a metrics item, empty when absent.
pub open spec fn item_name(item: Json) -> Seq<char> {
    str_or(at2(item, "metadata"@, "name"@), Seq::empty())
}

/// The namespace of a metrics item, `default` when absent.
pub open spec fn item_namespace(item: Json) -> Seq<char> {
    str_or(at2(item, "metadata"@, "namespace"@), "default"@)
}

/// `u` reports the pod metrics item `item`, with the requests and limits
/// of the pod of the same key among `pods`.
pub open spec fn pod_usage_of(u: PodUsage, item: Json, pods: Seq<Pod>) -> bool {
    let cs = item_containers(item);
    let (tc, tm) = usage_totals(cs);
    let a = allotment_for(pods, object_key(item_namespace(item), item_name(item)));
    &&& u.name@ == item_name(item)
    &&& u.namespace@ == item_namespace(item)
    &&& u.containers@.len() == cs.len()
    &&& forall|i: int| 0 <= i < cs.len() ==> container_metrics_of(#[trigger] u.containers@[i], cs[i])
    &&& u.cpu_millicores == tc
    &&& u.memory_bytes == tm
    &&& u.cpu_total@ == cpu_text(tc)
    &&& u.memory_total@ == memory_text(tm)
    &&& (u.req_cpu, u.req_mem, u.lim_cpu, u.lim_mem) == a
    &&& opt_seq(u.cpu_request) == shown_if_set(a.0, cpu_text(a.0))
    &&& opt_seq(u.memory_request) == shown_if_set(a.1, memory_text(a.1))
    &&& opt_seq(u.cpu_limit) == shown_if_set(a.2, cpu_text(a.2))
    &&& opt_seq(u.memory_limit) == shown_if_set(a.3, memory_text(a.3))
}

fn cpu_if_set(x: u64) -> (r: Option<String>)
    ensures
        opt_seq(r) == shown_if_set(x, cpu_text(x)),
{
    if x > 0 { Some(format_cpu(x)) } else { None }
}

fn memory_if_set(x: u64) -> (r: Option<String>)
    ensures
        opt_seq(r) == shown_if_set(x, memory_text(x)),
{
    if x > 0 { Some(format_memory(x)) } else { None }
}

/// The name and namespace of a metrics item.
fn item_ident(item: &Json) -> (r: (String, String))
    ensures
        r.0@ == item_name(*item),
        r.1@ == item_namespace(*item),
{
    let name = str_or_default(get2(item, "metadata", "name"), "");
    let ns = str_or_default(get2(item, "metadata", "namespace"), "default");
    proof {
        reveal_strlit("");
    }
    (name, ns)
}

/// The usage of the pod that the metrics item `item` reports.
pub fn pod_usage(item: &Json, pods: &Vec<Pod>) -> (r: PodUsage)
    ensures
        pod_usage_of(r, *item, pods@),
{
    let (name, ns) = item_ident(item);
    let mut containers: Vec<ContainerMetrics> = Vec::new();
    let mut tc: u64 = 0;
    let mut tm: u64 = 0;
    let ghost cs = item_containers(*item);
    match as_array(get(Some(item), "containers")) {
        Some(arr) => {
            assert(arr@ == cs);
            let mut i: usize = 0;
            while i < arr.len()
                invariant
                    arr@ == cs,
                    i <= cs.len(),
                    containers@.len() == i,
                    (tc, tm) == usage_totals(cs.subrange(0, i as int)),
                    forall|j: int| 0 <= j < i ==> container_metrics_of(#[trigger] containers@[j], cs[j]),
                decreases cs.len() - i,
            {
                proof {
                    assert(cs.subrange(0, i + 1).drop_last() =~= cs.subrange(0, i as int));
                    assert(cs.subrange(0, i + 1).last() == cs[i as int]);
                }
                let c = &arr[i];
                let cname = str_or_default(get(Some(c), "name"), "");
                proof {
                    reveal_strlit("");
                }
                let cpu_s = usage(c, "cpu");
                let mem_s = usage(c, "memory");
                let cpu = parse_cpu(cpu_s.as_str());
                let mem = parse_memory(mem_s.as_str());
                assert(sample_of(cs[i as int]) == (cname@, (cpu, mem)));
                tc = tc.wrapping_add(cpu);
                tm = tm.wrapping_add(mem);
                let m = ContainerMetrics {
                    name: cname,
                    cpu: format_cpu(cpu),
                    memory: format_memory(mem),
                    cpu_millicores: cpu,
                    memory_bytes: mem,
                };
                containers.push(m);
                i = i + 1;
            }
            proof {
                assert(cs.subrange(0, cs.len() as int) =~= cs);
            }
        },
        None => {
            assert(cs =~= Seq::<Json>::empty());
        },
    }
    let key = object_key_exec(ns.as_str(), name.as_str());
    let a = find_allotment(pods, key.as_str());
    let cpu_total = format_cpu(tc);
    let memory_total = format_memory(tm);
    let cpu_request = cpu_if_set(a.0);
    let memory_request = memory_if_set(a.1);
    let cpu_limit = cpu_if_set(a.2);
    let memory_limit = memory_if_set(a.3);
    PodUsage {
        name,
        namespace: ns,
        containers,
        cpu_total,
        memory_total,
        cpu_millicores: tc,
        memory_bytes: tm,
        req_cpu: a.0,
        req_mem: a.1,
        lim_cpu: a.2,
        lim_mem: a.3,
        cpu_request,
        memory_request,
        cpu_limit,
        memory_limit,
    }
}

/// The `items` list of a metrics API response.
pub fn metrics_items(raw: &Json) -> (r: Option<&Vec<Json>>)
    ensures
        match r {
            Some(v) => array_of(at(Some(*raw), "items"@)) == Some(v@),
            None => array_of(at(Some(*raw), "items"@)) is None,
        },
{
    as_array(get(Some(raw), "items"))
}

/// The usage of each pod of a metrics response, in order.
pub fn pod_usages(items: &Vec<Json>, pods: &Vec<Pod>) -> (r: Vec<PodUsage>)
    ensures
        r@.len() == items@.len(),
        forall|i: int| 0 <= i < items@.len() ==> pod_usage_of(#[trigger] r@[i], items@[i], pods@),
{
    let mut out: Vec<PodUsage> = Vec::new();
    let mut i: usize = 0;
    while i < items.len()
        invariant
            i <= items@.len(),
            out@.len() == i,
            forall|j: int| 0 <= j < i ==> pod_usage_of(#[trigger] out@[j], items@[j], pods@),
        decreases items@.len() - i,
    {
        let u = pod_usage(&items[i], pods);
        out.push(u);
        i = i + 1;
    }
    out
}

/// The allocatable CPU and memory of the last node named `name` among
/// those of `nodes` that report allocatable resources, zero when none does.
pub open spec fn capacity_for(nodes: Seq<Node>, name: Seq<char>) -> (u64, u64)
    decreases nodes.len(),
{
    if nodes.len() == 0 {
        (0, 0)
    } else {
        let n = nodes.last();
        match n.allocatable {
            Some(a) if opt_view(n.metadata.name) == name => (
                match map_get(a@, "cpu"@) { Some(q) => parse_cpu_spec(q), None => 0 },
                match map_get(a@, "memory"@) { Some(q) => parse_memory_spec(q), None => 0 },
            ),
            _ => capacity_for(nodes.drop_last(), name),
        }
    }
}

fn allocatable_of(a: &StrMap) -> (r: (u64, u64))
    ensures
        r == (
            match map_get(a@, "cpu"@) { Some(q) => parse_cpu_spec(q), None => 0u64 },
            match map_get(a@, "memory"@) { Some(q) => parse_memory_spec(q), None => 0u64 },
        ),
{
    let cpu = match map_lookup(a, "cpu") {
        Some(q) => parse_cpu(q.as_str()),
        None => 0,
    };
    let mem = match map_lookup(a, "memory") {
        Some(q) => parse_memory(q.as_str()),
        None => 0,
    };
    (cpu, mem)
}

/// The allocatable CPU and memory of the node named `name`.
pub fn find_capacity(nodes: &Vec<Node>, name: &str) -> (r: (u64, u64))
    ensures
        r == capacity_for(nodes@, name@),
{
    let mut i = nodes.len();
    assert(nodes@.subrange(0, i as int) =~= nodes@);
    while i > 0
        invariant
            i <= nodes@.len(),
            capacity_for(nodes@, name@) == capacity_for(nodes@.subrange(0, i as int), name@),
        decreases i,
    {
        let ghost pre = nodes@.subrange(0, i as int);
        assert(pre.drop_last() =~= nodes@.subrange(0, i - 1));
        assert(pre.last() == nodes@[i - 1]);
        let n = &nodes[i - 1];
        match &n.allocatable {
            Some(a) => {
                let nm = unwrap_or_empty(&n.metadata.name);
                if str_eq(nm.as_str(), name) {
                    return allocatable_of(a);
                }
            },
            None => {},
        }
        i = i - 1;
    }
    (0, 0)
}

/// Usage of a node with its allocatable capacity; the shares of it are
/// left to the caller.
#[derive(Debug)]
pub struct NodeUsage {
    pub name: String,
    pub cpu: String,
    pub memory: String,
    pub cpu_millicores: u64,
    pub memory_bytes: u64,
    pub cpu_capacity: u64,
    pub memory_capacity: u64,
}

/// `u` reports the node metrics item `item`, with the capacity of the
/// node of that name among `nodes`.
pub open spec fn node_usage_of(u: NodeUsage, item: Json, nodes: Seq<Node>) -> bool {
    let cpu = parse_cpu_spec(str_or(at2(item, "usage"@, "cpu"@), "0"@));
    let mem = parse_memory_spec(str_or(at2(item, "usage"@, "memory"@), "0"@));
    let cap = capacity_for(nodes, item_name(item));
    &&& u.name@ == item_name(item)
    &&& u.cpu_millicores == cpu
    &&& u.memory_bytes == mem
    &&& u.cpu@ == cpu_text(cpu)
    &&& u.memory@ == memory_text(mem)
    &&& u.cpu_capacity == cap.0
    &&& u.memory_capacity == cap.1
}

/// The usage of the node that the metrics item `item` reports.
pub fn node_usage(item: &Json, nodes: &Vec<Node>) -> (r: NodeUsage)
    ensures
        node_usage_of(r, *item, nodes@),
{
    let (name, _ns) = item_ident(item);
    let cpu_s = str_or_default(get2(item, "usage", "cpu"), "0");
    let mem_s = str_or_default(get2(item, "usage", "memory"), "0");
    let cpu = parse_cpu(cpu_s.as_str());
    let mem = parse_memory(mem_s.as_str());
    let cap = find_capacity(nodes, name.as_str());
    NodeUsage {
        name,
        cpu: format_cpu(cpu),
        memory: format_memory(mem),
        cpu_millicores: cpu,
        memory_bytes: mem,
        cpu_capacity: cap.0,
        memory_capacity: cap.1,
    }
}

/// The usage of each node of a metrics response, in order.
pub fn node_usages(items: &Vec<Json>, nodes: &Vec<Node>) -> (r: Vec<NodeUsage>)
    ensures
        r@.len() == items@.len(),
        forall|i: int| 0 <= i < items@.len() ==> node_usage_of(#[trigger] r@[i], items@[i], nodes@),
{
    let mut out: Vec<NodeUsage> = Vec::new();
    let mut i: usize = 0;
    while i < items.len()
        invariant
            i <= items@.len(),
            out@.len() == i,
            forall|j: int| 0 <= j < i ==> node_usage_of(#[trigger] out@[j], items@[j], nodes@),
        decreases items@.len() - i,
    {
        let u = node_usage(&items[i], nodes);
        out.push(u);
        i = i + 1;
    }
    out
}

/// Usage and capacity of `us` summed over the nodes: (CPU used, memory
/// used, CPU capacity, memory capacity).
pub open spec fn cluster_totals_of(us: Seq<NodeUsage>) -> (u64, u64, u64, u64)
    decreases us.len(),
{
    if us.len() == 0 {
        (0, 0, 0, 0)
    } else {
        let p = cluster_totals_of(us.drop_last());
        let u = us.last();
        (
            wrapping_add(p.0, u.cpu_millicores),
            wrapping_add(p.1, u.memory_bytes),
            wrapping_add(p.2, u.cpu_capacity),
            wrapping_add(p.3, u.memory_capacity),
        )
    }
}

/// Sums usage and capacity over the nodes.
pub fn cluster_totals(us: &Vec<NodeUsage>) -> (r: (u64, u64, u64, u64))
    ensures
        r == cluster_totals_of(us@),
{
    let mut t: (u64, u64, u64, u64) = (0, 0, 0, 0);
    let mut i: usize = 0;
    while i < us.len()
        invariant
            i <= us@.len(),
            t == cluster_totals_of(us@.subrange(0, i as int)),
        decreases us@.len() - i,
    {
        proof {
            assert(us@.subrange(0, i + 1).drop_last() =~= us@.subrange(0, i as int));
        }
        let u = &us[i];
        t = (
            t.0.wrapping_add(u.cpu_millicores),
            t.1.wrapping_add(u.memory_bytes),
            t.2.wrapping_add(u.cpu_capacity),
            t.3.wrapping_add(u.memory_capacity),
        );
        i = i + 1;
    }
    proof {
        assert(us@.subrange(0, us@.len() as int) =~= us@);
    }
    t
}

/// What the volume metrics read of a persistent volume claim.
#[derive(Debug)]
pub struct ClaimInfo {
    pub name: Option<String>,
    pub namespace: Option<String>,
    /// `status.capacity.storage`, the capacity the claim is bound with.
    pub bound_storage: Option<String>,
    /// `spec.resources.requests.storage`, the capacity asked for.
    pub requested_storage: Option<String>,
    pub volume_name: Option<String>,
}

/// Usage of a claimed volume as a kubelet reports it, with the pod that
/// mounts it.
#[derive(Debug)]
pub struct VolumeStat {
    pub used: u64,
    pub capacity: u64,
    pub available: u64,
    pub pod_name: String,
}

/// A volume statistic as plain values: (used, capacity, available, pod).
pub open spec fn stat_view(e: (String, VolumeStat)) -> (Seq<char>, (u64, u64, u64, Seq<char>)) {
    (e.0@, (e.1.used, e.1.capacity, e.1.available, e.1.pod_name@))
}

pub open spec fn stat_views(t: Seq<(String, VolumeStat)>) -> Seq<(Seq<char>, (u64, u64, u64, Seq<char>))> {
    t.map_values(|e: (String, VolumeStat)| stat_view(e))
}

/// A byte count of a volume statistic, 0 when absent or not a count.
pub open spec fn count_at(v: Json, key: Seq<char>) -> u64 {
    match u64_of(at(Some(v), key)) {
        Some(n) => n,
        None => 0,
    }
}

/// The entry for volume `v`, which refers to claim `r`, of a pod in
/// namespace `pod_ns` named `pod_name`: keyed by the claim, whose namespace
/// is the pod's unless it names one.
pub open spec fn volume_entry(v: Json, r: Json, pod_ns: Seq<char>, pod_name: Seq<char>) -> (Seq<char>, (u64, u64, u64, Seq<char>)) {
    (
        object_key(str_or(at(Some(r), "namespace"@), pod_ns), str_or(at(Some(r), "name"@), Seq::empty())),
        (count_at(v, "usedBytes"@), count_at(v, "capacityBytes"@), count_at(v, "availableBytes"@), pod_name),
    )
}

/// The entries for those of `vols` that refer to a claim, in order.
pub open spec fn volume_entries(vols: Seq<Json>, pod_ns: Seq<char>, pod_name: Seq<char>) -> Seq<(Seq<char>, (u64, u64, u64, Seq<char>))>
    decreases vols.len(),
{
    if vols.len() == 0 {
        Seq::empty()
    } else {
        let rest = volume_entries(vols.drop_last(), pod_ns, pod_name);
        match at(Some(vols.last()), "pvcRef"@) {
            Some(r) => rest.push(volume_entry(vols.last(), r, pod_ns, pod_name)),
            None => rest,
        }
    }
}

/// The volumes a pod entry of a stats summary lists.
pub open spec fn pod_volumes(p: Json) -> Seq<Json> {
    match array_of(at(Some(p), "volume"@)) {
        Some(vs) => vs,
        None => Seq::empty(),
    }
}

/// The entries for the claimed volumes of each of `pods`, in order.
pub open spec fn pod_entries(pods: Seq<Json>) -> Seq<(Seq<char>, (u64, u64, u64, Seq<char>))>
    decreases pods.len(),
{
    if pods.len() == 0 {
        Seq::empty()
    } else {
        let p = pods.last();
        pod_entries(pods.drop_last()) + volume_entries(
            pod_volumes(p),
            str_or(at2(p, "podRef"@, "namespace"@), Seq::empty()),
            str_or(at2(p, "podRef"@, "name"@), Seq::empty()),
        )
    }
}

/// The entries of a kubelet stats summary.
pub open spec fn stats_entries(stats: Json) -> Seq<(Seq<char>, (u64, u64, u64, Seq<char>))> {
    match array_of(at(Some(stats), "pods"@)) {
        Some(ps) => pod_entries(ps),
        None => Seq::empty(),
    }
}

fn count_of(v: &Json, key: &str) -> (r: u64)
    ensures
        r == count_at(*v, key@),
{
    match as_u64(get(Some(v), key)) {
        Some(n) => n,
        None => 0,
    }
}

fn add_volume_stats(table: &mut Vec<(String, VolumeStat)>, vols: &Vec<Json>, pod_ns: &String, pod_name: &String)
    ensures
        stat_views(final(table)@) == stat_views(old(table)@) + volume_entries(vols@, pod_ns@, pod_name@),
{
    let ghost start = stat_views(table@);
    let mut i: usize = 0;
    proof {
        assert(stat_views(table@) =~= start + volume_entries(vols@.subrange(0, 0), pod_ns@, pod_name@));
    }
    while i < vols.len()
        invariant
            i <= vols@.len(),
            stat_views(table@) == start + volume_entries(vols@.subrange(0, i as int), pod_ns@, pod_name@),
        decreases vols@.len() - i,
    {
        let ghost pre = stat_views(table@);
        proof {
            assert(vols@.subrange(0, i + 1).drop_last() =~= vols@.subrange(0, i as int));
            assert(vols@.subrange(0, i + 1).last() == vols@[i as int]);
        }
        let v = &vols[i];
        match get(Some(v), "pvcRef") {
            Some(r) => {
                let name = str_or_default(get(Some(r), "name"), "");
                proof {
                    reveal_strlit("");
                }
                let ns = match get(Some(r), "namespace") {
                    Some(Json::Str(s)) => s.clone(),
                    _ => pod_ns.clone(),
                };
                assert(ns@ == str_or(at(Some(*r), "namespace"@), pod_ns@));
                let key = object_key_exec(ns.as_str(), name.as_str());
                let stat = VolumeStat {
                    used: count_of(v, "usedBytes"),
                    capacity: count_of(v, "capacityBytes"),
                    available: count_of(v, "availableBytes"),
                    pod_name: pod_name.clone(),
                };
                let e = (key, stat);
                assert(stat_view(e) == volume_entry(vols@[i as int], *r, pod_ns@, pod_name@));
                table.push(e);
                proof {
                    assert(stat_views(table@) =~= pre.push(stat_view(e)));
                }
            },
            None => {},
        }
        i = i + 1;
    }
    proof {
        assert(vols@.subrange(0, vols@.len() as int) =~= vols@);
    }
}

/// Adds to `table` the usage of each claimed volume in a kubelet stats
/// summary, in the order the summary lists them.
pub fn record_volume_stats(table: &mut Vec<(String, VolumeStat)>, stats: &Json)
    ensures
        stat_views(final(table)@) == stat_views(old(table)@) + stats_entries(*stats),
{
    let ghost start = stat_views(table@);
    match as_array(get(Some(stats), "pods")) {
        Some(ps) => {
            let mut i: usize = 0;
            proof {
                assert(stat_views(table@) =~= start + pod_entries(ps@.subrange(0, 0)));
            }
            while i < ps.len()
                invariant
                    i <= ps@.len(),
                    stat_views(table@) == start + pod_entries(ps@.subrange(0, i as int)),
                decreases ps@.len() - i,
            {
                proof {
                    assert(ps@.subrange(0, i + 1).drop_last() =~= ps@.subrange(0, i as int));
                    assert(ps@.subrange(0, i + 1).last() == ps@[i as int]);
                }
                let p = &ps[i];
                let pod_ns = str_or_default(get2(p, "podRef", "namespace"), "");
                let pod_name = str_or_default(get2(p, "podRef", "name"), "");
                proof {
                    reveal_strlit("");
                    assert(""@ =~= Seq::<char>::empty());
                    assert(*p == ps@[i as int]);
                }
                let ghost mid = stat_views(table@);
                match as_array(get(Some(p), "volume")) {
                    Some(vs) => {
                        add_volume_stats(table, vs, &pod_ns, &pod_name);
                    },
                    None => {
                        assert(volume_entries(Seq::<Json>::empty(), pod_ns@, pod_name@) =~= Seq::empty());
                    },
                }
                proof {
                    let e = volume_entries(pod_volumes(ps@[i as int]), pod_ns@, pod_name@);
                    assert(pod_entries(ps@.subrange(0, i + 1)) == pod_entries(ps@.subrange(0, i as int)) + e);
                    assert(stat_views(table@) == mid + e);
                    assert(stat_views(table@) =~= start + pod_entries(ps@.subrange(0, i + 1)));
                }
                i = i + 1;
            }
            proof {
                assert(ps@.subrange(0, ps@.len() as int) =~= ps@);
            }
        },
        None => {
            assert(stat_views(table@) =~= start + stats_entries(*stats));
        },
    }
}

/// The value of the last entry of `t` keyed `key`.
pub open spec fn last_entry<V>(t: Seq<(String, V)>, key: Seq<char>) -> Option<V>
    decreases t.len(),
{
    if t.len() == 0 {
        None
    } else if t.last().0@ == key {
        Some(t.last().1)
    } else {
        last_entry(t.drop_last(), key)
    }
}

/// Looks up the last entry of `t` keyed `key`.
pub fn find_last<'a, V>(t: &'a Vec<(String, V)>, key: &str) -> (r: Option<&'a V>)
    ensures
        match r {
            Some(v) => last_entry(t@, key@) == Some(*v),
            None => last_entry(t@, key@) is None,
        },
{
    let mut i = t.len();
    assert(t@.subrange(0, i as int) =~= t@);
    while i > 0
        invariant
            i <= t@.len(),
            last_entry(t@, key@) == last_entry(t@.subrange(0, i as int), key@),
        decreases i,
    {
        let ghost pre = t@.subrange(0, i as int);
        assert(pre.drop_last() =~= t@.subrange(0, i - 1));
        assert(pre.last() == t@[i - 1]);
        if str_eq(t[i - 1].0.as_str(), key) {
            return Some(&t[i - 1].1);
        }
        i = i - 1;
    }
    None
}

/// Usage of a persistent volume claim; the used share is left to the
/// caller.
#[derive(Debug)]
pub struct PvcUsage {
    pub name: String,
    pub namespace: String,
    pub capacity: String,
    pub capacity_bytes: u64,
    pub used_bytes: Option<u64>,
    pub available_bytes: Option<u64>,
    pub used_formatted: Option<String>,
    pub available_formatted: Option<String>,
    pub pod_name: Option<String>,
    pub volume_name: Option<String>,
}

/// The declared capacity of a claim as written: the bound one, else the
/// requested one, else `-`.
pub open spec fn declared_capacity(c: ClaimInfo) -> Seq<char> {
    match c.bound_storage {
        Some(s) => s@,
        None => match c.requested_storage {
            Some(s) => s@,
            None => seq!['-'],
        },
    }
}

/// The key of a claim, its namespace taken as `default` when unset.
pub open spec fn claim_key(c: ClaimInfo) -> Seq<char> {
    object_key(opt_view_or(c.namespace, "default"@), opt_view(c.name))
}

/// `u` reports claim `c`, with the last statistic for its key in `table`.
/// With a statistic, the capacity is the one the kubelet reports unless
/// that is 0.
pub open spec fn pvc_usage_of(u: PvcUsage, c: ClaimInfo, table: Seq<(String, VolumeStat)>) -> bool {
    let declared = declared_capacity(c);
    let declared_bytes = parse_memory_spec(declared);
    &&& u.name@ == opt_view(c.name)
    &&& u.namespace@ == opt_view_or(c.namespace, "default"@)
    &&& opt_seq(u.volume_name) == opt_seq(c.volume_name)
    &&& match last_entry(table, claim_key(c)) {
        Some(st) => {
            &&& u.capacity@ == (if st.capacity > 0 { memory_text(st.capacity) } else { declared })
            &&& u.capacity_bytes == (if st.capacity > 0 { st.capacity } else { declared_bytes })
            &&& u.used_bytes == Some(st.used)
            &&& u.available_bytes == Some(st.available)
            &&& opt_seq(u.used_formatted) == Some(memory_text(st.used))
            &&& opt_seq(u.available_formatted) == Some(memory_text(st.available))
            &&& opt_seq(u.pod_name) == Some(st.pod_name@)
        },
        None => {
            &&& u.capacity@ == declared
            &&& u.capacity_bytes == declared_bytes
            &&& u.used_bytes is None
            &&& u.available_bytes is None
            &&& u.used_formatted is None
            &&& u.available_formatted is None
            &&& u.pod_name is None
        },
    }
}

/// The usage of claim `c` from the volume statistics `table`.
pub fn pvc_usage(c: &ClaimInfo, table: &Vec<(String, VolumeStat)>) -> (r: PvcUsage)
    ensures
        pvc_usage_of(r, *c, table@),
{
    let declared = match &c.bound_storage {
        Some(s) => s.clone(),
        None => match &c.requested_storage {
            Some(s) => s.clone(),
            None => String::from_str("-"),
        },
    };
    proof {
        reveal_strlit("-");
    }
    assert(declared@ == declared_capacity(*c));
    let declared_bytes = parse_memory(declared.as_str());
    let name = unwrap_or_empty(&c.name);
    let namespace = unwrap_or_str(&c.namespace, "default");
    let key = object_key_exec(namespace.as_str(), name.as_str());
    let volume_name = clone_opt(&c.volume_name);
    match find_last(table, key.as_str()) {
        Some(st) => {
            let capacity = if st.capacity > 0 { format_memory(st.capacity) } else { declared };
            PvcUsage {
                name,
                namespace,
                capacity,
                capacity_bytes: if st.capacity > 0 { st.capacity } else { declared_bytes },
                used_bytes: Some(st.used),
                available_bytes: Some(st.available),
                used_formatted: Some(format_memory(st.used)),
                available_formatted: Some(format_memory(st.available)),
                pod_name: Some(st.pod_name.clone()),
                volume_name,
            }
        },
        None => PvcUsage {
            name,
            namespace,
            capacity: declared,
            capacity_bytes: declared_bytes,
            used_bytes: None,
            available_bytes: None,
            used_formatted: None,
            available_formatted: None,
            pod_name: None,
            volume_name,
        },
    }
}

/// The usage of each claim, in order.
pub fn pvc_usages(claims: &Vec<ClaimInfo>, table: &Vec<(String, VolumeStat)>) -> (r: Vec<PvcUsage>)
    ensures
        r@.len() == claims@.len(),
        forall|i: int| 0 <= i < claims@.len() ==> pvc_usage_of(#[trigger] r@[i], claims@[i], table@),
{
    let mut out: Vec<PvcUsage> = Vec::new();
    let mut i: usize = 0;
    while i < claims.len()
        invariant
            i <= claims@.len(),
            out@.len() == i,
            forall|j: int| 0 <= j < i ==> pvc_usage_of(#[trigger] out@[j], claims@[j], table@),
        decreases claims@.len() - i,
    {
        let u = pvc_usage(&claims[i], table);
        out.push(u);
        i = i + 1;
    }
    out
}

} // verus!
