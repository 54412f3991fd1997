//! The ownership tree of workloads: deployments over their replica sets,
//! replica sets, stateful sets and daemon sets over their pods, pods over
//! their containers. Each group of owned objects goes to the first owner
//! that claims its key; objects whose owner is not listed are left out.
use vstd::prelude::*;
use crate::model::{Meta, Pod, OwnerRef, opt_view, opt_view_or, unwrap_or_empty, unwrap_or_str};
use crate::benchmark::opt_seq;
use crate::text::{int_repr, views, string_of, str_eq, append_i64, vec_has, clone_strings};

verus! {

/// A node of the ownership tree.
#[derive(Debug)]
pub struct TopoNode {
    pub id: String,
    pub kind: String,
    pub name: String,
    pub namespace: String,
    pub status: Option<String>,
    pub children: Vec<TopoNode>,
}

/// A deployment, stateful set or daemon set: name, namespace and
/// `ready/desired`.
#[derive(Debug)]
pub struct WorkloadInfo {
    pub name: String,
    pub namespace: String,
    pub status: String,
}

/// A replica set with the key of its first owner.
#[derive(Debug)]
pub struct RsInfo {
    pub name: String,
    pub namespace: String,
    pub status: String,
    pub owner_key: Option<String>,
}

/// A pod with its phase, its containers' names and the key of its first
/// owner.
#[derive(Debug)]
pub struct PodInfo {
    pub name: String,
    pub namespace: String,
    pub status: String,
    pub containers: Vec<String>,
    pub owner_key: Option<String>,
}

/// `<kind>/<namespace>/<name>`.
pub open spec fn key3(kind: Seq<char>, ns: Seq<char>, name: Seq<char>) -> Seq<char> {
    kind + seq!['/'] + ns + seq!['/'] + name
}

fn key3_exec(kind: &str, ns: &str, name: &str) -> (r: String)
    ensures
        r@ == key3(kind@, ns@, name@),
{
    let mut s = string_of(kind);
    s.append("/");
    s.append(ns);
    s.append("/");
    s.append(name);
    proof {
        reveal_strlit("/");
        assert(s@ =~= key3(kind@, ns@, name@));
    }
    s
}

/// The key of the first owner of an object: the owner's kind, the object's
/// namespace (`default` when unset) and the owner's name.
pub open spec fn owner_key_of(meta: Meta) -> Option<Seq<char>> {
    match meta.owner_references {
        Some(os) => if os@.len() > 0 {
            Some(key3(os@[0].kind@, opt_view_or(meta.namespace, "default"@), os@[0].name@))
        } else {
            None
        },
        None => None,
    }
}

/// The key of the first owner of an object with metadata `meta`.
pub fn owner_key(meta: &Meta) -> (r: Option<String>)
    ensures
        opt_seq(r) == owner_key_of(*meta),
{
    match &meta.owner_references {
        Some(os) => {
            if os.len() > 0 {
                let ns = unwrap_or_str(&meta.namespace, "default");
                Some(key3_exec(os[0].kind.as_str(), ns.as_str(), os[0].name.as_str()))
            } else {
                None
            }
        },
        None => None,
    }
}

/// `ready/desired`.
pub open spec fn ratio_text(ready: i32, desired: i32) -> Seq<char> {
    int_repr(ready as int) + seq!['/'] + int_repr(desired as int)
}

fn ratio(ready: i32, desired: i32) -> (r: String)
    ensures
        r@ == ratio_text(ready, desired),
{
    let mut s = String::new();
    append_i64(&mut s, ready as i64);
    s.append("/");
    append_i64(&mut s, desired as i64);
    proof {
        reveal_strlit("/");
        assert(s@ =~= ratio_text(ready, desired));
    }
    s
}

/// A workload with `ready` of `desired` replicas.
pub fn workload_info(meta: &Meta, ready: i32, desired: i32) -> (r: WorkloadInfo)
    ensures
        r.name@ == opt_view(meta.name),
        r.namespace@ == opt_view(meta.namespace),
        r.status@ == ratio_text(ready, desired),
{
    WorkloadInfo { name: unwrap_or_empty(&meta.name), namespace: unwrap_or_empty(&meta.namespace), status: ratio(ready, desired) }
}

/// A replica set with `ready` of `desired` replicas.
pub fn rs_info(meta: &Meta, ready: i32, desired: i32) -> (r: RsInfo)
    ensures
        r.name@ == opt_view(meta.name),
        r.namespace@ == opt_view(meta.namespace),
        r.status@ == ratio_text(ready, desired),
        opt_seq(r.owner_key) == owner_key_of(*meta),
{
    RsInfo {
        name: unwrap_or_empty(&meta.name),
        namespace: unwrap_or_empty(&meta.namespace),
        status: ratio(ready, desired),
        owner_key: owner_key(meta),
    }
}

/// The names of the containers of a pod.
pub open spec fn container_names(p: Pod) -> Seq<Seq<char>> {
    match p.spec {
        Some(s) => s.containers@.map_values(|c: crate::model::Container| c.name@),
        None => Seq::empty(),
    }
}

/// A pod of the tree: its phase (`Unknown` when unset) and containers.
pub fn pod_info(pod: &Pod) -> (r: PodInfo)
    ensures
        r.name@ == opt_view(pod.metadata.name),
        r.namespace@ == opt_view(pod.metadata.namespace),
        r.status@ == (match pod.status { Some(s) => opt_view_or(s.phase, "Unknown"@), None => "Unknown"@ }),
        views(r.containers@) == container_names(*pod),
        opt_seq(r.owner_key) == owner_key_of(pod.metadata),
{
    let status = match &pod.status {
        Some(s) => unwrap_or_str(&s.phase, "Unknown"),
        None => string_of("Unknown"),
    };
    let mut containers: Vec<String> = Vec::new();
    match &pod.spec {
        Some(s) => {
            let mut i: usize = 0;
            while i < s.containers.len()
                invariant
                    i <= s.containers@.len(),
                    views(containers@) == s.containers@.subrange(0, i as int).map_values(|c: crate::model::Container| c.name@),
                decreases s.containers@.len() - i,
            {
                let ghost before = views(containers@);
                containers.push(s.containers[i].name.clone());
                assert(views(containers@) =~= before.push(s.containers@[i as int].name@));
                assert(s.containers@.subrange(0, i + 1).map_values(|c: crate::model::Container| c.name@)
                    =~= s.containers@.subrange(0, i as int).map_values(|c: crate::model::Container| c.name@).push(s.containers@[i as int].name@));
                i = i + 1;
            }
            assert(s.containers@.subrange(0, s.containers@.len() as int) =~= s.containers@);
        },
        None => {
            assert(views(containers@) =~= Seq::<Seq<char>>::empty());
        },
    }
    PodInfo {
        name: unwrap_or_empty(&pod.metadata.name),
        namespace: unwrap_or_empty(&pod.metadata.namespace),
        status,
        containers,
        owner_key: owner_key(&pod.metadata),
    }
}

/// `n` is a container leaf with id `id` for container `c`.
pub open spec fn container_node_of(n: TopoNode, id: Seq<char>, c: Seq<char>) -> bool {
    &&& n.id@ == id
    &&& n.kind@ == "Container"@
    &&& n.name@ == c
    &&& n.namespace@ == Seq::<char>::empty()
    &&& n.status is None
    &&& n.children@.len() == 0
}

/// The id of a container node: `Container/<pod>/<container>` under an
/// owned pod, `Container/<container>` under an unowned one.
pub open spec fn container_id(pod: Seq<char>, c: Seq<char>, unowned: bool) -> Seq<char> {
    if unowned { "Container/"@ + c } else { "Container/"@ + pod + seq!['/'] + c }
}

/// `n` is the node of pod `p` over its containers.
pub open spec fn pod_node_of(n: TopoNode, p: PodInfo, unowned: bool) -> bool {
    &&& n.id@ == key3("Pod"@, p.namespace@, p.name@)
    &&& n.kind@ == "Pod"@
    &&& n.name@ == p.name@
    &&& n.namespace@ == p.namespace@
    &&& opt_seq(n.status) == Some(p.status@)
    &&& n.children@.len() == p.containers@.len()
    &&& forall|j: int| 0 <= j < p.containers@.len() ==>
        container_node_of(#[trigger] n.children@[j], container_id(p.name@, p.containers@[j]@, unowned), p.containers@[j]@)
}

/// `ns` are the nodes of the owned pods `ps`, in order.
pub open spec fn pod_nodes_of(ns: Seq<TopoNode>, ps: Seq<PodInfo>) -> bool {
    &&& ns.len() == ps.len()
    &&& forall|i: int| 0 <= i < ps.len() ==> pod_node_of(#[trigger] ns[i], ps[i], false)
}

fn container_node(pod: &str, c: &String, unowned: bool) -> (r: TopoNode)
    ensures
        container_node_of(r, container_id(pod@, c@, unowned), c@),
{
    let mut id = string_of("Container/");
    if !unowned {
        id.append(pod);
        id.append("/");
        proof {
            reveal_strlit("/");
        }
    }
    id.append(c.as_str());
    proof {
        assert(id@ =~= container_id(pod@, c@, unowned));
    }
    TopoNode { id, kind: string_of("Container"), name: c.clone(), namespace: String::new(), status: None, children: Vec::new() }
}

fn pod_node(p: &PodInfo, unowned: bool) -> (r: TopoNode)
    ensures
        pod_node_of(r, *p, unowned),
{
    let mut children: Vec<TopoNode> = Vec::new();
    let mut j: usize = 0;
    while j < p.containers.len()
        invariant
            j <= p.containers@.len(),
            children@.len() == j,
            forall|k: int| 0 <= k < j ==>
                container_node_of(#[trigger] children@[k], container_id(p.name@, p.containers@[k]@, unowned), p.containers@[k]@),
        decreases p.containers@.len() - j,
    {
        let n = container_node(p.name.as_str(), &p.containers[j], unowned);
        children.push(n);
        j = j + 1;
    }
    TopoNode {
        id: key3_exec("Pod", p.namespace.as_str(), p.name.as_str()),
        kind: string_of("Pod"),
        name: p.name.clone(),
        namespace: p.namespace.clone(),
        status: Some(p.status.clone()),
        children,
    }
}

/// The nodes of owned pods, each over its containers.
pub fn build_pod_nodes(pods: Vec<PodInfo>) -> (r: Vec<TopoNode>)
    ensures
        pod_nodes_of(r@, pods@),
{
    let mut out: Vec<TopoNode> = Vec::new();
    let mut i: usize = 0;
    while i < pods.len()
        invariant
            i <= pods@.len(),
            out@.len() == i,
            forall|k: int| 0 <= k < i ==> pod_node_of(#[trigger] out@[k], pods@[k], false),
        decreases pods@.len() - i,
    {
        let n = pod_node(&pods[i], false);
        out.push(n);
        i = i + 1;
    }
    out
}

/// The pods of `ps` whose first owner has key `key`, in order.
pub open spec fn owned_pods(ps: Seq<PodInfo>, key: Seq<char>) -> Seq<PodInfo>
    decreases ps.len(),
{
    if ps.len() == 0 {
        Seq::empty()
    } else {
        let r = owned_pods(ps.drop_last(), key);
        if opt_seq(ps.last().owner_key) == Some(key) { r.push(ps.last()) } else { r }
    }
}

/// The pods of `ps` that no object owns, in order.
pub open spec fn unowned_pods(ps: Seq<PodInfo>) -> Seq<PodInfo>
    decreases ps.len(),
{
    if ps.len() == 0 {
        Seq::empty()
    } else {
        let r = unowned_pods(ps.drop_last());
        if ps.last().owner_key is None { r.push(ps.last()) } else { r }
    }
}

/// The replica sets of `rs` whose first owner has key `key`, in order.
pub open spec fn owned_rs(rs: Seq<RsInfo>, key: Seq<char>) -> Seq<RsInfo>
    decreases rs.len(),
{
    if rs.len() == 0 {
        Seq::empty()
    } else {
        let r = owned_rs(rs.drop_last(), key);
        if opt_seq(rs.last().owner_key) == Some(key) { r.push(rs.last()) } else { r }
    }
}

/// The replica sets of `rs` that no object owns, in order.
pub open spec fn unowned_rs(rs: Seq<RsInfo>) -> Seq<RsInfo>
    decreases rs.len(),
{
    if rs.len() == 0 {
        Seq::empty()
    } else {
        let r = unowned_rs(rs.drop_last());
        if rs.last().owner_key is None { r.push(rs.last()) } else { r }
    }
}

/// The keys of replica sets.
pub open spec fn rs_keys(rs: Seq<RsInfo>) -> Seq<Seq<char>>
    decreases rs.len(),
{
    if rs.len() == 0 {
        Seq::empty()
    } else {
        rs_keys(rs.drop_last()).push(key3("ReplicaSet"@, rs.last().namespace@, rs.last().name@))
    }
}

/// The keys of workloads of kind `kind`.
pub open spec fn workload_keys(kind: Seq<char>, ws: Seq<WorkloadInfo>) -> Seq<Seq<char>>
    decreases ws.len(),
{
    if ws.len() == 0 {
        Seq::empty()
    } else {
        workload_keys(kind, ws.drop_last()).push(key3(kind, ws.last().namespace@, ws.last().name@))
    }
}

/// The group under `key` unless an earlier owner in `claimed` took it.
pub open spec fn unclaimed_pods(ps: Seq<PodInfo>, key: Seq<char>, claimed: Seq<Seq<char>>) -> Seq<PodInfo> {
    if claimed.contains(key) { Seq::empty() } else { owned_pods(ps, key) }
}

/// The replica sets of deployment `i` of `deps`, unless an earlier
/// deployment had the same key.
pub open spec fn dep_children(deps: Seq<WorkloadInfo>, rs: Seq<RsInfo>, i: int) -> Seq<RsInfo> {
    let key = key3("Deployment"@, deps[i].namespace@, deps[i].name@);
    if workload_keys("Deployment"@, deps.take(i)).contains(key) { Seq::empty() } else { owned_rs(rs, key) }
}

/// The pod groups claimed by the replica sets of the first `i` deployments.
pub open spec fn dep_claims(deps: Seq<WorkloadInfo>, rs: Seq<RsInfo>, i: int) -> Seq<Seq<char>>
    decreases i,
{
    if i <= 0 {
        Seq::empty()
    } else {
        dep_claims(deps, rs, i - 1) + rs_keys(dep_children(deps, rs, i - 1))
    }
}

/// `n` is the node of replica set `r` over the pods of its group, unless
/// claimed earlier in `claimed`.
pub open spec fn rs_node_of(n: TopoNode, r: RsInfo, pods: Seq<PodInfo>, claimed: Seq<Seq<char>>) -> bool {
    let key = key3("ReplicaSet"@, r.namespace@, r.name@);
    &&& n.id@ == key
    &&& n.kind@ == "ReplicaSet"@
    &&& n.name@ == r.name@
    &&& n.namespace@ == r.namespace@
    &&& opt_seq(n.status) == Some(r.status@)
    &&& pod_nodes_of(n.children@, unclaimed_pods(pods, key, claimed))
}

/// `n` is the node of workload `w` of kind `kind` over the pods of its
/// group, unless claimed earlier in `claimed`.
pub open spec fn workload_node_of(n: TopoNode, kind: Seq<char>, w: WorkloadInfo, pods: Seq<PodInfo>, claimed: Seq<Seq<char>>) -> bool {
    let key = key3(kind, w.namespace@, w.name@);
    &&& n.id@ == key
    &&& n.kind@ == kind
    &&& n.name@ == w.name@
    &&& n.namespace@ == w.namespace@
    &&& opt_seq(n.status) == Some(w.status@)
    &&& pod_nodes_of(n.children@, unclaimed_pods(pods, key, claimed))
}

/// `n` is the node of deployment `i` of `deps` over its replica sets.
pub open spec fn dep_node_of(n: TopoNode, deps: Seq<WorkloadInfo>, rs: Seq<RsInfo>, pods: Seq<PodInfo>, i: int) -> bool {
    let d = deps[i];
    let cs = dep_children(deps, rs, i);
    &&& n.id@ == key3("Deployment"@, d.namespace@, d.name@)
    &&& n.kind@ == "Deployment"@
    &&& n.name@ == d.name@
    &&& n.namespace@ == d.namespace@
    &&& opt_seq(n.status) == Some(d.status@)
    &&& n.children@.len() == cs.len()
    &&& forall|j: int| 0 <= j < cs.len() ==>
        rs_node_of(#[trigger] n.children@[j], cs[j], pods, dep_claims(deps, rs, i) + rs_keys(cs.take(j)))
}

/// The nodes of the pods in the group `key`, unless `claimed` holds the
/// key already; the key is then added to `claimed`.
fn claim_pods(pods: &Vec<PodInfo>, key: &String, claimed: &mut Vec<String>) -> (r: Vec<TopoNode>)
    ensures
        views(final(claimed)@) == views(old(claimed)@).push(key@),
        pod_nodes_of(r@, unclaimed_pods(pods@, key@, views(old(claimed)@))),
{
    let ghost before = views(claimed@);
    let taken = vec_has(claimed, key.as_str());
    let mut out: Vec<TopoNode> = Vec::new();
    if !taken {
        let mut i: usize = 0;
        while i < pods.len()
            invariant
                i <= pods@.len(),
                pod_nodes_of(out@, owned_pods(pods@.subrange(0, i as int), key@)),
            decreases pods@.len() - i,
        {
            let ghost prev = owned_pods(pods@.subrange(0, i as int), key@);
            proof {
                assert(pods@.subrange(0, i + 1).drop_last() =~= pods@.subrange(0, i as int));
                assert(pods@.subrange(0, i + 1).last() == pods@[i as int]);
            }
            let owned = match &pods[i].owner_key {
                Some(k) => str_eq(k.as_str(), key.as_str()),
                None => false,
            };
            if owned {
                let n = pod_node(&pods[i], false);
                out.push(n);
                proof {
                    assert(owned_pods(pods@.subrange(0, i + 1), key@) == prev.push(pods@[i as int]));
                }
            }
            i = i + 1;
        }
        assert(pods@.subrange(0, pods@.len() as int) =~= pods@);
    }
    claimed.push(key.clone());
    proof {
        assert(views(claimed@) =~= before.push(key@));
    }
    out
}

fn rs_node(r: &RsInfo, pods: &Vec<PodInfo>, claimed: &mut Vec<String>) -> (n: TopoNode)
    ensures
        rs_node_of(n, *r, pods@, views(old(claimed)@)),
        views(final(claimed)@) == views(old(claimed)@).push(key3("ReplicaSet"@, r.namespace@, r.name@)),
{
    let key = key3_exec("ReplicaSet", r.namespace.as_str(), r.name.as_str());
    let children = claim_pods(pods, &key, claimed);
    TopoNode {
        id: key,
        kind: string_of("ReplicaSet"),
        name: r.name.clone(),
        namespace: r.namespace.clone(),
        status: Some(r.status.clone()),
        children,
    }
}

fn workload_node(kind: &str, w: &WorkloadInfo, pods: &Vec<PodInfo>, claimed: &mut Vec<String>) -> (n: TopoNode)
    ensures
        workload_node_of(n, kind@, *w, pods@, views(old(claimed)@)),
        views(final(claimed)@) == views(old(claimed)@).push(key3(kind@, w.namespace@, w.name@)),
{
    let key = key3_exec(kind, w.namespace.as_str(), w.name.as_str());
    let children = claim_pods(pods, &key, claimed);
    TopoNode {
        id: key,
        kind: string_of(kind),
        name: w.name.clone(),
        namespace: w.namespace.clone(),
        status: Some(w.status.clone()),
        children,
    }
}

fn dep_node(deps: &Vec<WorkloadInfo>, i: usize, rss: &Vec<RsInfo>, pods: &Vec<PodInfo>, claimed_rs: &mut Vec<String>, claimed_pods: &mut Vec<String>) -> (n: TopoNode)
    requires
        i < deps@.len(),
        views(old(claimed_rs)@) == workload_keys("Deployment"@, deps@.take(i as int)),
        views(old(claimed_pods)@) == dep_claims(deps@, rss@, i as int),
    ensures
        dep_node_of(n, deps@, rss@, pods@, i as int),
        views(final(claimed_rs)@) == workload_keys("Deployment"@, deps@.take(i + 1)),
        views(final(claimed_pods)@) == dep_claims(deps@, rss@, i + 1),
{
    let d = &deps[i];
    let key = key3_exec("Deployment", d.namespace.as_str(), d.name.as_str());
    let taken = vec_has(claimed_rs, key.as_str());
    let ghost cs = dep_children(deps@, rss@, i as int);
    let ghost base = dep_claims(deps@, rss@, i as int);
    let mut children: Vec<TopoNode> = Vec::new();
    if !taken {
        let mut j: usize = 0;
        proof {
            assert(rss@.subrange(0, 0) =~= Seq::<RsInfo>::empty());
            assert(owned_rs(rss@.subrange(0, 0), key@) =~= Seq::<RsInfo>::empty());
            assert(rs_keys(Seq::<RsInfo>::empty()) =~= Seq::<Seq<char>>::empty());
            assert(views(claimed_pods@) =~= base + rs_keys(owned_rs(rss@.subrange(0, 0), key@)));
        }
        while j < rss.len()
            invariant
                j <= rss@.len(),
                children@.len() == owned_rs(rss@.subrange(0, j as int), key@).len(),
                forall|k: int| 0 <= k < children@.len() ==> {
                    let o = owned_rs(rss@.subrange(0, j as int), key@);
                    rs_node_of(#[trigger] children@[k], o[k], pods@, base + rs_keys(o.take(k)))
                },
                views(claimed_pods@) == base + rs_keys(owned_rs(rss@.subrange(0, j as int), key@)),
            decreases rss@.len() - j,
        {
            let ghost prev = owned_rs(rss@.subrange(0, j as int), key@);
            proof {
                assert(rss@.subrange(0, j + 1).drop_last() =~= rss@.subrange(0, j as int));
                assert(rss@.subrange(0, j + 1).last() == rss@[j as int]);
            }
            let owned = match &rss[j].owner_key {
                Some(k) => str_eq(k.as_str(), key.as_str()),
                None => false,
            };
            if owned {
                let ghost cp = views(claimed_pods@);
                let n = rs_node(&rss[j], pods, claimed_pods);
                children.push(n);
                proof {
                    let next = prev.push(rss@[j as int]);
                    assert(owned_rs(rss@.subrange(0, j + 1), key@) == next);
                    assert(next.take(prev.len() as int) =~= prev);
                    assert(rs_keys(next) == rs_keys(prev).push(key3("ReplicaSet"@, rss@[j as int].namespace@, rss@[j as int].name@))) by {
                        assert(next.drop_last() =~= prev);
                    }
                    assert(views(claimed_pods@) =~= base + rs_keys(next));
                    assert forall|k: int| 0 <= k < children@.len() implies
                        rs_node_of(#[trigger] children@[k], next[k], pods@, base + rs_keys(next.take(k))) by {
                        if k < prev.len() {
                            assert(next.take(k) =~= prev.take(k));
                        }
                    }
                }
            }
            j = j + 1;
        }
        proof {
            assert(rss@.subrange(0, rss@.len() as int) =~= rss@);
            assert(!workload_keys("Deployment"@, deps@.take(i as int)).contains(key@));
            assert(cs == owned_rs(rss@, key@));
        }
    } else {
        proof {
            assert(cs =~= Seq::<RsInfo>::empty());
            assert(rs_keys(cs) =~= Seq::<Seq<char>>::empty());
            assert(views(claimed_pods@) =~= base + rs_keys(cs));
        }
    }
    let ghost crs = views(claimed_rs@);
    claimed_rs.push(key.clone());
    proof {
        assert(deps@.take(i + 1).drop_last() =~= deps@.take(i as int));
        assert(deps@.take(i + 1).last() == deps@[i as int]);
        assert(views(claimed_rs@) =~= crs.push(key@));
        assert(dep_claims(deps@, rss@, i + 1) == base + rs_keys(cs));
    }
    TopoNode {
        id: key,
        kind: string_of("Deployment"),
        name: d.name.clone(),
        namespace: d.namespace.clone(),
        status: Some(d.status.clone()),
        children,
    }
}

/// `r` is the ownership forest of the listed deployments `deps`, stateful
/// sets `sss`, daemon sets `dss`, replica sets `rss` and pods `pods`: each
/// deployment over its replica sets, then the stateful sets, the daemon
/// sets and the unowned replica sets over their pods, then the unowned
/// pods over their containers.
pub open spec fn topology_of(r: Seq<TopoNode>, deps: Seq<WorkloadInfo>, sss: Seq<WorkloadInfo>, dss: Seq<WorkloadInfo>, rss: Seq<RsInfo>, pods: Seq<PodInfo>) -> bool {
    let nd = deps.len() as int;
    let ns = sss.len() as int;
    let nds = dss.len() as int;
    let ors = unowned_rs(rss);
    let ops = unowned_pods(pods);
    let c_dep = dep_claims(deps, rss, nd);
    let c_ss = c_dep + workload_keys("StatefulSet"@, sss);
    let c_ds = c_ss + workload_keys("DaemonSet"@, dss);
    &&& r.len() == nd + ns + nds + ors.len() + ops.len()
    &&& forall|i: int| 0 <= i < nd ==> dep_node_of(#[trigger] r[i], deps, rss, pods, i)
    &&& forall|k: int| 0 <= k < ns ==>
        workload_node_of(#[trigger] r[nd + k], "StatefulSet"@, sss[k], pods, c_dep + workload_keys("StatefulSet"@, sss.take(k)))
    &&& forall|k: int| 0 <= k < nds ==>
        workload_node_of(#[trigger] r[nd + ns + k], "DaemonSet"@, dss[k], pods, c_ss + workload_keys("DaemonSet"@, dss.take(k)))
    &&& forall|k: int| 0 <= k < ors.len() ==>
        rs_node_of(#[trigger] r[nd + ns + nds + k], ors[k], pods, c_ds + rs_keys(ors.take(k)))
    &&& forall|k: int| 0 <= k < ops.len() ==>
        pod_node_of(#[trigger] r[nd + ns + nds + ors.len() + k], ops[k], true)
}

fn add_workloads(out: &mut Vec<TopoNode>, kind: &str, ws: &Vec<WorkloadInfo>, pods: &Vec<PodInfo>, claimed: &mut Vec<String>)
    ensures
        final(out)@.len() == old(out)@.len() + ws@.len(),
        forall|k: int| 0 <= k < old(out)@.len() ==> #[trigger] final(out)@[k] == old(out)@[k],
        forall|k: int| 0 <= k < ws@.len() ==>
            workload_node_of(#[trigger] final(out)@[old(out)@.len() + k], kind@, ws@[k], pods@, views(old(claimed)@) + workload_keys(kind@, ws@.take(k))),
        views(final(claimed)@) == views(old(claimed)@) + workload_keys(kind@, ws@),
{
    let ghost start = old(out)@.len();
    let ghost c0 = views(claimed@);
    let mut i: usize = 0;
    proof {
        assert(ws@.take(0) =~= Seq::<WorkloadInfo>::empty());
        assert(views(claimed@) =~= c0 + workload_keys(kind@, ws@.take(0)));
    }
    while i < ws.len()
        invariant
            i <= ws@.len(),
            out@.len() == start + i,
            start == old(out)@.len(),
            forall|k: int| 0 <= k < start ==> #[trigger] out@[k] == old(out)@[k],
            forall|k: int| 0 <= k < i ==>
                workload_node_of(#[trigger] out@[start + k], kind@, ws@[k], pods@, c0 + workload_keys(kind@, ws@.take(k))),
            views(claimed@) == c0 + workload_keys(kind@, ws@.take(i as int)),
        decreases ws@.len() - i,
    {
        let n = workload_node(kind, &ws[i], pods, claimed);
        out.push(n);
        proof {
            assert(ws@.take(i + 1).drop_last() =~= ws@.take(i as int));
            assert(ws@.take(i + 1).last() == ws@[i as int]);
            assert(views(claimed@) =~= c0 + workload_keys(kind@, ws@.take(i + 1)));
        }
        i = i + 1;
    }
    proof {
        assert(ws@.take(ws@.len() as int) =~= ws@);
    }
}

/// Builds the ownership forest.
pub fn build_topology(deps: &Vec<WorkloadInfo>, sss: &Vec<WorkloadInfo>, dss: &Vec<WorkloadInfo>, rss: &Vec<RsInfo>, pods: &Vec<PodInfo>) -> (r: Vec<TopoNode>)
    ensures
        topology_of(r@, deps@, sss@, dss@, rss@, pods@),
{
    let mut out: Vec<TopoNode> = Vec::new();
    let mut claimed_rs: Vec<String> = Vec::new();
    let mut claimed_pods: Vec<String> = Vec::new();
    let mut i: usize = 0;
    proof {
        assert(deps@.take(0) =~= Seq::<WorkloadInfo>::empty());
        assert(views(claimed_rs@) =~= workload_keys("Deployment"@, deps@.take(0)));
        assert(views(claimed_pods@) =~= dep_claims(deps@, rss@, 0));
    }
    while i < deps.len()
        invariant
            i <= deps@.len(),
            out@.len() == i,
            forall|k: int| 0 <= k < i ==> dep_node_of(#[trigger] out@[k], deps@, rss@, pods@, k),
            views(claimed_rs@) == workload_keys("Deployment"@, deps@.take(i as int)),
            views(claimed_pods@) == dep_claims(deps@, rss@, i as int),
        decreases deps@.len() - i,
    {
        let n = dep_node(deps, i, rss, pods, &mut claimed_rs, &mut claimed_pods);
        out.push(n);
        i = i + 1;
    }
    let ghost nd = deps@.len() as int;
    let ghost c_dep = dep_claims(deps@, rss@, nd);
    add_workloads(&mut out, "StatefulSet", sss, pods, &mut claimed_pods);
    let ghost c_ss = views(claimed_pods@);
    add_workloads(&mut out, "DaemonSet", dss, pods, &mut claimed_pods);
    let ghost c_ds = views(claimed_pods@);
    let ghost before_rs = out@.len() as int;
    let ghost prefix = out@;
    let mut j: usize = 0;
    proof {
        assert(rss@.subrange(0, 0) =~= Seq::<RsInfo>::empty());
        assert(unowned_rs(Seq::<RsInfo>::empty()) =~= Seq::<RsInfo>::empty());
        assert(rs_keys(Seq::<RsInfo>::empty()) =~= Seq::<Seq<char>>::empty());
        assert(views(claimed_pods@) =~= c_ds + rs_keys(unowned_rs(rss@.subrange(0, 0))));
    }
    while j < rss.len()
        invariant
            j <= rss@.len(),
            before_rs == prefix.len(),
            out@.len() == before_rs + unowned_rs(rss@.subrange(0, j as int)).len(),
            forall|k: int| 0 <= k < before_rs ==> #[trigger] out@[k] == prefix[k],
            forall|k: int| 0 <= k < unowned_rs(rss@.subrange(0, j as int)).len() ==> {
                let o = unowned_rs(rss@.subrange(0, j as int));
                rs_node_of(#[trigger] out@[before_rs + k], o[k], pods@, c_ds + rs_keys(o.take(k)))
            },
            views(claimed_pods@) == c_ds + rs_keys(unowned_rs(rss@.subrange(0, j as int))),
        decreases rss@.len() - j,
    {
        let ghost prev = unowned_rs(rss@.subrange(0, j as int));
        proof {
            assert(rss@.subrange(0, j + 1).drop_last() =~= rss@.subrange(0, j as int));
            assert(rss@.subrange(0, j + 1).last() == rss@[j as int]);
        }
        if rss[j].owner_key.is_none() {
            let n = rs_node(&rss[j], pods, &mut claimed_pods);
            out.push(n);
            proof {
                let next = prev.push(rss@[j as int]);
                assert(unowned_rs(rss@.subrange(0, j + 1)) == next);
                assert(next.take(prev.len() as int) =~= prev);
                assert(rs_keys(next) == rs_keys(prev).push(key3("ReplicaSet"@, rss@[j as int].namespace@, rss@[j as int].name@))) by {
                    assert(next.drop_last() =~= prev);
                }
                assert(views(claimed_pods@) =~= c_ds + rs_keys(next));
                assert forall|k: int| 0 <= k < next.len() implies
                    rs_node_of(#[trigger] out@[before_rs + k], next[k], pods@, c_ds + rs_keys(next.take(k))) by {
                    if k < prev.len() {
                        assert(next.take(k) =~= prev.take(k));
                    }
                }
            }
        }
        j = j + 1;
    }
    proof {
        assert(rss@.subrange(0, rss@.len() as int) =~= rss@);
    }
    let ghost before_pods = out@.len() as int;
    let ghost prefix2 = out@;
    let mut k: usize = 0;
    proof {
        assert(pods@.subrange(0, 0) =~= Seq::<PodInfo>::empty());
        assert(unowned_pods(Seq::<PodInfo>::empty()) =~= Seq::<PodInfo>::empty());
    }
    while k < pods.len()
        invariant
            k <= pods@.len(),
            before_pods == prefix2.len(),
            out@.len() == before_pods + unowned_pods(pods@.subrange(0, k as int)).len(),
            forall|t: int| 0 <= t < before_pods ==> #[trigger] out@[t] == prefix2[t],
            forall|t: int| 0 <= t < unowned_pods(pods@.subrange(0, k as int)).len() ==>
                pod_node_of(#[trigger] out@[before_pods + t], unowned_pods(pods@.subrange(0, k as int))[t], true),
        decreases pods@.len() - k,
    {
        let ghost prev = unowned_pods(pods@.subrange(0, k as int));
        proof {
            assert(pods@.subrange(0, k + 1).drop_last() =~= pods@.subrange(0, k as int));
            assert(pods@.subrange(0, k + 1).last() == pods@[k as int]);
        }
        if pods[k].owner_key.is_none() {
            let n = pod_node(&pods[k], true);
            out.push(n);
            proof {
                assert(unowned_pods(pods@.subrange(0, k + 1)) == prev.push(pods@[k as int]));
            }
        }
        k = k + 1;
    }
    proof {
        assert(pods@.subrange(0, pods@.len() as int) =~= pods@);
        let ns = sss@.len() as int;
        let nds = dss@.len() as int;
        assert(c_ss == c_dep + workload_keys("StatefulSet"@, sss@));
        assert(c_ds == c_ss + workload_keys("DaemonSet"@, dss@));
        assert forall|i: int| 0 <= i < nd implies dep_node_of(#[trigger] out@[i], deps@, rss@, pods@, i) by {
            assert(out@[i] == prefix2[i]);
            assert(prefix2[i] == prefix[i]);
        }
        assert forall|t: int| 0 <= t < ns implies
            workload_node_of(#[trigger] out@[nd + t], "StatefulSet"@, sss@[t], pods@, c_dep + workload_keys("StatefulSet"@, sss@.take(t))) by {
            assert(out@[nd + t] == prefix2[nd + t]);
            assert(prefix2[nd + t] == prefix[nd + t]);
        }
        assert forall|t: int| 0 <= t < nds implies
            workload_node_of(#[trigger] out@[nd + ns + t], "DaemonSet"@, dss@[t], pods@, c_ss + workload_keys("DaemonSet"@, dss@.take(t))) by {
            assert(out@[nd + ns + t] == prefix2[nd + ns + t]);
            assert(prefix2[nd + ns + t] == prefix[nd + ns + t]);
        }
        let ors = unowned_rs(rss@);
        assert forall|t: int| 0 <= t < ors.len() implies
            rs_node_of(#[trigger] out@[nd + ns + nds + t], ors[t], pods@, c_ds + rs_keys(ors.take(t))) by {
            assert(out@[nd + ns + nds + t] == prefix2[before_rs + t]);
        }
    }
    out
}

} // verus!
