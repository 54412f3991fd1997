//! Network policy graph: which pods each policy selects, the peers its
//! rules allow, the edges between them, and the pods no policy selects.
use vstd::prelude::*;
use crate::model::{Pod, IntOrString, StrMap, map_get, keys_distinct, lemma_map_get_entry, map_lookup, opt_view, opt_view_or, unwrap_or_empty, unwrap_or_str};
use crate::text::{join_seq, views, opt_views, int_repr, string_of, str_eq, join, clone_strings, strings_or_empty, append_i64};

verus! {

#[derive(Debug)]
pub struct NetpolRule {
    pub direction: String,
    pub peer_kind: String,
    pub peer_label: String,
    pub ports: Vec<String>,
}

#[derive(Debug)]
pub struct NetpolInfo {
    pub name: String,
    pub namespace: String,
    pub pod_selector: String,
    pub matched_pods: Vec<String>,
    pub policy_types: Vec<String>,
    pub rules: Vec<NetpolRule>,
}

#[derive(Debug)]
pub struct NetpolEdge {
    pub from_id: String,
    pub to_id: String,
    pub policy_name: String,
    pub ports: Vec<String>,
    pub direction: String,
}

#[derive(Debug)]
pub struct NetpolNode {
    pub id: String,
    pub label: String,
    pub kind: String,
    pub namespace: String,
    pub has_netpol: bool,
}

#[derive(Debug)]
pub struct NetpolGraph {
    pub policies: Vec<NetpolInfo>,
    pub nodes: Vec<NetpolNode>,
    pub edges: Vec<NetpolEdge>,
    pub unprotected_pods: Vec<String>,
    pub total_policies: usize,
}

/// A port of a policy rule.
#[derive(Debug)]
pub struct PolicyPort {
    pub protocol: Option<String>,
    pub port: Option<IntOrString>,
}

/// A peer of a policy rule; a selector present holds its `matchLabels`,
/// if any.
#[derive(Debug)]
pub struct PolicyPeer {
    pub pod_selector: Option<Option<StrMap>>,
    pub namespace_selector: Option<Option<StrMap>>,
    pub ip_block_cidr: Option<String>,
}

/// An ingress or egress rule: its ports and its peers (`from` or `to`).
#[derive(Debug)]
pub struct PolicyRuleDef {
    pub ports: Option<Vec<PolicyPort>>,
    pub peers: Option<Vec<PolicyPeer>>,
}

#[derive(Debug)]
pub struct PolicySpec {
    pub pod_selector_labels: Option<StrMap>,
    pub policy_types: Option<Vec<String>>,
    pub ingress: Option<Vec<PolicyRuleDef>>,
    pub egress: Option<Vec<PolicyRuleDef>>,
}

#[derive(Debug)]
pub struct NetworkPolicy {
    pub name: Option<String>,
    pub namespace: Option<String>,
    pub spec: Option<PolicySpec>,
}

pub struct RuleView {
    pub direction: Seq<char>,
    pub peer_kind: Seq<char>,
    pub peer_label: Seq<char>,
    pub ports: Seq<Seq<char>>,
}

pub struct NodeView {
    pub id: Seq<char>,
    pub label: Seq<char>,
    pub kind: Seq<char>,
    pub namespace: Seq<char>,
    pub has_netpol: bool,
}

pub struct EdgeView {
    pub from_id: Seq<char>,
    pub to_id: Seq<char>,
    pub policy_name: Seq<char>,
    pub ports: Seq<Seq<char>>,
    pub direction: Seq<char>,
}

pub struct InfoView {
    pub name: Seq<char>,
    pub namespace: Seq<char>,
    pub pod_selector: Seq<char>,
    pub matched_pods: Seq<Seq<char>>,
    pub policy_types: Seq<Seq<char>>,
    pub rules: Seq<RuleView>,
}

impl View for NetpolRule {
    type V = RuleView;

    open spec fn view(&self) -> RuleView {
        RuleView { direction: self.direction@, peer_kind: self.peer_kind@, peer_label: self.peer_label@, ports: views(self.ports@) }
    }
}

impl View for NetpolNode {
    type V = NodeView;

    open spec fn view(&self) -> NodeView {
        NodeView { id: self.id@, label: self.label@, kind: self.kind@, namespace: self.namespace@, has_netpol: self.has_netpol }
    }
}

impl View for NetpolEdge {
    type V = EdgeView;

    open spec fn view(&self) -> EdgeView {
        EdgeView { from_id: self.from_id@, to_id: self.to_id@, policy_name: self.policy_name@, ports: views(self.ports@), direction: self.direction@ }
    }
}

pub open spec fn rule_views(v: Seq<NetpolRule>) -> Seq<RuleView> {
    v.map_values(|x: NetpolRule| x@)
}

pub open spec fn node_views(v: Seq<NetpolNode>) -> Seq<NodeView> {
    v.map_values(|x: NetpolNode| x@)
}

pub open spec fn edge_views(v: Seq<NetpolEdge>) -> Seq<EdgeView> {
    v.map_values(|x: NetpolEdge| x@)
}

impl View for NetpolInfo {
    type V = InfoView;

    open spec fn view(&self) -> InfoView {
        InfoView {
            name: self.name@,
            namespace: self.namespace@,
            pod_selector: self.pod_selector@,
            matched_pods: views(self.matched_pods@),
            policy_types: views(self.policy_types@),
            rules: rule_views(self.rules@),
        }
    }
}

pub open spec fn info_views(v: Seq<NetpolInfo>) -> Seq<InfoView> {
    v.map_values(|x: NetpolInfo| x@)
}

// ---- labels ----

pub open spec fn pair_texts(m: Seq<(String, String)>) -> Seq<Seq<char>>
    decreases m.len(),
{
    if m.len() == 0 {
        Seq::empty()
    } else {
        pair_texts(m.drop_last()).push(m.last().0@ + "="@ + m.last().1@)
    }
}

/// The labels as `key=value` pairs separated by `, `.
pub open spec fn selector_text(m: Seq<(String, String)>) -> Seq<char> {
    join_seq(pair_texts(m), ", "@)
}

/// Every label of `selector` has the same value among `pod`'s labels.
pub open spec fn labels_match_spec(pod: Seq<(String, String)>, selector: Seq<(String, String)>) -> bool {
    forall|i: int| 0 <= i < selector.len() ==> map_get(pod, #[trigger] selector[i].0@) == Some(selector[i].1@)
}

/// An empty selector matches every pod.
pub proof fn law_empty_selector_matches(pod: Seq<(String, String)>)
    ensures
        labels_match_spec(pod, Seq::empty()),
{
}

/// Labels whose keys are distinct match themselves as a selector.
pub proof fn law_labels_match_themselves(labels: Seq<(String, String)>)
    requires
        keys_distinct(labels),
    ensures
        labels_match_spec(labels, labels),
{
    assert forall|i: int| 0 <= i < labels.len() implies map_get(labels, #[trigger] labels[i].0@) == Some(labels[i].1@) by {
        lemma_map_get_entry(labels, i);
    }
}

/// A selector whose every label (key and value) is also a label of a
/// selector that matches a pod matches that pod too: dropping labels from a
/// selector never loses a match.
pub proof fn law_smaller_selector_still_matches(pod: Seq<(String, String)>, s1: Seq<(String, String)>, s2: Seq<(String, String)>)
    requires
        labels_match_spec(pod, s1),
        forall|j: int| 0 <= j < s2.len() ==> exists|i: int| 0 <= i < s1.len()
            && #[trigger] s1[i].0@ == #[trigger] s2[j].0@ && s1[i].1@ == s2[j].1@,
    ensures
        labels_match_spec(pod, s2),
{
    assert forall|j: int| 0 <= j < s2.len() implies map_get(pod, #[trigger] s2[j].0@) == Some(s2[j].1@) by {
        let i = choose|i: int| 0 <= i < s1.len() && #[trigger] s1[i].0@ == s2[j].0@ && s1[i].1@ == s2[j].1@;
        assert(map_get(pod, s1[i].0@) == Some(s1[i].1@));
    }
}

/// Renders labels as a selector, `k=v` pairs joined by `, `.
pub fn labels_to_selector(labels: &StrMap) -> (r: String)
    ensures
        r@ == selector_text(labels@),
{
    let mut parts: Vec<String> = Vec::new();
    let mut i: usize = 0;
    while i < labels.len()
        invariant
            i <= labels@.len(),
            views(parts@) == pair_texts(labels@.subrange(0, i as int)),
        decreases labels@.len() - i,
    {
        let ghost sub = labels@.subrange(0, i + 1);
        assert(sub.drop_last() =~= labels@.subrange(0, i as int));
        let mut s = string_of(labels[i].0.as_str());
        s.append("=");
        s.append(labels[i].1.as_str());
        let ghost before = parts@;
        parts.push(s);
        assert(views(parts@) =~= views(before).push(s@));
        i = i + 1;
    }
    assert(labels@.subrange(0, labels@.len() as int) =~= labels@);
    join(&parts, ", ")
}

/// Whether every label of `selector` is on the pod with the same value.
pub fn labels_match(pod_labels: &StrMap, selector: &StrMap) -> (r: bool)
    ensures
        r == labels_match_spec(pod_labels@, selector@),
{
    let mut i: usize = 0;
    while i < selector.len()
        invariant
            i <= selector@.len(),
            forall|k: int| 0 <= k < i ==> map_get(pod_labels@, #[trigger] selector@[k].0@) == Some(selector@[k].1@),
        decreases selector@.len() - i,
    {
        match map_lookup(pod_labels, selector[i].0.as_str()) {
            Some(v) => {
                if !str_eq(v.as_str(), selector[i].1.as_str()) {
                    return false;
                }
            },
            None => {
                return false;
            },
        }
        i = i + 1;
    }
    true
}

// ---- peers and ports ----

pub open spec fn opt_map(o: Option<StrMap>) -> Seq<(String, String)> {
    match o {
        Some(m) => m@,
        None => Seq::empty(),
    }
}

/// The namespace a pod-selector peer names: `kubernetes.io/metadata.name`
/// of its namespace selector, else the selector's first label, else
/// `default_ns`.
pub open spec fn peer_namespace(ns_sel: Option<Option<StrMap>>, default_ns: Seq<char>) -> Seq<char> {
    match ns_sel {
        Some(Some(l)) => match map_get(l@, "kubernetes.io/metadata.name"@) {
            Some(v) => v,
            None => if l@.len() > 0 { l@[0].1@ } else { default_ns },
        },
        _ => default_ns,
    }
}

/// The kind, label and node id of a peer.
pub open spec fn peer_spec(p: PolicyPeer, default_ns: Seq<char>) -> (Seq<char>, Seq<char>, Seq<char>) {
    match p.pod_selector {
        Some(ml) => {
            let labels = opt_map(ml);
            let label = if labels.len() == 0 { "all pods"@ } else { selector_text(labels) };
            ("pod"@, label, "selector:"@ + peer_namespace(p.namespace_selector, default_ns) + "/"@ + label)
        },
        None => match p.namespace_selector {
            Some(ml) => {
                let labels = opt_map(ml);
                let label = if labels.len() == 0 { "all namespaces"@ } else { selector_text(labels) };
                ("namespace"@, label, "ns:"@ + label)
            },
            None => match p.ip_block_cidr {
                Some(c) => ("external"@, c@, "cidr:"@ + c@),
                None => ("all"@, "all"@, "all"@),
            },
        },
    }
}

/// A port as `port/protocol`, the protocol defaulting to TCP; the
/// protocol alone when no port is given.
pub open spec fn port_text(p: PolicyPort) -> Seq<char> {
    let proto = opt_view_or(p.protocol, "TCP"@);
    match p.port {
        Some(IntOrString::Int(i)) => int_repr(i as int) + "/"@ + proto,
        Some(IntOrString::Str(s)) => s@ + "/"@ + proto,
        None => proto,
    }
}

pub open spec fn port_texts(ps: Seq<PolicyPort>) -> Seq<Seq<char>>
    decreases ps.len(),
{
    if ps.len() == 0 {
        Seq::empty()
    } else {
        port_texts(ps.drop_last()).push(port_text(ps.last()))
    }
}

pub open spec fn rule_ports(r: PolicyRuleDef) -> Seq<Seq<char>> {
    match r.ports {
        Some(v) => port_texts(v@),
        None => Seq::empty(),
    }
}

/// The peer of `p`'s kind, label and id.
pub fn parse_peer(p: &PolicyPeer, default_ns: &str) -> (r: (String, String, String))
    ensures
        (r.0@, r.1@, r.2@) == peer_spec(*p, default_ns@),
{
    match &p.pod_selector {
        Some(ml) => {
            let label = match ml {
                Some(l) => if l.len() == 0 { string_of("all pods") } else { labels_to_selector(l) },
                None => string_of("all pods"),
            };
            let ns: String = match &p.namespace_selector {
                Some(Some(l)) => match map_lookup(l, "kubernetes.io/metadata.name") {
                    Some(v) => string_of(v.as_str()),
                    None => if l.len() > 0 { string_of(l[0].1.as_str()) } else { string_of(default_ns) },
                },
                _ => string_of(default_ns),
            };
            let mut id = string_of("selector:");
            id.append(ns.as_str());
            id.append("/");
            id.append(label.as_str());
            (string_of("pod"), label, id)
        },
        None => match &p.namespace_selector {
            Some(ml) => {
                let label = match ml {
                    Some(l) => if l.len() == 0 { string_of("all namespaces") } else { labels_to_selector(l) },
                    None => string_of("all namespaces"),
                };
                let mut id = string_of("ns:");
                id.append(label.as_str());
                (string_of("namespace"), label, id)
            },
            None => match &p.ip_block_cidr {
                Some(c) => {
                    let mut id = string_of("cidr:");
                    id.append(c.as_str());
                    (string_of("external"), string_of(c.as_str()), id)
                },
                None => (string_of("all"), string_of("all"), string_of("all")),
            },
        },
    }
}

fn port_string(p: &PolicyPort) -> (r: String)
    ensures
        r@ == port_text(*p),
{
    let proto = unwrap_or_str(&p.protocol, "TCP");
    match &p.port {
        Some(IntOrString::Int(i)) => {
            let mut s = String::new();
            append_i64(&mut s, *i as i64);
            s.append("/");
            s.append(proto.as_str());
            s
        },
        Some(IntOrString::Str(x)) => {
            let mut s = string_of(x.as_str());
            s.append("/");
            s.append(proto.as_str());
            s
        },
        None => proto,
    }
}

fn rule_port_strings(r: &PolicyRuleDef) -> (out: Vec<String>)
    ensures
        views(out@) == rule_ports(*r),
{
    let mut out: Vec<String> = Vec::new();
    match &r.ports {
        Some(ps) => {
            let mut i: usize = 0;
            while i < ps.len()
                invariant
                    i <= ps@.len(),
                    views(out@) == port_texts(ps@.subrange(0, i as int)),
                decreases ps@.len() - i,
            {
                let ghost sub = ps@.subrange(0, i + 1);
                assert(sub.drop_last() =~= ps@.subrange(0, i as int));
                let ghost before = out@;
                let t = port_string(&ps[i]);
                out.push(t);
                assert(views(out@) =~= views(before).push(t@));
                i = i + 1;
            }
            assert(ps@.subrange(0, ps@.len() as int) =~= ps@);
        },
        None => {
            assert(views(out@) =~= Seq::<Seq<char>>::empty());
        },
    }
    out
}

// ---- pods ----

pub open spec fn pod_key(p: Pod) -> Seq<char> {
    opt_view_or(p.metadata.namespace, "default"@) + "/"@ + opt_view(p.metadata.name)
}

pub open spec fn pod_labels(p: Pod) -> Seq<(String, String)> {
    opt_map(p.metadata.labels)
}

/// The position of the first key equal to `key`.
pub open spec fn key_pos<V>(es: Seq<(Seq<char>, V)>, key: Seq<char>) -> Option<int>
    decreases es.len(),
{
    if es.len() == 0 {
        None
    } else if es[0].0 == key {
        Some(0)
    } else {
        match key_pos(es.drop_first(), key) {
            Some(k) => Some(k + 1),
            None => None,
        }
    }
}

/// Pods by `namespace/name` with their labels, a later pod with the same
/// key replacing the labels in place; pods without a name are left out.
pub open spec fn pod_entries(pods: Seq<Pod>) -> Seq<(Seq<char>, Seq<(String, String)>)>
    decreases pods.len(),
{
    if pods.len() == 0 {
        Seq::empty()
    } else {
        let es = pod_entries(pods.drop_last());
        let p = pods.last();
        if p.metadata.name is Some {
            match key_pos(es, pod_key(p)) {
                Some(k) => es.update(k, (pod_key(p), pod_labels(p))),
                None => es.push((pod_key(p), pod_labels(p))),
            }
        } else {
            es
        }
    }
}

pub open spec fn node_pos(ns: Seq<NodeView>, id: Seq<char>) -> Option<int>
    decreases ns.len(),
{
    if ns.len() == 0 {
        None
    } else if ns[0].id == id {
        Some(0)
    } else {
        match node_pos(ns.drop_first(), id) {
            Some(k) => Some(k + 1),
            None => None,
        }
    }
}

pub open spec fn pod_node(p: Pod) -> NodeView {
    NodeView {
        id: pod_key(p),
        label: opt_view(p.metadata.name),
        kind: "pod"@,
        namespace: opt_view_or(p.metadata.namespace, "default"@),
        has_netpol: false,
    }
}

/// A node for each pod by key, a later pod with the same key replacing
/// the node in place.
pub open spec fn pod_nodes(pods: Seq<Pod>) -> Seq<NodeView>
    decreases pods.len(),
{
    if pods.len() == 0 {
        Seq::empty()
    } else {
        let ns = pod_nodes(pods.drop_last());
        let n = pod_node(pods.last());
        match node_pos(ns, n.id) {
            Some(k) => ns.update(k, n),
            None => ns.push(n),
        }
    }
}

// ---- one policy ----

/// The part of `k` before its first `/`.
pub open spec fn first_segment(k: Seq<char>) -> Seq<char>
    decreases k.len(),
{
    if k.len() == 0 || k[0] == '/' {
        Seq::empty()
    } else {
        seq![k[0]] + first_segment(k.drop_first())
    }
}

/// The part of `k` after its last `/`.
pub open spec fn last_segment(k: Seq<char>) -> Seq<char>
    decreases k.len(),
{
    if k.len() == 0 || k.last() == '/' {
        Seq::empty()
    } else {
        last_segment(k.drop_last()).push(k.last())
    }
}

/// The keys of the pods a policy in namespace `ns` with pod selector
/// labels `sel` selects.
pub open spec fn matched_keys(es: Seq<(Seq<char>, Seq<(String, String)>)>, ns: Seq<char>, sel: Seq<(String, String)>) -> Seq<Seq<char>>
    decreases es.len(),
{
    if es.len() == 0 {
        Seq::empty()
    } else {
        let prev = matched_keys(es.drop_last(), ns, sel);
        let e = es.last();
        if first_segment(e.0) == ns && (sel.len() == 0 || labels_match_spec(e.1, sel)) {
            prev.push(e.0)
        } else {
            prev
        }
    }
}

pub open spec fn mark_nodes(nodes: Seq<NodeView>, matched: Seq<Seq<char>>) -> Seq<NodeView> {
    Seq::new(nodes.len(), |i: int|
        if matched.contains(nodes[i].id) {
            NodeView { has_netpol: true, ..nodes[i] }
        } else {
            nodes[i]
        })
}

pub open spec fn edges_for(id: Seq<char>, matched: Seq<Seq<char>>, name: Seq<char>, ports: Seq<Seq<char>>, ingress: bool) -> Seq<EdgeView> {
    Seq::new(matched.len(), |i: int|
        if ingress {
            EdgeView { from_id: id, to_id: matched[i], policy_name: name, ports: ports, direction: "ingress"@ }
        } else {
            EdgeView { from_id: matched[i], to_id: id, policy_name: name, ports: ports, direction: "egress"@ }
        })
}

pub struct Walk {
    pub rules: Seq<RuleView>,
    pub nodes: Seq<NodeView>,
    pub edges: Seq<EdgeView>,
}

pub struct PolicyCtx {
    pub name: Seq<char>,
    pub ns: Seq<char>,
    pub matched: Seq<Seq<char>>,
}

pub open spec fn dir_text(ingress: bool) -> Seq<char> {
    if ingress { "ingress"@ } else { "egress"@ }
}

pub open spec fn peer_step(w: Walk, c: PolicyCtx, p: PolicyPeer, ports: Seq<Seq<char>>, ingress: bool) -> Walk {
    let (kind, label, id) = peer_spec(p, c.ns);
    Walk {
        rules: w.rules.push(RuleView { direction: dir_text(ingress), peer_kind: kind, peer_label: label, ports: ports }),
        nodes: if node_pos(w.nodes, id) is Some {
            w.nodes
        } else {
            w.nodes.push(NodeView { id: id, label: label, kind: kind, namespace: c.ns, has_netpol: false })
        },
        edges: w.edges + edges_for(id, c.matched, c.name, ports, ingress),
    }
}

pub open spec fn peers_step(w: Walk, c: PolicyCtx, ps: Seq<PolicyPeer>, ports: Seq<Seq<char>>, ingress: bool) -> Walk
    decreases ps.len(),
{
    if ps.len() == 0 {
        w
    } else {
        peer_step(peers_step(w, c, ps.drop_last(), ports, ingress), c, ps.last(), ports, ingress)
    }
}

pub open spec fn rule_step(w: Walk, c: PolicyCtx, r: PolicyRuleDef, ingress: bool) -> Walk {
    let ports = rule_ports(r);
    match r.peers {
        Some(ps) => peers_step(w, c, ps@, ports, ingress),
        None => Walk {
            rules: w.rules.push(RuleView {
                direction: dir_text(ingress),
                peer_kind: "all"@,
                peer_label: if ingress { "all sources"@ } else { "all destinations"@ },
                ports: ports,
            }),
            ..w
        },
    }
}

pub open spec fn rules_step(w: Walk, c: PolicyCtx, rs: Seq<PolicyRuleDef>, ingress: bool) -> Walk
    decreases rs.len(),
{
    if rs.len() == 0 {
        w
    } else {
        rule_step(rules_step(w, c, rs.drop_last(), ingress), c, rs.last(), ingress)
    }
}

pub struct Graph {
    pub infos: Seq<InfoView>,
    pub nodes: Seq<NodeView>,
    pub edges: Seq<EdgeView>,
    pub protected: Seq<Seq<char>>,
}

pub open spec fn opt_rules(o: Option<Vec<PolicyRuleDef>>) -> Seq<PolicyRuleDef> {
    match o {
        Some(v) => v@,
        None => Seq::empty(),
    }
}

pub open spec fn last_segments(ks: Seq<Seq<char>>) -> Seq<Seq<char>> {
    ks.map_values(|k: Seq<char>| last_segment(k))
}

/// The graph after the policy `np`.
pub open spec fn policy_step(g: Graph, es: Seq<(Seq<char>, Seq<(String, String)>)>, np: NetworkPolicy) -> Graph {
    match np.spec {
        None => g,
        Some(spec) => {
            let name = opt_view(np.name);
            let ns = opt_view_or(np.namespace, "default"@);
            let sel = opt_map(spec.pod_selector_labels);
            let matched = matched_keys(es, ns, sel);
            let c = PolicyCtx { name, ns, matched };
            let w0 = Walk { rules: Seq::empty(), nodes: mark_nodes(g.nodes, matched), edges: g.edges };
            let w1 = rules_step(w0, c, opt_rules(spec.ingress), true);
            let w2 = rules_step(w1, c, opt_rules(spec.egress), false);
            Graph {
                infos: g.infos.push(InfoView {
                    name,
                    namespace: ns,
                    pod_selector: if sel.len() == 0 { "(all pods)"@ } else { selector_text(sel) },
                    matched_pods: last_segments(matched),
                    policy_types: opt_views(spec.policy_types),
                    rules: w2.rules,
                }),
                nodes: w2.nodes,
                edges: w2.edges,
                protected: g.protected + matched,
            }
        },
    }
}

pub open spec fn policies_step(g: Graph, es: Seq<(Seq<char>, Seq<(String, String)>)>, nps: Seq<NetworkPolicy>) -> Graph
    decreases nps.len(),
{
    if nps.len() == 0 {
        g
    } else {
        policy_step(policies_step(g, es, nps.drop_last()), es, nps.last())
    }
}

/// The graph of the policies `nps` over the pods `pods`.
pub open spec fn graph_of(pods: Seq<Pod>, nps: Seq<NetworkPolicy>) -> Graph {
    policies_step(Graph { infos: Seq::empty(), nodes: pod_nodes(pods), edges: Seq::empty(), protected: Seq::empty() },
        pod_entries(pods), nps)
}

/// The keys of the pods that no policy selects.
pub open spec fn unprotected(es: Seq<(Seq<char>, Seq<(String, String)>)>, protected: Seq<Seq<char>>) -> Seq<Seq<char>>
    decreases es.len(),
{
    if es.len() == 0 {
        Seq::empty()
    } else if protected.contains(es.last().0) {
        unprotected(es.drop_last(), protected)
    } else {
        unprotected(es.drop_last(), protected).push(es.last().0)
    }
}

// ---- executable graph ----

/// Pod entries as keys with the index of the pod whose labels they hold.
pub open spec fn entry_views(es: Seq<(String, usize)>, pods: Seq<Pod>) -> Seq<(Seq<char>, Seq<(String, String)>)> {
    es.map_values(|e: (String, usize)| (e.0@, pod_labels(pods[e.1 as int])))
}

proof fn lemma_key_pos<V>(es: Seq<(Seq<char>, V)>, key: Seq<char>, k: int)
    requires
        0 <= k <= es.len(),
        forall|t: int| 0 <= t < k ==> es[t].0 != key,
    ensures
        k < es.len() && es[k].0 == key ==> key_pos(es, key) == Some(k),
        k == es.len() ==> key_pos(es, key) is None,
    decreases k,
{
    if k > 0 {
        lemma_key_pos(es.drop_first(), key, k - 1);
    }
}

proof fn lemma_node_pos(ns: Seq<NodeView>, id: Seq<char>, k: int)
    requires
        0 <= k <= ns.len(),
        forall|t: int| 0 <= t < k ==> ns[t].id != id,
    ensures
        k < ns.len() && ns[k].id == id ==> node_pos(ns, id) == Some(k),
        k == ns.len() ==> node_pos(ns, id) is None,
    decreases k,
{
    if k > 0 {
        lemma_node_pos(ns.drop_first(), id, k - 1);
    }
}

fn key_of(p: &Pod) -> (r: String)
    ensures
        r@ == pod_key(*p),
{
    let mut k = unwrap_or_str(&p.metadata.namespace, "default");
    k.append("/");
    let n = unwrap_or_empty(&p.metadata.name);
    k.append(n.as_str());
    k
}

fn build_entries(pods: &Vec<Pod>) -> (r: Vec<(String, usize)>)
    ensures
        entry_views(r@, pods@) == pod_entries(pods@),
        forall|i: int| 0 <= i < r@.len() ==> (#[trigger] r@[i]).1 < pods@.len(),
{
    let mut es: Vec<(String, usize)> = Vec::new();
    let mut i: usize = 0;
    while i < pods.len()
        invariant
            i <= pods@.len(),
            entry_views(es@, pods@) == pod_entries(pods@.subrange(0, i as int)),
            forall|t: int| 0 <= t < es@.len() ==> (#[trigger] es@[t]).1 < i,
        decreases pods@.len() - i,
    {
        let ghost sub = pods@.subrange(0, i + 1);
        assert(sub.drop_last() =~= pods@.subrange(0, i as int));
        let p = &pods[i];
        if p.metadata.name.is_some() {
            let key = key_of(p);
            let ghost ev = entry_views(es@, pods@);
            match find_entry(&es, key.as_str(), pods) {
                Some(k) => {
                    es.set(k, (key, i));
                    assert(entry_views(es@, pods@) =~= ev.update(k as int, (pod_key(*p), pod_labels(*p))));
                },
                None => {
                    es.push((key, i));
                    assert(entry_views(es@, pods@) =~= ev.push((pod_key(*p), pod_labels(*p))));
                },
            }
        }
        i = i + 1;
        assert(entry_views(es@, pods@) == pod_entries(pods@.subrange(0, i as int)));
    }
    assert(pods@.subrange(0, pods@.len() as int) =~= pods@);
    es
}

fn find_entry(es: &Vec<(String, usize)>, key: &str, pods: &Vec<Pod>) -> (r: Option<usize>)
    ensures
        match r {
            Some(k) => key_pos(entry_views(es@, pods@), key@) == Some(k as int) && k < es@.len(),
            None => key_pos(entry_views(es@, pods@), key@) is None,
        },
{
    let ghost ev = entry_views(es@, pods@);
    let mut k: usize = 0;
    while k < es.len()
        invariant
            k <= es@.len(),
            ev == entry_views(es@, pods@),
            forall|t: int| 0 <= t < k ==> ev[t].0 != key@,
        decreases es@.len() - k,
    {
        if str_eq(es[k].0.as_str(), key) {
            proof {
                assert(ev[k as int].0 == key@);
                lemma_key_pos(ev, key@, k as int);
            }
            return Some(k);
        }
        k = k + 1;
    }
    proof {
        lemma_key_pos(ev, key@, ev.len() as int);
    }
    None
}

fn find_node(nodes: &Vec<NetpolNode>, id: &str) -> (r: Option<usize>)
    ensures
        match r {
            Some(k) => node_pos(node_views(nodes@), id@) == Some(k as int) && k < nodes@.len(),
            None => node_pos(node_views(nodes@), id@) is None,
        },
{
    let ghost nv = node_views(nodes@);
    let mut k: usize = 0;
    while k < nodes.len()
        invariant
            k <= nodes@.len(),
            nv == node_views(nodes@),
            forall|t: int| 0 <= t < k ==> nv[t].id != id@,
        decreases nodes@.len() - k,
    {
        if str_eq(nodes[k].id.as_str(), id) {
            proof {
                assert(nv[k as int].id == id@);
                lemma_node_pos(nv, id@, k as int);
            }
            return Some(k);
        }
        k = k + 1;
    }
    proof {
        lemma_node_pos(nv, id@, nv.len() as int);
    }
    None
}

fn build_pod_nodes(pods: &Vec<Pod>) -> (r: Vec<NetpolNode>)
    ensures
        node_views(r@) == pod_nodes(pods@),
{
    let mut ns: Vec<NetpolNode> = Vec::new();
    let mut i: usize = 0;
    while i < pods.len()
        invariant
            i <= pods@.len(),
            node_views(ns@) == pod_nodes(pods@.subrange(0, i as int)),
        decreases pods@.len() - i,
    {
        let ghost sub = pods@.subrange(0, i + 1);
        assert(sub.drop_last() =~= pods@.subrange(0, i as int));
        let p = &pods[i];
        let n = NetpolNode {
            id: key_of(p),
            label: unwrap_or_empty(&p.metadata.name),
            kind: string_of("pod"),
            namespace: unwrap_or_str(&p.metadata.namespace, "default"),
            has_netpol: false,
        };
        let ghost before = node_views(ns@);
        match find_node(&ns, n.id.as_str()) {
            Some(k) => {
                ns.set(k, n);
                assert(node_views(ns@) =~= before.update(k as int, pod_node(*p)));
            },
            None => {
                ns.push(n);
                assert(node_views(ns@) =~= before.push(pod_node(*p)));
            },
        }
        i = i + 1;
    }
    assert(pods@.subrange(0, pods@.len() as int) =~= pods@);
    ns
}

fn first_segment_of(k: &str) -> (r: String)
    ensures
        r@ == first_segment(k@),
{
    let v = crate::text::chars_of(k);
    let mut i: usize = 0;
    assert(v@.subrange(0, 0) + k@.subrange(0, k@.len() as int) =~= k@);
    while i < v.len() && v[i] != '/'
        invariant
            i <= v@.len(),
            v@ == k@,
            first_segment(k@) == v@.subrange(0, i as int) + first_segment(k@.subrange(i as int, k@.len() as int)),
        decreases v@.len() - i,
    {
        let ghost rest = k@.subrange(i as int, k@.len() as int);
        assert(rest.drop_first() =~= k@.subrange(i + 1, k@.len() as int));
        assert(v@.subrange(0, i + 1) =~= v@.subrange(0, i as int) + seq![rest[0]]);
        i = i + 1;
    }
    proof {
        let rest = k@.subrange(i as int, k@.len() as int);
        assert(rest.len() == 0 || rest[0] == '/');
        assert(first_segment(rest) =~= Seq::<char>::empty());
        assert(first_segment(k@) =~= v@.subrange(0, i as int));
    }
    assert(k@.subrange(0, 0) =~= Seq::<char>::empty());
    crate::text::string_from_range(&v, 0, i)
}

fn last_segment_of(k: &str) -> (r: String)
    ensures
        r@ == last_segment(k@),
{
    let v = crate::text::chars_of(k);
    let n = v.len();
    let mut i: usize = n;
    assert(k@.subrange(0, n as int) + v@.subrange(n as int, n as int) =~= k@);
    while i > 0 && v[i - 1] != '/'
        invariant
            i <= n,
            n == v@.len(),
            v@ == k@,
            last_segment(k@) == last_segment(k@.subrange(0, i as int)) + v@.subrange(i as int, n as int),
        decreases i,
    {
        let ghost pre = k@.subrange(0, i as int);
        assert(pre.drop_last() =~= k@.subrange(0, i - 1));
        assert(v@.subrange(i - 1, n as int) =~= seq![pre.last()] + v@.subrange(i as int, n as int));
        i = i - 1;
    }
    proof {
        let pre = k@.subrange(0, i as int);
        assert(last_segment(pre) =~= Seq::<char>::empty());
        assert(last_segment(k@) =~= v@.subrange(i as int, n as int));
    }
    proof {
        assert(k@.subrange(0, n as int) =~= k@);
    }
    crate::text::string_from_range(&v, i, n)
}

fn matched_pod_keys(es: &Vec<(String, usize)>, pods: &Vec<Pod>, ns: &str, sel: &StrMap) -> (r: Vec<String>)
    requires
        forall|i: int| 0 <= i < es@.len() ==> (#[trigger] es@[i]).1 < pods@.len(),
    ensures
        views(r@) == matched_keys(entry_views(es@, pods@), ns@, sel@),
{
    let empty: StrMap = Vec::new();
    let mut out: Vec<String> = Vec::new();
    let mut i: usize = 0;
    while i < es.len()
        invariant
            i <= es@.len(),
            empty@.len() == 0,
            forall|t: int| 0 <= t < es@.len() ==> (#[trigger] es@[t]).1 < pods@.len(),
            views(out@) == matched_keys(entry_views(es@.subrange(0, i as int), pods@), ns@, sel@),
        decreases es@.len() - i,
    {
        let ghost sub = entry_views(es@.subrange(0, i + 1), pods@);
        assert(sub.drop_last() =~= entry_views(es@.subrange(0, i as int), pods@));
        let key = es[i].0.as_str();
        let idx = es[i].1;
        let labels: &StrMap = match &pods[idx].metadata.labels {
            Some(l) => l,
            None => &empty,
        };
        assert(labels@ == pod_labels(pods@[idx as int]));
        let seg = first_segment_of(key);
        if str_eq(seg.as_str(), ns) && (sel.len() == 0 || labels_match(labels, sel)) {
            let ghost before = out@;
            out.push(string_of(key));
            assert(views(out@) =~= views(before).push(key@));
        }
        i = i + 1;
    }
    assert(es@.subrange(0, es@.len() as int) =~= es@);
    out
}

fn mark_matched(nodes: &mut Vec<NetpolNode>, matched: &Vec<String>)
    ensures
        node_views(final(nodes)@) == mark_nodes(node_views(old(nodes)@), views(matched@)),
{
    let ghost nv = node_views(nodes@);
    let mut i: usize = 0;
    while i < nodes.len()
        invariant
            i <= nodes@.len(),
            nv == node_views(old(nodes)@),
            nodes@.len() == nv.len(),
            forall|t: int| 0 <= t < i ==> #[trigger] node_views(nodes@)[t] == mark_nodes(nv, views(matched@))[t],
            forall|t: int| i <= t < nodes@.len() ==> #[trigger] node_views(nodes@)[t] == nv[t],
        decreases nodes@.len() - i,
    {
        assert(node_views(nodes@)[i as int] == nv[i as int]);
        if vec_has_str(matched, nodes[i].id.as_str()) {
            let n = NetpolNode {
                id: string_of(nodes[i].id.as_str()),
                label: string_of(nodes[i].label.as_str()),
                kind: string_of(nodes[i].kind.as_str()),
                namespace: string_of(nodes[i].namespace.as_str()),
                has_netpol: true,
            };
            let ghost before = nodes@;
            nodes.set(i, n);
            assert forall|t: int| 0 <= t < nodes@.len() && t != i implies #[trigger] node_views(nodes@)[t] == node_views(before)[t] by {}
        }
        i = i + 1;
    }
    assert(node_views(nodes@) =~= mark_nodes(nv, views(matched@)));
}

fn vec_has_str(v: &Vec<String>, s: &str) -> (r: bool)
    ensures
        r == views(v@).contains(s@),
{
    crate::text::vec_has(v, s)
}

pub open spec fn walk_of(rules: Seq<NetpolRule>, nodes: Seq<NetpolNode>, edges: Seq<NetpolEdge>) -> Walk {
    Walk { rules: rule_views(rules), nodes: node_views(nodes), edges: edge_views(edges) }
}

fn apply_peer(p: &PolicyPeer, name: &str, ns: &str, matched: &Vec<String>, ports: &Vec<String>, ingress: bool,
    rules: &mut Vec<NetpolRule>, nodes: &mut Vec<NetpolNode>, edges: &mut Vec<NetpolEdge>)
    ensures
        walk_of(final(rules)@, final(nodes)@, final(edges)@) == peer_step(walk_of(old(rules)@, old(nodes)@, old(edges)@),
            PolicyCtx { name: name@, ns: ns@, matched: views(matched@) }, *p, views(ports@), ingress),
{
    let (kind, label, id) = parse_peer(p, ns);
    let ghost r0 = rule_views(rules@);
    let ghost n0 = node_views(nodes@);
    let ghost e0 = edge_views(edges@);
    let dir = if ingress { "ingress" } else { "egress" };
    let rule = NetpolRule {
        direction: string_of(dir),
        peer_kind: string_of(kind.as_str()),
        peer_label: string_of(label.as_str()),
        ports: clone_strings(ports),
    };
    rules.push(rule);
    assert(rule_views(rules@) =~= r0.push(rule@));
    match find_node(nodes, id.as_str()) {
        Some(_) => {},
        None => {
            let n = NetpolNode {
                id: string_of(id.as_str()),
                label: string_of(label.as_str()),
                kind: string_of(kind.as_str()),
                namespace: string_of(ns),
                has_netpol: false,
            };
            nodes.push(n);
            assert(node_views(nodes@) =~= n0.push(n@));
        },
    }
    let mut k: usize = 0;
    let ghost all = edges_for(id@, views(matched@), name@, views(ports@), ingress);
    while k < matched.len()
        invariant
            k <= matched@.len(),
            all == edges_for(id@, views(matched@), name@, views(ports@), ingress),
            edge_views(edges@) == e0 + all.subrange(0, k as int),
        decreases matched@.len() - k,
    {
        let e = if ingress {
            NetpolEdge {
                from_id: string_of(id.as_str()),
                to_id: string_of(matched[k].as_str()),
                policy_name: string_of(name),
                ports: clone_strings(ports),
                direction: string_of("ingress"),
            }
        } else {
            NetpolEdge {
                from_id: string_of(matched[k].as_str()),
                to_id: string_of(id.as_str()),
                policy_name: string_of(name),
                ports: clone_strings(ports),
                direction: string_of("egress"),
            }
        };
        let ghost before = edge_views(edges@);
        edges.push(e);
        assert(views(matched@)[k as int] == matched@[k as int]@);
        assert(e@ == all[k as int]);
        assert(edge_views(edges@) =~= before.push(e@));
        assert(all.subrange(0, k + 1) =~= all.subrange(0, k as int).push(all[k as int]));
        k = k + 1;
    }
    assert(all.subrange(0, all.len() as int) =~= all);
}

fn apply_rule(r: &PolicyRuleDef, name: &str, ns: &str, matched: &Vec<String>, ingress: bool,
    rules: &mut Vec<NetpolRule>, nodes: &mut Vec<NetpolNode>, edges: &mut Vec<NetpolEdge>)
    ensures
        walk_of(final(rules)@, final(nodes)@, final(edges)@) == rule_step(walk_of(old(rules)@, old(nodes)@, old(edges)@),
            PolicyCtx { name: name@, ns: ns@, matched: views(matched@) }, *r, ingress),
{
    let ghost c = PolicyCtx { name: name@, ns: ns@, matched: views(matched@) };
    let ports = rule_port_strings(r);
    match &r.peers {
        Some(ps) => {
            let ghost w0 = walk_of(rules@, nodes@, edges@);
            let mut i: usize = 0;
            while i < ps.len()
                invariant
                    i <= ps@.len(),
                    c == (PolicyCtx { name: name@, ns: ns@, matched: views(matched@) }),
                    views(ports@) == rule_ports(*r),
                    walk_of(rules@, nodes@, edges@) == peers_step(w0, c, ps@.subrange(0, i as int), views(ports@), ingress),
                decreases ps@.len() - i,
            {
                let ghost sub = ps@.subrange(0, i + 1);
                assert(sub.drop_last() =~= ps@.subrange(0, i as int));
                apply_peer(&ps[i], name, ns, matched, &ports, ingress, rules, nodes, edges);
                i = i + 1;
            }
            assert(ps@.subrange(0, ps@.len() as int) =~= ps@);
        },
        None => {
            let ghost r0 = rule_views(rules@);
            let rule = NetpolRule {
                direction: string_of(if ingress { "ingress" } else { "egress" }),
                peer_kind: string_of("all"),
                peer_label: string_of(if ingress { "all sources" } else { "all destinations" }),
                ports,
            };
            rules.push(rule);
            assert(rule_views(rules@) =~= r0.push(rule@));
        },
    }
}

fn apply_rules(rs: &Option<Vec<PolicyRuleDef>>, name: &str, ns: &str, matched: &Vec<String>, ingress: bool,
    rules: &mut Vec<NetpolRule>, nodes: &mut Vec<NetpolNode>, edges: &mut Vec<NetpolEdge>)
    ensures
        walk_of(final(rules)@, final(nodes)@, final(edges)@) == rules_step(walk_of(old(rules)@, old(nodes)@, old(edges)@),
            PolicyCtx { name: name@, ns: ns@, matched: views(matched@) }, opt_rules(*rs), ingress),
{
    let ghost c = PolicyCtx { name: name@, ns: ns@, matched: views(matched@) };
    match rs {
        Some(v) => {
            let ghost w0 = walk_of(rules@, nodes@, edges@);
            let mut i: usize = 0;
            while i < v.len()
                invariant
                    i <= v@.len(),
                    c == (PolicyCtx { name: name@, ns: ns@, matched: views(matched@) }),
                    walk_of(rules@, nodes@, edges@) == rules_step(w0, c, v@.subrange(0, i as int), ingress),
                decreases v@.len() - i,
            {
                let ghost sub = v@.subrange(0, i + 1);
                assert(sub.drop_last() =~= v@.subrange(0, i as int));
                apply_rule(&v[i], name, ns, matched, ingress, rules, nodes, edges);
                i = i + 1;
            }
            assert(v@.subrange(0, v@.len() as int) =~= v@);
        },
        None => {},
    }
}

pub open spec fn graph_state(infos: Seq<NetpolInfo>, nodes: Seq<NetpolNode>, edges: Seq<NetpolEdge>, protected: Seq<String>) -> Graph {
    Graph { infos: info_views(infos), nodes: node_views(nodes), edges: edge_views(edges), protected: views(protected) }
}

fn last_segments_of(keys: &Vec<String>) -> (r: Vec<String>)
    ensures
        views(r@) == last_segments(views(keys@)),
{
    let mut out: Vec<String> = Vec::new();
    let mut i: usize = 0;
    while i < keys.len()
        invariant
            i <= keys@.len(),
            views(out@) == last_segments(views(keys@.subrange(0, i as int))),
        decreases keys@.len() - i,
    {
        let ghost before = out@;
        let t = last_segment_of(keys[i].as_str());
        out.push(t);
        assert(views(out@) =~= views(before).push(t@));
        assert(views(keys@.subrange(0, i + 1)) =~= views(keys@.subrange(0, i as int)).push(keys@[i as int]@));
        assert(views(out@) =~= last_segments(views(keys@.subrange(0, i + 1))));
        i = i + 1;
    }
    assert(keys@.subrange(0, keys@.len() as int) =~= keys@);
    out
}

fn apply_policy(np: &NetworkPolicy, es: &Vec<(String, usize)>, pods: &Vec<Pod>, infos: &mut Vec<NetpolInfo>,
    nodes: &mut Vec<NetpolNode>, edges: &mut Vec<NetpolEdge>, protected: &mut Vec<String>)
    requires
        forall|i: int| 0 <= i < es@.len() ==> (#[trigger] es@[i]).1 < pods@.len(),
    ensures
        graph_state(final(infos)@, final(nodes)@, final(edges)@, final(protected)@)
            == policy_step(graph_state(old(infos)@, old(nodes)@, old(edges)@, old(protected)@), entry_views(es@, pods@), *np),
{
    match &np.spec {
        None => {},
        Some(spec) => {
            let name = unwrap_or_empty(&np.name);
            let ns = unwrap_or_str(&np.namespace, "default");
            let empty: StrMap = Vec::new();
            let sel: &StrMap = match &spec.pod_selector_labels {
                Some(l) => l,
                None => &empty,
            };
            let matched = matched_pod_keys(es, pods, ns.as_str(), sel);
            mark_matched(nodes, &matched);
            let mut rules: Vec<NetpolRule> = Vec::new();
            assert(rule_views(rules@) =~= Seq::<RuleView>::empty());
            apply_rules(&spec.ingress, name.as_str(), ns.as_str(), &matched, true, &mut rules, nodes, edges);
            apply_rules(&spec.egress, name.as_str(), ns.as_str(), &matched, false, &mut rules, nodes, edges);
            let ghost p0 = views(protected@);
            let mut i: usize = 0;
            while i < matched.len()
                invariant
                    i <= matched@.len(),
                    views(protected@) == p0 + views(matched@.subrange(0, i as int)),
                decreases matched@.len() - i,
            {
                let ghost before = protected@;
                let t = string_of(matched[i].as_str());
                protected.push(t);
                assert(views(protected@) =~= views(before).push(t@));
                assert(views(matched@.subrange(0, i + 1)) =~= views(matched@.subrange(0, i as int)).push(matched@[i as int]@));
                assert(views(protected@) =~= p0 + views(matched@.subrange(0, i + 1)));
                i = i + 1;
            }
            assert(matched@.subrange(0, matched@.len() as int) =~= matched@);
            let pod_selector = if sel.len() == 0 { string_of("(all pods)") } else { labels_to_selector(sel) };
            let info = NetpolInfo {
                name,
                namespace: ns,
                pod_selector,
                matched_pods: last_segments_of(&matched),
                policy_types: strings_or_empty(&spec.policy_types),
                rules,
            };
            let ghost i0 = info_views(infos@);
            infos.push(info);
            assert(info_views(infos@) =~= i0.push(info@));
        },
    }
}

fn unprotected_keys(es: &Vec<(String, usize)>, pods: &Vec<Pod>, protected: &Vec<String>) -> (r: Vec<String>)
    ensures
        views(r@) == unprotected(entry_views(es@, pods@), views(protected@)),
{
    let mut out: Vec<String> = Vec::new();
    let mut i: usize = 0;
    while i < es.len()
        invariant
            i <= es@.len(),
            views(out@) == unprotected(entry_views(es@.subrange(0, i as int), pods@), views(protected@)),
        decreases es@.len() - i,
    {
        let ghost sub = entry_views(es@.subrange(0, i + 1), pods@);
        assert(sub.drop_last() =~= entry_views(es@.subrange(0, i as int), pods@));
        if !vec_has_str(protected, es[i].0.as_str()) {
            let ghost before = out@;
            out.push(string_of(es[i].0.as_str()));
            assert(views(out@) =~= views(before).push(es@[i as int].0@));
        }
        i = i + 1;
    }
    assert(es@.subrange(0, es@.len() as int) =~= es@);
    out
}

/// The network policy graph of the policies `nps` over the pods `pods`.
pub fn network_policy_graph(pods: &Vec<Pod>, nps: &Vec<NetworkPolicy>) -> (r: NetpolGraph)
    ensures
        ({
            let g = graph_of(pods@, nps@);
            &&& info_views(r.policies@) == g.infos
            &&& node_views(r.nodes@) == g.nodes
            &&& edge_views(r.edges@) == g.edges
            &&& views(r.unprotected_pods@) == unprotected(pod_entries(pods@), g.protected)
            &&& r.total_policies == g.infos.len()
        }),
{
    let es = build_entries(pods);
    let mut nodes = build_pod_nodes(pods);
    let mut infos: Vec<NetpolInfo> = Vec::new();
    let mut edges: Vec<NetpolEdge> = Vec::new();
    let mut protected: Vec<String> = Vec::new();
    let ghost g0 = Graph { infos: Seq::empty(), nodes: pod_nodes(pods@), edges: Seq::empty(), protected: Seq::empty() };
    assert(graph_state(infos@, nodes@, edges@, protected@) =~= g0) by {
        assert(info_views(infos@) =~= Seq::<InfoView>::empty());
        assert(edge_views(edges@) =~= Seq::<EdgeView>::empty());
        assert(views(protected@) =~= Seq::<Seq<char>>::empty());
    }
    let mut i: usize = 0;
    while i < nps.len()
        invariant
            i <= nps@.len(),
            forall|t: int| 0 <= t < es@.len() ==> (#[trigger] es@[t]).1 < pods@.len(),
            entry_views(es@, pods@) == pod_entries(pods@),
            graph_state(infos@, nodes@, edges@, protected@) == policies_step(g0, pod_entries(pods@), nps@.subrange(0, i as int)),
        decreases nps@.len() - i,
    {
        let ghost sub = nps@.subrange(0, i + 1);
        assert(sub.drop_last() =~= nps@.subrange(0, i as int));
        apply_policy(&nps[i], &es, pods, &mut infos, &mut nodes, &mut edges, &mut protected);
        i = i + 1;
    }
    assert(nps@.subrange(0, nps@.len() as int) =~= nps@);
    let unprotected_pods = unprotected_keys(&es, pods, &protected);
    let total_policies = infos.len();
    NetpolGraph { policies: infos, nodes, edges, unprotected_pods, total_policies }
}

// ---- laws ----

pub open spec fn has_id(ns: Seq<NodeView>, id: Seq<char>) -> bool {
    exists|i: int| 0 <= i < ns.len() && (#[trigger] ns[i]).id == id
}

/// Every key in `ks` names a node of `ns`.
pub open spec fn all_have_nodes(ns: Seq<NodeView>, ks: Seq<Seq<char>>) -> bool {
    forall|i: int| 0 <= i < ks.len() ==> has_id(ns, #[trigger] ks[i])
}

/// Both ends of every edge of `es` are nodes of `ns`.
pub open spec fn edges_connect(ns: Seq<NodeView>, es: Seq<EdgeView>) -> bool {
    forall|i: int| 0 <= i < es.len() ==> has_id(ns, (#[trigger] es[i]).from_id) && has_id(ns, es[i].to_id)
}

pub open spec fn entry_keys(es: Seq<(Seq<char>, Seq<(String, String)>)>) -> Seq<Seq<char>> {
    es.map_values(|e: (Seq<char>, Seq<(String, String)>)| e.0)
}

proof fn lemma_node_pos_found(ns: Seq<NodeView>, id: Seq<char>)
    ensures
        node_pos(ns, id) matches Some(k) ==> 0 <= k < ns.len() && ns[k].id == id,
        node_pos(ns, id) is None ==> !has_id(ns, id),
    decreases ns.len(),
{
    if ns.len() > 0 {
        lemma_node_pos_found(ns.drop_first(), id);
        if node_pos(ns, id) is None {
            assert forall|i: int| 0 <= i < ns.len() implies (#[trigger] ns[i]).id != id by {
                if i > 0 {
                    assert(ns.drop_first()[i - 1] == ns[i]);
                }
            }
        }
    }
}

proof fn lemma_key_pos_found<V>(es: Seq<(Seq<char>, V)>, key: Seq<char>)
    ensures
        key_pos(es, key) matches Some(k) ==> 0 <= k < es.len() && es[k].0 == key,
    decreases es.len(),
{
    if es.len() > 0 {
        lemma_key_pos_found(es.drop_first(), key);
    }
}

/// Setting a node in place or adding one keeps every id already there.
proof fn lemma_ids_kept(ns: Seq<NodeView>, ns2: Seq<NodeView>, ks: Seq<Seq<char>>)
    requires
        all_have_nodes(ns, ks),
        forall|i: int| 0 <= i < ns.len() ==> #[trigger] has_id(ns2, ns[i].id),
    ensures
        all_have_nodes(ns2, ks),
{
    assert forall|i: int| 0 <= i < ks.len() implies has_id(ns2, #[trigger] ks[i]) by {
        let j = choose|j: int| 0 <= j < ns.len() && (#[trigger] ns[j]).id == ks[i];
        assert(has_id(ns2, ns[j].id));
    }
}

proof fn lemma_pod_entries_have_nodes(pods: Seq<Pod>)
    ensures
        all_have_nodes(pod_nodes(pods), entry_keys(pod_entries(pods))),
    decreases pods.len(),
{
    if pods.len() > 0 {
        let d = pods.drop_last();
        lemma_pod_entries_have_nodes(d);
        let ns = pod_nodes(d);
        let es = pod_entries(d);
        let n = pod_node(pods.last());
        let ns2 = pod_nodes(pods);
        lemma_node_pos_found(ns, n.id);
        lemma_key_pos_found(es, pod_key(pods.last()));
        assert(has_id(ns2, n.id)) by {
            match node_pos(ns, n.id) {
                Some(k) => { assert(ns2[k].id == n.id); },
                None => { assert(ns2[ns.len() as int].id == n.id); },
            }
        }
        assert forall|i: int| 0 <= i < ns.len() implies #[trigger] has_id(ns2, ns[i].id) by {
            match node_pos(ns, n.id) {
                Some(k) => { assert(ns2[i].id == ns[i].id); },
                None => { assert(ns2[i] == ns[i]); },
            }
        }
        lemma_ids_kept(ns, ns2, entry_keys(es));
        let ks2 = entry_keys(pod_entries(pods));
        assert forall|i: int| 0 <= i < ks2.len() implies has_id(ns2, #[trigger] ks2[i]) by {
            if pods.last().metadata.name is Some {
                match key_pos(es, pod_key(pods.last())) {
                    Some(k) => {
                        if i != k {
                            assert(ks2[i] == entry_keys(es)[i]);
                        }
                    },
                    None => {
                        if i < es.len() {
                            assert(ks2[i] == entry_keys(es)[i]);
                        }
                    },
                }
            } else {
                assert(ks2[i] == entry_keys(es)[i]);
            }
        }
    }
}

proof fn lemma_matched_are_entries(es: Seq<(Seq<char>, Seq<(String, String)>)>, ns: Seq<char>, sel: Seq<(String, String)>)
    ensures
        forall|i: int| 0 <= i < matched_keys(es, ns, sel).len() ==> entry_keys(es).contains(#[trigger] matched_keys(es, ns, sel)[i]),
    decreases es.len(),
{
    if es.len() > 0 {
        lemma_matched_are_entries(es.drop_last(), ns, sel);
        let m = matched_keys(es, ns, sel);
        let m0 = matched_keys(es.drop_last(), ns, sel);
        assert forall|i: int| 0 <= i < m.len() implies entry_keys(es).contains(#[trigger] m[i]) by {
            if i < m0.len() {
                let j = choose|j: int| 0 <= j < entry_keys(es.drop_last()).len() && entry_keys(es.drop_last())[j] == m0[i];
                assert(entry_keys(es)[j] == m0[i]);
            } else {
                assert(entry_keys(es)[es.len() - 1] == m[i]);
            }
        }
    }
}

pub open spec fn walk_ok(w: Walk, ks: Seq<Seq<char>>) -> bool {
    all_have_nodes(w.nodes, ks) && edges_connect(w.nodes, w.edges)
}

proof fn lemma_grow_keeps(ns: Seq<NodeView>, ns2: Seq<NodeView>, es: Seq<EdgeView>, ks: Seq<Seq<char>>)
    requires
        all_have_nodes(ns, ks),
        edges_connect(ns, es),
        forall|i: int| 0 <= i < ns.len() ==> #[trigger] has_id(ns2, ns[i].id),
    ensures
        all_have_nodes(ns2, ks),
        edges_connect(ns2, es),
{
    lemma_ids_kept(ns, ns2, ks);
    assert forall|i: int| 0 <= i < es.len() implies has_id(ns2, (#[trigger] es[i]).from_id) && has_id(ns2, es[i].to_id) by {
        let a = choose|j: int| 0 <= j < ns.len() && (#[trigger] ns[j]).id == es[i].from_id;
        let b = choose|j: int| 0 <= j < ns.len() && (#[trigger] ns[j]).id == es[i].to_id;
        assert(has_id(ns2, ns[a].id));
        assert(has_id(ns2, ns[b].id));
    }
}

proof fn lemma_peer_step_ok(w: Walk, c: PolicyCtx, p: PolicyPeer, ports: Seq<Seq<char>>, ingress: bool, ks: Seq<Seq<char>>)
    requires
        walk_ok(w, ks),
        forall|i: int| 0 <= i < c.matched.len() ==> ks.contains(#[trigger] c.matched[i]),
    ensures
        walk_ok(peer_step(w, c, p, ports, ingress), ks),
{
    let (kind, label, id) = peer_spec(p, c.ns);
    let w2 = peer_step(w, c, p, ports, ingress);
    lemma_node_pos_found(w.nodes, id);
    assert forall|i: int| 0 <= i < w.nodes.len() implies #[trigger] has_id(w2.nodes, w.nodes[i].id) by {
        assert(w2.nodes[i] == w.nodes[i]);
    }
    lemma_grow_keeps(w.nodes, w2.nodes, w.edges, ks);
    assert(has_id(w2.nodes, id)) by {
        match node_pos(w.nodes, id) {
            Some(k) => { assert(w2.nodes[k].id == id); },
            None => { assert(w2.nodes[w.nodes.len() as int].id == id); },
        }
    }
    let new_edges = edges_for(id, c.matched, c.name, ports, ingress);
    assert forall|i: int| 0 <= i < w2.edges.len() implies has_id(w2.nodes, (#[trigger] w2.edges[i]).from_id) && has_id(w2.nodes, w2.edges[i].to_id) by {
        if i < w.edges.len() {
            assert(w2.edges[i] == w.edges[i]);
        } else {
            let j = i - w.edges.len();
            assert(w2.edges[i] == new_edges[j]);
            assert(ks.contains(c.matched[j]));
            let t = choose|t: int| 0 <= t < ks.len() && ks[t] == c.matched[j];
            assert(has_id(w.nodes, ks[t]));
            let q = choose|q: int| 0 <= q < w.nodes.len() && (#[trigger] w.nodes[q]).id == ks[t];
            assert(has_id(w2.nodes, w.nodes[q].id));
        }
    }
}

proof fn lemma_peers_step_ok(w: Walk, c: PolicyCtx, ps: Seq<PolicyPeer>, ports: Seq<Seq<char>>, ingress: bool, ks: Seq<Seq<char>>)
    requires
        walk_ok(w, ks),
        forall|i: int| 0 <= i < c.matched.len() ==> ks.contains(#[trigger] c.matched[i]),
    ensures
        walk_ok(peers_step(w, c, ps, ports, ingress), ks),
    decreases ps.len(),
{
    if ps.len() > 0 {
        lemma_peers_step_ok(w, c, ps.drop_last(), ports, ingress, ks);
        lemma_peer_step_ok(peers_step(w, c, ps.drop_last(), ports, ingress), c, ps.last(), ports, ingress, ks);
    }
}

proof fn lemma_rules_step_ok(w: Walk, c: PolicyCtx, rs: Seq<PolicyRuleDef>, ingress: bool, ks: Seq<Seq<char>>)
    requires
        walk_ok(w, ks),
        forall|i: int| 0 <= i < c.matched.len() ==> ks.contains(#[trigger] c.matched[i]),
    ensures
        walk_ok(rules_step(w, c, rs, ingress), ks),
    decreases rs.len(),
{
    if rs.len() > 0 {
        lemma_rules_step_ok(w, c, rs.drop_last(), ingress, ks);
        let w1 = rules_step(w, c, rs.drop_last(), ingress);
        match rs.last().peers {
            Some(ps) => lemma_peers_step_ok(w1, c, ps@, rule_ports(rs.last()), ingress, ks),
            None => {},
        }
    }
}

proof fn lemma_policies_ok(g: Graph, es: Seq<(Seq<char>, Seq<(String, String)>)>, nps: Seq<NetworkPolicy>)
    requires
        all_have_nodes(g.nodes, entry_keys(es)),
        edges_connect(g.nodes, g.edges),
    ensures
        all_have_nodes(policies_step(g, es, nps).nodes, entry_keys(es)),
        edges_connect(policies_step(g, es, nps).nodes, policies_step(g, es, nps).edges),
    decreases nps.len(),
{
    if nps.len() > 0 {
        lemma_policies_ok(g, es, nps.drop_last());
        let g1 = policies_step(g, es, nps.drop_last());
        let np = nps.last();
        match np.spec {
            None => {},
            Some(spec) => {
                let ks = entry_keys(es);
                let name = opt_view(np.name);
                let ns = opt_view_or(np.namespace, "default"@);
                let sel = opt_map(spec.pod_selector_labels);
                let matched = matched_keys(es, ns, sel);
                lemma_matched_are_entries(es, ns, sel);
                let c = PolicyCtx { name, ns, matched };
                let marked = mark_nodes(g1.nodes, matched);
                assert forall|i: int| 0 <= i < g1.nodes.len() implies #[trigger] has_id(marked, g1.nodes[i].id) by {
                    assert(marked[i].id == g1.nodes[i].id);
                }
                lemma_grow_keeps(g1.nodes, marked, g1.edges, ks);
                let w0 = Walk { rules: Seq::empty(), nodes: marked, edges: g1.edges };
                lemma_rules_step_ok(w0, c, opt_rules(spec.ingress), true, ks);
                let w1 = rules_step(w0, c, opt_rules(spec.ingress), true);
                lemma_rules_step_ok(w1, c, opt_rules(spec.egress), false, ks);
            },
        }
    }
}

/// Both ends of every edge of a network policy graph are nodes of it.
pub proof fn law_edges_join_nodes(pods: Seq<Pod>, nps: Seq<NetworkPolicy>)
    ensures
        edges_connect(graph_of(pods, nps).nodes, graph_of(pods, nps).edges),
        all_have_nodes(graph_of(pods, nps).nodes, entry_keys(pod_entries(pods))),
{
    lemma_pod_entries_have_nodes(pods);
    let g0 = Graph { infos: Seq::empty(), nodes: pod_nodes(pods), edges: Seq::empty(), protected: Seq::empty() };
    lemma_policies_ok(g0, pod_entries(pods), nps);
}

/// A pod is reported unprotected exactly when no policy selects it.
pub proof fn law_unprotected_iff_unselected(es: Seq<(Seq<char>, Seq<(String, String)>)>, protected: Seq<Seq<char>>, k: Seq<char>)
    ensures
        unprotected(es, protected).contains(k) <==> (entry_keys(es).contains(k) && !protected.contains(k)),
    decreases es.len(),
{
    if es.len() > 0 {
        law_unprotected_iff_unselected(es.drop_last(), protected, k);
        let ek = entry_keys(es);
        let ek0 = entry_keys(es.drop_last());
        assert(ek =~= ek0.push(es.last().0));
        let u = unprotected(es, protected);
        let u0 = unprotected(es.drop_last(), protected);
        if !protected.contains(es.last().0) {
            assert(u =~= u0.push(es.last().0));
            if u0.contains(k) {
                let j = choose|j: int| 0 <= j < u0.len() && u0[j] == k;
                assert(u[j] == k);
            }
            if ek0.contains(k) {
                let j = choose|j: int| 0 <= j < ek0.len() && ek0[j] == k;
                assert(ek[j] == k);
            }
            if u.contains(k) && !u0.contains(k) {
                let j = choose|j: int| 0 <= j < u.len() && u[j] == k;
                assert(j == u0.len());
                assert(k == es.last().0);
                assert(ek[ek0.len() as int] == k);
            }
            if ek.contains(k) && !protected.contains(k) && !ek0.contains(k) {
                assert(u[u0.len() as int] == k);
            }
            if ek.contains(k) && !ek0.contains(k) {
                let j = choose|j: int| 0 <= j < ek.len() && ek[j] == k;
                assert(j == ek0.len());
            }
        } else {
            if ek0.contains(k) {
                let j = choose|j: int| 0 <= j < ek0.len() && ek0[j] == k;
                assert(ek[j] == k);
            }
            if ek.contains(k) && !ek0.contains(k) {
                let j = choose|j: int| 0 <= j < ek.len() && ek[j] == k;
                assert(j == ek0.len());
            }
        }
    } else {
        assert(entry_keys(es) =~= Seq::<Seq<char>>::empty());
    }
}


// ---- which way the edges point ----

/// An id of a peer node: all, a pod selector, a namespace selector or an
/// address block.
pub open spec fn is_peer_id(id: Seq<char>) -> bool {
    id == "all"@ || "selector:"@.is_prefix_of(id) || "ns:"@.is_prefix_of(id) || "cidr:"@.is_prefix_of(id)
}

/// Every ingress edge runs from a peer to a pod of `ks`, every egress edge
/// from a pod of `ks` to a peer.
pub open spec fn edges_oriented(es: Seq<EdgeView>, ks: Seq<Seq<char>>) -> bool {
    forall|i: int| 0 <= i < es.len() ==>
        ((#[trigger] es[i]).direction == "ingress"@ && is_peer_id(es[i].from_id) && ks.contains(es[i].to_id))
        || (es[i].direction == "egress"@ && ks.contains(es[i].from_id) && is_peer_id(es[i].to_id))
}

proof fn lemma_peer_id(p: PolicyPeer, ns: Seq<char>)
    ensures
        is_peer_id(peer_spec(p, ns).2),
{
    let id = peer_spec(p, ns).2;
    match p.pod_selector {
        Some(ml) => {
            let labels = opt_map(ml);
            let label = if labels.len() == 0 { "all pods"@ } else { selector_text(labels) };
            let rest = peer_namespace(p.namespace_selector, ns) + "/"@ + label;
            assert(id =~= "selector:"@ + rest);
            assert(id.subrange(0, "selector:"@.len() as int) =~= "selector:"@);
        },
        None => match p.namespace_selector {
            Some(ml) => {
                assert(id.subrange(0, "ns:"@.len() as int) =~= "ns:"@);
            },
            None => match p.ip_block_cidr {
                Some(c) => {
                    assert(id.subrange(0, "cidr:"@.len() as int) =~= "cidr:"@);
                },
                None => {},
            },
        },
    }
}

proof fn lemma_peer_step_oriented(w: Walk, c: PolicyCtx, p: PolicyPeer, ports: Seq<Seq<char>>, ingress: bool, ks: Seq<Seq<char>>)
    requires
        edges_oriented(w.edges, ks),
        forall|i: int| 0 <= i < c.matched.len() ==> ks.contains(#[trigger] c.matched[i]),
    ensures
        edges_oriented(peer_step(w, c, p, ports, ingress).edges, ks),
{
    let (kind, label, id) = peer_spec(p, c.ns);
    lemma_peer_id(p, c.ns);
    let w2 = peer_step(w, c, p, ports, ingress);
    let new_edges = edges_for(id, c.matched, c.name, ports, ingress);
    assert forall|i: int| 0 <= i < w2.edges.len() implies
        ((#[trigger] w2.edges[i]).direction == "ingress"@ && is_peer_id(w2.edges[i].from_id) && ks.contains(w2.edges[i].to_id))
        || (w2.edges[i].direction == "egress"@ && ks.contains(w2.edges[i].from_id) && is_peer_id(w2.edges[i].to_id)) by {
        if i < w.edges.len() {
            assert(w2.edges[i] == w.edges[i]);
        } else {
            let j = i - w.edges.len();
            assert(w2.edges[i] == new_edges[j]);
            assert(ks.contains(c.matched[j]));
        }
    }
}

proof fn lemma_peers_step_oriented(w: Walk, c: PolicyCtx, ps: Seq<PolicyPeer>, ports: Seq<Seq<char>>, ingress: bool, ks: Seq<Seq<char>>)
    requires
        edges_oriented(w.edges, ks),
        forall|i: int| 0 <= i < c.matched.len() ==> ks.contains(#[trigger] c.matched[i]),
    ensures
        edges_oriented(peers_step(w, c, ps, ports, ingress).edges, ks),
    decreases ps.len(),
{
    if ps.len() > 0 {
        lemma_peers_step_oriented(w, c, ps.drop_last(), ports, ingress, ks);
        lemma_peer_step_oriented(peers_step(w, c, ps.drop_last(), ports, ingress), c, ps.last(), ports, ingress, ks);
    }
}

proof fn lemma_rules_step_oriented(w: Walk, c: PolicyCtx, rs: Seq<PolicyRuleDef>, ingress: bool, ks: Seq<Seq<char>>)
    requires
        edges_oriented(w.edges, ks),
        forall|i: int| 0 <= i < c.matched.len() ==> ks.contains(#[trigger] c.matched[i]),
    ensures
        edges_oriented(rules_step(w, c, rs, ingress).edges, ks),
    decreases rs.len(),
{
    if rs.len() > 0 {
        lemma_rules_step_oriented(w, c, rs.drop_last(), ingress, ks);
        let w1 = rules_step(w, c, rs.drop_last(), ingress);
        match rs.last().peers {
            Some(ps) => lemma_peers_step_oriented(w1, c, ps@, rule_ports(rs.last()), ingress, ks),
            None => {},
        }
    }
}

proof fn lemma_policies_oriented(g: Graph, es: Seq<(Seq<char>, Seq<(String, String)>)>, nps: Seq<NetworkPolicy>)
    requires
        edges_oriented(g.edges, entry_keys(es)),
    ensures
        edges_oriented(policies_step(g, es, nps).edges, entry_keys(es)),
    decreases nps.len(),
{
    if nps.len() > 0 {
        lemma_policies_oriented(g, es, nps.drop_last());
        let g1 = policies_step(g, es, nps.drop_last());
        let np = nps.last();
        match np.spec {
            None => {},
            Some(spec) => {
                let ks = entry_keys(es);
                let name = opt_view(np.name);
                let ns = opt_view_or(np.namespace, "default"@);
                let sel = opt_map(spec.pod_selector_labels);
                let matched = matched_keys(es, ns, sel);
                lemma_matched_are_entries(es, ns, sel);
                let c = PolicyCtx { name, ns, matched };
                let w0 = Walk { rules: Seq::empty(), nodes: mark_nodes(g1.nodes, matched), edges: g1.edges };
                lemma_rules_step_oriented(w0, c, opt_rules(spec.ingress), true, ks);
                let w1 = rules_step(w0, c, opt_rules(spec.ingress), true);
                lemma_rules_step_oriented(w1, c, opt_rules(spec.egress), false, ks);
            },
        }
    }
}

/// Edges point the way traffic flows: every `ingress` edge of a network
/// policy graph starts at a peer node (all, a pod or namespace selector,
/// or an address block) and ends at one of the pods, and every `egress`
/// edge starts at one of the pods and ends at a peer node.
pub proof fn law_edges_follow_traffic(pods: Seq<Pod>, nps: Seq<NetworkPolicy>)
    ensures
        ({
            let es = graph_of(pods, nps).edges;
            let ks = entry_keys(pod_entries(pods));
            forall|i: int| 0 <= i < es.len() ==>
                ((#[trigger] es[i]).direction == "ingress"@ && is_peer_id(es[i].from_id) && ks.contains(es[i].to_id))
                || (es[i].direction == "egress"@ && ks.contains(es[i].from_id) && is_peer_id(es[i].to_id))
        }),
{
    let g0 = Graph { infos: Seq::empty(), nodes: pod_nodes(pods), edges: Seq::empty(), protected: Seq::empty() };
    lemma_policies_oriented(g0, pod_entries(pods), nps);
}

} // verus!
