//! Cluster health score: security, nodes, resource pressure, pods and
//! configuration, each scored out of 100, with recommendations ranked by
//! priority.
use vstd::prelude::*;
use crate::model::{Node, Pod, Condition, ContainerStatus, opt_view, opt_view_or, unwrap_or_empty, unwrap_or_str, name_of};
use crate::order::{Ordered, sort_ordered, sort_stable};
use crate::security::SecuritySummary;
use crate::text::{dec_repr, views, string_of, str_eq, append_u64};

verus! {

#[derive(Debug)]
pub struct HealthComponent {
    pub name: String,
    pub score: u32,
    pub status: String,
    pub details: Vec<String>,
}

#[derive(Debug)]
pub struct Recommendation {
    pub priority: String,
    pub category: String,
    pub title: String,
    pub description: String,
    pub action: String,
    pub impact: String,
}

#[derive(Debug)]
pub struct ClusterHealthScore {
    pub overall_score: u32,
    pub overall_status: String,
    pub components: Vec<HealthComponent>,
    pub recommendations: Vec<Recommendation>,
    pub pod_count: usize,
    pub node_count: usize,
    pub namespace: String,
}

/// The resource-pressure part of a health check, worked out from node
/// usage percentages by the caller.
#[derive(Debug)]
pub struct ResourcePressure {
    pub score: u32,
    pub component: HealthComponent,
    pub recommendations: Vec<Recommendation>,
}

pub struct ComponentView {
    pub name: Seq<char>,
    pub score: u32,
    pub status: Seq<char>,
    pub details: Seq<Seq<char>>,
}

impl View for HealthComponent {
    type V = ComponentView;

    open spec fn view(&self) -> ComponentView {
        ComponentView { name: self.name@, score: self.score, status: self.status@, details: views(self.details@) }
    }
}

pub struct RecView {
    pub priority: Seq<char>,
    pub category: Seq<char>,
    pub title: Seq<char>,
    pub description: Seq<char>,
    pub action: Seq<char>,
    pub impact: Seq<char>,
}

impl View for Recommendation {
    type V = RecView;

    open spec fn view(&self) -> RecView {
        RecView {
            priority: self.priority@,
            category: self.category@,
            title: self.title@,
            description: self.description@,
            action: self.action@,
            impact: self.impact@,
        }
    }
}

pub open spec fn cviews(v: Seq<HealthComponent>) -> Seq<ComponentView> {
    v.map_values(|c: HealthComponent| c@)
}

pub open spec fn rviews(v: Seq<Recommendation>) -> Seq<RecView> {
    v.map_values(|r: Recommendation| r@)
}

pub open spec fn rec(priority: Seq<char>, category: Seq<char>, title: Seq<char>, description: Seq<char>,
    action: Seq<char>, impact: Seq<char>) -> RecView {
    RecView { priority, category, title, description, action, impact }
}

/// `healthy` from `hi` up, `warning` from `lo` up, else `critical`.
pub open spec fn status_for(s: nat, hi: nat, lo: nat) -> Seq<char> {
    if s >= hi {
        "healthy"@
    } else if s >= lo {
        "warning"@
    } else {
        "critical"@
    }
}

/// The rank of a priority: critical first, then high, medium, the rest.
pub open spec fn priority_rank(p: Seq<char>) -> nat {
    if p == "critical"@ {
        0
    } else if p == "high"@ {
        1
    } else if p == "medium"@ {
        2
    } else {
        3
    }
}

impl Ordered for Recommendation {
    open spec fn before(a: Recommendation, b: Recommendation) -> bool {
        priority_rank(a.priority@) < priority_rank(b.priority@)
    }

    proof fn lemma_asymmetric(a: Recommendation, b: Recommendation) {
    }

    proof fn lemma_not_before_transitive(a: Recommendation, b: Recommendation, c: Recommendation) {
    }

    fn is_before(&self, other: &Recommendation) -> (r: bool) {
        rank_of(self.priority.as_str()) < rank_of(other.priority.as_str())
    }
}

fn rank_of(p: &str) -> (r: u8)
    ensures
        r == priority_rank(p@),
{
    if str_eq(p, "critical") {
        0
    } else if str_eq(p, "high") {
        1
    } else if str_eq(p, "medium") {
        2
    } else {
        3
    }
}

// ---- security ----

pub open spec fn count_line(n: nat, tail: Seq<char>) -> Seq<char> {
    dec_repr(n) + tail
}

/// The details of the security component for `c` critical, `h` high and
/// `m` medium findings.
pub open spec fn security_details(c: nat, h: nat, m: nat) -> Seq<Seq<char>> {
    let d = (if c > 0 { seq![count_line(c, " critical findings"@)] } else { Seq::empty() })
        + (if h > 0 { seq![count_line(h, " high findings"@)] } else { Seq::empty() })
        + (if m > 0 { seq![count_line(m, " medium findings"@)] } else { Seq::empty() });
    if d.len() == 0 { seq!["No security issues found"@] } else { d }
}

pub open spec fn security_recs(c: nat, h: nat) -> Seq<RecView> {
    (if c > 0 {
        seq![rec("critical"@, "security"@, "Fix critical security findings"@,
            count_line(c, " critical security issues found in your workloads"@),
            "Review privileged containers, dangerous capabilities, and root-running pods"@,
            "Reduces attack surface and prevents container escape"@)]
    } else {
        Seq::empty()
    }) + (if h > 0 {
        seq![rec("high"@, "security"@, "Address high-severity security issues"@,
            count_line(h, " high-severity findings need attention"@),
            "Set runAsNonRoot, drop capabilities, add network policies"@,
            "Improves overall security posture"@)]
    } else {
        Seq::empty()
    })
}

pub open spec fn security_component(sec: Option<SecuritySummary>) -> ComponentView {
    match sec {
        Some(s) => ComponentView {
            name: "Security"@,
            score: s.score,
            status: status_for(s.score as nat, 80, 50),
            details: security_details(s.critical as nat, s.high as nat, s.medium as nat),
        },
        None => ComponentView {
            name: "Security"@,
            score: 50,
            status: "warning"@,
            details: seq!["Unable to run security scan"@],
        },
    }
}

// ---- nodes ----

pub open spec fn is_pressure(t: Seq<char>) -> bool {
    t == "MemoryPressure"@ || t == "DiskPressure"@ || t == "PIDPressure"@
}

pub open spec fn not_ready(c: Condition) -> bool {
    c.type_@ == "Ready"@ && c.status@ != "True"@
}

pub open spec fn cond_details(name: Seq<char>, c: Condition) -> Seq<Seq<char>> {
    (if not_ready(c) { seq!["Node "@ + name + " is not ready"@] } else { Seq::empty() })
        + (if is_pressure(c.type_@) && c.status@ == "True"@ { seq!["Node "@ + name + " has "@ + c.type_@] } else { Seq::empty() })
}

pub open spec fn conds_details(name: Seq<char>, cs: Seq<Condition>) -> Seq<Seq<char>>
    decreases cs.len(),
{
    if cs.len() == 0 {
        Seq::empty()
    } else {
        conds_details(name, cs.drop_last()) + cond_details(name, cs.last())
    }
}

pub open spec fn conds_not_ready(cs: Seq<Condition>) -> nat
    decreases cs.len(),
{
    if cs.len() == 0 {
        0
    } else {
        conds_not_ready(cs.drop_last()) + if not_ready(cs.last()) { 1nat } else { 0nat }
    }
}

pub open spec fn node_conds(n: Node) -> Seq<Condition> {
    match n.conditions {
        Some(v) => v@,
        None => Seq::empty(),
    }
}

pub open spec fn nodes_details(ns: Seq<Node>) -> Seq<Seq<char>>
    decreases ns.len(),
{
    if ns.len() == 0 {
        Seq::empty()
    } else {
        nodes_details(ns.drop_last()) + conds_details(name_of(ns.last().metadata), node_conds(ns.last()))
    }
}

/// The number of not-ready conditions over all nodes.
pub open spec fn nodes_not_ready(ns: Seq<Node>) -> nat
    decreases ns.len(),
{
    if ns.len() == 0 {
        0
    } else {
        nodes_not_ready(ns.drop_last()) + conds_not_ready(node_conds(ns.last()))
    }
}

pub open spec fn node_score(total: nat, unhealthy: nat) -> nat {
    if total == 0 { 0 } else { ((total - unhealthy) * 100 / (total as int)) as nat }
}

pub open spec fn node_component(ns: Seq<Node>) -> ComponentView {
    let total = ns.len();
    let u = nodes_not_ready(ns);
    let s = node_score(total, u);
    let d = nodes_details(ns);
    ComponentView {
        name: "Node Health"@,
        score: s as u32,
        status: status_for(s, 90, 50),
        details: if d.len() == 0 { seq!["All "@ + dec_repr(total) + " nodes healthy"@] } else { d },
    }
}

pub open spec fn node_recs(ns: Seq<Node>) -> Seq<RecView> {
    let u = nodes_not_ready(ns);
    if u > 0 {
        seq![rec("critical"@, "reliability"@, count_line(u, " node(s) not ready"@),
            "Nodes in NotReady state cannot schedule new pods"@,
            "Check node logs, kubelet status, and cloud provider health"@,
            "Restores cluster capacity and workload availability"@)]
    } else {
        Seq::empty()
    }
}

// ---- pods ----

pub open spec fn pod_phase(p: Pod) -> Seq<char> {
    match p.status {
        Some(st) => opt_view_or(st.phase, "Unknown"@),
        None => "Unknown"@,
    }
}

pub open spec fn phase_not_running(ph: Seq<char>) -> bool {
    ph != "Running"@ && ph != "Succeeded"@
}

pub open spec fn pod_statuses(p: Pod) -> Seq<ContainerStatus> {
    match p.status {
        Some(st) => match st.container_statuses {
            Some(v) => v@,
            None => Seq::empty(),
        },
        None => Seq::empty(),
    }
}

/// Containers with more than five restarts, counted on from `h0`, with a
/// detail for each of the first three overall.
pub open spec fn statuses_scan(name: Seq<char>, sts: Seq<ContainerStatus>, h0: nat) -> (nat, Seq<Seq<char>>)
    decreases sts.len(),
{
    if sts.len() == 0 {
        (h0, Seq::empty())
    } else {
        let (h, d) = statuses_scan(name, sts.drop_last(), h0);
        let cs = sts.last();
        if cs.restart_count > 5 {
            let h2 = h + 1;
            (h2, if h2 <= 3 {
                d.push(name + "/"@ + cs.name@ + " has "@ + dec_repr(cs.restart_count as nat) + " restarts"@)
            } else {
                d
            })
        } else {
            (h, d)
        }
    }
}

/// Over `pods`: the number not running, the number of containers with
/// high restart counts, and the details, at most three of each kind.
pub open spec fn pods_scan(pods: Seq<Pod>) -> (nat, nat, Seq<Seq<char>>)
    decreases pods.len(),
{
    if pods.len() == 0 {
        (0, 0, Seq::empty())
    } else {
        let (nr, hr, d) = pods_scan(pods.drop_last());
        let p = pods.last();
        let name = name_of(p.metadata);
        let ph = pod_phase(p);
        let nr2 = if phase_not_running(ph) { nr + 1 } else { nr };
        let d2 = if phase_not_running(ph) && nr2 <= 3 { d.push("Pod "@ + name + " is "@ + ph) } else { d };
        let (hr2, cd) = statuses_scan(name, pod_statuses(p), hr);
        (nr2, hr2, d2 + cd)
    }
}

pub open spec fn min_nat(a: nat, b: nat) -> nat {
    if a <= b { a } else { b }
}

/// The pod score: the exact share of pods that run, in percent with the
/// fraction dropped, less five points per pod with many restarts (at most
/// thirty), at most 100.
pub open spec fn pod_score(total: nat, nr: nat, hr: nat) -> nat {
    let healthy = if total == 0 { 100 } else { ((total - nr) * 100 / (total as int)) as nat };
    let penalty = min_nat(hr * 5, 30);
    min_nat(if healthy >= penalty { (healthy - penalty) as nat } else { 0 }, 100)
}

pub open spec fn pod_component(pods: Seq<Pod>) -> ComponentView {
    let (nr, hr, d) = pods_scan(pods);
    let s = pod_score(pods.len(), nr, hr);
    ComponentView {
        name: "Pod Health"@,
        score: s as u32,
        status: status_for(s, 80, 50),
        details: if d.len() == 0 { seq!["All "@ + dec_repr(pods.len()) + " pods healthy"@] } else { d },
    }
}

pub open spec fn pod_recs(pods: Seq<Pod>) -> Seq<RecView> {
    let (nr, hr, d) = pods_scan(pods);
    (if hr > 0 {
        seq![rec("high"@, "reliability"@, count_line(hr, " container(s) with high restart counts"@),
            "Frequent restarts indicate crash loops or health check failures"@,
            "Check pod logs, adjust resource limits, fix health probes"@,
            "Reduces downtime and improves application stability"@)]
    } else {
        Seq::empty()
    }) + (if nr > 0 {
        seq![rec(if nr > pods.len() / 4 { "critical"@ } else { "high"@ }, "reliability"@,
            count_line(nr, " pod(s) not running"@),
            "Pods in Pending/Failed/CrashLoopBackOff state"@,
            "Check events, describe pods, review resource constraints"@,
            "Ensures all workloads are serving traffic"@)]
    } else {
        Seq::empty()
    })
}

// ---- configuration ----

/// Over `flags` (requests set, limits set, per pod): how many have each.
pub open spec fn count_flags(flags: Seq<(bool, bool)>) -> (nat, nat)
    decreases flags.len(),
{
    if flags.len() == 0 {
        (0, 0)
    } else {
        let (r, l) = count_flags(flags.drop_last());
        (r + if flags.last().0 { 1nat } else { 0nat }, l + if flags.last().1 { 1nat } else { 0nat })
    }
}

pub open spec fn config_score(total: nat, wr: nat, wl: nat) -> nat {
    if total == 0 { 100 } else { ((wr * 100 / total) * 60 + (wl * 100 / total) * 40) / 100 }
}

pub open spec fn config_component(flags: Seq<(bool, bool)>) -> ComponentView {
    let total = flags.len();
    let (wr, wl) = count_flags(flags);
    let s = config_score(total, wr, wl);
    let d = (if wr < total { seq![count_line((total - wr) as nat, " pods without resource requests"@)] } else { Seq::empty() })
        + (if wl < total { seq![count_line((total - wl) as nat, " pods without resource limits"@)] } else { Seq::empty() });
    ComponentView {
        name: "Configuration"@,
        score: s as u32,
        status: status_for(s, 80, 50),
        details: if d.len() == 0 { seq!["All pods have resource requests and limits"@] } else { d },
    }
}

pub open spec fn config_recs(flags: Seq<(bool, bool)>) -> Seq<RecView> {
    let total = flags.len();
    let (wr, wl) = count_flags(flags);
    if wr < total {
        seq![rec("medium"@, "reliability"@, count_line((total - wr) as nat, " pods missing resource requests"@),
            "Pods without requests may be scheduled on overloaded nodes"@,
            "Set CPU and memory requests for all containers"@,
            "Improves scheduling decisions and prevents resource contention"@)]
    } else {
        Seq::empty()
    }
}

// ---- the whole ----

/// The weighted overall score, in exact integer arithmetic with the
/// fraction dropped.
pub open spec fn overall(sec: nat, node: nat, res: nat, pod: nat, cfg: nat) -> nat {
    (25 * sec + 25 * node + 15 * res + 25 * pod + 10 * cfg) / 100
}

// ---- executable ----

fn push_count_line(n: u64, tail: &str) -> (r: String)
    ensures
        r@ == count_line(n as nat, tail@),
{
    let mut s = String::new();
    append_u64(&mut s, n);
    s.append(tail);
    s
}

fn make_rec(priority: &str, category: &str, title: String, description: String, action: &str, impact: &str) -> (r: Recommendation)
    ensures
        r@ == rec(priority@, category@, title@, description@, action@, impact@),
{
    Recommendation {
        priority: string_of(priority),
        category: string_of(category),
        title,
        description,
        action: string_of(action),
        impact: string_of(impact),
    }
}

fn status_string(s: u32, hi: u32, lo: u32) -> (r: String)
    ensures
        r@ == status_for(s as nat, hi as nat, lo as nat),
{
    if s >= hi {
        string_of("healthy")
    } else if s >= lo {
        string_of("warning")
    } else {
        string_of("critical")
    }
}

fn one_line(s: &str) -> (r: Vec<String>)
    ensures
        views(r@) == seq![s@],
{
    let mut v: Vec<String> = Vec::new();
    v.push(string_of(s));
    assert(views(v@) =~= seq![s@]);
    v
}

fn push_line(v: &mut Vec<String>, s: String)
    ensures
        views(final(v)@) == views(old(v)@).push(s@),
{
    v.push(s);
    assert(views(final(v)@) =~= views(old(v)@).push(s@));
}

fn push_rec(v: &mut Vec<Recommendation>, r: Recommendation)
    ensures
        rviews(final(v)@) == rviews(old(v)@).push(r@),
{
    v.push(r);
    assert(rviews(final(v)@) =~= rviews(old(v)@).push(r@));
}

fn security_part(sec: Option<&SecuritySummary>, recs: &mut Vec<Recommendation>) -> (r: (u32, HealthComponent))
    ensures
        r.1@ == security_component(match sec { Some(s) => Some(*s), None => None }),
        r.0 == r.1.score,
        rviews(final(recs)@) == rviews(old(recs)@) + match sec {
            Some(s) => security_recs(s.critical as nat, s.high as nat),
            None => Seq::empty(),
        },
{
    match sec {
        Some(s) => {
            let mut details: Vec<String> = Vec::new();
            let ghost p1 = if s.critical > 0 { seq![count_line(s.critical as nat, " critical findings"@)] } else { Seq::<Seq<char>>::empty() };
            let ghost p2 = if s.high > 0 { seq![count_line(s.high as nat, " high findings"@)] } else { Seq::<Seq<char>>::empty() };
            let ghost p3 = if s.medium > 0 { seq![count_line(s.medium as nat, " medium findings"@)] } else { Seq::<Seq<char>>::empty() };
            if s.critical > 0 {
                push_line(&mut details, push_count_line(s.critical as u64, " critical findings"));
            }
            assert(views(details@) =~= p1);
            if s.high > 0 {
                push_line(&mut details, push_count_line(s.high as u64, " high findings"));
            }
            assert(views(details@) =~= p1 + p2);
            if s.medium > 0 {
                push_line(&mut details, push_count_line(s.medium as u64, " medium findings"));
            }
            assert(views(details@) =~= p1 + p2 + p3);
            if details.len() == 0 {
                details = one_line("No security issues found");
            }
            let ghost before = rviews(recs@);
            if s.critical > 0 {
                push_rec(recs, make_rec("critical", "security", string_of("Fix critical security findings"),
                    push_count_line(s.critical as u64, " critical security issues found in your workloads"),
                    "Review privileged containers, dangerous capabilities, and root-running pods",
                    "Reduces attack surface and prevents container escape"));
            }
            if s.high > 0 {
                push_rec(recs, make_rec("high", "security", string_of("Address high-severity security issues"),
                    push_count_line(s.high as u64, " high-severity findings need attention"),
                    "Set runAsNonRoot, drop capabilities, add network policies",
                    "Improves overall security posture"));
            }
            assert(rviews(recs@) =~= before + security_recs(s.critical as nat, s.high as nat));
            let c = HealthComponent {
                name: string_of("Security"),
                score: s.score,
                status: status_string(s.score, 80, 50),
                details,
            };
            assert(c@.details =~= security_details(s.critical as nat, s.high as nat, s.medium as nat));
            (s.score, c)
        },
        None => {
            assert(rviews(recs@) =~= rviews(recs@) + Seq::<RecView>::empty());
            let c = HealthComponent {
                name: string_of("Security"),
                score: 50,
                status: string_of("warning"),
                details: one_line("Unable to run security scan"),
            };
            (50, c)
        },
    }
}

fn node_part(nodes: &Vec<Node>, recs: &mut Vec<Recommendation>) -> (r: (u32, HealthComponent))
    requires
        nodes_not_ready(nodes@) <= nodes@.len(),
    ensures
        r.1@ == node_component(nodes@),
        r.0 == r.1.score,
        rviews(final(recs)@) == rviews(old(recs)@) + node_recs(nodes@),
{
    let mut details: Vec<String> = Vec::new();
    let mut unhealthy: usize = 0;
    let mut i: usize = 0;
    let total = nodes.len();
    while i < nodes.len()
        invariant
            total == nodes@.len(),
            i <= nodes@.len(),
            nodes_not_ready(nodes@) <= nodes@.len(),
            unhealthy == nodes_not_ready(nodes@.subrange(0, i as int)),
            views(details@) == nodes_details(nodes@.subrange(0, i as int)),
        decreases nodes@.len() - i,
    {
        let ghost sub = nodes@.subrange(0, i + 1);
        assert(sub.drop_last() =~= nodes@.subrange(0, i as int));
        proof {
            lemma_not_ready_prefix(nodes@, i as int + 1);
        }
        let node = &nodes[i];
        let name = unwrap_or_empty(&node.metadata.name);
        match &node.conditions {
            Some(conds) => {
                let mut k: usize = 0;
                let ghost d0 = views(details@);
                let ghost u0 = unhealthy as nat;
                while k < conds.len()
                    invariant
                        k <= conds@.len(),
                        name@ == name_of(node.metadata),
                        views(details@) == d0 + conds_details(name@, conds@.subrange(0, k as int)),
                        unhealthy == u0 + conds_not_ready(conds@.subrange(0, k as int)),
                        u0 + conds_not_ready(conds@) <= total,
                    decreases conds@.len() - k,
                {
                    let ghost csub = conds@.subrange(0, k + 1);
                    assert(csub.drop_last() =~= conds@.subrange(0, k as int));
                    proof {
                        lemma_conds_prefix(conds@, k as int + 1);
                    }
                    let c = &conds[k];
                    let ghost dd = views(details@);
                    assert(csub.last() == *c);
                    if str_eq(c.type_.as_str(), "Ready") && !str_eq(c.status.as_str(), "True") {
                        assert(conds_not_ready(csub) == conds_not_ready(conds@.subrange(0, k as int)) + 1);
                        unhealthy = unhealthy + 1;
                        let mut s = string_of("Node ");
                        s.append(name.as_str());
                        s.append(" is not ready");
                        push_line(&mut details, s);
                    }
                    if (str_eq(c.type_.as_str(), "MemoryPressure") || str_eq(c.type_.as_str(), "DiskPressure")
                        || str_eq(c.type_.as_str(), "PIDPressure")) && str_eq(c.status.as_str(), "True") {
                        let mut s = string_of("Node ");
                        s.append(name.as_str());
                        s.append(" has ");
                        s.append(c.type_.as_str());
                        push_line(&mut details, s);
                    }
                    assert(views(details@) =~= dd + cond_details(name@, *c));
                    k = k + 1;
                    assert(views(details@) =~= d0 + conds_details(name@, conds@.subrange(0, k as int)));
                }
                assert(conds@.subrange(0, conds@.len() as int) =~= conds@);
            },
            None => {
                assert(conds_details(name@, Seq::<Condition>::empty()) =~= Seq::<Seq<char>>::empty());
                assert(views(details@) =~= views(details@) + conds_details(name@, Seq::<Condition>::empty()));
            },
        }
        i = i + 1;
    }
    assert(nodes@.subrange(0, nodes@.len() as int) =~= nodes@);
    let ghost before = rviews(recs@);
    if unhealthy > 0 {
        push_rec(recs, make_rec("critical", "reliability", push_count_line(unhealthy as u64, " node(s) not ready"),
            string_of("Nodes in NotReady state cannot schedule new pods"),
            "Check node logs, kubelet status, and cloud provider health",
            "Restores cluster capacity and workload availability"));
    }
    assert(rviews(recs@) =~= before + node_recs(nodes@));
    let s: u32 = if total == 0 {
        0
    } else {
        let num: u128 = (total - unhealthy) as u128 * 100;
        let q: u128 = num / total as u128;
        assert(q <= 100) by (nonlinear_arith)
            requires num <= total * 100, total > 0, q == num / total as u128;
        q as u32
    };
    if details.len() == 0 {
        let mut line = string_of("All ");
        append_u64(&mut line, total as u64);
        line.append(" nodes healthy");
        details = Vec::new();
        push_line(&mut details, line);
    }
    let c = HealthComponent {
        name: string_of("Node Health"),
        score: s,
        status: status_string(s, 90, 50),
        details,
    };
    assert(c@.details =~= node_component(nodes@).details);
    (s, c)
}

proof fn lemma_not_ready_prefix(ns: Seq<Node>, i: int)
    requires
        0 <= i <= ns.len(),
    ensures
        nodes_not_ready(ns.subrange(0, i)) <= nodes_not_ready(ns),
    decreases ns.len() - i,
{
    if i < ns.len() {
        lemma_not_ready_prefix(ns, i + 1);
        assert(ns.subrange(0, i + 1).drop_last() =~= ns.subrange(0, i));
    } else {
        assert(ns.subrange(0, i) =~= ns);
    }
}

proof fn lemma_conds_prefix(cs: Seq<Condition>, i: int)
    requires
        0 <= i <= cs.len(),
    ensures
        conds_not_ready(cs.subrange(0, i)) <= conds_not_ready(cs),
    decreases cs.len() - i,
{
    if i < cs.len() {
        lemma_conds_prefix(cs, i + 1);
        assert(cs.subrange(0, i + 1).drop_last() =~= cs.subrange(0, i));
    } else {
        assert(cs.subrange(0, i) =~= cs);
    }
}

proof fn lemma_statuses_scan_grows(name: Seq<char>, sts: Seq<ContainerStatus>, h0: nat)
    ensures
        statuses_scan(name, sts, h0).0 >= h0,
    decreases sts.len(),
{
    if sts.len() > 0 {
        lemma_statuses_scan_grows(name, sts.drop_last(), h0);
    }
}

proof fn lemma_statuses_scan_prefix(name: Seq<char>, sts: Seq<ContainerStatus>, h0: nat, k: int)
    requires
        0 <= k <= sts.len(),
    ensures
        statuses_scan(name, sts.subrange(0, k), h0).0 <= statuses_scan(name, sts, h0).0,
    decreases sts.len() - k,
{
    if k < sts.len() {
        lemma_statuses_scan_prefix(name, sts, h0, k + 1);
        assert(sts.subrange(0, k + 1).drop_last() =~= sts.subrange(0, k));
    } else {
        assert(sts.subrange(0, k) =~= sts);
    }
}

proof fn lemma_pods_scan_prefix(pods: Seq<Pod>, k: int)
    requires
        0 <= k <= pods.len(),
    ensures
        pods_scan(pods.subrange(0, k)).1 <= pods_scan(pods).1,
        pods_scan(pods.subrange(0, k)).0 <= k,
    decreases pods.len() - k,
{
    lemma_pods_nr_bound(pods.subrange(0, k));
    if k < pods.len() {
        lemma_pods_scan_prefix(pods, k + 1);
        let sub = pods.subrange(0, k + 1);
        assert(sub.drop_last() =~= pods.subrange(0, k));
        let (nr, hr, d) = pods_scan(pods.subrange(0, k));
        lemma_statuses_scan_grows(name_of(sub.last().metadata), pod_statuses(sub.last()), hr);
    } else {
        assert(pods.subrange(0, k) =~= pods);
        lemma_pods_nr_bound(pods);
    }
}

proof fn lemma_pods_nr_bound(pods: Seq<Pod>)
    ensures
        pods_scan(pods).0 <= pods.len(),
    decreases pods.len(),
{
    if pods.len() > 0 {
        lemma_pods_nr_bound(pods.drop_last());
    }
}

/// How many of `pods` are in a phase other than "Running" and "Succeeded".
pub open spec fn pods_in_other_phases(pods: Seq<Pod>) -> nat
    decreases pods.len(),
{
    if pods.len() == 0 {
        0
    } else {
        let ph = pod_phase(pods.last());
        pods_in_other_phases(pods.drop_last()) + (if ph == "Running"@ || ph == "Succeeded"@ { 0nat } else { 1nat })
    }
}

/// A pod that runs, or that ran to completion, never counts as not running:
/// the Pod Health count of pods not running is the number of pods whose
/// phase is neither "Running" nor "Succeeded".
pub proof fn law_not_running_counts_only_other_phases(pods: Seq<Pod>)
    ensures
        pods_scan(pods).0 == pods_in_other_phases(pods),
    decreases pods.len(),
{
    if pods.len() > 0 {
        law_not_running_counts_only_other_phases(pods.drop_last());
    }
}

proof fn lemma_statuses_calm(name: Seq<char>, sts: Seq<ContainerStatus>, h0: nat)
    requires
        forall|j: int| 0 <= j < sts.len() ==> sts[j].restart_count <= 5,
    ensures
        statuses_scan(name, sts, h0) == (h0, Seq::<Seq<char>>::empty()),
    decreases sts.len(),
{
    if sts.len() > 0 {
        lemma_statuses_calm(name, sts.drop_last(), h0);
    }
}

proof fn lemma_pods_calm(pods: Seq<Pod>)
    requires
        forall|i: int| 0 <= i < pods.len() ==> (pod_phase(#[trigger] pods[i]) == "Running"@ || pod_phase(pods[i]) == "Succeeded"@),
        forall|i: int, j: int| 0 <= i < pods.len() && 0 <= j < pod_statuses(pods[i]).len()
            ==> #[trigger] pod_statuses(pods[i])[j].restart_count <= 5,
    ensures
        pods_scan(pods) == (0nat, 0nat, Seq::<Seq<char>>::empty()),
    decreases pods.len(),
{
    if pods.len() > 0 {
        let init = pods.drop_last();
        assert forall|i: int| 0 <= i < init.len() implies (pod_phase(#[trigger] init[i]) == "Running"@ || pod_phase(init[i]) == "Succeeded"@) by {
            assert(init[i] == pods[i]);
        }
        assert forall|i: int, j: int| 0 <= i < init.len() && 0 <= j < pod_statuses(init[i]).len()
            implies #[trigger] pod_statuses(init[i])[j].restart_count <= 5 by {
            assert(init[i] == pods[i]);
        }
        lemma_pods_calm(init);
        let p = pods.last();
        assert(pod_phase(pods[pods.len() - 1]) == "Running"@ || pod_phase(pods[pods.len() - 1]) == "Succeeded"@);
        let sts = pod_statuses(p);
        assert forall|j: int| 0 <= j < sts.len() implies sts[j].restart_count <= 5 by {
            assert(pod_statuses(pods[pods.len() - 1])[j].restart_count <= 5);
        }
        lemma_statuses_calm(name_of(p.metadata), sts, 0);
        assert(Seq::<Seq<char>>::empty() + Seq::<Seq<char>>::empty() =~= Seq::<Seq<char>>::empty());
    }
}

/// Where every pod is Running or Succeeded and no container has restarted
/// more than five times, Pod Health scores 100, is healthy, says that all
/// pods are healthy, and recommends nothing.
pub proof fn law_running_and_completed_pods_are_healthy(pods: Seq<Pod>)
    requires
        forall|i: int| 0 <= i < pods.len() ==> (pod_phase(#[trigger] pods[i]) == "Running"@ || pod_phase(pods[i]) == "Succeeded"@),
        forall|i: int, j: int| 0 <= i < pods.len() && 0 <= j < pod_statuses(pods[i]).len()
            ==> #[trigger] pod_statuses(pods[i])[j].restart_count <= 5,
    ensures
        pod_component(pods).score == 100,
        pod_component(pods).status == "healthy"@,
        pod_component(pods).details == seq!["All "@ + dec_repr(pods.len()) + " pods healthy"@],
        pod_recs(pods) == Seq::<RecView>::empty(),
{
    lemma_pods_calm(pods);
    if pods.len() > 0 {
        let n: int = pods.len() as int;
        assert((n - 0) * 100 / n == 100) by (nonlinear_arith)
            requires n > 0;
    }
    assert(Seq::<RecView>::empty() + Seq::<RecView>::empty() =~= Seq::<RecView>::empty());
}

proof fn lemma_conds_calm(name: Seq<char>, cs: Seq<Condition>)
    requires
        forall|k: int| 0 <= k < cs.len() ==> (#[trigger] cs[k]).type_@ == "Ready"@ ==> cs[k].status@ == "True"@,
        forall|k: int| 0 <= k < cs.len() ==> ((#[trigger] cs[k]).type_@ == "MemoryPressure"@ || cs[k].type_@ == "DiskPressure"@
            || cs[k].type_@ == "PIDPressure"@) ==> cs[k].status@ != "True"@,
    ensures
        conds_not_ready(cs) == 0,
        conds_details(name, cs) == Seq::<Seq<char>>::empty(),
    decreases cs.len(),
{
    if cs.len() > 0 {
        let d = cs.drop_last();
        assert forall|k: int| 0 <= k < d.len() implies ((#[trigger] d[k]).type_@ == "Ready"@ ==> d[k].status@ == "True"@) by {
            assert(d[k] == cs[k]);
        }
        assert forall|k: int| 0 <= k < d.len() implies (((#[trigger] d[k]).type_@ == "MemoryPressure"@ || d[k].type_@ == "DiskPressure"@
            || d[k].type_@ == "PIDPressure"@) ==> d[k].status@ != "True"@) by {
            assert(d[k] == cs[k]);
        }
        lemma_conds_calm(name, d);
        assert(cs.last() == cs[cs.len() - 1]);
        assert(Seq::<Seq<char>>::empty() + Seq::<Seq<char>>::empty() =~= Seq::<Seq<char>>::empty());
    }
}

proof fn lemma_nodes_calm(ns: Seq<Node>)
    requires
        forall|i: int, k: int| 0 <= i < ns.len() && 0 <= k < node_conds(ns[i]).len()
            ==> (#[trigger] node_conds(ns[i])[k]).type_@ == "Ready"@ ==> node_conds(ns[i])[k].status@ == "True"@,
        forall|i: int, k: int| 0 <= i < ns.len() && 0 <= k < node_conds(ns[i]).len()
            ==> ((#[trigger] node_conds(ns[i])[k]).type_@ == "MemoryPressure"@ || node_conds(ns[i])[k].type_@ == "DiskPressure"@
                || node_conds(ns[i])[k].type_@ == "PIDPressure"@) ==> node_conds(ns[i])[k].status@ != "True"@,
    ensures
        nodes_not_ready(ns) == 0,
        nodes_details(ns) == Seq::<Seq<char>>::empty(),
    decreases ns.len(),
{
    if ns.len() > 0 {
        let d = ns.drop_last();
        assert forall|i: int, k: int| 0 <= i < d.len() && 0 <= k < node_conds(d[i]).len()
            implies ((#[trigger] node_conds(d[i])[k]).type_@ == "Ready"@ ==> node_conds(d[i])[k].status@ == "True"@) by {
            assert(d[i] == ns[i]);
        }
        assert forall|i: int, k: int| 0 <= i < d.len() && 0 <= k < node_conds(d[i]).len()
            implies (((#[trigger] node_conds(d[i])[k]).type_@ == "MemoryPressure"@ || node_conds(d[i])[k].type_@ == "DiskPressure"@
                || node_conds(d[i])[k].type_@ == "PIDPressure"@) ==> node_conds(d[i])[k].status@ != "True"@) by {
            assert(d[i] == ns[i]);
        }
        lemma_nodes_calm(d);
        let last = ns[ns.len() - 1];
        let cs = node_conds(last);
        assert forall|k: int| 0 <= k < cs.len() implies ((#[trigger] cs[k]).type_@ == "Ready"@ ==> cs[k].status@ == "True"@) by {
            assert(node_conds(ns[ns.len() - 1])[k] == cs[k]);
        }
        assert forall|k: int| 0 <= k < cs.len() implies (((#[trigger] cs[k]).type_@ == "MemoryPressure"@ || cs[k].type_@ == "DiskPressure"@
            || cs[k].type_@ == "PIDPressure"@) ==> cs[k].status@ != "True"@) by {
            assert(node_conds(ns[ns.len() - 1])[k] == cs[k]);
        }
        lemma_conds_calm(name_of(last.metadata), cs);
        assert(Seq::<Seq<char>>::empty() + Seq::<Seq<char>>::empty() =~= Seq::<Seq<char>>::empty());
    }
}

/// Where every node reports Ready as "True" and no memory, disk or PID
/// pressure, Node Health scores 100 (over at least one node), is healthy,
/// says that all nodes are healthy, and recommends nothing.
pub proof fn law_ready_nodes_are_healthy(ns: Seq<Node>)
    requires
        ns.len() > 0,
        forall|i: int, k: int| 0 <= i < ns.len() && 0 <= k < node_conds(ns[i]).len()
            ==> (#[trigger] node_conds(ns[i])[k]).type_@ == "Ready"@ ==> node_conds(ns[i])[k].status@ == "True"@,
        forall|i: int, k: int| 0 <= i < ns.len() && 0 <= k < node_conds(ns[i]).len()
            ==> ((#[trigger] node_conds(ns[i])[k]).type_@ == "MemoryPressure"@ || node_conds(ns[i])[k].type_@ == "DiskPressure"@
                || node_conds(ns[i])[k].type_@ == "PIDPressure"@) ==> node_conds(ns[i])[k].status@ != "True"@,
    ensures
        node_component(ns).score == 100,
        node_component(ns).status == "healthy"@,
        node_component(ns).details == seq!["All "@ + dec_repr(ns.len()) + " nodes healthy"@],
        node_recs(ns) == Seq::<RecView>::empty(),
{
    lemma_nodes_calm(ns);
    let n: int = ns.len() as int;
    assert((n - 0) * 100 / n == 100) by (nonlinear_arith)
        requires n > 0;
}

proof fn lemma_conds_not_ready_positive(name: Seq<char>, cs: Seq<Condition>, k: int)
    requires
        0 <= k < cs.len(),
        cs[k].type_@ == "Ready"@,
        cs[k].status@ != "True"@,
    ensures
        conds_not_ready(cs) >= 1,
        conds_details(name, cs).contains("Node "@ + name + " is not ready"@),
    decreases cs.len(),
{
    let d = cs.drop_last();
    let line = "Node "@ + name + " is not ready"@;
    if k < cs.len() - 1 {
        assert(d[k] == cs[k]);
        lemma_conds_not_ready_positive(name, d, k);
        let q = choose|q: int| 0 <= q < conds_details(name, d).len() && conds_details(name, d)[q] == line;
        assert(conds_details(name, cs)[q] == line);
    } else {
        assert(cond_details(name, cs.last())[0] == line);
        assert(conds_details(name, cs)[conds_details(name, d).len() as int] == line);
    }
}

proof fn lemma_nodes_not_ready_positive(ns: Seq<Node>, i: int, k: int)
    requires
        0 <= i < ns.len(),
        0 <= k < node_conds(ns[i]).len(),
        node_conds(ns[i])[k].type_@ == "Ready"@,
        node_conds(ns[i])[k].status@ != "True"@,
    ensures
        nodes_not_ready(ns) >= 1,
        nodes_details(ns).contains("Node "@ + name_of(ns[i].metadata) + " is not ready"@),
    decreases ns.len(),
{
    let d = ns.drop_last();
    let line = "Node "@ + name_of(ns[i].metadata) + " is not ready"@;
    if i < ns.len() - 1 {
        assert(d[i] == ns[i]);
        lemma_nodes_not_ready_positive(d, i, k);
        let q = choose|q: int| 0 <= q < nodes_details(d).len() && nodes_details(d)[q] == line;
        assert(nodes_details(ns)[q] == line);
    } else {
        lemma_conds_not_ready_positive(name_of(ns[i].metadata), node_conds(ns[i]), k);
        let cd = conds_details(name_of(ns[i].metadata), node_conds(ns[i]));
        let q = choose|q: int| 0 <= q < cd.len() && cd[q] == line;
        assert(nodes_details(ns)[nodes_details(d).len() + q] == line);
    }
}

/// A node whose Ready condition is anything but "True" is reported: Node
/// Health falls below 100, names the node as not ready, and a critical
/// recommendation follows.
pub proof fn law_not_ready_node_reported(ns: Seq<Node>, i: int, k: int)
    requires
        0 <= i < ns.len(),
        0 <= k < node_conds(ns[i]).len(),
        node_conds(ns[i])[k].type_@ == "Ready"@,
        node_conds(ns[i])[k].status@ != "True"@,
        nodes_not_ready(ns) <= ns.len(),
    ensures
        node_component(ns).score < 100,
        node_component(ns).details.contains("Node "@ + name_of(ns[i].metadata) + " is not ready"@),
        node_recs(ns).len() == 1,
        node_recs(ns)[0].priority == "critical"@,
{
    lemma_nodes_not_ready_positive(ns, i, k);
    let t: int = ns.len() as int;
    let u: int = nodes_not_ready(ns) as int;
    assert((t - u) * 100 / t < 100) by (nonlinear_arith)
        requires t > 0, u >= 1, u <= t;
}

proof fn lemma_statuses_high_positive(name: Seq<char>, sts: Seq<ContainerStatus>, h0: nat, j: int)
    requires
        0 <= j < sts.len(),
        sts[j].restart_count > 5,
    ensures
        statuses_scan(name, sts, h0).0 >= h0 + 1,
    decreases sts.len(),
{
    let d = sts.drop_last();
    if j < sts.len() - 1 {
        assert(d[j] == sts[j]);
        lemma_statuses_high_positive(name, d, h0, j);
    } else {
        lemma_statuses_scan_grows(name, d, h0);
    }
}

/// A container that has restarted more than five times is reported: Pod
/// Health recommends, first and with high priority, to look into the
/// containers with high restart counts.
pub proof fn law_frequent_restarts_reported(pods: Seq<Pod>, i: int, j: int)
    requires
        0 <= i < pods.len(),
        0 <= j < pod_statuses(pods[i]).len(),
        pod_statuses(pods[i])[j].restart_count > 5,
    ensures
        pods_scan(pods).1 >= 1,
        pod_recs(pods).len() >= 1,
        pod_recs(pods)[0].priority == "high"@,
        pod_recs(pods)[0].category == "reliability"@,
        pod_recs(pods)[0].description == "Frequent restarts indicate crash loops or health check failures"@,
{
    let sub = pods.subrange(0, i + 1);
    assert(sub.last() == pods[i]);
    let (nr, hr, d) = pods_scan(sub.drop_last());
    lemma_statuses_high_positive(name_of(pods[i].metadata), pod_statuses(pods[i]), hr, j);
    lemma_pods_scan_prefix(pods, i + 1);
}

fn pod_part(pods: &Vec<Pod>, recs: &mut Vec<Recommendation>) -> (r: (u32, HealthComponent))
    requires
        pods_scan(pods@).1 <= usize::MAX,
    ensures
        r.1@ == pod_component(pods@),
        r.0 == r.1.score,
        rviews(final(recs)@) == rviews(old(recs)@) + pod_recs(pods@),
{
    let total = pods.len();
    let mut nr: usize = 0;
    let mut hr: usize = 0;
    let mut details: Vec<String> = Vec::new();
    let mut i: usize = 0;
    while i < total
        invariant
            total == pods@.len(),
            i <= total,
            pods_scan(pods@).1 <= usize::MAX,
            (nr as nat, hr as nat, views(details@)) == pods_scan(pods@.subrange(0, i as int)),
        decreases total - i,
    {
        let ghost sub = pods@.subrange(0, i + 1);
        assert(sub.drop_last() =~= pods@.subrange(0, i as int));
        proof {
            lemma_pods_scan_prefix(pods@, i + 1);
            lemma_pods_nr_bound(pods@.subrange(0, i as int));
        }
        let pod = &pods[i];
        assert(sub.last() == *pod);
        let name = unwrap_or_empty(&pod.metadata.name);
        let phase: String = match &pod.status {
            Some(st) => unwrap_or_str(&st.phase, "Unknown"),
            None => string_of("Unknown"),
        };
        if !str_eq(phase.as_str(), "Running") && !str_eq(phase.as_str(), "Succeeded") {
            nr = nr + 1;
            if nr <= 3 {
                let mut line = string_of("Pod ");
                line.append(name.as_str());
                line.append(" is ");
                line.append(phase.as_str());
                push_line(&mut details, line);
            }
        }
        let ghost d2 = views(details@);
        let ghost hr0 = hr as nat;
        match &pod.status {
            Some(st) => match &st.container_statuses {
                Some(sts) => {
                    let mut k: usize = 0;
                    while k < sts.len()
                        invariant
                            k <= sts@.len(),
                            name@ == name_of(pod.metadata),
                            statuses_scan(name@, sts@, hr0).0 <= usize::MAX,
                            (hr as nat, views(details@)) == ({
                                let (h, cd) = statuses_scan(name@, sts@.subrange(0, k as int), hr0);
                                (h, d2 + cd)
                            }),
                        decreases sts@.len() - k,
                    {
                        let ghost ssub = sts@.subrange(0, k + 1);
                        assert(ssub.drop_last() =~= sts@.subrange(0, k as int));
                        proof {
                            lemma_statuses_scan_prefix(name@, sts@, hr0, k + 1);
                        }
                        let cs = &sts[k];
                        assert(ssub.last() == *cs);
                        let ghost dd = views(details@);
                        if cs.restart_count > 5 {
                            hr = hr + 1;
                            if hr <= 3 {
                                let mut line = string_of(name.as_str());
                                line.append("/");
                                line.append(cs.name.as_str());
                                line.append(" has ");
                                append_u64(&mut line, cs.restart_count as u64);
                                line.append(" restarts");
                                push_line(&mut details, line);
                                assert(views(details@) =~= dd.push(name@ + "/"@ + cs.name@ + " has "@
                                    + dec_repr(cs.restart_count as nat) + " restarts"@));
                            }
                        }
                        k = k + 1;
                    }
                    assert(sts@.subrange(0, sts@.len() as int) =~= sts@);
                },
                None => {
                    assert(views(details@) =~= d2 + Seq::<Seq<char>>::empty());
                },
            },
            None => {
                assert(views(details@) =~= d2 + Seq::<Seq<char>>::empty());
            },
        }
        i = i + 1;
    }
    assert(pods@.subrange(0, total as int) =~= pods@);
    proof {
        lemma_pods_nr_bound(pods@);
    }
    let ghost before = rviews(recs@);
    if hr > 0 {
        push_rec(recs, make_rec("high", "reliability", push_count_line(hr as u64, " container(s) with high restart counts"),
            string_of("Frequent restarts indicate crash loops or health check failures"),
            "Check pod logs, adjust resource limits, fix health probes",
            "Reduces downtime and improves application stability"));
    }
    let ghost mid = rviews(recs@);
    if nr > 0 {
        let prio = if nr > total / 4 { "critical" } else { "high" };
        push_rec(recs, make_rec(prio, "reliability", push_count_line(nr as u64, " pod(s) not running"),
            string_of("Pods in Pending/Failed/CrashLoopBackOff state"),
            "Check events, describe pods, review resource constraints",
            "Ensures all workloads are serving traffic"));
    }
    assert(rviews(recs@) =~= before + pod_recs(pods@));
    let healthy: u128 = if total == 0 {
        100
    } else {
        let num: u128 = (total - nr) as u128 * 100;
        let q: u128 = num / total as u128;
        assert(q <= 100) by (nonlinear_arith)
            requires num <= total * 100, total > 0, q == num / total as u128;
        q
    };
    let penalty: u128 = if hr >= 6 { 30 } else { hr as u128 * 5 };
    let sub: u128 = if healthy >= penalty { healthy - penalty } else { 0 };
    let s: u32 = if sub > 100 { 100 } else { sub as u32 };
    if details.len() == 0 {
        let mut line = string_of("All ");
        append_u64(&mut line, total as u64);
        line.append(" pods healthy");
        details = Vec::new();
        push_line(&mut details, line);
    }
    let c = HealthComponent {
        name: string_of("Pod Health"),
        score: s,
        status: status_string(s, 80, 50),
        details,
    };
    assert(c@.details =~= pod_component(pods@).details);
    (s, c)
}

fn config_part(flags: &Vec<(bool, bool)>, recs: &mut Vec<Recommendation>) -> (r: (u32, HealthComponent))
    ensures
        r.1@ == config_component(flags@),
        r.0 == r.1.score,
        rviews(final(recs)@) == rviews(old(recs)@) + config_recs(flags@),
{
    let total = flags.len();
    let mut wr: usize = 0;
    let mut wl: usize = 0;
    let mut i: usize = 0;
    while i < total
        invariant
            total == flags@.len(),
            i <= total,
            wr <= i,
            wl <= i,
            (wr as nat, wl as nat) == count_flags(flags@.subrange(0, i as int)),
        decreases total - i,
    {
        let ghost sub = flags@.subrange(0, i + 1);
        assert(sub.drop_last() =~= flags@.subrange(0, i as int));
        if flags[i].0 {
            wr = wr + 1;
        }
        if flags[i].1 {
            wl = wl + 1;
        }
        i = i + 1;
    }
    assert(flags@.subrange(0, total as int) =~= flags@);
    let mut details: Vec<String> = Vec::new();
    let ghost before = rviews(recs@);
    let ghost p1 = if wr < total { seq![count_line((total - wr) as nat, " pods without resource requests"@)] } else { Seq::<Seq<char>>::empty() };
    let ghost p2 = if wl < total { seq![count_line((total - wl) as nat, " pods without resource limits"@)] } else { Seq::<Seq<char>>::empty() };
    if wr < total {
        push_line(&mut details, push_count_line((total - wr) as u64, " pods without resource requests"));
        push_rec(recs, make_rec("medium", "reliability", push_count_line((total - wr) as u64, " pods missing resource requests"),
            string_of("Pods without requests may be scheduled on overloaded nodes"),
            "Set CPU and memory requests for all containers",
            "Improves scheduling decisions and prevents resource contention"));
    }
    assert(views(details@) =~= p1);
    if wl < total {
        push_line(&mut details, push_count_line((total - wl) as u64, " pods without resource limits"));
    }
    assert(views(details@) =~= p1 + p2);
    assert(rviews(recs@) =~= before + config_recs(flags@));
    let s: u32 = if total == 0 {
        100
    } else {
        let rq: u128 = (wr as u128 * 100) / total as u128;
        let lq: u128 = (wl as u128 * 100) / total as u128;
        assert(rq <= 100) by (nonlinear_arith)
            requires wr <= total, total > 0, rq == (wr * 100) / (total as int);
        assert(lq <= 100) by (nonlinear_arith)
            requires wl <= total, total > 0, lq == (wl * 100) / (total as int);
        ((rq * 60 + lq * 40) / 100) as u32
    };
    if details.len() == 0 {
        details = one_line("All pods have resource requests and limits");
    }
    let c = HealthComponent {
        name: string_of("Configuration"),
        score: s,
        status: status_string(s, 80, 50),
        details,
    };
    assert(c@.details =~= config_component(flags@).details);
    (s, c)
}

pub open spec fn opt_vec<T>(o: Option<&Vec<T>>) -> Option<Seq<T>> {
    match o {
        Some(v) => Some(v@),
        None => None,
    }
}

/// The components a health check reports, in order.
pub open spec fn health_components(sec: Option<SecuritySummary>, nodes: Option<Seq<Node>>, res: ComponentView,
    pods: Option<Seq<Pod>>, flags: Option<Seq<(bool, bool)>>) -> Seq<ComponentView> {
    seq![security_component(sec)]
        + (match nodes { Some(ns) => seq![node_component(ns)], None => Seq::empty() })
        + seq![res]
        + (match pods { Some(ps) => seq![pod_component(ps)], None => Seq::empty() })
        + (match flags { Some(fs) => seq![config_component(fs)], None => Seq::empty() })
}

/// The recommendations a health check makes, in the order found.
pub open spec fn health_recs(sec: Option<SecuritySummary>, nodes: Option<Seq<Node>>, res: Seq<RecView>,
    pods: Option<Seq<Pod>>, flags: Option<Seq<(bool, bool)>>) -> Seq<RecView> {
    (match sec { Some(s) => security_recs(s.critical as nat, s.high as nat), None => Seq::empty() })
        + (match nodes { Some(ns) => node_recs(ns), None => Seq::empty() })
        + res
        + (match pods { Some(ps) => pod_recs(ps), None => Seq::empty() })
        + (match flags { Some(fs) => config_recs(fs), None => Seq::empty() })
}

/// The overall score: the weighted component scores, 50 for a part that
/// could not be checked.
pub open spec fn health_overall(sec: Option<SecuritySummary>, nodes: Option<Seq<Node>>, res_score: u32,
    pods: Option<Seq<Pod>>, flags: Option<Seq<(bool, bool)>>) -> nat {
    overall(
        security_component(sec).score as nat,
        match nodes { Some(ns) => node_component(ns).score as nat, None => 50 },
        res_score as nat,
        match pods { Some(ps) => pod_component(ps).score as nat, None => 50 },
        match flags { Some(fs) => config_component(fs).score as nat, None => 50 },
    )
}

/// The cluster health score from the parts that could be checked: the
/// security scan summary, the nodes, the resource pressure, the pods and,
/// per pod, whether its requests and its limits are set.
pub fn cluster_health(security: Option<&SecuritySummary>, nodes: Option<&Vec<Node>>, resource: ResourcePressure,
    pods: Option<&Vec<Pod>>, pod_flags: Option<&Vec<(bool, bool)>>, namespace: String) -> (r: ClusterHealthScore)
    requires
        nodes matches Some(ns) ==> nodes_not_ready(ns@) <= ns@.len(),
        pods matches Some(ps) ==> pods_scan(ps@).1 <= usize::MAX,
    ensures
        ({
            let sec = match security { Some(s) => Some(*s), None => None };
            let o = health_overall(sec, opt_vec(nodes), resource.score, opt_vec(pods), opt_vec(pod_flags));
            &&& cviews(r.components@) == health_components(sec, opt_vec(nodes), resource.component@, opt_vec(pods), opt_vec(pod_flags))
            &&& exists|u: Seq<Recommendation>| #![trigger sort_ordered(u)]
                r.recommendations@ == sort_ordered(u)
                && rviews(u) == health_recs(sec, opt_vec(nodes), rviews(resource.recommendations@), opt_vec(pods), opt_vec(pod_flags))
            &&& r.overall_score == o
            &&& r.overall_status@ == status_for(o, 80, 50)
            &&& r.pod_count == match pods { Some(ps) => ps@.len(), None => 0 }
            &&& r.node_count == match nodes { Some(ns) => ns@.len(), None => 0 }
            &&& r.namespace@ == namespace@
        }),
{
    let ghost sec = match security { Some(s) => Some(*s), None => None };
    let ghost res_view = resource.component@;
    let ghost res_recs = rviews(resource.recommendations@);
    let mut components: Vec<HealthComponent> = Vec::new();
    let mut recs: Vec<Recommendation> = Vec::new();
    let (sec_score, sec_comp) = security_part(security, &mut recs);
    components.push(sec_comp);
    let ghost c1 = cviews(components@);
    assert(c1 =~= seq![security_component(sec)]);
    let node_score: u32 = match nodes {
        Some(ns) => {
            let (s, c) = node_part(ns, &mut recs);
            components.push(c);
            s
        },
        None => 50,
    };
    let ghost c2 = cviews(components@);
    assert(c2 =~= c1 + (match opt_vec(nodes) { Some(ns) => seq![node_component(ns)], None => Seq::empty() }));
    let resource_score = resource.score;
    let ResourcePressure { score: _, component: rc, recommendations: mut rr } = resource;
    components.push(rc);
    let ghost c3 = cviews(components@);
    assert(c3 =~= c2 + seq![res_view]);
    let ghost r_before = rviews(recs@);
    recs.append(&mut rr);
    assert(rviews(recs@) =~= r_before + res_recs);
    let pod_score: u32 = match pods {
        Some(ps) => {
            let (s, c) = pod_part(ps, &mut recs);
            components.push(c);
            s
        },
        None => 50,
    };
    let ghost c4 = cviews(components@);
    assert(c4 =~= c3 + (match opt_vec(pods) { Some(ps) => seq![pod_component(ps)], None => Seq::empty() }));
    let config_score: u32 = match pod_flags {
        Some(fs) => {
            let (s, c) = config_part(fs, &mut recs);
            components.push(c);
            s
        },
        None => 50,
    };
    assert(cviews(components@) =~= c4 + (match opt_vec(pod_flags) { Some(fs) => seq![config_component(fs)], None => Seq::empty() }));
    let ghost all_recs = recs@;
    assert(rviews(all_recs) =~= health_recs(sec, opt_vec(nodes), res_recs, opt_vec(pods), opt_vec(pod_flags)));
    let weighted: u64 = 25 * sec_score as u64 + 25 * node_score as u64 + 15 * resource_score as u64
        + 25 * pod_score as u64 + 10 * config_score as u64;
    let overall_score: u32 = (weighted / 100) as u32;
    let recommendations = sort_stable(recs);
    let pod_count = match pods { Some(ps) => ps.len(), None => 0 };
    let node_count = match nodes { Some(ns) => ns.len(), None => 0 };
    ClusterHealthScore {
        overall_score,
        overall_status: status_string(overall_score, 80, 50),
        components,
        recommendations,
        pod_count,
        node_count,
        namespace,
    }
}

} // verus!
