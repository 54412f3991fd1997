//! Cluster overview: workload counts by kind, pod phases, and the latest
//! warning events.
use vstd::prelude::*;
use crate::json::{Json, at, at_path, array_of, str_or, get, as_array, str_or_default};
use crate::model::{Pod, opt_view_or, unwrap_or_str};
use crate::text::{string_of, str_eq, chars_of, string_from_range};

verus! {

#[derive(Debug)]
pub struct WorkloadCount {
    pub kind: String,
    pub total: usize,
    pub ready: usize,
    pub not_ready: usize,
}

#[derive(Debug)]
pub struct PodStatusBreakdown {
    pub running: usize,
    pub pending: usize,
    pub succeeded: usize,
    pub failed: usize,
    pub unknown: usize,
    pub total: usize,
}

#[derive(Debug)]
pub struct RecentEvent {
    pub event_type: String,
    pub reason: String,
    pub message: String,
    pub object: String,
    pub last_seen: String,
}

#[derive(Debug)]
pub struct ClusterSummary {
    pub namespace_count: usize,
    pub workloads: Vec<WorkloadCount>,
    pub pod_status: PodStatusBreakdown,
    pub recent_warnings: Vec<RecentEvent>,
}

/// Desired and ready replicas of a Deployment, StatefulSet or ReplicaSet.
#[derive(Debug)]
pub struct ReplicaCounts {
    pub desired: Option<i32>,
    pub ready: Option<i32>,
}

/// The workloads of a namespace (or of all), as counted.
#[derive(Debug)]
pub struct WorkloadLists {
    pub pods: Vec<Pod>,
    pub deployments: Vec<ReplicaCounts>,
    pub stateful_sets: Vec<ReplicaCounts>,
    /// `(desiredNumberScheduled, numberReady)` of each DaemonSet that has a status.
    pub daemon_sets: Vec<Option<(i32, i32)>>,
    pub replica_sets: Vec<ReplicaCounts>,
    /// `(succeeded, active)` of each Job.
    pub jobs: Vec<(Option<i32>, Option<i32>)>,
    /// `suspend` of each CronJob.
    pub cron_jobs: Vec<Option<bool>>,
    pub services: usize,
    pub ingresses: usize,
}

pub struct CountView {
    pub kind: Seq<char>,
    pub total: nat,
    pub ready: nat,
    pub not_ready: nat,
}

impl View for WorkloadCount {
    type V = CountView;

    open spec fn view(&self) -> CountView {
        CountView { kind: self.kind@, total: self.total as nat, ready: self.ready as nat, not_ready: self.not_ready as nat }
    }
}

pub open spec fn count_views(v: Seq<WorkloadCount>) -> Seq<CountView> {
    v.map_values(|w: WorkloadCount| w@)
}

// ---- pods ----

pub open spec fn phase_of(p: Pod) -> Seq<char> {
    match p.status {
        Some(st) => opt_view_or(st.phase, "Unknown"@),
        None => "Unknown"@,
    }
}

/// The number of pods in `pods` in phase `ph`.
pub open spec fn count_phase(pods: Seq<Pod>, ph: Seq<char>) -> nat
    decreases pods.len(),
{
    if pods.len() == 0 {
        0
    } else {
        count_phase(pods.drop_last(), ph) + if phase_of(pods.last()) == ph { 1nat } else { 0nat }
    }
}

pub open spec fn is_known_phase(ph: Seq<char>) -> bool {
    ph == "Running"@ || ph == "Pending"@ || ph == "Succeeded"@ || ph == "Failed"@
}

/// The number of pods in no phase that is counted on its own.
pub open spec fn count_other(pods: Seq<Pod>) -> nat
    decreases pods.len(),
{
    if pods.len() == 0 {
        0
    } else {
        count_other(pods.drop_last()) + if !is_known_phase(phase_of(pods.last())) { 1nat } else { 0nat }
    }
}

// ---- workloads ----

/// Ready replicas (default 0) reach the desired (default `d`).
pub open spec fn replicas_ready(r: ReplicaCounts, d: i32) -> bool {
    (match r.ready { Some(x) => x, None => 0 }) >= (match r.desired { Some(x) => x, None => d })
}

pub open spec fn count_ready(rs: Seq<ReplicaCounts>, d: i32) -> nat
    decreases rs.len(),
{
    if rs.len() == 0 {
        0
    } else {
        count_ready(rs.drop_last(), d) + if replicas_ready(rs.last(), d) { 1nat } else { 0nat }
    }
}

pub open spec fn rs_active(r: ReplicaCounts) -> bool {
    (match r.desired { Some(x) => x, None => 0 }) > 0
}

pub open spec fn count_active(rs: Seq<ReplicaCounts>) -> nat
    decreases rs.len(),
{
    if rs.len() == 0 {
        0
    } else {
        count_active(rs.drop_last()) + if rs_active(rs.last()) { 1nat } else { 0nat }
    }
}

pub open spec fn count_active_ready(rs: Seq<ReplicaCounts>) -> nat
    decreases rs.len(),
{
    if rs.len() == 0 {
        0
    } else {
        count_active_ready(rs.drop_last()) + if rs_active(rs.last()) && replicas_ready(rs.last(), 0) { 1nat } else { 0nat }
    }
}

pub open spec fn ds_ready(d: Option<(i32, i32)>) -> bool {
    match d {
        Some((desired, ready)) => ready >= desired,
        None => true,
    }
}

pub open spec fn count_ds_ready(ds: Seq<Option<(i32, i32)>>) -> nat
    decreases ds.len(),
{
    if ds.len() == 0 {
        0
    } else {
        count_ds_ready(ds.drop_last()) + if ds_ready(ds.last()) { 1nat } else { 0nat }
    }
}

pub open spec fn positive(o: Option<i32>) -> bool {
    (match o { Some(x) => x, None => 0 }) > 0
}

pub open spec fn count_jobs_succeeded(js: Seq<(Option<i32>, Option<i32>)>) -> nat
    decreases js.len(),
{
    if js.len() == 0 {
        0
    } else {
        count_jobs_succeeded(js.drop_last()) + if positive(js.last().0) { 1nat } else { 0nat }
    }
}

pub open spec fn count_jobs_active(js: Seq<(Option<i32>, Option<i32>)>) -> nat
    decreases js.len(),
{
    if js.len() == 0 {
        0
    } else {
        count_jobs_active(js.drop_last()) + if positive(js.last().1) { 1nat } else { 0nat }
    }
}

pub open spec fn count_not_suspended(cs: Seq<Option<bool>>) -> nat
    decreases cs.len(),
{
    if cs.len() == 0 {
        0
    } else {
        count_not_suspended(cs.drop_last()) + if cs.last() != Some(true) { 1nat } else { 0nat }
    }
}

pub open spec fn wc(kind: Seq<char>, total: nat, ready: nat, not_ready: nat) -> CountView {
    CountView { kind, total, ready, not_ready }
}

/// The workload counts, kind by kind.
pub open spec fn workload_counts(w: WorkloadLists) -> Seq<CountView> {
    let pods = w.pods@;
    let running = count_phase(pods, "Running"@);
    let succeeded = count_phase(pods, "Succeeded"@);
    let deps = w.deployments@;
    let sts = w.stateful_sets@;
    let ds = w.daemon_sets@;
    let rs = w.replica_sets@;
    let js = w.jobs@;
    let cjs = w.cron_jobs@;
    seq![
        wc("Pods"@, pods.len(), running, (pods.len() - running - succeeded) as nat),
        wc("Deployments"@, deps.len(), count_ready(deps, 1), (deps.len() - count_ready(deps, 1)) as nat),
        wc("StatefulSets"@, sts.len(), count_ready(sts, 1), (sts.len() - count_ready(sts, 1)) as nat),
        wc("DaemonSets"@, ds.len(), count_ds_ready(ds), (ds.len() - count_ds_ready(ds)) as nat),
        wc("ReplicaSets"@, count_active(rs), count_active_ready(rs), (count_active(rs) - count_active_ready(rs)) as nat),
        wc("Jobs"@, js.len(), count_jobs_succeeded(js), count_jobs_active(js)),
        wc("CronJobs"@, cjs.len(), count_not_suspended(cjs), (cjs.len() - count_not_suspended(cjs)) as nat),
        wc("Services"@, w.services as nat, w.services as nat, 0),
        wc("Ingresses"@, w.ingresses as nat, w.ingresses as nat, 0),
    ]
}

// ---- events ----

/// The UTF-8 length of a character.
pub open spec fn char_bytes(c: char) -> nat {
    if (c as u32) < 0x80 { 1 } else if (c as u32) < 0x800 { 2 } else if (c as u32) < 0x10000 { 3 } else { 4 }
}

/// The UTF-8 length of a string.
pub open spec fn utf8_len(s: Seq<char>) -> nat
    decreases s.len(),
{
    if s.len() == 0 { 0 } else { utf8_len(s.drop_last()) + char_bytes(s.last()) }
}

/// Some prefix of `s` is exactly `n` bytes long.
pub open spec fn has_boundary(s: Seq<char>, n: nat) -> bool {
    exists|k: int| 0 <= k <= s.len() && #[trigger] utf8_len(s.subrange(0, k)) == n
}

/// The prefix of `s` that is `n` bytes long.
pub open spec fn byte_prefix(s: Seq<char>, n: nat) -> Seq<char> {
    s.subrange(0, choose|k: int| 0 <= k <= s.len() && #[trigger] utf8_len(s.subrange(0, k)) == n)
}

/// A text cut to its first `n` bytes, marked with `...`, when longer.
pub open spec fn short_text(m: Seq<char>, n: nat) -> Seq<char> {
    if utf8_len(m) > n { byte_prefix(m, n) + "..."@ } else { m }
}

/// A text can be cut to `n` bytes: it is short, or `n` bytes end on a
/// character.
pub open spec fn cuttable_at(m: Seq<char>, n: nat) -> bool {
    utf8_len(m) <= n || has_boundary(m, n)
}

/// A message cut to its first 120 bytes, marked with `...`, when longer.
pub open spec fn short_message(m: Seq<char>) -> Seq<char> {
    short_text(m, 120)
}

/// A message can be shortened: it is short, or 120 bytes end on a
/// character.
pub open spec fn cuttable(m: Seq<char>) -> bool {
    cuttable_at(m, 120)
}

pub struct EventView {
    pub event_type: Seq<char>,
    pub reason: Seq<char>,
    pub message: Seq<char>,
    pub object: Seq<char>,
    pub last_seen: Seq<char>,
}

impl View for RecentEvent {
    type V = EventView;

    open spec fn view(&self) -> EventView {
        EventView { event_type: self.event_type@, reason: self.reason@, message: self.message@, object: self.object@, last_seen: self.last_seen@ }
    }
}

pub open spec fn event_views(v: Seq<RecentEvent>) -> Seq<EventView> {
    v.map_values(|e: RecentEvent| e@)
}

pub open spec fn is_warning(item: Json) -> bool {
    str_or(at(Some(item), "type"@), "Normal"@) == "Warning"@
}

pub open spec fn message_of(item: Json) -> Seq<char> {
    str_or(at(Some(item), "message"@), Seq::empty())
}

pub open spec fn warning_view(item: Json) -> EventView {
    EventView {
        event_type: "Warning"@,
        reason: str_or(at(Some(item), "reason"@), Seq::empty()),
        message: short_message(message_of(item)),
        object: str_or(at_path(Some(item), seq!["involvedObject"@, "kind"@]), Seq::empty()) + "/"@
            + str_or(at_path(Some(item), seq!["involvedObject"@, "name"@]), Seq::empty()),
        last_seen: str_or(at(Some(item), "lastTimestamp"@), Seq::empty()),
    }
}

/// The warnings among `items`, at most `room`, in order.
pub open spec fn warnings_in(items: Seq<Json>, room: nat) -> Seq<EventView>
    decreases items.len(),
{
    if items.len() == 0 || room == 0 {
        Seq::empty()
    } else if is_warning(items[0]) {
        seq![warning_view(items[0])] + warnings_in(items.drop_first(), (room - 1) as nat)
    } else {
        warnings_in(items.drop_first(), room)
    }
}

/// The last twenty events newest first.
pub open spec fn latest_twenty(items: Seq<Json>) -> Seq<Json> {
    let n = items.len();
    let k: int = if n >= 20 { 20 } else { n as int };
    Seq::new(k as nat, |i: int| items[n - 1 - i])
}

/// The recent warnings of an events listing: of its last twenty events,
/// newest first, the first ten warnings.
pub open spec fn recent_warnings(raw: Option<Json>) -> Seq<EventView> {
    match raw {
        Some(r) => match array_of(at(Some(r), "items"@)) {
            Some(items) => warnings_in(latest_twenty(items), 10),
            None => Seq::empty(),
        },
        None => Seq::empty(),
    }
}

/// The messages of the warnings `warnings_in` takes can all be shortened.
pub open spec fn warnings_cuttable(items: Seq<Json>, room: nat) -> bool
    decreases items.len(),
{
    if items.len() == 0 || room == 0 {
        true
    } else if is_warning(items[0]) {
        cuttable(message_of(items[0])) && warnings_cuttable(items.drop_first(), (room - 1) as nat)
    } else {
        warnings_cuttable(items.drop_first(), room)
    }
}

/// Every warning that the overview shows can be shortened.
pub open spec fn messages_cuttable(raw: Option<Json>) -> bool {
    match raw {
        Some(r) => match array_of(at(Some(r), "items"@)) {
            Some(items) => warnings_cuttable(latest_twenty(items), 10),
            None => true,
        },
        None => true,
    }
}

// ---- executable ----

proof fn lemma_utf8_prefix_step(s: Seq<char>, k: int)
    requires
        0 <= k < s.len(),
    ensures
        utf8_len(s.subrange(0, k + 1)) == utf8_len(s.subrange(0, k)) + char_bytes(s[k]),
{
    assert(s.subrange(0, k + 1).drop_last() =~= s.subrange(0, k));
}

proof fn lemma_utf8_increasing(s: Seq<char>, a: int, b: int)
    requires
        0 <= a < b <= s.len(),
    ensures
        utf8_len(s.subrange(0, a)) < utf8_len(s.subrange(0, b)),
    decreases b - a,
{
    lemma_utf8_prefix_step(s, b - 1);
    if a < b - 1 {
        lemma_utf8_increasing(s, a, b - 1);
    }
}

fn bytes_of(c: char) -> (r: u128)
    ensures
        r == char_bytes(c),
{
    let u = c as u32;
    if u < 0x80 { 1 } else if u < 0x800 { 2 } else if u < 0x10000 { 3 } else { 4 }
}

/// The message cut to 120 bytes and marked `...` when longer.
pub fn short_message_exec(m: &str) -> (r: String)
    requires
        cuttable(m@),
    ensures
        r@ == short_message(m@),
{
    shorten(m, 120)
}

/// The text cut to `limit` bytes and marked `...` when longer.
pub fn shorten(m: &str, limit: u64) -> (r: String)
    requires
        cuttable_at(m@, limit as nat),
    ensures
        r@ == short_text(m@, limit as nat),
{
    let v = chars_of(m);
    let n = v.len();
    let lim = limit as u128;
    let mut acc: u128 = 0;
    let mut i: usize = 0;
    assert(m@.subrange(0, 0) =~= Seq::<char>::empty());
    while i < n && acc < lim
        invariant
            i <= n,
            n == v@.len(),
            v@ == m@,
            lim == limit,
            acc == utf8_len(m@.subrange(0, i as int)),
            acc <= lim + 4,
            forall|k: int| 0 <= k < i ==> utf8_len(#[trigger] m@.subrange(0, k)) < lim,
        decreases n - i,
    {
        proof {
            lemma_utf8_prefix_step(m@, i as int);
        }
        acc = acc + bytes_of(v[i]);
        i = i + 1;
    }
    proof {
        assert(m@.subrange(0, n as int) =~= m@);
    }
    if i == n && acc <= lim {
        return string_of(m);
    }
    proof {
        if i < n {
            lemma_utf8_increasing(m@, i as int, n as int);
        }
        assert(utf8_len(m@) > lim) by {
            if i == n {
            } else {
                assert(utf8_len(m@.subrange(0, n as int)) > acc);
            }
        }
        if acc > lim {
            assert(!has_boundary(m@, limit as nat)) by {
                assert forall|k: int| 0 <= k <= m@.len() implies #[trigger] utf8_len(m@.subrange(0, k)) != lim by {
                    if k < i {
                    } else if k > i {
                        lemma_utf8_increasing(m@, i as int, k);
                    }
                }
            }
        }
        assert(acc == lim);
        let k = choose|k: int| 0 <= k <= m@.len() && #[trigger] utf8_len(m@.subrange(0, k)) == limit as nat;
        if k < i {
            lemma_utf8_increasing(m@, k, i as int);
        } else if k > i {
            lemma_utf8_increasing(m@, i as int, k);
        }
        assert(k == i);
    }
    let mut out = string_from_range(&v, 0, i);
    out.append("...");
    out
}

fn count_pods(pods: &Vec<Pod>) -> (r: PodStatusBreakdown)
    ensures
        r.running == count_phase(pods@, "Running"@),
        r.pending == count_phase(pods@, "Pending"@),
        r.succeeded == count_phase(pods@, "Succeeded"@),
        r.failed == count_phase(pods@, "Failed"@),
        r.unknown == count_other(pods@),
        r.total == pods@.len(),
        r.running + r.succeeded <= r.total,
{
    let mut b = PodStatusBreakdown { running: 0, pending: 0, succeeded: 0, failed: 0, unknown: 0, total: pods.len() };
    let mut i: usize = 0;
    while i < pods.len()
        invariant
            i <= pods@.len(),
            b.total == pods@.len(),
            b.running == count_phase(pods@.subrange(0, i as int), "Running"@),
            b.pending == count_phase(pods@.subrange(0, i as int), "Pending"@),
            b.succeeded == count_phase(pods@.subrange(0, i as int), "Succeeded"@),
            b.failed == count_phase(pods@.subrange(0, i as int), "Failed"@),
            b.unknown == count_other(pods@.subrange(0, i as int)),
            b.running + b.pending + b.succeeded + b.failed + b.unknown == i,
        decreases pods@.len() - i,
    {
        let ghost sub = pods@.subrange(0, i + 1);
        assert(sub.drop_last() =~= pods@.subrange(0, i as int));
        let phase: String = match &pods[i].status {
            Some(st) => unwrap_or_str(&st.phase, "Unknown"),
            None => string_of("Unknown"),
        };
        proof {
            reveal_strlit("Running");
            reveal_strlit("Pending");
            reveal_strlit("Succeeded");
            reveal_strlit("Failed");
            assert("Running"@[0] != "Pending"@[0]);
            assert("Running"@.len() != "Succeeded"@.len());
            assert("Running"@ != "Failed"@);
            assert("Pending"@.len() != "Succeeded"@.len());
            assert("Pending"@ != "Failed"@);
            assert("Succeeded"@.len() != "Failed"@.len());
        }
        let ph = phase.as_str();
        if str_eq(ph, "Running") {
            b.running = b.running + 1;
        } else if str_eq(ph, "Pending") {
            b.pending = b.pending + 1;
        } else if str_eq(ph, "Succeeded") {
            b.succeeded = b.succeeded + 1;
        } else if str_eq(ph, "Failed") {
            b.failed = b.failed + 1;
        } else {
            b.unknown = b.unknown + 1;
        }
        i = i + 1;
    }
    assert(pods@.subrange(0, pods@.len() as int) =~= pods@);
    b
}

fn ready_count(rs: &Vec<ReplicaCounts>, d: i32) -> (r: usize)
    ensures
        r == count_ready(rs@, d),
        r <= rs@.len(),
{
    let mut k: usize = 0;
    let mut i: usize = 0;
    while i < rs.len()
        invariant
            i <= rs@.len(),
            k <= i,
            k == count_ready(rs@.subrange(0, i as int), d),
        decreases rs@.len() - i,
    {
        let ghost sub = rs@.subrange(0, i + 1);
        assert(sub.drop_last() =~= rs@.subrange(0, i as int));
        let ready = match rs[i].ready { Some(x) => x, None => 0 };
        let desired = match rs[i].desired { Some(x) => x, None => d };
        if ready >= desired {
            k = k + 1;
        }
        i = i + 1;
    }
    assert(rs@.subrange(0, rs@.len() as int) =~= rs@);
    k
}

fn active_counts(rs: &Vec<ReplicaCounts>) -> (r: (usize, usize))
    ensures
        r.0 == count_active(rs@),
        r.1 == count_active_ready(rs@),
        r.1 <= r.0,
{
    let mut a: usize = 0;
    let mut k: usize = 0;
    let mut i: usize = 0;
    while i < rs.len()
        invariant
            i <= rs@.len(),
            k <= a,
            a <= i,
            a == count_active(rs@.subrange(0, i as int)),
            k == count_active_ready(rs@.subrange(0, i as int)),
        decreases rs@.len() - i,
    {
        let ghost sub = rs@.subrange(0, i + 1);
        assert(sub.drop_last() =~= rs@.subrange(0, i as int));
        let ready = match rs[i].ready { Some(x) => x, None => 0 };
        let desired = match rs[i].desired { Some(x) => x, None => 0 };
        if desired > 0 {
            a = a + 1;
            if ready >= desired {
                k = k + 1;
            }
        }
        i = i + 1;
    }
    assert(rs@.subrange(0, rs@.len() as int) =~= rs@);
    (a, k)
}

fn ds_ready_count(ds: &Vec<Option<(i32, i32)>>) -> (r: usize)
    ensures
        r == count_ds_ready(ds@),
        r <= ds@.len(),
{
    let mut k: usize = 0;
    let mut i: usize = 0;
    while i < ds.len()
        invariant
            i <= ds@.len(),
            k <= i,
            k == count_ds_ready(ds@.subrange(0, i as int)),
        decreases ds@.len() - i,
    {
        let ghost sub = ds@.subrange(0, i + 1);
        assert(sub.drop_last() =~= ds@.subrange(0, i as int));
        let ok = match ds[i] { Some((desired, ready)) => ready >= desired, None => true };
        if ok {
            k = k + 1;
        }
        i = i + 1;
    }
    assert(ds@.subrange(0, ds@.len() as int) =~= ds@);
    k
}

fn job_counts(js: &Vec<(Option<i32>, Option<i32>)>) -> (r: (usize, usize))
    ensures
        r.0 == count_jobs_succeeded(js@),
        r.1 == count_jobs_active(js@),
{
    let mut s: usize = 0;
    let mut a: usize = 0;
    let mut i: usize = 0;
    while i < js.len()
        invariant
            i <= js@.len(),
            s <= i,
            a <= i,
            s == count_jobs_succeeded(js@.subrange(0, i as int)),
            a == count_jobs_active(js@.subrange(0, i as int)),
        decreases js@.len() - i,
    {
        let ghost sub = js@.subrange(0, i + 1);
        assert(sub.drop_last() =~= js@.subrange(0, i as int));
        if (match js[i].0 { Some(x) => x, None => 0 }) > 0 {
            s = s + 1;
        }
        if (match js[i].1 { Some(x) => x, None => 0 }) > 0 {
            a = a + 1;
        }
        i = i + 1;
    }
    assert(js@.subrange(0, js@.len() as int) =~= js@);
    (s, a)
}

fn not_suspended_count(cs: &Vec<Option<bool>>) -> (r: usize)
    ensures
        r == count_not_suspended(cs@),
        r <= cs@.len(),
{
    let mut k: usize = 0;
    let mut i: usize = 0;
    while i < cs.len()
        invariant
            i <= cs@.len(),
            k <= i,
            k == count_not_suspended(cs@.subrange(0, i as int)),
        decreases cs@.len() - i,
    {
        let ghost sub = cs@.subrange(0, i + 1);
        assert(sub.drop_last() =~= cs@.subrange(0, i as int));
        let suspended = match cs[i] { Some(b) => b, None => false };
        if !suspended {
            k = k + 1;
        }
        i = i + 1;
    }
    assert(cs@.subrange(0, cs@.len() as int) =~= cs@);
    k
}

fn count(kind: &str, total: usize, ready: usize, not_ready: usize) -> (r: WorkloadCount)
    ensures
        r@ == wc(kind@, total as nat, ready as nat, not_ready as nat),
{
    WorkloadCount { kind: string_of(kind), total, ready, not_ready }
}

fn push_count(v: &mut Vec<WorkloadCount>, c: WorkloadCount)
    ensures
        count_views(final(v)@) == count_views(old(v)@).push(c@),
{
    v.push(c);
    assert(count_views(final(v)@) =~= count_views(old(v)@).push(c@));
}

fn warning_of(item: &Json) -> (r: RecentEvent)
    requires
        is_warning(*item),
        cuttable(message_of(*item)),
    ensures
        r@ == warning_view(*item),
{
    let reason = str_or_default(get(Some(item), "reason"), "");
    let message = str_or_default(get(Some(item), "message"), "");
    let io = get(Some(item), "involvedObject");
    let kind = str_or_default(get(io, "kind"), "");
    let name = str_or_default(get(io, "name"), "");
    let last_seen = str_or_default(get(Some(item), "lastTimestamp"), "");
    proof {
        reveal_strlit("");
        reveal_with_fuel(at_path, 3);
        assert(seq!["involvedObject"@, "kind"@].drop_first() =~= seq!["kind"@]);
        assert(seq!["kind"@].drop_first() =~= Seq::<Seq<char>>::empty());
        assert(seq!["involvedObject"@, "name"@].drop_first() =~= seq!["name"@]);
        assert(seq!["name"@].drop_first() =~= Seq::<Seq<char>>::empty());
    }
    let mut object = kind;
    object.append("/");
    object.append(name.as_str());
    let ghost w = warning_view(*item);
    assert(reason@ == w.reason);
    assert(message@ == message_of(*item));
    assert(object@ == w.object);
    assert(last_seen@ == w.last_seen);
    RecentEvent {
        event_type: string_of("Warning"),
        reason,
        message: short_message_exec(message.as_str()),
        object,
        last_seen,
    }
}

fn collect_warnings(raw: &Option<Json>) -> (r: Vec<RecentEvent>)
    requires
        messages_cuttable(*raw),
    ensures
        event_views(r@) == recent_warnings(*raw),
{
    let mut out: Vec<RecentEvent> = Vec::new();
    let items = match raw {
        Some(r) => as_array(get(Some(r), "items")),
        None => None,
    };
    match items {
        Some(items) => {
            let n = items.len();
            let take: usize = if n >= 20 { 20 } else { n };
            let ghost lt = latest_twenty(items@);
            let mut j: usize = 0;
            let mut room: usize = 10;
            proof {
                assert(lt.subrange(0, lt.len() as int) =~= lt);
            }
            while j < take && room > 0
                invariant
                    take == lt.len(),
                    n == items@.len(),
                    take <= n,
                    j <= take,
                    room <= 10,
                    lt == latest_twenty(items@),
                    warnings_cuttable(lt.subrange(j as int, take as int), room as nat),
                    event_views(out@) + warnings_in(lt.subrange(j as int, take as int), room as nat) == warnings_in(lt, 10),
                decreases take - j,
            {
                let ghost rest = lt.subrange(j as int, take as int);
                assert(rest.drop_first() =~= lt.subrange(j + 1, take as int));
                let item = &items[n - 1 - j];
                assert(rest[0] == *item);
                let ghost before = event_views(out@);
                let etype = str_or_default(get(Some(item), "type"), "Normal");
                if str_eq(etype.as_str(), "Warning") {
                    let e = warning_of(item);
                    out.push(e);
                    assert(event_views(out@) =~= before.push(e@));
                    assert(seq![warning_view(*item)] + warnings_in(rest.drop_first(), (room - 1) as nat) == warnings_in(rest, room as nat));
                    assert(event_views(out@) + warnings_in(rest.drop_first(), (room - 1) as nat) =~= before + warnings_in(rest, room as nat));
                    room = room - 1;
                }
                j = j + 1;
            }
            proof {
                let rest = lt.subrange(j as int, take as int);
                assert(warnings_in(rest, room as nat) =~= Seq::<EventView>::empty());
                assert(event_views(out@) =~= warnings_in(lt, 10));
            }
        },
        None => {
            assert(event_views(out@) =~= Seq::<EventView>::empty());
        },
    }
    out
}

/// The cluster overview from the namespace count, the workloads and the
/// events listing (absent when it could not be read).
pub fn cluster_overview(namespace_count: usize, w: &WorkloadLists, events: &Option<Json>) -> (r: ClusterSummary)
    requires
        messages_cuttable(*events),
    ensures
        r.namespace_count == namespace_count,
        count_views(r.workloads@) == workload_counts(*w),
        r.pod_status.running == count_phase(w.pods@, "Running"@),
        r.pod_status.pending == count_phase(w.pods@, "Pending"@),
        r.pod_status.succeeded == count_phase(w.pods@, "Succeeded"@),
        r.pod_status.failed == count_phase(w.pods@, "Failed"@),
        r.pod_status.unknown == count_other(w.pods@),
        r.pod_status.total == w.pods@.len(),
        event_views(r.recent_warnings@) == recent_warnings(*events),
{
    let pod_status = count_pods(&w.pods);
    let mut workloads: Vec<WorkloadCount> = Vec::new();
    push_count(&mut workloads, count("Pods", w.pods.len(), pod_status.running, pod_status.total - pod_status.running - pod_status.succeeded));
    let d = ready_count(&w.deployments, 1);
    push_count(&mut workloads, count("Deployments", w.deployments.len(), d, w.deployments.len() - d));
    let s = ready_count(&w.stateful_sets, 1);
    push_count(&mut workloads, count("StatefulSets", w.stateful_sets.len(), s, w.stateful_sets.len() - s));
    let ds = ds_ready_count(&w.daemon_sets);
    push_count(&mut workloads, count("DaemonSets", w.daemon_sets.len(), ds, w.daemon_sets.len() - ds));
    let (ra, rr) = active_counts(&w.replica_sets);
    push_count(&mut workloads, count("ReplicaSets", ra, rr, ra - rr));
    let (js, ja) = job_counts(&w.jobs);
    push_count(&mut workloads, count("Jobs", w.jobs.len(), js, ja));
    let c = not_suspended_count(&w.cron_jobs);
    push_count(&mut workloads, count("CronJobs", w.cron_jobs.len(), c, w.cron_jobs.len() - c));
    push_count(&mut workloads, count("Services", w.services, w.services, 0));
    push_count(&mut workloads, count("Ingresses", w.ingresses, w.ingresses, 0));
    assert(count_views(workloads@) =~= workload_counts(*w));
    let recent_warnings = collect_warnings(events);
    ClusterSummary { namespace_count, workloads, pod_status, recent_warnings }
}

} // verus!
