//! Restart history of a workload: restart counts and states of the
//! containers of its pods, and a timeline of their last terminations, read
//! from the pods as JSON documents.
use vstd::prelude::*;
use crate::json::{Json, at, array_of, str_of, i64_of, bool_of, str_or, get, as_array, as_i64, as_bool, str_or_default, opt_string};
use crate::model::{Pod, PodSpec, StrMap, opt_view, unwrap_or_empty};
use crate::benchmark::opt_seq;
use crate::hpa::{at2, get2};
use crate::age::age_text;
use crate::order::{Ordered, sort_ordered, sort_stable};
use crate::text::{seq_lt, str_lt, lemma_seq_lt_total, lemma_seq_lt_transitive, string_of, str_eq};
use crate::images::selector_of;

pub use crate::age::format_age;
pub use crate::images::get_selector;

verus! {

/// The last termination of a container, as a timeline entry.
#[derive(Debug)]
pub struct RestartEvent {
    pub pod_name: String,
    pub container: String,
    pub namespace: String,
    pub reason: String,
    pub exit_code: i32,
    pub finished_at: Option<String>,
    pub started_at: Option<String>,
    pub message: Option<String>,
    /// Where the entry comes from: `lastState`.
    pub source: String,
}

/// Restart count and states of one container.
#[derive(Debug)]
pub struct ContainerRestartInfo {
    pub name: String,
    pub restart_count: i32,
    pub current_state: String,
    pub current_ready: bool,
    pub last_reason: Option<String>,
    pub last_exit_code: Option<i32>,
    pub last_finished_at: Option<String>,
}

/// Restarts of the containers of one pod.
#[derive(Debug)]
pub struct PodRestartInfo {
    pub pod_name: String,
    pub namespace: String,
    pub node: String,
    pub age: String,
    pub total_restarts: i32,
    pub containers: Vec<ContainerRestartInfo>,
}

/// Restarts of the pods of a workload, most restarted first, with their
/// terminations.
#[derive(Debug)]
pub struct RestartHistory {
    pub workload_name: String,
    pub workload_kind: String,
    pub namespace: String,
    pub total_restarts: i32,
    pub pod_count: usize,
    pub pods: Vec<PodRestartInfo>,
    pub timeline: Vec<RestartEvent>,
}

/// The state a container state object names: `Running`, the reason of
/// the waiting or terminated state (`Waiting`, `Terminated` without one),
/// or `Unknown`.
pub open spec fn state_text(state: Json) -> Seq<char> {
    if at(Some(state), "running"@) is Some {
        "Running"@
    } else {
        match at(Some(state), "waiting"@) {
            Some(w) => str_or(at(Some(w), "reason"@), "Waiting"@),
            None => match at(Some(state), "terminated"@) {
                Some(t) => str_or(at(Some(t), "reason"@), "Terminated"@),
                None => "Unknown"@,
            },
        }
    }
}

/// Names the state that a container state object describes.
pub fn state_name(state: &Json) -> (r: String)
    ensures
        r@ == state_text(*state),
{
    if get(Some(state), "running").is_some() {
        return string_of("Running");
    }
    match get(Some(state), "waiting") {
        Some(w) => str_or_default(get(Some(w), "reason"), "Waiting"),
        None => match get(Some(state), "terminated") {
            Some(t) => str_or_default(get(Some(t), "reason"), "Terminated"),
            None => string_of("Unknown"),
        },
    }
}

/// The restart count of a container status, truncated to 32 bits, 0
/// when absent.
pub open spec fn restart_count_of(cs: Json) -> i32 {
    (match i64_of(at(Some(cs), "restartCount"@)) {
        Some(n) => n,
        None => 0i64,
    }) as i32
}

/// The last termination of a container status, when it has one.
pub open spec fn last_terminated(cs: Json) -> Option<Json> {
    at2(cs, "lastState"@, "terminated"@)
}

/// An exit code truncated to 32 bits.
pub open spec fn exit_code_of(t: Json) -> Option<i32> {
    match i64_of(at(Some(t), "exitCode"@)) {
        Some(n) => Some(n as i32),
        None => None,
    }
}

/// `c` describes the container status `cs`.
pub open spec fn container_info_of(c: ContainerRestartInfo, cs: Json) -> bool {
    &&& c.name@ == str_or(at(Some(cs), "name"@), Seq::empty())
    &&& c.restart_count == restart_count_of(cs)
    &&& c.current_ready == (match bool_of(at(Some(cs), "ready"@)) { Some(b) => b, None => false })
    &&& c.current_state@ == (match at(Some(cs), "state"@) {
        Some(s) => state_text(s),
        None => "Unknown"@,
    })
    &&& match last_terminated(cs) {
        Some(t) => {
            &&& opt_seq(c.last_reason) == str_of(at(Some(t), "reason"@))
            &&& c.last_exit_code == exit_code_of(t)
            &&& opt_seq(c.last_finished_at) == str_of(at(Some(t), "finishedAt"@))
        },
        None => c.last_reason is None && c.last_exit_code is None && c.last_finished_at is None,
    }
}

fn restart_count(cs: &Json) -> (r: i32)
    ensures
        r == restart_count_of(*cs),
{
    let n: i64 = match as_i64(get(Some(cs), "restartCount")) {
        Some(n) => n,
        None => 0,
    };
    n as i32
}

fn exit_code(t: &Json) -> (r: Option<i32>)
    ensures
        r == exit_code_of(*t),
{
    match as_i64(get(Some(t), "exitCode")) {
        Some(n) => Some(n as i32),
        None => None,
    }
}

/// Describes one container status.
pub fn container_restart_info(cs: &Json) -> (r: ContainerRestartInfo)
    ensures
        container_info_of(r, *cs),
{
    let name = str_or_default(get(Some(cs), "name"), "");
    proof {
        reveal_strlit("");
        assert(""@ =~= Seq::<char>::empty());
    }
    let restart_count = restart_count(cs);
    let current_ready = match as_bool(get(Some(cs), "ready")) {
        Some(b) => b,
        None => false,
    };
    let current_state = match get(Some(cs), "state") {
        Some(s) => state_name(s),
        None => string_of("Unknown"),
    };
    let (last_reason, last_exit_code, last_finished_at) = match get2(cs, "lastState", "terminated") {
        Some(t) => (opt_string(get(Some(t), "reason")), exit_code(t), opt_string(get(Some(t), "finishedAt"))),
        None => (None, None, None),
    };
    ContainerRestartInfo { name, restart_count, current_state, current_ready, last_reason, last_exit_code, last_finished_at }
}

/// The statuses listed under `key` in a pod document's `status`.
pub open spec fn status_list(raw: Json, key: Seq<char>) -> Seq<Json> {
    match array_of(at(at(Some(raw), "status"@), key)) {
        Some(a) => a,
        None => Seq::empty(),
    }
}

/// The container statuses of a pod document, then its init container
/// statuses.
pub open spec fn all_statuses(raw: Json) -> Seq<Json> {
    status_list(raw, "containerStatuses"@) + status_list(raw, "initContainerStatuses"@)
}

/// The restart counts of `s`, summed with wrap-around at 32 bits.
pub open spec fn restarts_total(s: Seq<Json>) -> i32
    decreases s.len(),
{
    if s.len() == 0 {
        0
    } else {
        vstd::wrapping::i32_specs::wrapping_add(restarts_total(s.drop_last()), restart_count_of(s.last()))
    }
}

/// The node a pod is placed on, empty when none.
pub open spec fn node_of(spec: Option<PodSpec>) -> Seq<char> {
    match spec {
        Some(s) => opt_view(s.node_name),
        None => Seq::empty(),
    }
}

/// `now - created` fits in an `i64` for the pod's creation time.
pub open spec fn age_computable(pod: Pod, now: i64) -> bool {
    pod.metadata.creation_timestamp matches Some(c) ==> i64::MIN <= now - c <= i64::MAX
}

/// `p` describes the pod `pod`, whose JSON document is `raw`, at Unix
/// time `now`.
pub open spec fn pod_info_of(p: PodRestartInfo, pod: Pod, raw: Json, now: i64) -> bool {
    let st = all_statuses(raw);
    &&& p.pod_name@ == opt_view(pod.metadata.name)
    &&& p.namespace@ == opt_view(pod.metadata.namespace)
    &&& p.node@ == node_of(pod.spec)
    &&& p.age@ == (match pod.metadata.creation_timestamp {
        Some(c) => age_text(now - c),
        None => "?"@,
    })
    &&& p.total_restarts == restarts_total(st)
    &&& p.containers@.len() == st.len()
    &&& forall|i: int| 0 <= i < st.len() ==> container_info_of(#[trigger] p.containers@[i], st[i])
}

fn add_container_infos(out: &mut Vec<ContainerRestartInfo>, total: &mut i32, arr: &Vec<Json>, Ghost(done): Ghost<Seq<Json>>)
    requires
        old(out)@.len() == done.len(),
        forall|j: int| 0 <= j < done.len() ==> container_info_of(#[trigger] old(out)@[j], done[j]),
        *old(total) == restarts_total(done),
    ensures
        final(out)@.len() == done.len() + arr@.len(),
        forall|j: int| 0 <= j < done.len() + arr@.len() ==> container_info_of(#[trigger] final(out)@[j], (done + arr@)[j]),
        *final(total) == restarts_total(done + arr@),
{
    let mut i: usize = 0;
    proof {
        assert(done + arr@.subrange(0, 0) =~= done);
    }
    while i < arr.len()
        invariant
            i <= arr@.len(),
            out@.len() == done.len() + i,
            forall|j: int| 0 <= j < done.len() + i ==> container_info_of(#[trigger] out@[j], (done + arr@.subrange(0, i as int))[j]),
            *total == restarts_total(done + arr@.subrange(0, i as int)),
        decreases arr@.len() - i,
    {
        let ghost pre = done + arr@.subrange(0, i as int);
        let ghost next = done + arr@.subrange(0, i + 1);
        proof {
            assert(next.drop_last() =~= pre);
            assert(next.last() == arr@[i as int]);
            assert(forall|j: int| 0 <= j < pre.len() ==> next[j] == pre[j]);
        }
        let c = container_restart_info(&arr[i]);
        let rc = restart_count(&arr[i]);
        *total = total.wrapping_add(rc);
        out.push(c);
        i = i + 1;
    }
    proof {
        assert(arr@.subrange(0, arr@.len() as int) =~= arr@);
    }
}

fn status_array<'a>(raw: &'a Json, key: &str) -> (r: Option<&'a Vec<Json>>)
    ensures
        match r {
            Some(a) => status_list(*raw, key@) == a@,
            None => status_list(*raw, key@) == Seq::<Json>::empty(),
        },
{
    let st = get(Some(raw), "status");
    as_array(get(st, key))
}

/// Describes the restarts of pod `pod`, whose JSON document is `raw`, at
/// Unix time `now`.
pub fn pod_restart_info(pod: &Pod, raw: &Json, now: i64) -> (r: PodRestartInfo)
    requires
        age_computable(*pod, now),
    ensures
        pod_info_of(r, *pod, *raw, now),
{
    let pod_name = unwrap_or_empty(&pod.metadata.name);
    let namespace = unwrap_or_empty(&pod.metadata.namespace);
    let node = match &pod.spec {
        Some(s) => unwrap_or_empty(&s.node_name),
        None => String::new(),
    };
    let age = match pod.metadata.creation_timestamp {
        Some(c) => crate::age::format_age(now - c),
        None => string_of("?"),
    };
    let mut containers: Vec<ContainerRestartInfo> = Vec::new();
    let mut total: i32 = 0;
    let ghost first = status_list(*raw, "containerStatuses"@);
    match status_array(raw, "containerStatuses") {
        Some(a) => {
            add_container_infos(&mut containers, &mut total, a, Ghost(Seq::empty()));
            assert(Seq::<Json>::empty() + a@ =~= first);
        },
        None => {},
    }
    match status_array(raw, "initContainerStatuses") {
        Some(a) => {
            add_container_infos(&mut containers, &mut total, a, Ghost(first));
        },
        None => {
            assert(first + Seq::<Json>::empty() =~= first);
        },
    }
    assert(all_statuses(*raw) =~= first + status_list(*raw, "initContainerStatuses"@));
    PodRestartInfo { pod_name, namespace, node, age, total_restarts: total, containers }
}

/// The statuses of `s` that have a last termination, in order.
pub open spec fn with_last_termination(s: Seq<Json>) -> Seq<Json>
    decreases s.len(),
{
    if s.len() == 0 {
        Seq::empty()
    } else {
        let r = with_last_termination(s.drop_last());
        if last_terminated(s.last()) is Some { r.push(s.last()) } else { r }
    }
}

/// A status with the name and namespace of its pod.
pub open spec fn tagged(s: Seq<Json>, pod: Seq<char>, ns: Seq<char>) -> Seq<(Json, Seq<char>, Seq<char>)>
    decreases s.len(),
{
    if s.len() == 0 {
        Seq::empty()
    } else {
        tagged(s.drop_last(), pod, ns).push((s.last(), pod, ns))
    }
}

/// The statuses of a pod that make timeline entries, tagged with the pod.
pub open spec fn pod_event_sources(pod: Pod, raw: Json) -> Seq<(Json, Seq<char>, Seq<char>)> {
    tagged(with_last_termination(all_statuses(raw)), opt_view(pod.metadata.name), opt_view(pod.metadata.namespace))
}

/// `e` is the timeline entry for the status `src.0` of the pod named
/// `src.1` in namespace `src.2`.
pub open spec fn event_of(e: RestartEvent, src: (Json, Seq<char>, Seq<char>)) -> bool {
    let (cs, pod, ns) = src;
    match last_terminated(cs) {
        Some(t) => {
            &&& e.pod_name@ == pod
            &&& e.container@ == str_or(at(Some(cs), "name"@), Seq::empty())
            &&& e.namespace@ == ns
            &&& e.reason@ == str_or(at(Some(t), "reason"@), "Unknown"@)
            &&& e.exit_code == (match i64_of(at(Some(t), "exitCode"@)) { Some(n) => n, None => 0i64 }) as i32
            &&& opt_seq(e.finished_at) == str_of(at(Some(t), "finishedAt"@))
            &&& opt_seq(e.started_at) == str_of(at(Some(t), "startedAt"@))
            &&& opt_seq(e.message) == str_of(at(Some(t), "message"@))
            &&& e.source@ == "lastState"@
        },
        None => false,
    }
}

proof fn lemma_tagged_push(s: Seq<Json>, x: Json, pod: Seq<char>, ns: Seq<char>)
    ensures
        tagged(s.push(x), pod, ns) == tagged(s, pod, ns).push((x, pod, ns)),
        tagged(s, pod, ns).len() == s.len(),
{
    assert(s.push(x).drop_last() =~= s);
    lemma_tagged_len(s, pod, ns);
}

proof fn lemma_tagged_len(s: Seq<Json>, pod: Seq<char>, ns: Seq<char>)
    ensures
        tagged(s, pod, ns).len() == s.len(),
    decreases s.len(),
{
    if s.len() > 0 {
        lemma_tagged_len(s.drop_last(), pod, ns);
    }
}

fn add_events(out: &mut Vec<RestartEvent>, arr: &Vec<Json>, pod: &String, ns: &String, Ghost(base): Ghost<Seq<(Json, Seq<char>, Seq<char>)>>, Ghost(done): Ghost<Seq<Json>>)
    requires
        old(out)@.len() == base.len() + with_last_termination(done).len(),
        forall|j: int| 0 <= j < old(out)@.len() ==>
            event_of(#[trigger] old(out)@[j], (base + tagged(with_last_termination(done), pod@, ns@))[j]),
    ensures
        final(out)@.len() == base.len() + with_last_termination(done + arr@).len(),
        forall|j: int| 0 <= j < final(out)@.len() ==>
            event_of(#[trigger] final(out)@[j], (base + tagged(with_last_termination(done + arr@), pod@, ns@))[j]),
{
    let mut i: usize = 0;
    proof {
        assert(done + arr@.subrange(0, 0) =~= done);
    }
    while i < arr.len()
        invariant
            i <= arr@.len(),
            out@.len() == base.len() + with_last_termination(done + arr@.subrange(0, i as int)).len(),
            forall|j: int| 0 <= j < out@.len() ==>
                event_of(#[trigger] out@[j], (base + tagged(with_last_termination(done + arr@.subrange(0, i as int)), pod@, ns@))[j]),
        decreases arr@.len() - i,
    {
        let ghost pre = done + arr@.subrange(0, i as int);
        let ghost next = done + arr@.subrange(0, i + 1);
        proof {
            assert(next =~= pre.push(arr@[i as int]));
            assert(next.drop_last() =~= pre);
            lemma_tagged_len(with_last_termination(pre), pod@, ns@);
        }
        let cs = &arr[i];
        match get2(cs, "lastState", "terminated") {
            Some(t) => {
                let container = str_or_default(get(Some(cs), "name"), "");
                proof {
                    reveal_strlit("");
                    assert(""@ =~= Seq::<char>::empty());
                }
                let reason = str_or_default(get(Some(t), "reason"), "Unknown");
                let code: i64 = match as_i64(get(Some(t), "exitCode")) {
                    Some(n) => n,
                    None => 0,
                };
                let e = RestartEvent {
                    pod_name: pod.clone(),
                    container,
                    namespace: ns.clone(),
                    reason,
                    exit_code: code as i32,
                    finished_at: opt_string(get(Some(t), "finishedAt")),
                    started_at: opt_string(get(Some(t), "startedAt")),
                    message: opt_string(get(Some(t), "message")),
                    source: string_of("lastState"),
                };
                proof {
                    let w = with_last_termination(pre);
                    assert(with_last_termination(next) == w.push(arr@[i as int]));
                    lemma_tagged_push(w, arr@[i as int], pod@, ns@);
                    assert(event_of(e, (arr@[i as int], pod@, ns@)));
                    assert(base + tagged(w.push(arr@[i as int]), pod@, ns@)
                        =~= (base + tagged(w, pod@, ns@)).push((arr@[i as int], pod@, ns@)));
                }
                out.push(e);
            },
            None => {
                assert(with_last_termination(next) == with_last_termination(pre));
            },
        }
        i = i + 1;
    }
    proof {
        assert(arr@.subrange(0, arr@.len() as int) =~= arr@);
    }
}

fn add_pod_events(out: &mut Vec<RestartEvent>, pod: &Pod, raw: &Json, Ghost(base): Ghost<Seq<(Json, Seq<char>, Seq<char>)>>)
    requires
        old(out)@.len() == base.len(),
        forall|j: int| 0 <= j < old(out)@.len() ==> event_of(#[trigger] old(out)@[j], base[j]),
    ensures
        final(out)@.len() == base.len() + pod_event_sources(*pod, *raw).len(),
        forall|j: int| 0 <= j < final(out)@.len() ==>
            event_of(#[trigger] final(out)@[j], (base + pod_event_sources(*pod, *raw))[j]),
{
    let name = unwrap_or_empty(&pod.metadata.name);
    let ns = unwrap_or_empty(&pod.metadata.namespace);
    let ghost first = status_list(*raw, "containerStatuses"@);
    proof {
        assert(with_last_termination(Seq::<Json>::empty()) =~= Seq::<Json>::empty());
        assert(tagged(Seq::<Json>::empty(), name@, ns@) =~= Seq::empty());
        assert(base + tagged(with_last_termination(Seq::<Json>::empty()), name@, ns@) =~= base);
    }
    match status_array(raw, "containerStatuses") {
        Some(a) => {
            add_events(out, a, &name, &ns, Ghost(base), Ghost(Seq::empty()));
            assert(Seq::<Json>::empty() + a@ =~= first);
        },
        None => {
            assert(Seq::<Json>::empty() =~= first);
        },
    }
    match status_array(raw, "initContainerStatuses") {
        Some(a) => {
            add_events(out, a, &name, &ns, Ghost(base), Ghost(first));
        },
        None => {
            assert(first + Seq::<Json>::empty() =~= first);
        },
    }
    proof {
        assert(all_statuses(*raw) =~= first + status_list(*raw, "initContainerStatuses"@));
        lemma_tagged_len(with_last_termination(all_statuses(*raw)), name@, ns@);
    }
}

/// The timeline entries of pod `pod`, whose JSON document is `raw`, in
/// the order of its statuses.
pub fn timeline_events(pod: &Pod, raw: &Json) -> (r: Vec<RestartEvent>)
    ensures
        r@.len() == pod_event_sources(*pod, *raw).len(),
        forall|j: int| 0 <= j < r@.len() ==> event_of(#[trigger] r@[j], pod_event_sources(*pod, *raw)[j]),
{
    let mut out: Vec<RestartEvent> = Vec::new();
    add_pod_events(&mut out, pod, raw, Ghost(Seq::empty()));
    assert(Seq::<(Json, Seq<char>, Seq<char>)>::empty() + pod_event_sources(*pod, *raw) =~= pod_event_sources(*pod, *raw));
    out
}

impl Ordered for PodRestartInfo {
    /// More restarts first.
    open spec fn before(a: PodRestartInfo, b: PodRestartInfo) -> bool {
        a.total_restarts > b.total_restarts
    }

    proof fn lemma_asymmetric(a: PodRestartInfo, b: PodRestartInfo) {
    }

    proof fn lemma_not_before_transitive(a: PodRestartInfo, b: PodRestartInfo, c: PodRestartInfo) {
    }

    fn is_before(&self, other: &PodRestartInfo) -> (r: bool) {
        self.total_restarts > other.total_restarts
    }
}

/// The finish time of an entry as written, empty when unknown.
pub open spec fn finished_text(e: RestartEvent) -> Seq<char> {
    match e.finished_at {
        Some(s) => s@,
        None => Seq::empty(),
    }
}

impl Ordered for RestartEvent {
    /// Later finish times first, compared as text.
    open spec fn before(a: RestartEvent, b: RestartEvent) -> bool {
        seq_lt(finished_text(b), finished_text(a))
    }

    proof fn lemma_asymmetric(a: RestartEvent, b: RestartEvent) {
        lemma_seq_lt_total(finished_text(a), finished_text(b));
    }

    proof fn lemma_not_before_transitive(a: RestartEvent, b: RestartEvent, c: RestartEvent) {
        let (x, y, z) = (finished_text(a), finished_text(b), finished_text(c));
        lemma_seq_lt_total(x, y);
        lemma_seq_lt_total(y, z);
        lemma_seq_lt_total(x, z);
        if seq_lt(x, z) {
            if seq_lt(y, x) {
                lemma_seq_lt_transitive(y, x, z);
            }
        }
    }

    fn is_before(&self, other: &RestartEvent) -> (r: bool) {
        let a: &str = match &self.finished_at {
            Some(s) => s.as_str(),
            None => "",
        };
        let b: &str = match &other.finished_at {
            Some(s) => s.as_str(),
            None => "",
        };
        proof {
            reveal_strlit("");
            assert(""@ =~= Seq::<char>::empty());
        }
        str_lt(b, a)
    }
}

/// What a restart history is gathered over.
#[derive(Debug, PartialEq, Eq, Structural)]
pub enum HistoryScope {
    /// The pods that a workload's label selector picks.
    Workload,
    /// A single pod.
    SinglePod,
}

/// The kinds whose pods a restart history gathers by label selector.
pub open spec fn is_workload_kind(kind: Seq<char>) -> bool {
    kind == "Deployment"@ || kind == "StatefulSet"@ || kind == "DaemonSet"@ || kind == "ReplicaSet"@
}

/// The scope of a restart history of an object of kind `kind`; other
/// kinds are refused with `Unsupported kind: <kind>`.
pub fn history_scope(kind: &str) -> (r: Result<HistoryScope, String>)
    ensures
        match r {
            Ok(HistoryScope::Workload) => is_workload_kind(kind@),
            Ok(HistoryScope::SinglePod) => kind@ == "Pod"@,
            Err(e) => !is_workload_kind(kind@) && kind@ != "Pod"@ && e@ == "Unsupported kind: "@ + kind@,
        },
{
    if str_eq(kind, "Deployment") || str_eq(kind, "StatefulSet") || str_eq(kind, "DaemonSet") || str_eq(kind, "ReplicaSet") {
        Ok(HistoryScope::Workload)
    } else if str_eq(kind, "Pod") {
        Ok(HistoryScope::SinglePod)
    } else {
        let mut e = string_of("Unsupported kind: ");
        e.append(kind);
        Err(e)
    }
}

/// The label selector of a workload's match labels; a workload without
/// any is refused with `No label selector found`.
pub fn workload_selector(labels: &Option<StrMap>) -> (r: Result<String, String>)
    ensures
        match r {
            Ok(s) => s@ == selector_of(*labels) && s@.len() > 0,
            Err(e) => selector_of(*labels).len() == 0 && e@ == "No label selector found"@,
        },
{
    let s = get_selector(labels);
    if s.as_str().is_empty() {
        Err(string_of("No label selector found"))
    } else {
        Ok(s)
    }
}

/// The restart history of a single pod: its restarts and its timeline in
/// the order of its statuses.
pub fn single_pod_history(name: String, kind: String, namespace: String, pod: &Pod, raw: &Json, now: i64) -> (r: RestartHistory)
    requires
        age_computable(*pod, now),
    ensures
        r.workload_name@ == name@,
        r.workload_kind@ == kind@,
        r.namespace@ == namespace@,
        r.pod_count == 1,
        r.pods@.len() == 1,
        pod_info_of(r.pods@[0], *pod, *raw, now),
        r.total_restarts == r.pods@[0].total_restarts,
        r.timeline@.len() == pod_event_sources(*pod, *raw).len(),
        forall|j: int| 0 <= j < r.timeline@.len() ==> event_of(#[trigger] r.timeline@[j], pod_event_sources(*pod, *raw)[j]),
{
    let info = pod_restart_info(pod, raw, now);
    let total = info.total_restarts;
    let timeline = timeline_events(pod, raw);
    let mut pods: Vec<PodRestartInfo> = Vec::new();
    pods.push(info);
    RestartHistory { workload_name: name, workload_kind: kind, namespace, total_restarts: total, pod_count: 1, pods, timeline }
}

/// The timeline sources of each of `pods` in turn.
pub open spec fn event_sources(pods: Seq<(Pod, Json)>) -> Seq<(Json, Seq<char>, Seq<char>)>
    decreases pods.len(),
{
    if pods.len() == 0 {
        Seq::empty()
    } else {
        event_sources(pods.drop_last()) + pod_event_sources(pods.last().0, pods.last().1)
    }
}

/// The total restarts of `infos`, summed with wrap-around at 32 bits.
pub open spec fn pods_total(infos: Seq<PodRestartInfo>) -> i32
    decreases infos.len(),
{
    if infos.len() == 0 {
        0
    } else {
        vstd::wrapping::i32_specs::wrapping_add(pods_total(infos.drop_last()), infos.last().total_restarts)
    }
}

/// Every pod's age can be computed at `now`.
pub open spec fn ages_computable(pods: Seq<(Pod, Json)>, now: i64) -> bool {
    forall|i: int| 0 <= i < pods.len() ==> age_computable(#[trigger] pods[i].0, now)
}

/// The restart history of a workload whose pods, each with its JSON
/// document, are `pods`: the pods most restarted first, and all their
/// terminations latest first; ties keep the order of `pods`.
pub fn restart_history(name: String, kind: String, namespace: String, pods: &Vec<(Pod, Json)>, now: i64) -> (r: RestartHistory)
    requires
        ages_computable(pods@, now),
    ensures
        r.workload_name@ == name@,
        r.workload_kind@ == kind@,
        r.namespace@ == namespace@,
        r.pod_count == pods@.len(),
        exists|infos: Seq<PodRestartInfo>| #![trigger sort_ordered(infos)] {
            &&& infos.len() == pods@.len()
            &&& forall|i: int| 0 <= i < pods@.len() ==> pod_info_of(#[trigger] infos[i], pods@[i].0, pods@[i].1, now)
            &&& r.pods@ == sort_ordered(infos)
            &&& r.total_restarts == pods_total(infos)
        },
        exists|evs: Seq<RestartEvent>| #![trigger sort_ordered(evs)] {
            &&& evs.len() == event_sources(pods@).len()
            &&& forall|j: int| 0 <= j < evs.len() ==> event_of(#[trigger] evs[j], event_sources(pods@)[j])
            &&& r.timeline@ == sort_ordered(evs)
        },
{
    let mut infos: Vec<PodRestartInfo> = Vec::new();
    let mut events: Vec<RestartEvent> = Vec::new();
    let mut total: i32 = 0;
    let mut i: usize = 0;
    while i < pods.len()
        invariant
            i <= pods@.len(),
            ages_computable(pods@, now),
            infos@.len() == i,
            forall|k: int| 0 <= k < i ==> pod_info_of(#[trigger] infos@[k], pods@[k].0, pods@[k].1, now),
            total == pods_total(infos@),
            events@.len() == event_sources(pods@.subrange(0, i as int)).len(),
            forall|j: int| 0 <= j < events@.len() ==>
                event_of(#[trigger] events@[j], event_sources(pods@.subrange(0, i as int))[j]),
        decreases pods@.len() - i,
    {
        proof {
            assert(pods@.subrange(0, i + 1).drop_last() =~= pods@.subrange(0, i as int));
            assert(pods@.subrange(0, i + 1).last() == pods@[i as int]);
            assert(age_computable(pods@[i as int].0, now));
        }
        let info = pod_restart_info(&pods[i].0, &pods[i].1, now);
        let ghost before = infos@;
        total = total.wrapping_add(info.total_restarts);
        infos.push(info);
        proof {
            assert(infos@.drop_last() =~= before);
        }
        add_pod_events(&mut events, &pods[i].0, &pods[i].1, Ghost(event_sources(pods@.subrange(0, i as int))));
        i = i + 1;
    }
    proof {
        assert(pods@.subrange(0, pods@.len() as int) =~= pods@);
    }
    let ghost iv = infos@;
    let ghost ev = events@;
    let count = infos.len();
    let sorted_pods = sort_stable(infos);
    let sorted_events = sort_stable(events);
    RestartHistory {
        workload_name: name,
        workload_kind: kind,
        namespace,
        total_restarts: total,
        pod_count: count,
        pods: sorted_pods,
        timeline: sorted_events,
    }
}

} // verus!
