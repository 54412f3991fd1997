//! Log lines of pods and of the pods of a workload: each line split into
//! its timestamp and message, the lines of all containers merged in
//! timestamp order.
use vstd::prelude::*;
use crate::text::{views, text_lines, first_index, split_lines, chars_of, string_from_range, find_char, string_of, seq_lt, str_lt, lemma_seq_lt_total, lemma_seq_lt_transitive};
use crate::order::{Ordered, sort_ordered, sort_stable};
use crate::model::{Pod, Container};

verus! {

/// The most lines kept of a workload's logs.
pub const MAX_WORKLOAD_LINES: usize = 1000;

/// A log line of a container of a workload's pod.
#[derive(Debug)]
pub struct WorkloadLogLine {
    pub pod: String,
    pub container: String,
    pub timestamp: String,
    pub message: String,
}

/// The lines of a pod's log.
pub fn get_pod_logs(text: &str) -> (r: Vec<String>)
    ensures
        views(r@) == text_lines(text@),
{
    split_lines(text)
}

/// The names of the containers of a pod, none without a spec.
pub open spec fn container_names_of(p: Pod) -> Seq<Seq<char>> {
    match p.spec {
        Some(s) => s.containers@.map_values(|c: Container| c.name@),
        None => Seq::empty(),
    }
}

/// The names of the containers of a pod.
pub fn get_pod_containers(pod: &Pod) -> (r: Vec<String>)
    ensures
        views(r@) == container_names_of(*pod),
{
    let mut out: Vec<String> = Vec::new();
    match &pod.spec {
        Some(s) => {
            let mut i: usize = 0;
            while i < s.containers.len()
                invariant
                    i <= s.containers@.len(),
                    views(out@) == s.containers@.subrange(0, i as int).map_values(|c: Container| c.name@),
                decreases s.containers@.len() - i,
            {
                let ghost before = views(out@);
                out.push(s.containers[i].name.clone());
                assert(views(out@) =~= before.push(s.containers@[i as int].name@));
                assert(s.containers@.subrange(0, i + 1).map_values(|c: Container| c.name@)
                    =~= s.containers@.subrange(0, i as int).map_values(|c: Container| c.name@).push(s.containers@[i as int].name@));
                i = i + 1;
            }
            assert(s.containers@.subrange(0, s.containers@.len() as int) =~= s.containers@);
        },
        None => {
            assert(views(out@) =~= Seq::<Seq<char>>::empty());
        },
    }
    out
}

/// A log line split at its first space into timestamp and message; a line
/// without a space is all message.
pub open spec fn split_log_line(l: Seq<char>) -> (Seq<char>, Seq<char>) {
    match first_index(l, ' ') {
        Some(i) => (l.subrange(0, i), l.subrange(i + 1, l.len() as int)),
        None => (Seq::empty(), l),
    }
}

/// `w` is line `l` of container `container` of pod `pod`.
pub open spec fn log_line_of(w: WorkloadLogLine, pod: Seq<char>, container: Seq<char>, l: Seq<char>) -> bool {
    &&& w.pod@ == pod
    &&& w.container@ == container
    &&& (w.timestamp@, w.message@) == split_log_line(l)
}

/// Splits one log line of container `container` of pod `pod`.
pub fn log_line(pod: &str, container: &str, line: &str) -> (r: WorkloadLogLine)
    ensures
        log_line_of(r, pod@, container@, line@),
{
    let v = chars_of(line);
    let n = v.len();
    let (timestamp, message) = match find_char(&v, ' ') {
        Some(i) => (string_from_range(&v, 0, i), string_from_range(&v, i + 1, n)),
        None => (String::new(), string_of(line)),
    };
    WorkloadLogLine { pod: string_of(pod), container: string_of(container), timestamp, message }
}

/// The lines of `ls` that are not empty, in order.
pub open spec fn nonempty_lines(ls: Seq<Seq<char>>) -> Seq<Seq<char>>
    decreases ls.len(),
{
    if ls.len() == 0 {
        Seq::empty()
    } else {
        let r = nonempty_lines(ls.drop_last());
        if ls.last().len() > 0 { r.push(ls.last()) } else { r }
    }
}

/// The non-empty lines of the log `text` of container `container` of pod
/// `pod`, split.
pub fn container_log_lines(pod: &str, container: &str, text: &str) -> (r: Vec<WorkloadLogLine>)
    ensures
        r@.len() == nonempty_lines(text_lines(text@)).len(),
        forall|i: int| 0 <= i < r@.len() ==>
            log_line_of(#[trigger] r@[i], pod@, container@, nonempty_lines(text_lines(text@))[i]),
{
    let lines = split_lines(text);
    let ghost ls = views(lines@);
    let mut out: Vec<WorkloadLogLine> = Vec::new();
    let mut i: usize = 0;
    while i < lines.len()
        invariant
            i <= lines@.len(),
            ls == views(lines@),
            out@.len() == nonempty_lines(ls.subrange(0, i as int)).len(),
            forall|k: int| 0 <= k < out@.len() ==>
                log_line_of(#[trigger] out@[k], pod@, container@, nonempty_lines(ls.subrange(0, i as int))[k]),
        decreases lines@.len() - i,
    {
        let ghost prev = nonempty_lines(ls.subrange(0, i as int));
        proof {
            assert(ls.subrange(0, i + 1).drop_last() =~= ls.subrange(0, i as int));
            assert(ls.subrange(0, i + 1).last() == lines@[i as int]@);
        }
        if !lines[i].as_str().is_empty() {
            out.push(log_line(pod, container, lines[i].as_str()));
            assert(nonempty_lines(ls.subrange(0, i + 1)) == prev.push(lines@[i as int]@));
        }
        i = i + 1;
    }
    assert(ls.subrange(0, lines@.len() as int) =~= ls);
    out
}

impl Ordered for WorkloadLogLine {
    /// Earlier timestamps first, compared as text.
    open spec fn before(a: WorkloadLogLine, b: WorkloadLogLine) -> bool {
        seq_lt(a.timestamp@, b.timestamp@)
    }

    proof fn lemma_asymmetric(a: WorkloadLogLine, b: WorkloadLogLine) {
        lemma_seq_lt_total(a.timestamp@, b.timestamp@);
    }

    proof fn lemma_not_before_transitive(a: WorkloadLogLine, b: WorkloadLogLine, c: WorkloadLogLine) {
        lemma_seq_lt_total(a.timestamp@, b.timestamp@);
        lemma_seq_lt_total(b.timestamp@, c.timestamp@);
        lemma_seq_lt_total(a.timestamp@, c.timestamp@);
        if seq_lt(c.timestamp@, a.timestamp@) {
            if seq_lt(a.timestamp@, b.timestamp@) {
                lemma_seq_lt_transitive(c.timestamp@, a.timestamp@, b.timestamp@);
            }
        }
    }

    fn is_before(&self, other: &WorkloadLogLine) -> (r: bool) {
        str_lt(self.timestamp.as_str(), other.timestamp.as_str())
    }
}

/// The last at most `MAX_WORKLOAD_LINES` of `s`.
pub open spec fn keep_last(s: Seq<WorkloadLogLine>) -> Seq<WorkloadLogLine> {
    if s.len() > MAX_WORKLOAD_LINES { s.subrange(s.len() - MAX_WORKLOAD_LINES, s.len() as int) } else { s }
}

/// The lines of all containers, in timestamp order (ties in the order
/// given), the latest `MAX_WORKLOAD_LINES` of them.
pub fn merge_workload_logs(lines: Vec<WorkloadLogLine>) -> (r: Vec<WorkloadLogLine>)
    ensures
        r@ == keep_last(sort_ordered(lines@)),
{
    let mut sorted = sort_stable(lines);
    if sorted.len() > MAX_WORKLOAD_LINES {
        let ghost s = sorted@;
        let cut = sorted.len() - MAX_WORKLOAD_LINES;
        let tail = sorted.split_off(cut);
        proof {
            assert(tail@ =~= s.subrange(cut as int, s.len() as int));
        }
        tail
    } else {
        sorted
    }
}

} // verus!
