//! Cluster events as listed, latest first, and the warnings that raise an
//! alert.
use vstd::prelude::*;
use crate::benchmark::opt_seq;
use crate::model::clone_opt;
use crate::clock::{rfc3339_text, to_rfc3339};
use crate::cronjob::time_text;
use crate::order::{Ordered, sort_ordered, sort_stable};
use crate::text::{seq_lt, str_lt, lemma_seq_lt_total, lemma_seq_lt_transitive, str_eq};

verus! {

/// An event as shown.
#[derive(Debug)]
pub struct K8sEvent {
    pub kind: Option<String>,
    pub name: Option<String>,
    pub namespace: Option<String>,
    pub reason: Option<String>,
    pub message: Option<String>,
    pub event_type: Option<String>,
    pub count: Option<i32>,
    pub first_seen: Option<String>,
    pub last_seen: Option<String>,
    pub source: Option<String>,
}

/// What is read of an event; times in Unix seconds.
#[derive(Debug)]
pub struct EventInfo {
    /// The kind, name and namespace of the object the event is about.
    pub kind: Option<String>,
    pub name: Option<String>,
    pub namespace: Option<String>,
    pub reason: Option<String>,
    pub message: Option<String>,
    pub type_: Option<String>,
    pub count: Option<i32>,
    pub first_timestamp: Option<i64>,
    pub last_timestamp: Option<i64>,
    /// The component of the event's source.
    pub source_component: Option<String>,
}

/// `e` shows event `ev`, its times in RFC 3339.
pub open spec fn event_of(e: K8sEvent, ev: EventInfo) -> bool {
    &&& opt_seq(e.kind) == opt_seq(ev.kind)
    &&& opt_seq(e.name) == opt_seq(ev.name)
    &&& opt_seq(e.namespace) == opt_seq(ev.namespace)
    &&& opt_seq(e.reason) == opt_seq(ev.reason)
    &&& opt_seq(e.message) == opt_seq(ev.message)
    &&& opt_seq(e.event_type) == opt_seq(ev.type_)
    &&& e.count == ev.count
    &&& opt_seq(e.first_seen) == time_text(ev.first_timestamp)
    &&& opt_seq(e.last_seen) == time_text(ev.last_timestamp)
    &&& opt_seq(e.source) == opt_seq(ev.source_component)
}

fn time_string(t: Option<i64>) -> (r: Option<String>)
    ensures
        opt_seq(r) == time_text(t),
{
    match t {
        Some(s) => to_rfc3339(s),
        None => None,
    }
}

/// Shows an event.
pub fn k8s_event(ev: &EventInfo) -> (r: K8sEvent)
    ensures
        event_of(r, *ev),
{
    K8sEvent {
        kind: clone_opt(&ev.kind),
        name: clone_opt(&ev.name),
        namespace: clone_opt(&ev.namespace),
        reason: clone_opt(&ev.reason),
        message: clone_opt(&ev.message),
        event_type: clone_opt(&ev.type_),
        count: ev.count,
        first_seen: time_string(ev.first_timestamp),
        last_seen: time_string(ev.last_timestamp),
        source: clone_opt(&ev.source_component),
    }
}

/// Whether an event is a warning, which raises an alert.
pub fn is_warning(ev: &EventInfo) -> (r: bool)
    ensures
        r == (opt_seq(ev.type_) == Some("Warning"@)),
{
    match &ev.type_ {
        Some(t) => str_eq(t.as_str(), "Warning"),
        None => false,
    }
}

/// `a` comes before `b` in the order of optional texts: absent first.
pub open spec fn opt_text_lt(a: Option<Seq<char>>, b: Option<Seq<char>>) -> bool {
    match (a, b) {
        (None, Some(_)) => true,
        (Some(x), Some(y)) => seq_lt(x, y),
        _ => false,
    }
}

impl Ordered for K8sEvent {
    /// Latest last-seen time first, events never seen last.
    open spec fn before(a: K8sEvent, b: K8sEvent) -> bool {
        opt_text_lt(opt_seq(b.last_seen), opt_seq(a.last_seen))
    }

    proof fn lemma_asymmetric(a: K8sEvent, b: K8sEvent) {
        match (opt_seq(a.last_seen), opt_seq(b.last_seen)) {
            (Some(x), Some(y)) => lemma_seq_lt_total(x, y),
            _ => {},
        }
    }

    proof fn lemma_not_before_transitive(a: K8sEvent, b: K8sEvent, c: K8sEvent) {
        match (opt_seq(a.last_seen), opt_seq(b.last_seen), opt_seq(c.last_seen)) {
            (Some(x), Some(y), Some(z)) => {
                lemma_seq_lt_total(x, y);
                lemma_seq_lt_total(y, z);
                lemma_seq_lt_total(x, z);
                if seq_lt(x, z) {
                    if seq_lt(y, x) {
                        lemma_seq_lt_transitive(y, x, z);
                    }
                }
            },
            _ => {},
        }
    }

    fn is_before(&self, other: &K8sEvent) -> (r: bool) {
        match (&other.last_seen, &self.last_seen) {
            (None, Some(_)) => true,
            (Some(x), Some(y)) => str_lt(x.as_str(), y.as_str()),
            _ => false,
        }
    }
}

/// The events shown, latest last-seen first (ties in list order).
pub fn list_events(evs: &Vec<EventInfo>) -> (r: Vec<K8sEvent>)
    ensures
        exists|u: Seq<K8sEvent>| #![trigger sort_ordered(u)] {
            &&& u.len() == evs@.len()
            &&& forall|i: int| 0 <= i < evs@.len() ==> event_of(#[trigger] u[i], evs@[i])
            &&& r@ == sort_ordered(u)
        },
{
    let mut u: Vec<K8sEvent> = Vec::new();
    let mut i: usize = 0;
    while i < evs.len()
        invariant
            i <= evs@.len(),
            u@.len() == i,
            forall|k: int| 0 <= k < i ==> event_of(#[trigger] u@[k], evs@[k]),
        decreases evs@.len() - i,
    {
        u.push(k8s_event(&evs[i]));
        i = i + 1;
    }
    let ghost uv = u@;
    sort_stable(u)
}

} // verus!
