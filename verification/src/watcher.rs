//! Which resource kinds are being watched, and when each was last asked
//! for: a registry of at most `MAX_WATCHERS` watchers, one per kind, for
//! one context at a time. Starting a watcher for a new kind first drops
//! watchers idle for more than `IDLE_TIMEOUT_MS`, then, when the registry
//! is full, the least recently used one; the default kinds are never
//! dropped that way.
use vstd::prelude::*;
use crate::text::{string_of, str_eq, seq_lt, str_lt, lemma_seq_lt_total, lemma_seq_lt_transitive};
use crate::order::{Ordered, sort_ordered, sort_stable};
use crate::resources::K8sResource;

verus! {

/// The most watchers kept at once.
pub const MAX_WATCHERS: usize = 16;

/// How long a watcher may go unasked before it may be dropped, in
/// milliseconds (5 minutes).
pub const IDLE_TIMEOUT_MS: u64 = 300_000;

/// How long changes are gathered before they are sent, in milliseconds.
pub const DEBOUNCE_MS: u64 = 300;

/// The kinds watched by default, which are never dropped for idleness or
/// for room.
pub open spec fn is_protected(kind: Seq<char>) -> bool {
    kind == "pods"@ || kind == "deployments"@ || kind == "services"@
}

fn is_protected_exec(kind: &str) -> (r: bool)
    ensures
        r == is_protected(kind@),
{
    str_eq(kind, "pods") || str_eq(kind, "deployments") || str_eq(kind, "services")
}

/// What to ask the API for to watch a kind.
#[derive(Debug)]
pub struct WatchTarget {
    pub group: String,
    pub version: String,
    pub api_version: String,
    pub kind: String,
    pub plural: String,
    pub cluster_scoped: bool,
}

/// The group and kind of each kind key that can be watched.
pub open spec fn watch_info(key: Seq<char>) -> Option<(Seq<char>, Seq<char>)> {
    if key == "pods"@ { Some((""@, "Pod"@)) }
    else if key == "deployments"@ { Some(("apps"@, "Deployment"@)) }
    else if key == "services"@ { Some((""@, "Service"@)) }
    else if key == "configmaps"@ { Some((""@, "ConfigMap"@)) }
    else if key == "secrets"@ { Some((""@, "Secret"@)) }
    else if key == "statefulsets"@ { Some(("apps"@, "StatefulSet"@)) }
    else if key == "daemonsets"@ { Some(("apps"@, "DaemonSet"@)) }
    else if key == "replicasets"@ { Some(("apps"@, "ReplicaSet"@)) }
    else if key == "jobs"@ { Some(("batch"@, "Job"@)) }
    else if key == "cronjobs"@ { Some(("batch"@, "CronJob"@)) }
    else if key == "ingresses"@ { Some(("networking.k8s.io"@, "Ingress"@)) }
    else if key == "networkpolicies"@ { Some(("networking.k8s.io"@, "NetworkPolicy"@)) }
    else if key == "serviceaccounts"@ { Some((""@, "ServiceAccount"@)) }
    else if key == "persistentvolumeclaims"@ { Some((""@, "PersistentVolumeClaim"@)) }
    else if key == "persistentvolumes"@ { Some((""@, "PersistentVolume"@)) }
    else if key == "nodes"@ { Some((""@, "Node"@)) }
    else { None }
}

/// `t` is what to watch for kind key `key`: version `v1`, the key as the
/// plural, cluster-wide for volumes and nodes.
pub open spec fn target_of(t: WatchTarget, key: Seq<char>) -> bool {
    match watch_info(key) {
        Some((group, kind)) => {
            &&& t.group@ == group
            &&& t.version@ == "v1"@
            &&& t.api_version@ == (if group.len() == 0 { "v1"@ } else { group + "/v1"@ })
            &&& t.kind@ == kind
            &&& t.plural@ == key
            &&& t.cluster_scoped == (key == "persistentvolumes"@ || key == "nodes"@)
        },
        None => false,
    }
}

fn watch_info_exec(key: &str) -> (r: Option<(&'static str, &'static str)>)
    ensures
        match r {
            Some((g, k)) => watch_info(key@) == Some((g@, k@)),
            None => watch_info(key@) is None,
        },
{
    if str_eq(key, "pods") { Some(("", "Pod")) }
    else if str_eq(key, "deployments") { Some(("apps", "Deployment")) }
    else if str_eq(key, "services") { Some(("", "Service")) }
    else if str_eq(key, "configmaps") { Some(("", "ConfigMap")) }
    else if str_eq(key, "secrets") { Some(("", "Secret")) }
    else if str_eq(key, "statefulsets") { Some(("apps", "StatefulSet")) }
    else if str_eq(key, "daemonsets") { Some(("apps", "DaemonSet")) }
    else if str_eq(key, "replicasets") { Some(("apps", "ReplicaSet")) }
    else if str_eq(key, "jobs") { Some(("batch", "Job")) }
    else if str_eq(key, "cronjobs") { Some(("batch", "CronJob")) }
    else if str_eq(key, "ingresses") { Some(("networking.k8s.io", "Ingress")) }
    else if str_eq(key, "networkpolicies") { Some(("networking.k8s.io", "NetworkPolicy")) }
    else if str_eq(key, "serviceaccounts") { Some(("", "ServiceAccount")) }
    else if str_eq(key, "persistentvolumeclaims") { Some(("", "PersistentVolumeClaim")) }
    else if str_eq(key, "persistentvolumes") { Some(("", "PersistentVolume")) }
    else if str_eq(key, "nodes") { Some(("", "Node")) }
    else { None }
}

/// What to watch for kind key `key`, none for a kind that cannot be
/// watched.
pub fn kind_to_api_info(key: &str) -> (r: Option<WatchTarget>)
    ensures
        match r {
            Some(t) => target_of(t, key@),
            None => watch_info(key@) is None,
        },
{
    match watch_info_exec(key) {
        Some((group, kind)) => {
            let api_version = if group.is_empty() {
                string_of("v1")
            } else {
                let mut s = string_of(group);
                s.append("/v1");
                s
            };
            Some(WatchTarget {
                group: string_of(group),
                version: string_of("v1"),
                api_version,
                kind: string_of(kind),
                plural: string_of(key),
                cluster_scoped: str_eq(key, "persistentvolumes") || str_eq(key, "nodes"),
            })
        },
        None => None,
    }
}

/// A watched kind and when it was last asked for, in Unix milliseconds.
#[derive(Debug)]
pub struct WatchEntry {
    pub kind: String,
    pub last_accessed: u64,
}

/// The watchers of one context.
#[derive(Debug)]
pub struct WatcherRegistry {
    pub context: String,
    pub entries: Vec<WatchEntry>,
}

/// What starting a watcher did: whether a new watcher is to run, and the
/// kinds whose watchers are to stop, in order.
#[derive(Debug)]
pub struct StartOutcome {
    pub started: bool,
    pub evicted: Vec<String>,
}

/// The entries as plain values.
pub open spec fn entry_views(es: Seq<WatchEntry>) -> Seq<(Seq<char>, u64)> {
    es.map_values(|e: WatchEntry| (e.kind@, e.last_accessed))
}

/// The kinds of `es`.
pub open spec fn kinds_of(es: Seq<(Seq<char>, u64)>) -> Seq<Seq<char>> {
    es.map_values(|e: (Seq<char>, u64)| e.0)
}

/// No kind occurs twice in `es`.
pub open spec fn distinct_kinds(es: Seq<(Seq<char>, u64)>) -> bool {
    forall|i: int, j: int| 0 <= i < j < es.len() ==> es[i].0 != es[j].0
}

/// The index of the entry for `kind`.
pub open spec fn index_of_kind(es: Seq<(Seq<char>, u64)>, kind: Seq<char>) -> Option<int>
    decreases es.len(),
{
    if es.len() == 0 {
        None
    } else if es.last().0 == kind {
        Some(es.len() - 1)
    } else {
        index_of_kind(es.drop_last(), kind)
    }
}

/// The entries of `es` kept by the idle sweep: default kinds, and those
/// asked for at `threshold` or later.
pub open spec fn kept_after_idle(es: Seq<(Seq<char>, u64)>, threshold: u64) -> Seq<(Seq<char>, u64)>
    decreases es.len(),
{
    if es.len() == 0 {
        Seq::empty()
    } else {
        let r = kept_after_idle(es.drop_last(), threshold);
        let e = es.last();
        if is_protected(e.0) || e.1 >= threshold { r.push(e) } else { r }
    }
}

/// The kinds of `es` dropped by the idle sweep, in order.
pub open spec fn dropped_as_idle(es: Seq<(Seq<char>, u64)>, threshold: u64) -> Seq<Seq<char>>
    decreases es.len(),
{
    if es.len() == 0 {
        Seq::empty()
    } else {
        let r = dropped_as_idle(es.drop_last(), threshold);
        let e = es.last();
        if is_protected(e.0) || e.1 >= threshold { r } else { r.push(e.0) }
    }
}

/// The index of the least recently asked entry that is not a default
/// kind, the first of them on a tie.
pub open spec fn lru_index(es: Seq<(Seq<char>, u64)>) -> Option<int>
    decreases es.len(),
{
    if es.len() == 0 {
        None
    } else {
        let r = lru_index(es.drop_last());
        let e = es.last();
        if !is_protected(e.0) && (r is None || e.1 < es[r.unwrap()].1) { Some(es.len() - 1) } else { r }
    }
}

/// `es` without its entry at `i`.
pub open spec fn without_index(es: Seq<(Seq<char>, u64)>, i: int) -> Seq<(Seq<char>, u64)> {
    es.subrange(0, i) + es.subrange(i + 1, es.len() as int)
}

/// The registry after asking, in context `ctx` at time `now`, to watch a
/// kind that can be watched, as (entries, a new watcher started, kinds
/// stopped): a change of context stops all watchers; a kind already
/// watched is marked as asked for; else idle watchers are dropped, then
/// the least recently used one when the registry is full, and the new
/// kind is added.
pub open spec fn start_spec(old_ctx: Seq<char>, es: Seq<(Seq<char>, u64)>, ctx: Seq<char>, kind: Seq<char>, now: u64)
    -> (Seq<(Seq<char>, u64)>, bool, Seq<Seq<char>>)
{
    let (es1, ev1) = if old_ctx != ctx { (Seq::<(Seq<char>, u64)>::empty(), kinds_of(es)) } else { (es, Seq::<Seq<char>>::empty()) };
    match index_of_kind(es1, kind) {
        Some(i) => (es1.update(i, (kind, now)), false, ev1),
        None => {
            let threshold = if now >= IDLE_TIMEOUT_MS { (now - IDLE_TIMEOUT_MS) as u64 } else { 0u64 };
            let es2 = kept_after_idle(es1, threshold);
            let ev2 = ev1 + dropped_as_idle(es1, threshold);
            let (es3, ev3) = if es2.len() >= MAX_WATCHERS {
                match lru_index(es2) {
                    Some(k) => (without_index(es2, k), ev2.push(es2[k].0)),
                    None => (es2, ev2),
                }
            } else {
                (es2, ev2)
            };
            (es3.push((kind, now)), true, ev3)
        },
    }
}

/// Every kind of `es` can be watched.
pub open spec fn all_supported(es: Seq<(Seq<char>, u64)>) -> bool {
    forall|k: Seq<char>| #[trigger] kinds_of(es).contains(k) ==> watch_info(k) is Some
}

impl WatcherRegistry {
    /// The registry holds at most `MAX_WATCHERS` watchers, one per kind,
    /// each of a kind that can be watched.
    pub open spec fn wf(&self) -> bool {
        &&& distinct_kinds(entry_views(self.entries@))
        &&& self.entries@.len() <= MAX_WATCHERS
        &&& all_supported(entry_views(self.entries@))
    }

    /// An empty registry for no context.
    pub fn new() -> (r: WatcherRegistry)
        ensures
            r.wf(),
            r.context@ == Seq::<char>::empty(),
            r.entries@.len() == 0,
    {
        WatcherRegistry { context: String::new(), entries: Vec::new() }
    }
}

proof fn lemma_kept_members(es: Seq<(Seq<char>, u64)>, threshold: u64, k: Seq<char>)
    ensures
        kinds_of(kept_after_idle(es, threshold)).contains(k) ==> kinds_of(es).contains(k),
        kept_after_idle(es, threshold).len() <= es.len(),
    decreases es.len(),
{
    if es.len() > 0 {
        let d = es.drop_last();
        lemma_kept_members(d, threshold, k);
        let r = kept_after_idle(d, threshold);
        if kinds_of(kept_after_idle(es, threshold)).contains(k) {
            let i = choose|i: int| 0 <= i < kinds_of(kept_after_idle(es, threshold)).len() && kinds_of(kept_after_idle(es, threshold))[i] == k;
            if i < r.len() {
                assert(kinds_of(r)[i] == k);
                let j = choose|j: int| 0 <= j < kinds_of(d).len() && kinds_of(d)[j] == k;
                assert(kinds_of(es)[j] == k);
            } else {
                assert(kinds_of(es)[es.len() - 1] == k);
            }
        }
    }
}

proof fn lemma_kept_distinct(es: Seq<(Seq<char>, u64)>, threshold: u64)
    requires
        distinct_kinds(es),
    ensures
        distinct_kinds(kept_after_idle(es, threshold)),
    decreases es.len(),
{
    if es.len() > 0 {
        let d = es.drop_last();
        assert(distinct_kinds(d));
        lemma_kept_distinct(d, threshold);
        let r = kept_after_idle(d, threshold);
        let e = es.last();
        if is_protected(e.0) || e.1 >= threshold {
            lemma_kept_members(d, threshold, e.0);
            assert forall|i: int| 0 <= i < r.len() implies r[i].0 != e.0 by {
                if r[i].0 == e.0 {
                    assert(kinds_of(r)[i] == e.0);
                    assert(kinds_of(r).contains(e.0));
                    let j = choose|j: int| 0 <= j < kinds_of(d).len() && kinds_of(d)[j] == e.0;
                    assert(d[j].0 == es[es.len() - 1].0);
                    assert(es[j].0 == es[es.len() - 1].0);
                }
            }
            assert(distinct_kinds(r.push(e)));
        }
    }
}

proof fn lemma_lru_exists(es: Seq<(Seq<char>, u64)>, i: int)
    requires
        0 <= i < es.len(),
        !is_protected(es[i].0),
    ensures
        lru_index(es) matches Some(k) && 0 <= k < es.len() && !is_protected(es[k].0),
    decreases es.len(),
{
    let d = es.drop_last();
    if i < es.len() - 1 {
        lemma_lru_exists(d, i);
    } else {
        lemma_lru_shape(d);
    }
}

proof fn lemma_lru_shape(es: Seq<(Seq<char>, u64)>)
    ensures
        lru_index(es) matches Some(k) ==> 0 <= k < es.len() && !is_protected(es[k].0),
    decreases es.len(),
{
    if es.len() > 0 {
        lemma_lru_shape(es.drop_last());
    }
}

proof fn lemma_full_has_unprotected(es: Seq<(Seq<char>, u64)>)
    requires
        distinct_kinds(es),
        es.len() >= 4,
    ensures
        exists|i: int| 0 <= i < es.len() && !is_protected(es[i].0),
{
    if is_protected(es[0].0) && is_protected(es[1].0) && is_protected(es[2].0) {
        assert(es[0].0 != es[1].0 && es[0].0 != es[2].0 && es[1].0 != es[2].0 && es[0].0 != es[3].0 && es[1].0 != es[3].0 && es[2].0 != es[3].0);
        assert(!is_protected(es[3].0));
    }
}

proof fn lemma_index_of_kind(es: Seq<(Seq<char>, u64)>, kind: Seq<char>)
    ensures
        match index_of_kind(es, kind) {
            Some(i) => 0 <= i < es.len() && es[i].0 == kind,
            None => !kinds_of(es).contains(kind),
        },
    decreases es.len(),
{
    if es.len() > 0 {
        lemma_index_of_kind(es.drop_last(), kind);
        if index_of_kind(es, kind) is None {
            assert forall|j: int| 0 <= j < kinds_of(es).len() implies kinds_of(es)[j] != kind by {
                if j < es.len() - 1 {
                    assert(kinds_of(es.drop_last())[j] == kinds_of(es)[j]);
                }
            }
        }
    }
}

impl WatcherRegistry {
    /// Asks to watch kind key `kind` in context `context` at Unix time
    /// `now` (milliseconds); a kind that cannot be watched is refused with
    /// `Unsupported kind for watching: <kind>`.
    pub fn start(&mut self, context: &str, kind: &str, now: u64) -> (r: Result<StartOutcome, String>)
        requires
            old(self).wf(),
        ensures
            final(self).wf(),
            kinds_of(entry_views(old(self).entries@)).contains(kind@) ==> r is Ok,
            match r {
                Err(e) => {
                    &&& watch_info(kind@) is None
                    &&& e@ == "Unsupported kind for watching: "@ + kind@
                    &&& final(self).context@ == old(self).context@
                    &&& entry_views(final(self).entries@) == entry_views(old(self).entries@)
                },
                Ok(o) => {
                    let (es, started, evicted) = start_spec(old(self).context@, entry_views(old(self).entries@), context@, kind@, now);
                    &&& watch_info(kind@) is Some
                    &&& final(self).context@ == context@
                    &&& entry_views(final(self).entries@) == es
                    &&& o.started == started
                    &&& crate::text::views(o.evicted@) == evicted
                },
            },
    {
        if watch_info_exec(kind).is_none() {
            let mut e = string_of("Unsupported kind for watching: ");
            e.append(kind);
            return Err(e);
        }
        let ghost old_ctx = self.context@;
        let ghost es0 = entry_views(self.entries@);
        let mut evicted: Vec<String> = Vec::new();
        if !str_eq(self.context.as_str(), context) {
            let mut i: usize = 0;
            while i < self.entries.len()
                invariant
                    i <= self.entries@.len(),
                    entry_views(self.entries@) == es0,
                    crate::text::views(evicted@) == kinds_of(es0).subrange(0, i as int),
                decreases self.entries@.len() - i,
            {
                evicted.push(self.entries[i].kind.clone());
                proof {
                    assert(kinds_of(es0).subrange(0, i + 1) =~= kinds_of(es0).subrange(0, i as int).push(self.entries@[i as int].kind@));
                    assert(crate::text::views(evicted@) =~= kinds_of(es0).subrange(0, i + 1));
                }
                i = i + 1;
            }
            proof {
                assert(kinds_of(es0).subrange(0, es0.len() as int) =~= kinds_of(es0));
            }
            self.entries = Vec::new();
            self.context = string_of(context);
        } else {
            assert(crate::text::views(evicted@) =~= Seq::<Seq<char>>::empty());
        }
        let ghost es1 = entry_views(self.entries@);
        let ghost ev1 = crate::text::views(evicted@);
        proof {
            if old_ctx != context@ {
                assert(es1 =~= Seq::<(Seq<char>, u64)>::empty());
            }
            assert(distinct_kinds(es1));
            assert(es1.len() <= MAX_WATCHERS);
        }
        let mut i = self.entries.len();
        assert(self.entries@.subrange(0, i as int) =~= self.entries@);
        assert(entry_views(self.entries@.subrange(0, i as int)) =~= es1);
        assert(es1.subrange(0, i as int) =~= es1);
        while i > 0
            invariant
                i <= self.entries@.len(),
                self.context@ == context@,
                old_ctx == old(self).context@,
                watch_info(kind@) is Some,
                es0 == entry_views(old(self).entries@),
                all_supported(es0),
                es1 == (if old_ctx != context@ { Seq::<(Seq<char>, u64)>::empty() } else { es0 }),
                ev1 == (if old_ctx != context@ { kinds_of(es0) } else { Seq::<Seq<char>>::empty() }),
                crate::text::views(evicted@) == ev1,
                distinct_kinds(es1),
                es1.len() <= MAX_WATCHERS,
                entry_views(self.entries@) == es1,
                index_of_kind(es1, kind@) == index_of_kind(es1.subrange(0, i as int), kind@),
            decreases i,
        {
            let ghost pre = es1.subrange(0, i as int);
            assert(pre.drop_last() =~= es1.subrange(0, i - 1));
            assert(pre.last() == es1[i - 1]);
            if str_eq(self.entries[i - 1].kind.as_str(), kind) {
                let k = self.entries[i - 1].kind.clone();
                self.entries.set(i - 1, WatchEntry { kind: k, last_accessed: now });
                proof {
                    assert(entry_views(self.entries@) =~= es1.update(i - 1, (kind@, now)));
                    assert forall|a: int, b: int| 0 <= a < b < es1.len() implies
                        entry_views(self.entries@)[a].0 != entry_views(self.entries@)[b].0 by {
                        assert(es1[a].0 != es1[b].0);
                    }
                }
                proof {
                    assert(entry_views(self.entries@) == start_spec(old_ctx, es0, context@, kind@, now).0);
                    lemma_start_supported(old_ctx, es0, context@, kind@, now);
                }
                return Ok(StartOutcome { started: false, evicted });
            }
            i = i - 1;
        }
        proof {
            lemma_index_of_kind(es1, kind@);
        }
        let threshold = now.saturating_sub(IDLE_TIMEOUT_MS);
        let mut old_entries: Vec<WatchEntry> = Vec::new();
        std::mem::swap(&mut old_entries, &mut self.entries);
        assert(entry_views(old_entries@) == es1);
        let ghost orig = old_entries@;
        let ghost mut done: int = 0;
        proof {
            assert(orig.subrange(0, orig.len() as int) =~= orig);
            assert(entry_views(self.entries@) =~= kept_after_idle(es1.subrange(0, 0), threshold));
            assert(crate::text::views(evicted@) =~= ev1 + dropped_as_idle(es1.subrange(0, 0), threshold));
        }
        while old_entries.len() > 0
            invariant
                0 <= done <= orig.len(),
                self.context@ == context@,
                es1 == entry_views(orig),
                old_entries@ == orig.subrange(done, orig.len() as int),
                entry_views(self.entries@) == kept_after_idle(es1.subrange(0, done), threshold),
                crate::text::views(evicted@) == ev1 + dropped_as_idle(es1.subrange(0, done), threshold),
            decreases old_entries@.len(),
        {
            let e = old_entries.remove(0);
            proof {
                assert(e == orig[done]);
                assert(old_entries@ =~= orig.subrange(done + 1, orig.len() as int));
                assert(es1.subrange(0, done + 1).drop_last() =~= es1.subrange(0, done));
                assert(es1.subrange(0, done + 1).last() == (e.kind@, e.last_accessed));
            }
            let ghost kept_before = entry_views(self.entries@);
            let ghost ev_before = crate::text::views(evicted@);
            if is_protected_exec(e.kind.as_str()) || e.last_accessed >= threshold {
                self.entries.push(e);
                proof {
                    assert(entry_views(self.entries@) =~= kept_before.push((e.kind@, e.last_accessed)));
                }
            } else {
                evicted.push(e.kind);
                proof {
                    assert(crate::text::views(evicted@) =~= ev_before.push(e.kind@));
                    assert(ev1 + dropped_as_idle(es1.subrange(0, done), threshold).push(e.kind@)
                        =~= (ev1 + dropped_as_idle(es1.subrange(0, done), threshold)).push(e.kind@));
                }
            }
            proof {
                done = done + 1;
            }
        }
        proof {
            assert(es1.subrange(0, orig.len() as int) =~= es1);
            lemma_kept_distinct(es1, threshold);
            lemma_kept_members(es1, threshold, kind@);
        }
        let ghost es2 = entry_views(self.entries@);
        let ghost ev2 = crate::text::views(evicted@);
        if self.entries.len() >= MAX_WATCHERS {
            let mut best: Option<usize> = None;
            let mut j: usize = 0;
            while j < self.entries.len()
                invariant
                    j <= self.entries@.len(),
                    self.context@ == context@,
                    entry_views(self.entries@) == es2,
                    match best {
                        Some(b) => lru_index(es2.subrange(0, j as int)) == Some(b as int) && b < j,
                        None => lru_index(es2.subrange(0, j as int)) is None,
                    },
                decreases self.entries@.len() - j,
            {
                let ghost pre = es2.subrange(0, j + 1);
                proof {
                    assert(pre.drop_last() =~= es2.subrange(0, j as int));
                    assert(pre.last() == es2[j as int]);
                    match best {
                        Some(b) => {
                            assert(pre[b as int] == es2[b as int]);
                        },
                        None => {},
                    }
                }
                let better = match best {
                    Some(b) => self.entries[j].last_accessed < self.entries[b].last_accessed,
                    None => true,
                };
                if !is_protected_exec(self.entries[j].kind.as_str()) && better {
                    best = Some(j);
                }
                j = j + 1;
            }
            proof {
                assert(es2.subrange(0, es2.len() as int) =~= es2);
                lemma_full_has_unprotected(es2);
                let w = choose|w: int| 0 <= w < es2.len() && !is_protected(es2[w].0);
                lemma_lru_exists(es2, w);
            }
            match best {
                Some(b) => {
                    let gone = self.entries.remove(b);
                    evicted.push(gone.kind);
                    proof {
                        assert(entry_views(self.entries@) =~= without_index(es2, b as int));
                        assert(crate::text::views(evicted@) =~= ev2.push(es2[b as int].0));
                        assert forall|x: int, y: int| 0 <= x < y < entry_views(self.entries@).len() implies
                            entry_views(self.entries@)[x].0 != entry_views(self.entries@)[y].0 by {
                            let xs = if x < b { x } else { x + 1 };
                            let ys = if y < b { y } else { y + 1 };
                            assert(entry_views(self.entries@)[x] == es2[xs]);
                            assert(entry_views(self.entries@)[y] == es2[ys]);
                        }
                        assert forall|x: int| 0 <= x < entry_views(self.entries@).len() implies
                            entry_views(self.entries@)[x].0 != kind@ by {
                            let xs = if x < b { x } else { x + 1 };
                            assert(entry_views(self.entries@)[x] == es2[xs]);
                            assert(kinds_of(es2)[xs] == es2[xs].0);
                        }
                    }
                },
                None => {},
            }
        } else {
            proof {
                assert forall|x: int| 0 <= x < es2.len() implies es2[x].0 != kind@ by {
                    assert(kinds_of(es2)[x] == es2[x].0);
                }
            }
        }
        let ghost es3 = entry_views(self.entries@);
        self.entries.push(WatchEntry { kind: string_of(kind), last_accessed: now });
        proof {
            assert(entry_views(self.entries@) =~= es3.push((kind@, now)));
        }
        proof {
            assert(entry_views(self.entries@) == start_spec(old_ctx, es0, context@, kind@, now).0);
            lemma_start_supported(old_ctx, es0, context@, kind@, now);
        }
        Ok(StartOutcome { started: true, evicted })
    }
}

/// `es` without the entries for `kind`.
pub open spec fn without_kind(es: Seq<(Seq<char>, u64)>, kind: Seq<char>) -> Seq<(Seq<char>, u64)>
    decreases es.len(),
{
    if es.len() == 0 {
        Seq::empty()
    } else {
        let r = without_kind(es.drop_last(), kind);
        if es.last().0 == kind { r } else { r.push(es.last()) }
    }
}

proof fn lemma_without_kind(es: Seq<(Seq<char>, u64)>, kind: Seq<char>)
    requires
        distinct_kinds(es),
    ensures
        distinct_kinds(without_kind(es, kind)),
        without_kind(es, kind).len() <= es.len(),
        forall|k: Seq<char>| #[trigger] kinds_of(without_kind(es, kind)).contains(k) ==> kinds_of(es).contains(k),
    decreases es.len(),
{
    if es.len() > 0 {
        let d = es.drop_last();
        assert(distinct_kinds(d));
        lemma_without_kind(d, kind);
        let r = without_kind(d, kind);
        let e = es.last();
        assert forall|k: Seq<char>| kinds_of(without_kind(es, kind)).contains(k) implies kinds_of(es).contains(k) by {
            let w = without_kind(es, kind);
            let i = choose|i: int| 0 <= i < kinds_of(w).len() && kinds_of(w)[i] == k;
            if i < r.len() {
                assert(w[i] == r[i]);
                assert(kinds_of(r)[i] == k);
                assert(kinds_of(r).contains(k));
                let j = choose|j: int| 0 <= j < kinds_of(d).len() && kinds_of(d)[j] == k;
                assert(es[j] == d[j]);
                assert(kinds_of(es)[j] == k);
            } else {
                assert(w[i] == e);
                assert(kinds_of(es)[es.len() - 1] == k);
            }
        }
        if e.0 != kind {
            assert forall|i: int| 0 <= i < r.len() implies r[i].0 != e.0 by {
                if r[i].0 == e.0 {
                    assert(kinds_of(r)[i] == e.0);
                    assert(kinds_of(r).contains(e.0));
                    assert(kinds_of(d).contains(e.0));
                    let j = choose|j: int| 0 <= j < kinds_of(d).len() && kinds_of(d)[j] == e.0;
                    assert(es[j] == d[j]);
                    assert(es[j].0 == es[es.len() - 1].0);
                }
            }
        }
    }
}

impl WatcherRegistry {
    /// Stops watching `kind`; whether it was watched.
    pub fn stop(&mut self, kind: &str) -> (r: bool)
        requires
            old(self).wf(),
        ensures
            final(self).wf(),
            final(self).context@ == old(self).context@,
            r == kinds_of(entry_views(old(self).entries@)).contains(kind@),
            entry_views(final(self).entries@) == without_kind(entry_views(old(self).entries@), kind@),
    {
        let ghost es0 = entry_views(self.entries@);
        let mut old_entries: Vec<WatchEntry> = Vec::new();
        std::mem::swap(&mut old_entries, &mut self.entries);
        let ghost orig = old_entries@;
        let ghost mut done: int = 0;
        let mut found = false;
        proof {
            assert(orig.subrange(0, orig.len() as int) =~= orig);
            assert(entry_views(self.entries@) =~= without_kind(es0.subrange(0, 0), kind@));
        }
        while old_entries.len() > 0
            invariant
                0 <= done <= orig.len(),
                self.context@ == old(self).context@,
                es0 == entry_views(orig),
                old_entries@ == orig.subrange(done, orig.len() as int),
                entry_views(self.entries@) == without_kind(es0.subrange(0, done), kind@),
                found == kinds_of(es0.subrange(0, done)).contains(kind@),
            decreases old_entries@.len(),
        {
            let e = old_entries.remove(0);
            let ghost pre = es0.subrange(0, done);
            let ghost next = es0.subrange(0, done + 1);
            proof {
                assert(e == orig[done]);
                assert(old_entries@ =~= orig.subrange(done + 1, orig.len() as int));
                assert(next.drop_last() =~= pre);
                assert(next.last() == (e.kind@, e.last_accessed));
                assert(kinds_of(next) =~= kinds_of(pre).push(e.kind@));
            }
            let ghost kept = entry_views(self.entries@);
            if str_eq(e.kind.as_str(), kind) {
                found = true;
                proof {
                    assert(kinds_of(next)[done] == kind@);
                }
            } else {
                self.entries.push(e);
                proof {
                    assert(entry_views(self.entries@) =~= kept.push((e.kind@, e.last_accessed)));
                    assert(kinds_of(next).contains(kind@) == kinds_of(pre).contains(kind@)) by {
                        if kinds_of(next).contains(kind@) {
                            let j = choose|j: int| 0 <= j < kinds_of(next).len() && kinds_of(next)[j] == kind@;
                            assert(j < pre.len());
                            assert(kinds_of(pre)[j] == kind@);
                        }
                        if kinds_of(pre).contains(kind@) {
                            let j = choose|j: int| 0 <= j < kinds_of(pre).len() && kinds_of(pre)[j] == kind@;
                            assert(kinds_of(next)[j] == kind@);
                        }
                    }
                }
            }
            proof {
                done = done + 1;
            }
        }
        proof {
            assert(es0.subrange(0, orig.len() as int) =~= es0);
            lemma_without_kind(es0, kind@);
        }
        found
    }

    /// Stops every watcher and forgets the context; how many there were.
    pub fn stop_all(&mut self) -> (r: usize)
        ensures
            final(self).wf(),
            r == old(self).entries@.len(),
            final(self).entries@.len() == 0,
            final(self).context@ == Seq::<char>::empty(),
    {
        let n = self.entries.len();
        self.entries = Vec::new();
        self.context = String::new();
        n
    }

    /// Marks `kind` as asked for at `now`; whether it is watched.
    pub fn touch(&mut self, kind: &str, now: u64) -> (r: bool)
        requires
            old(self).wf(),
        ensures
            final(self).wf(),
            final(self).context@ == old(self).context@,
            match index_of_kind(entry_views(old(self).entries@), kind@) {
                Some(i) => r && entry_views(final(self).entries@) == entry_views(old(self).entries@).update(i, (kind@, now)),
                None => !r && entry_views(final(self).entries@) == entry_views(old(self).entries@),
            },
    {
        let ghost es0 = entry_views(self.entries@);
        let mut i = self.entries.len();
        assert(es0.subrange(0, i as int) =~= es0);
        while i > 0
            invariant
                i <= self.entries@.len(),
                self.wf(),
                self.context@ == old(self).context@,
                es0 == entry_views(old(self).entries@),
                entry_views(self.entries@) == es0,
                index_of_kind(es0, kind@) == index_of_kind(es0.subrange(0, i as int), kind@),
            decreases i,
        {
            let ghost pre = es0.subrange(0, i as int);
            assert(pre.drop_last() =~= es0.subrange(0, i - 1));
            assert(pre.last() == es0[i - 1]);
            if str_eq(self.entries[i - 1].kind.as_str(), kind) {
                let k = self.entries[i - 1].kind.clone();
                self.entries.set(i - 1, WatchEntry { kind: k, last_accessed: now });
                proof {
                    assert(entry_views(self.entries@) =~= es0.update(i - 1, (kind@, now)));
                    assert forall|a: int, b: int| 0 <= a < b < es0.len() implies
                        entry_views(self.entries@)[a].0 != entry_views(self.entries@)[b].0 by {
                        assert(es0[a].0 != es0[b].0);
                    }
                    assert(kinds_of(entry_views(self.entries@)) =~= kinds_of(es0));
                }
                return true;
            }
            i = i - 1;
        }
        false
    }
}

proof fn lemma_without_index_members(es: Seq<(Seq<char>, u64)>, i: int, k: Seq<char>)
    requires
        0 <= i < es.len(),
    ensures
        kinds_of(without_index(es, i)).contains(k) ==> kinds_of(es).contains(k),
{
    let w = without_index(es, i);
    if kinds_of(w).contains(k) {
        let j = choose|j: int| 0 <= j < kinds_of(w).len() && kinds_of(w)[j] == k;
        let jj = if j < i { j } else { j + 1 };
        assert(w[j] == es[jj]);
        assert(kinds_of(es)[jj] == k);
    }
}

/// Asking for a kind that can be watched leaves only kinds that can be
/// watched, when the registry held only such kinds in its context.
proof fn lemma_start_supported(old_ctx: Seq<char>, es: Seq<(Seq<char>, u64)>, ctx: Seq<char>, kind: Seq<char>, now: u64)
    requires
        watch_info(kind) is Some,
        all_supported(es),
    ensures
        all_supported(start_spec(old_ctx, es, ctx, kind, now).0),
{
    let es1 = if old_ctx != ctx { Seq::<(Seq<char>, u64)>::empty() } else { es };
    let res = start_spec(old_ctx, es, ctx, kind, now).0;
    lemma_index_of_kind(es1, kind);
    assert forall|k: Seq<char>| #[trigger] kinds_of(res).contains(k) implies watch_info(k) is Some by {
        let j = choose|j: int| 0 <= j < kinds_of(res).len() && kinds_of(res)[j] == k;
        if k != kind {
            let in_es1 = kinds_of(es1).contains(k);
            match index_of_kind(es1, kind) {
                Some(i) => {
                    assert(res == es1.update(i, (kind, now)));
                    assert(res[j] == es1[j]);
                    assert(kinds_of(es1)[j] == k);
                },
                None => {
                    let threshold = if now >= IDLE_TIMEOUT_MS { (now - IDLE_TIMEOUT_MS) as u64 } else { 0u64 };
                    let es2 = kept_after_idle(es1, threshold);
                    lemma_kept_members(es1, threshold, k);
                    lemma_lru_shape(es2);
                    let es3 = if es2.len() >= MAX_WATCHERS {
                        match lru_index(es2) {
                            Some(x) => without_index(es2, x),
                            None => es2,
                        }
                    } else {
                        es2
                    };
                    assert(res == es3.push((kind, now)));
                    assert(j < es3.len());
                    assert(kinds_of(es3)[j] == k);
                    if es2.len() >= MAX_WATCHERS {
                        match lru_index(es2) {
                            Some(x) => { lemma_without_index_members(es2, x, k); },
                            None => {},
                        }
                    }
                    assert(kinds_of(es2).contains(k));
                },
            }
            assert(in_es1);
            if old_ctx == ctx {
                assert(kinds_of(es).contains(k));
            }
        }
    }
}

/// Starting a watcher in the registry's own context never stops a watcher
/// of a default kind: only idle or least recently used watchers of other
/// kinds make way.
pub proof fn law_defaults_never_evicted(ctx: Seq<char>, es: Seq<(Seq<char>, u64)>, kind: Seq<char>, now: u64)
    requires
        distinct_kinds(es),
    ensures
        forall|i: int| 0 <= i < start_spec(ctx, es, ctx, kind, now).2.len() ==>
            !is_protected(#[trigger] start_spec(ctx, es, ctx, kind, now).2[i]),
{
    let threshold = if now >= IDLE_TIMEOUT_MS { (now - IDLE_TIMEOUT_MS) as u64 } else { 0u64 };
    lemma_dropped_unprotected(es, threshold);
    let es2 = kept_after_idle(es, threshold);
    lemma_lru_shape(es2);
    let ev = start_spec(ctx, es, ctx, kind, now).2;
    assert forall|i: int| 0 <= i < ev.len() implies !is_protected(#[trigger] ev[i]) by {
        if index_of_kind(es, kind) is None {
            let ev2 = Seq::<Seq<char>>::empty() + dropped_as_idle(es, threshold);
            assert(ev2 =~= dropped_as_idle(es, threshold));
            if i < ev2.len() {
                assert(ev[i] == ev2[i]);
            }
        }
    }
}

proof fn lemma_dropped_unprotected(es: Seq<(Seq<char>, u64)>, threshold: u64)
    ensures
        forall|i: int| 0 <= i < dropped_as_idle(es, threshold).len() ==> !is_protected(#[trigger] dropped_as_idle(es, threshold)[i]),
    decreases es.len(),
{
    if es.len() > 0 {
        let d = es.drop_last();
        lemma_dropped_unprotected(d, threshold);
        let r = dropped_as_idle(d, threshold);
        let w = dropped_as_idle(es, threshold);
        assert forall|i: int| 0 <= i < w.len() implies !is_protected(#[trigger] w[i]) by {
            if i < r.len() {
                assert(w[i] == r[i]);
            }
        }
    }
}

/// After a watcher is asked for, its kind is watched and marked as asked
/// for at that time.
pub proof fn law_started_is_watched(old_ctx: Seq<char>, es: Seq<(Seq<char>, u64)>, ctx: Seq<char>, kind: Seq<char>, now: u64)
    ensures
        start_spec(old_ctx, es, ctx, kind, now).0.contains((kind, now)),
{
    let es1 = if old_ctx != ctx { Seq::<(Seq<char>, u64)>::empty() } else { es };
    let r = start_spec(old_ctx, es, ctx, kind, now).0;
    lemma_index_of_kind(es1, kind);
    match index_of_kind(es1, kind) {
        Some(i) => {
            assert(r[i] == (kind, now));
        },
        None => {
            assert(r[r.len() - 1] == (kind, now));
        },
    }
}

proof fn lemma_kept_protected(es: Seq<(Seq<char>, u64)>, threshold: u64, j: int)
    requires
        0 <= j < es.len(),
        is_protected(es[j].0),
    ensures
        kinds_of(kept_after_idle(es, threshold)).contains(es[j].0),
    decreases es.len(),
{
    let d = es.drop_last();
    let r = kept_after_idle(d, threshold);
    let w = kept_after_idle(es, threshold);
    if j == es.len() - 1 {
        assert(w == r.push(es.last()));
        assert(kinds_of(w)[w.len() - 1] == es[j].0);
    } else {
        assert(d[j] == es[j]);
        lemma_kept_protected(d, threshold, j);
        let m = choose|m: int| 0 <= m < kinds_of(r).len() && kinds_of(r)[m] == es[j].0;
        assert(kinds_of(w)[m] == kinds_of(r)[m]);
    }
}

/// Asking for a watcher in the registry's own context, when the registry
/// holds at most `MAX_WATCHERS` watchers of distinct kinds: it still holds
/// at most `MAX_WATCHERS` afterwards; every default kind watched before is
/// still watched; and no new watcher starts exactly when the kind was
/// already watched, in which case the watched kinds stay as they were.
pub proof fn law_start_keeps_bound_and_defaults(ctx: Seq<char>, es: Seq<(Seq<char>, u64)>, kind: Seq<char>, now: u64)
    requires
        distinct_kinds(es),
        es.len() <= MAX_WATCHERS,
    ensures
        start_spec(ctx, es, ctx, kind, now).0.len() <= MAX_WATCHERS,
        forall|j: int| 0 <= j < es.len() && is_protected(#[trigger] es[j].0) ==>
            kinds_of(start_spec(ctx, es, ctx, kind, now).0).contains(es[j].0),
        !start_spec(ctx, es, ctx, kind, now).1 <==> kinds_of(es).contains(kind),
        !start_spec(ctx, es, ctx, kind, now).1 ==> kinds_of(start_spec(ctx, es, ctx, kind, now).0) == kinds_of(es),
{
    let res = start_spec(ctx, es, ctx, kind, now);
    lemma_index_of_kind(es, kind);
    match index_of_kind(es, kind) {
        Some(i) => {
            assert(kinds_of(es)[i] == kind);
            assert(kinds_of(res.0) =~= kinds_of(es));
            assert forall|j: int| 0 <= j < es.len() && is_protected(#[trigger] es[j].0) implies
                kinds_of(res.0).contains(es[j].0) by {
                assert(kinds_of(es)[j] == es[j].0);
            }
        },
        None => {
            let threshold = if now >= IDLE_TIMEOUT_MS { (now - IDLE_TIMEOUT_MS) as u64 } else { 0u64 };
            let es2 = kept_after_idle(es, threshold);
            lemma_kept_members(es, threshold, kind);
            lemma_kept_distinct(es, threshold);
            lemma_lru_shape(es2);
            let es3 = if es2.len() >= MAX_WATCHERS {
                match lru_index(es2) {
                    Some(k) => without_index(es2, k),
                    None => es2,
                }
            } else {
                es2
            };
            assert(res.0 == es3.push((kind, now)));
            if es2.len() >= MAX_WATCHERS {
                lemma_full_has_unprotected(es2);
                let u = choose|u: int| 0 <= u < es2.len() && !is_protected(es2[u].0);
                lemma_lru_exists(es2, u);
            }
            assert(es3.len() < MAX_WATCHERS);
            assert forall|j: int| 0 <= j < es.len() && is_protected(#[trigger] es[j].0) implies
                kinds_of(res.0).contains(es[j].0) by {
                lemma_kept_protected(es, threshold, j);
                let m = choose|m: int| 0 <= m < kinds_of(es2).len() && kinds_of(es2)[m] == es[j].0;
                let mm: int = if es2.len() >= MAX_WATCHERS {
                    match lru_index(es2) {
                        Some(k) => if m < k { m } else { m - 1 },
                        None => m,
                    }
                } else {
                    m
                };
                if es2.len() >= MAX_WATCHERS {
                    match lru_index(es2) {
                        Some(k) => {
                            assert(m != k);
                            assert(es3[mm] == es2[m]);
                        },
                        None => {},
                    }
                }
                assert(res.0[mm] == es3[mm]);
                assert(kinds_of(res.0)[mm] == es[j].0);
            }
        },
    }
}

impl Ordered for K8sResource {
    /// By name, compared as text.
    open spec fn before(a: K8sResource, b: K8sResource) -> bool {
        seq_lt(a.name@, b.name@)
    }

    proof fn lemma_asymmetric(a: K8sResource, b: K8sResource) {
        lemma_seq_lt_total(a.name@, b.name@);
    }

    proof fn lemma_not_before_transitive(a: K8sResource, b: K8sResource, c: K8sResource) {
        lemma_seq_lt_total(a.name@, b.name@);
        lemma_seq_lt_total(b.name@, c.name@);
        lemma_seq_lt_total(a.name@, c.name@);
        if seq_lt(c.name@, a.name@) {
            if seq_lt(a.name@, b.name@) {
                lemma_seq_lt_transitive(c.name@, a.name@, b.name@);
            }
        }
    }

    fn is_before(&self, other: &K8sResource) -> (r: bool) {
        str_lt(self.name.as_str(), other.name.as_str())
    }
}

/// The objects a watcher holds, sent to the user interface.
#[derive(Debug)]
pub struct WatcherUpdate {
    pub kind_key: String,
    pub resources: Vec<K8sResource>,
}

/// The update for kind key `kind_key`: its objects sorted by name (ties in
/// the order given).
pub fn watcher_update(kind_key: String, resources: Vec<K8sResource>) -> (r: WatcherUpdate)
    ensures
        r.kind_key@ == kind_key@,
        r.resources@ == sort_ordered(resources@),
{
    WatcherUpdate { kind_key, resources: sort_stable(resources) }
}

} // verus!
