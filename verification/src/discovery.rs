//! The API resources a cluster serves that can be listed, core ones first,
//! and the status shown for an object of any of them.
use vstd::prelude::*;
use crate::json::{Json, at, str_of, i64_of, array_of, deref_opt, get, as_str, as_i64, as_array, opt_string};
use crate::hpa::{at2, get2};
use crate::benchmark::opt_seq;
use crate::resources::fraction_text;
use crate::order::{Ordered, sort_ordered, sort_stable};
use crate::text::{views, int_repr, seq_lt, str_lt, lemma_seq_lt_total, lemma_seq_lt_transitive, string_of, str_eq, append_i64};

verus! {

/// An API resource that can be listed.
#[derive(Debug)]
pub struct ApiResourceInfo {
    /// The plural name, such as `pods`.
    pub name: String,
    pub kind: String,
    pub group: String,
    pub version: String,
    /// `Namespaced` or `Cluster`.
    pub scope: String,
    pub short_names: Vec<String>,
    pub api_version: String,
    pub verbs: Vec<String>,
}

/// An API resource as discovery reports it, with the verbs it supports.
#[derive(Debug)]
pub struct DiscoveredResource {
    pub plural: String,
    pub kind: String,
    pub group: String,
    pub version: String,
    pub api_version: String,
    pub cluster_scoped: bool,
    pub list: bool,
    pub get: bool,
    pub create: bool,
    pub delete: bool,
    pub watch: bool,
}

/// The verbs among list, get, create, delete and watch that `d` supports,
/// in that order.
pub open spec fn verbs_of(d: DiscoveredResource) -> Seq<Seq<char>> {
    (if d.list { seq!["list"@] } else { Seq::empty() })
        + (if d.get { seq!["get"@] } else { Seq::empty() })
        + (if d.create { seq!["create"@] } else { Seq::empty() })
        + (if d.delete { seq!["delete"@] } else { Seq::empty() })
        + (if d.watch { seq!["watch"@] } else { Seq::empty() })
}

/// `a` describes the discovered resource `d`.
pub open spec fn resource_info_of(a: ApiResourceInfo, d: DiscoveredResource) -> bool {
    &&& a.name@ == d.plural@
    &&& a.kind@ == d.kind@
    &&& a.group@ == d.group@
    &&& a.version@ == d.version@
    &&& a.scope@ == (if d.cluster_scoped { "Cluster"@ } else { "Namespaced"@ })
    &&& a.short_names@.len() == 0
    &&& a.api_version@ == d.api_version@
    &&& views(a.verbs@) == verbs_of(d)
}

fn push_if(v: &mut Vec<String>, cond: bool, verb: &str)
    ensures
        views(final(v)@) == views(old(v)@) + (if cond { seq![verb@] } else { Seq::<Seq<char>>::empty() }),
{
    let ghost before = views(v@);
    if cond {
        v.push(string_of(verb));
        assert(views(v@) =~= before + seq![verb@]);
    } else {
        assert(views(v@) =~= before + Seq::<Seq<char>>::empty());
    }
}

fn resource_info(d: &DiscoveredResource) -> (r: ApiResourceInfo)
    ensures
        resource_info_of(r, *d),
{
    let mut verbs: Vec<String> = Vec::new();
    assert(views(verbs@) =~= Seq::<Seq<char>>::empty());
    push_if(&mut verbs, d.list, "list");
    push_if(&mut verbs, d.get, "get");
    push_if(&mut verbs, d.create, "create");
    push_if(&mut verbs, d.delete, "delete");
    push_if(&mut verbs, d.watch, "watch");
    proof {
        assert(views(verbs@) =~= verbs_of(*d));
    }
    ApiResourceInfo {
        name: d.plural.clone(),
        kind: d.kind.clone(),
        group: d.group.clone(),
        version: d.version.clone(),
        scope: if d.cluster_scoped { string_of("Cluster") } else { string_of("Namespaced") },
        short_names: Vec::new(),
        api_version: d.api_version.clone(),
        verbs,
    }
}

impl Ordered for ApiResourceInfo {
    /// Core resources (no group) first, then by kind.
    open spec fn before(a: ApiResourceInfo, b: ApiResourceInfo) -> bool {
        (a.group@.len() == 0 && b.group@.len() > 0)
            || ((a.group@.len() == 0) == (b.group@.len() == 0) && seq_lt(a.kind@, b.kind@))
    }

    proof fn lemma_asymmetric(a: ApiResourceInfo, b: ApiResourceInfo) {
        lemma_seq_lt_total(a.kind@, b.kind@);
    }

    proof fn lemma_not_before_transitive(a: ApiResourceInfo, b: ApiResourceInfo, c: ApiResourceInfo) {
        lemma_seq_lt_total(a.kind@, b.kind@);
        lemma_seq_lt_total(b.kind@, c.kind@);
        lemma_seq_lt_total(a.kind@, c.kind@);
        if seq_lt(c.kind@, a.kind@) {
            if seq_lt(a.kind@, b.kind@) {
                lemma_seq_lt_transitive(c.kind@, a.kind@, b.kind@);
            }
        }
    }

    fn is_before(&self, other: &ApiResourceInfo) -> (r: bool) {
        let a_core = self.group.as_str().is_empty();
        let b_core = other.group.as_str().is_empty();
        (a_core && !b_core) || (a_core == b_core && str_lt(self.kind.as_str(), other.kind.as_str()))
    }
}

/// The resources of `ds` that can be listed, in order.
pub open spec fn listable(ds: Seq<DiscoveredResource>) -> Seq<DiscoveredResource>
    decreases ds.len(),
{
    if ds.len() == 0 {
        Seq::empty()
    } else {
        let r = listable(ds.drop_last());
        if ds.last().list { r.push(ds.last()) } else { r }
    }
}

/// The resources that can be listed, core ones first, each group of them
/// by kind (ties in discovery order).
pub fn discover_api_resources(ds: &Vec<DiscoveredResource>) -> (r: Vec<ApiResourceInfo>)
    ensures
        exists|u: Seq<ApiResourceInfo>| #![trigger sort_ordered(u)] {
            let l = listable(ds@);
            &&& u.len() == l.len()
            &&& forall|i: int| 0 <= i < l.len() ==> resource_info_of(#[trigger] u[i], l[i])
            &&& r@ == sort_ordered(u)
        },
{
    let mut u: Vec<ApiResourceInfo> = Vec::new();
    let mut i: usize = 0;
    while i < ds.len()
        invariant
            i <= ds@.len(),
            u@.len() == listable(ds@.subrange(0, i as int)).len(),
            forall|k: int| 0 <= k < u@.len() ==> resource_info_of(#[trigger] u@[k], listable(ds@.subrange(0, i as int))[k]),
        decreases ds@.len() - i,
    {
        let ghost prev = listable(ds@.subrange(0, i as int));
        proof {
            assert(ds@.subrange(0, i + 1).drop_last() =~= ds@.subrange(0, i as int));
            assert(ds@.subrange(0, i + 1).last() == ds@[i as int]);
        }
        if ds[i].list {
            u.push(resource_info(&ds[i]));
            assert(listable(ds@.subrange(0, i + 1)) == prev.push(ds@[i as int]));
        }
        i = i + 1;
    }
    assert(ds@.subrange(0, ds@.len() as int) =~= ds@);
    let ghost uv = u@;
    sort_stable(u)
}

/// The first condition of type `Ready` or `Available`.
pub open spec fn ready_or_available(cs: Seq<Json>) -> Option<Json>
    decreases cs.len(),
{
    if cs.len() == 0 {
        None
    } else if str_of(at(Some(cs[0]), "type"@)) == Some("Ready"@) || str_of(at(Some(cs[0]), "type"@)) == Some("Available"@) {
        Some(cs[0])
    } else {
        ready_or_available(cs.drop_first())
    }
}

/// The status shown for an object of a discovered resource, by the first
/// of these that is present as text: its phase; its state; ready against
/// desired replicas; the status of its `Ready` or `Available` condition;
/// its type.
pub open spec fn dynamic_status(raw: Json) -> Option<Seq<char>> {
    let phase = str_of(at2(raw, "status"@, "phase"@));
    let state = str_of(at2(raw, "status"@, "state"@));
    let replicas = match (i64_of(at2(raw, "status"@, "replicas"@)), i64_of(at2(raw, "status"@, "readyReplicas"@))) {
        (Some(d), Some(r)) => Some(fraction_text(r, d)),
        _ => None,
    };
    let cond = match array_of(at2(raw, "status"@, "conditions"@)) {
        Some(cs) => match ready_or_available(cs) {
            Some(c) => str_of(at(Some(c), "status"@)),
            None => None,
        },
        None => None,
    };
    let ty = str_of(at2(raw, "spec"@, "type"@));
    if phase is Some { phase } else if state is Some { state } else if replicas is Some { replicas }
    else if cond is Some { cond } else { ty }
}

fn find_ready_or_available(cs: &Vec<Json>) -> (r: Option<&Json>)
    ensures
        deref_opt(r) == ready_or_available(cs@),
{
    let mut i: usize = 0;
    assert(cs@.subrange(0, cs@.len() as int) =~= cs@);
    while i < cs.len()
        invariant
            i <= cs@.len(),
            ready_or_available(cs@) == ready_or_available(cs@.subrange(i as int, cs@.len() as int)),
        decreases cs@.len() - i,
    {
        let ghost rest = cs@.subrange(i as int, cs@.len() as int);
        assert(rest.drop_first() =~= cs@.subrange(i + 1, cs@.len() as int));
        assert(rest[0] == cs@[i as int]);
        let matched = match as_str(get(Some(&cs[i]), "type")) {
            Some(s) => str_eq(s.as_str(), "Ready") || str_eq(s.as_str(), "Available"),
            None => false,
        };
        if matched {
            return Some(&cs[i]);
        }
        i = i + 1;
    }
    None
}

/// The status shown for the object of a discovered resource whose JSON
/// document is `raw`.
pub fn dynamic_resource_status(raw: &Json) -> (r: Option<String>)
    ensures
        opt_seq(r) == dynamic_status(*raw),
{
    let phase = opt_string(get2(raw, "status", "phase"));
    if phase.is_some() {
        return phase;
    }
    let state = opt_string(get2(raw, "status", "state"));
    if state.is_some() {
        return state;
    }
    match (as_i64(get2(raw, "status", "replicas")), as_i64(get2(raw, "status", "readyReplicas"))) {
        (Some(d), Some(r)) => {
            let mut s = String::new();
            append_i64(&mut s, r);
            s.append("/");
            append_i64(&mut s, d);
            proof {
                reveal_strlit("/");
                assert(s@ =~= fraction_text(r, d));
            }
            return Some(s);
        },
        _ => {},
    }
    let cond = match as_array(get2(raw, "status", "conditions")) {
        Some(cs) => match find_ready_or_available(cs) {
            Some(c) => opt_string(get(Some(c), "status")),
            None => None,
        },
        None => None,
    };
    if cond.is_some() {
        return cond;
    }
    opt_string(get2(raw, "spec", "type"))
}

} // verus!
