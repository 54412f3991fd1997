//! Custom resource definitions as listed, and the status shown for a
//! custom resource.
use vstd::prelude::*;
use crate::json::{Json, at, str_of, bool_of, array_of, str_or, deref_opt, get, as_str, as_bool, as_array, str_or_default, opt_string};
use crate::hpa::{at2, at3, get2, get3};
use crate::benchmark::opt_seq;
use crate::order::{Ordered, sort_ordered, sort_stable};
use crate::text::{views, seq_lt, str_lt, lemma_seq_lt_total, lemma_seq_lt_transitive, string_of, str_eq};

verus! {

/// A custom resource definition.
#[derive(Debug)]
pub struct CrdInfo {
    pub name: String,
    pub group: String,
    pub version: String,
    pub kind: String,
    pub plural: String,
    /// `Namespaced` or `Cluster`.
    pub scope: String,
    pub short_names: Vec<String>,
    pub category: Option<String>,
}

/// The strings of `vs`, in order; other values are skipped.
pub open spec fn strings_in(vs: Seq<Json>) -> Seq<Seq<char>>
    decreases vs.len(),
{
    if vs.len() == 0 {
        Seq::empty()
    } else {
        let r = strings_in(vs.drop_last());
        match str_of(Some(vs.last())) {
            Some(s) => r.push(s),
            None => r,
        }
    }
}

/// The first version of `vs` whose flag `flag` is true.
pub open spec fn first_flagged(vs: Seq<Json>, flag: Seq<char>) -> Option<Json>
    decreases vs.len(),
{
    if vs.len() == 0 {
        None
    } else if bool_of(at(Some(vs[0]), flag)) == Some(true) {
        Some(vs[0])
    } else {
        first_flagged(vs.drop_first(), flag)
    }
}

/// The version shown for a definition: the storage version, else the first
/// served one, by name; `v1` when neither names one.
pub open spec fn crd_version(item: Json) -> Seq<char> {
    match array_of(at2(item, "spec"@, "versions"@)) {
        Some(vs) => {
            let chosen = match first_flagged(vs, "storage"@) {
                Some(v) => Some(v),
                None => first_flagged(vs, "served"@),
            };
            match chosen {
                Some(v) => str_or(at(Some(v), "name"@), "v1"@),
                None => "v1"@,
            }
        },
        None => "v1"@,
    }
}

/// The kind a definition names, empty when absent.
pub open spec fn crd_kind(item: Json) -> Seq<char> {
    str_or(at3(item, "spec"@, "names"@, "kind"@), Seq::empty())
}

/// `c` describes the definition `item`.
pub open spec fn crd_of(c: CrdInfo, item: Json) -> bool {
    &&& c.name@ == str_or(at2(item, "metadata"@, "name"@), Seq::empty())
    &&& c.group@ == str_or(at2(item, "spec"@, "group"@), Seq::empty())
    &&& c.scope@ == str_or(at2(item, "spec"@, "scope"@), "Namespaced"@)
    &&& c.kind@ == crd_kind(item)
    &&& c.plural@ == str_or(at3(item, "spec"@, "names"@, "plural"@), Seq::empty())
    &&& views(c.short_names@) == (match array_of(at3(item, "spec"@, "names"@, "shortNames"@)) {
        Some(a) => strings_in(a),
        None => Seq::empty(),
    })
    &&& c.version@ == crd_version(item)
    &&& opt_seq(c.category) == (match array_of(at3(item, "spec"@, "names"@, "categories"@)) {
        Some(a) => if a.len() > 0 { str_of(Some(a[0])) } else { None },
        None => None,
    })
}

fn first_flagged_exec<'a>(vs: &'a Vec<Json>, flag: &str) -> (r: Option<&'a Json>)
    ensures
        deref_opt(r) == first_flagged(vs@, flag@),
{
    let mut i: usize = 0;
    assert(vs@.subrange(0, vs@.len() as int) =~= vs@);
    while i < vs.len()
        invariant
            i <= vs@.len(),
            first_flagged(vs@, flag@) == first_flagged(vs@.subrange(i as int, vs@.len() as int), flag@),
        decreases vs@.len() - i,
    {
        let ghost rest = vs@.subrange(i as int, vs@.len() as int);
        assert(rest.drop_first() =~= vs@.subrange(i + 1, vs@.len() as int));
        assert(rest[0] == vs@[i as int]);
        match as_bool(get(Some(&vs[i]), flag)) {
            Some(true) => return Some(&vs[i]),
            _ => {},
        }
        i = i + 1;
    }
    None
}

fn strings_of_array(a: &Vec<Json>) -> (r: Vec<String>)
    ensures
        views(r@) == strings_in(a@),
{
    let mut out: Vec<String> = Vec::new();
    let mut i: usize = 0;
    while i < a.len()
        invariant
            i <= a@.len(),
            views(out@) == strings_in(a@.subrange(0, i as int)),
        decreases a@.len() - i,
    {
        proof {
            assert(a@.subrange(0, i + 1).drop_last() =~= a@.subrange(0, i as int));
            assert(a@.subrange(0, i + 1).last() == a@[i as int]);
        }
        let ghost before = views(out@);
        match &a[i] {
            Json::Str(s) => {
                out.push(s.clone());
                assert(views(out@) =~= before.push(s@));
            },
            _ => {},
        }
        i = i + 1;
    }
    assert(a@.subrange(0, a@.len() as int) =~= a@);
    out
}

/// Describes a definition; none when it names no kind.
pub fn crd_info(item: &Json) -> (r: Option<CrdInfo>)
    ensures
        match r {
            Some(c) => crd_kind(*item).len() > 0 && crd_of(c, *item),
            None => crd_kind(*item).len() == 0,
        },
{
    let kind = str_or_default(get3(item, "spec", "names", "kind"), "");
    proof {
        reveal_strlit("");
        assert(""@ =~= Seq::<char>::empty());
    }
    if kind.as_str().is_empty() {
        return None;
    }
    let name = str_or_default(get2(item, "metadata", "name"), "");
    let group = str_or_default(get2(item, "spec", "group"), "");
    let scope = str_or_default(get2(item, "spec", "scope"), "Namespaced");
    let plural = str_or_default(get3(item, "spec", "names", "plural"), "");
    let short_names = match as_array(get3(item, "spec", "names", "shortNames")) {
        Some(a) => strings_of_array(a),
        None => {
            let v: Vec<String> = Vec::new();
            assert(views(v@) =~= Seq::<Seq<char>>::empty());
            v
        },
    };
    let version = match as_array(get2(item, "spec", "versions")) {
        Some(vs) => {
            let chosen = match first_flagged_exec(vs, "storage") {
                Some(v) => Some(v),
                None => first_flagged_exec(vs, "served"),
            };
            match chosen {
                Some(v) => str_or_default(get(Some(v), "name"), "v1"),
                None => string_of("v1"),
            }
        },
        None => string_of("v1"),
    };
    let category = match as_array(get3(item, "spec", "names", "categories")) {
        Some(a) => if a.len() > 0 { opt_string(Some(&a[0])) } else { None },
        None => None,
    };
    Some(CrdInfo { name, group, version, kind, plural, scope, short_names, category })
}

impl Ordered for CrdInfo {
    /// By group, then by kind, compared as text.
    open spec fn before(a: CrdInfo, b: CrdInfo) -> bool {
        seq_lt(a.group@, b.group@) || (a.group@ == b.group@ && seq_lt(a.kind@, b.kind@))
    }

    proof fn lemma_asymmetric(a: CrdInfo, b: CrdInfo) {
        lemma_seq_lt_total(a.group@, b.group@);
        lemma_seq_lt_total(a.kind@, b.kind@);
    }

    proof fn lemma_not_before_transitive(a: CrdInfo, b: CrdInfo, c: CrdInfo) {
        lemma_seq_lt_total(a.group@, b.group@);
        lemma_seq_lt_total(b.group@, c.group@);
        lemma_seq_lt_total(a.group@, c.group@);
        lemma_seq_lt_total(a.kind@, b.kind@);
        lemma_seq_lt_total(b.kind@, c.kind@);
        lemma_seq_lt_total(a.kind@, c.kind@);
        if seq_lt(c.group@, a.group@) {
            if seq_lt(a.group@, b.group@) {
                lemma_seq_lt_transitive(c.group@, a.group@, b.group@);
            }
        }
        if seq_lt(c.kind@, a.kind@) {
            if seq_lt(a.kind@, b.kind@) {
                lemma_seq_lt_transitive(c.kind@, a.kind@, b.kind@);
            }
        }
    }

    fn is_before(&self, other: &CrdInfo) -> (r: bool) {
        str_lt(self.group.as_str(), other.group.as_str())
            || (str_eq(self.group.as_str(), other.group.as_str()) && str_lt(self.kind.as_str(), other.kind.as_str()))
    }
}

/// The items of `items` that name a kind, in order.
pub open spec fn with_kind(items: Seq<Json>) -> Seq<Json>
    decreases items.len(),
{
    if items.len() == 0 {
        Seq::empty()
    } else {
        let r = with_kind(items.drop_last());
        if crd_kind(items.last()).len() > 0 { r.push(items.last()) } else { r }
    }
}

/// The definitions of a list response's `items` that name a kind, sorted
/// by group and then kind (ties in list order).
pub fn list_crds(items: &Vec<Json>) -> (r: Vec<CrdInfo>)
    ensures
        exists|u: Seq<CrdInfo>| #![trigger sort_ordered(u)] {
            let w = with_kind(items@);
            &&& u.len() == w.len()
            &&& forall|i: int| 0 <= i < w.len() ==> crd_of(#[trigger] u[i], w[i])
            &&& r@ == sort_ordered(u)
        },
{
    let mut u: Vec<CrdInfo> = Vec::new();
    let mut i: usize = 0;
    while i < items.len()
        invariant
            i <= items@.len(),
            u@.len() == with_kind(items@.subrange(0, i as int)).len(),
            forall|k: int| 0 <= k < u@.len() ==> crd_of(#[trigger] u@[k], with_kind(items@.subrange(0, i as int))[k]),
        decreases items@.len() - i,
    {
        let ghost prev = with_kind(items@.subrange(0, i as int));
        proof {
            assert(items@.subrange(0, i + 1).drop_last() =~= items@.subrange(0, i as int));
            assert(items@.subrange(0, i + 1).last() == items@[i as int]);
        }
        match crd_info(&items[i]) {
            Some(c) => {
                u.push(c);
                assert(with_kind(items@.subrange(0, i + 1)) == prev.push(items@[i as int]));
            },
            None => {},
        }
        i = i + 1;
    }
    assert(items@.subrange(0, items@.len() as int) =~= items@);
    let ghost uv = u@;
    sort_stable(u)
}

/// The first condition of type `Ready` or `Reconciled`.
pub open spec fn ready_or_reconciled(cs: Seq<Json>) -> Option<Json>
    decreases cs.len(),
{
    if cs.len() == 0 {
        None
    } else if str_of(at(Some(cs[0]), "type"@)) == Some("Ready"@) || str_of(at(Some(cs[0]), "type"@)) == Some("Reconciled"@) {
        Some(cs[0])
    } else {
        ready_or_reconciled(cs.drop_first())
    }
}

/// The status shown for a custom resource: its `status.phase`, else its
/// `status.state`, else the status of its `Ready` or `Reconciled`
/// condition; only when the value found is a string.
pub open spec fn custom_status(raw: Json) -> Option<Seq<char>> {
    let found = match at2(raw, "status"@, "phase"@) {
        Some(v) => Some(v),
        None => match at2(raw, "status"@, "state"@) {
            Some(v) => Some(v),
            None => match array_of(at2(raw, "status"@, "conditions"@)) {
                Some(cs) => match ready_or_reconciled(cs) {
                    Some(c) => at(Some(c), "status"@),
                    None => None,
                },
                None => None,
            },
        },
    };
    str_of(found)
}

fn find_ready_or_reconciled(cs: &Vec<Json>) -> (r: Option<&Json>)
    ensures
        deref_opt(r) == ready_or_reconciled(cs@),
{
    let mut i: usize = 0;
    assert(cs@.subrange(0, cs@.len() as int) =~= cs@);
    while i < cs.len()
        invariant
            i <= cs@.len(),
            ready_or_reconciled(cs@) == ready_or_reconciled(cs@.subrange(i as int, cs@.len() as int)),
        decreases cs@.len() - i,
    {
        let ghost rest = cs@.subrange(i as int, cs@.len() as int);
        assert(rest.drop_first() =~= cs@.subrange(i + 1, cs@.len() as int));
        assert(rest[0] == cs@[i as int]);
        let matched = match as_str(get(Some(&cs[i]), "type")) {
            Some(s) => str_eq(s.as_str(), "Ready") || str_eq(s.as_str(), "Reconciled"),
            None => false,
        };
        if matched {
            return Some(&cs[i]);
        }
        i = i + 1;
    }
    None
}

/// The status shown for the custom resource whose JSON document is `raw`.
pub fn custom_resource_status(raw: &Json) -> (r: Option<String>)
    ensures
        opt_seq(r) == custom_status(*raw),
{
    let found: Option<&Json> = match get2(raw, "status", "phase") {
        Some(v) => Some(v),
        None => match get2(raw, "status", "state") {
            Some(v) => Some(v),
            None => match as_array(get2(raw, "status", "conditions")) {
                Some(cs) => match find_ready_or_reconciled(cs) {
                    Some(c) => get(Some(c), "status"),
                    None => None,
                },
                None => None,
            },
        },
    };
    opt_string(found)
}

} // verus!
