//! Stable sorting by an ordering that each sorted type states: a strict
//! weak order `before`, with its executable test.
use vstd::prelude::*;
use vstd::multiset::Multiset;

verus! {

/// A type with a strict weak order: `before(a, b)` says that `a` sorts
/// strictly ahead of `b`.
pub trait Ordered: Sized {
    spec fn before(a: Self, b: Self) -> bool;

    proof fn lemma_asymmetric(a: Self, b: Self)
        ensures
            Self::before(a, b) ==> !Self::before(b, a);

    /// Not-after is transitive.
    proof fn lemma_not_before_transitive(a: Self, b: Self, c: Self)
        ensures
            !Self::before(b, a) && !Self::before(c, b) ==> !Self::before(c, a);

    fn is_before(&self, other: &Self) -> (r: bool)
        ensures
            r == Self::before(*self, *other);
}

/// `s` with `x` placed after every element that does not sort after it.
pub open spec fn insert_ordered<T: Ordered>(s: Seq<T>, x: T) -> Seq<T>
    decreases s.len(),
{
    if s.len() == 0 {
        seq![x]
    } else if !T::before(x, s.last()) {
        s.push(x)
    } else {
        insert_ordered(s.drop_last(), x).push(s.last())
    }
}

/// `s` stably sorted: each element in turn placed by `insert_ordered`.
pub open spec fn sort_ordered<T: Ordered>(s: Seq<T>) -> Seq<T>
    decreases s.len(),
{
    if s.len() == 0 {
        Seq::empty()
    } else {
        insert_ordered(sort_ordered(s.drop_last()), s.last())
    }
}

/// No element of `s` sorts strictly ahead of an earlier one.
pub open spec fn is_ordered<T: Ordered>(s: Seq<T>) -> bool {
    forall|i: int, j: int| 0 <= i < j < s.len() ==> !T::before(#[trigger] s[j], #[trigger] s[i])
}

proof fn lemma_insert_at<T: Ordered>(s: Seq<T>, x: T, p: int)
    requires
        0 <= p <= s.len(),
        forall|k: int| p <= k < s.len() ==> T::before(x, #[trigger] s[k]),
        p == 0 || !T::before(x, s[p - 1]),
    ensures
        insert_ordered(s, x) == s.subrange(0, p).push(x) + s.subrange(p, s.len() as int),
    decreases s.len(),
{
    if s.len() == 0 {
        assert(s.subrange(0, p).push(x) + s.subrange(p, s.len() as int) =~= seq![x]);
    } else if !T::before(x, s.last()) {
        assert(p == s.len());
        assert(s.subrange(0, p) =~= s);
        assert(s.subrange(0, p).push(x) + s.subrange(p, s.len() as int) =~= s.push(x));
    } else {
        assert(p < s.len());
        let d = s.drop_last();
        lemma_insert_at(d, x, p);
        assert(d.subrange(0, p) =~= s.subrange(0, p));
        assert(s.subrange(p, s.len() as int) =~= d.subrange(p, d.len() as int).push(s.last()));
        assert((d.subrange(0, p).push(x) + d.subrange(p, d.len() as int)).push(s.last())
            =~= s.subrange(0, p).push(x) + s.subrange(p, s.len() as int));
    }
}

/// Places `x` into `out` as `insert_ordered` does.
fn insert_into<T: Ordered>(out: &mut Vec<T>, x: T)
    ensures
        final(out)@ == insert_ordered(old(out)@, x),
{
    let mut p = out.len();
    while p > 0 && x.is_before(&out[p - 1])
        invariant
            p <= out@.len(),
            forall|k: int| p <= k < out@.len() ==> T::before(x, #[trigger] out@[k]),
        decreases p,
    {
        p = p - 1;
    }
    proof {
        lemma_insert_at(out@, x, p as int);
        assert(out@.subrange(0, p as int).push(x) + out@.subrange(p as int, out@.len() as int)
            =~= out@.insert(p as int, x));
    }
    out.insert(p, x);
}

/// The elements of `v` stably sorted by `before`.
pub fn sort_stable<T: Ordered>(v: Vec<T>) -> (r: Vec<T>)
    ensures
        r@ == sort_ordered(v@),
{
    let ghost orig = v@;
    let mut v = v;
    // Reverse `v` so that popping yields its elements from the front.
    let mut rev: Vec<T> = Vec::new();
    while v.len() > 0
        invariant
            orig == v@ + rev@.reverse(),
        decreases v@.len(),
    {
        let ghost before_v = v@;
        let ghost before_rev = rev@;
        let x = v.pop().unwrap();
        rev.push(x);
        proof {
            assert(before_v == v@.push(x));
            assert(rev@.reverse() =~= seq![x] + before_rev.reverse());
            assert(orig =~= v@ + rev@.reverse());
        }
    }
    proof {
        assert(v@ + rev@.reverse() =~= rev@.reverse());
    }
    let mut out: Vec<T> = Vec::new();
    let ghost mut done: Seq<T> = Seq::empty();
    while rev.len() > 0
        invariant
            orig == done + rev@.reverse(),
            out@ == sort_ordered(done),
        decreases rev@.len(),
    {
        let ghost before_rev = rev@;
        let x = rev.pop().unwrap();
        proof {
            assert(before_rev =~= rev@.push(x));
            assert(before_rev.reverse() =~= seq![x] + rev@.reverse());
            let nd = done.push(x);
            assert(nd.drop_last() =~= done);
            assert(orig =~= nd + rev@.reverse());
        }
        insert_into(&mut out, x);
        proof {
            done = done.push(x);
            assert(done.drop_last() =~= done.subrange(0, done.len() - 1));
        }
    }
    proof {
        assert(rev@.reverse() =~= Seq::<T>::empty());
        assert(done =~= orig);
    }
    out
}

proof fn lemma_insert_multiset<T: Ordered>(s: Seq<T>, x: T)
    ensures
        insert_ordered(s, x).to_multiset() == s.to_multiset().insert(x),
    decreases s.len(),
{
    broadcast use vstd::seq_lib::group_to_multiset_ensures;
    if s.len() == 0 {
        assert(seq![x] =~= Seq::<T>::empty().push(x));
    } else if !T::before(x, s.last()) {
    } else {
        lemma_insert_multiset(s.drop_last(), x);
        assert(s =~= s.drop_last().push(s.last()));
        assert(insert_ordered(s.drop_last(), x).push(s.last()).to_multiset()
            =~= s.drop_last().to_multiset().insert(x).insert(s.last()));
        assert(s.to_multiset() =~= s.drop_last().to_multiset().insert(s.last()));
    }
}

/// Sorting only reorders: the sorted sequence holds the same elements,
/// each as many times.
pub proof fn law_sort_is_permutation<T: Ordered>(s: Seq<T>)
    ensures
        sort_ordered(s).to_multiset() == s.to_multiset(),
    decreases s.len(),
{
    broadcast use vstd::seq_lib::group_to_multiset_ensures;
    if s.len() > 0 {
        law_sort_is_permutation(s.drop_last());
        lemma_insert_multiset(sort_ordered(s.drop_last()), s.last());
        assert(s =~= s.drop_last().push(s.last()));
    }
}

proof fn lemma_insert_ordered_keeps_order<T: Ordered>(s: Seq<T>, x: T)
    requires
        is_ordered(s),
    ensures
        is_ordered(insert_ordered(s, x)),
        insert_ordered(s, x).len() == s.len() + 1,
        forall|k: int| 0 <= k < insert_ordered(s, x).len() ==>
            #[trigger] insert_ordered(s, x)[k] == x || s.contains(insert_ordered(s, x)[k]),
    decreases s.len(),
{
    let r = insert_ordered(s, x);
    if s.len() == 0 {
    } else if !T::before(x, s.last()) {
        assert forall|i: int, j: int| 0 <= i < j < r.len() implies !T::before(#[trigger] r[j], #[trigger] r[i]) by {
            if j == s.len() {
                T::lemma_not_before_transitive(s[i], s.last(), x);
            }
        }
        assert forall|k: int| 0 <= k < r.len() implies #[trigger] r[k] == x || s.contains(r[k]) by {
            if k < s.len() {
                assert(s[k] == r[k]);
            }
        }
    } else {
        let d = s.drop_last();
        assert(is_ordered(d));
        lemma_insert_ordered_keeps_order(d, x);
        let rd = insert_ordered(d, x);
        assert forall|i: int, j: int| 0 <= i < j < r.len() implies !T::before(#[trigger] r[j], #[trigger] r[i]) by {
            if j == r.len() - 1 {
                assert(r[j] == s.last());
                assert(rd[i] == x || d.contains(rd[i]));
                if rd[i] == x {
                    T::lemma_asymmetric(x, s.last());
                } else {
                    let t = choose|t: int| 0 <= t < d.len() && d[t] == rd[i];
                    assert(s[t] == d[t]);
                }
            } else {
                assert(r[i] == rd[i]);
                assert(r[j] == rd[j]);
            }
        }
        assert forall|k: int| 0 <= k < r.len() implies #[trigger] r[k] == x || s.contains(r[k]) by {
            if k < rd.len() {
                assert(r[k] == rd[k]);
                if rd[k] != x {
                    let t = choose|t: int| 0 <= t < d.len() && d[t] == rd[k];
                    assert(s[t] == d[t]);
                }
            } else {
                assert(r[k] == s[s.len() - 1]);
            }
        }
    }
}

/// A stably sorted sequence is in order: no element sorts ahead of one
/// before it.
pub proof fn law_sort_is_ordered<T: Ordered>(s: Seq<T>)
    ensures
        is_ordered(sort_ordered(s)),
        sort_ordered(s).len() == s.len(),
    decreases s.len(),
{
    if s.len() > 0 {
        law_sort_is_ordered(s.drop_last());
        lemma_insert_ordered_keeps_order(sort_ordered(s.drop_last()), s.last());
    }
}

impl Ordered for u64 {
    open spec fn before(a: u64, b: u64) -> bool {
        a < b
    }

    proof fn lemma_asymmetric(a: u64, b: u64) {
    }

    proof fn lemma_not_before_transitive(a: u64, b: u64, c: u64) {
    }

    fn is_before(&self, other: &u64) -> (r: bool) {
        *self < *other
    }
}

} // verus!
