//! Stable ordering of listings (snapshots newest first, versions newest
//! first, directory entries directories first then by name).
//!
//! A type says which of two values must come first; `sort_stable` then
//! places every element after all the elements before it that it does
//! not have to precede, so that equal elements keep their input order.

use vstd::prelude::*;

verus! {

/// A listing order: `goes_before(a, b)` holds when `a` must be listed
/// strictly before `b`.
pub trait Listed: Sized {
    spec fn goes_before(&self, other: &Self) -> bool;

    /// Nothing must precede itself.
    proof fn lemma_goes_before_irreflexive(a: &Self)
        ensures
            !a.goes_before(a);

    /// Precedence is transitive.
    proof fn lemma_goes_before_transitive(a: &Self, b: &Self, c: &Self)
        requires
            a.goes_before(b),
            b.goes_before(c),
        ensures
            a.goes_before(c);

    fn goes_before_exec(&self, other: &Self) -> (b: bool)
        ensures
            b == self.goes_before(other);
}

/// Position at which `x` enters the already ordered `s`: before the first
/// element it must precede, or at the end.
pub open spec fn insertion_point<T: Listed>(s: Seq<T>, x: T) -> int
    decreases s.len(),
{
    if s.len() == 0 {
        0
    } else {
        let p = insertion_point(s.drop_last(), x);
        if p < s.len() - 1 {
            p
        } else if x.goes_before(&s.last()) {
            s.len() - 1
        } else {
            s.len() as int
        }
    }
}

/// `s` in listing order, equal elements in input order.
pub open spec fn listed<T: Listed>(s: Seq<T>) -> Seq<T>
    decreases s.len(),
{
    if s.len() == 0 {
        s
    } else {
        let r = listed(s.drop_last());
        r.insert(insertion_point(r, s.last()), s.last())
    }
}

/// What `insertion_point` returns.
pub proof fn lemma_insertion_point<T: Listed>(s: Seq<T>, x: T)
    ensures
        0 <= insertion_point(s, x) <= s.len(),
        insertion_point(s, x) < s.len() ==> x.goes_before(&s[insertion_point(s, x)]),
        forall|k: int| 0 <= k < insertion_point(s, x) ==> !x.goes_before(&s[k]),
    decreases s.len(),
{
    if s.len() > 0 {
        lemma_insertion_point(s.drop_last(), x);
        assert forall|k: int| 0 <= k < s.len() - 1 implies s[k] == s.drop_last()[k] by {}
    }
}

/// The position described by `lemma_insertion_point` is the one returned.
pub proof fn lemma_insertion_point_at<T: Listed>(s: Seq<T>, x: T, p: int)
    requires
        0 <= p <= s.len(),
        p < s.len() ==> x.goes_before(&s[p]),
        forall|k: int| 0 <= k < p ==> !x.goes_before(&s[k]),
    ensures
        insertion_point(s, x) == p,
{
    lemma_insertion_point(s, x);
}

/// The length of a listing is that of its input.
pub proof fn lemma_listed_len<T: Listed>(s: Seq<T>)
    ensures
        listed(s).len() == s.len(),
    decreases s.len(),
{
    if s.len() > 0 {
        lemma_listed_len(s.drop_last());
        lemma_insertion_point(listed(s.drop_last()), s.last());
    }
}

/// `s` is in listing order: no element must precede one listed before it.
pub open spec fn in_listing_order<T: Listed>(s: Seq<T>) -> bool {
    forall|i: int, j: int| #![trigger s[i], s[j]] 0 <= i < j < s.len() ==> !s[j].goes_before(&s[i])
}

/// A listing is in listing order and holds the same elements as its input.
pub proof fn lemma_listed_is_sorted_permutation<T: Listed>(s: Seq<T>)
    ensures
        in_listing_order(listed(s)),
        listed(s).to_multiset() == s.to_multiset(),
    decreases s.len(),
{
    broadcast use vstd::seq_lib::to_multiset_insert, vstd::seq_lib::to_multiset_build;

    if s.len() == 0 {
    } else {
        let r = listed(s.drop_last());
        let x = s.last();
        lemma_listed_is_sorted_permutation(s.drop_last());
        lemma_listed_len(s.drop_last());
        lemma_insertion_point(r, x);
        let p = insertion_point(r, x);
        let n = r.insert(p, x);
        assert(listed(s) == n);
        assert forall|i: int, j: int| #![trigger n[i], n[j]] 0 <= i < j < n.len() implies !n[j].goes_before(
            &n[i],
        ) by {
            if j < p {
                assert(n[i] == r[i] && n[j] == r[j]);
            } else if j == p {
                assert(n[i] == r[i]);
            } else if i < p {
                assert(n[i] == r[i] && n[j] == r[j - 1]);
            } else if i == p {
                assert(n[j] == r[j - 1]);
                if r[j - 1].goes_before(&x) {
                    T::lemma_goes_before_transitive(&r[j - 1], &x, &r[p]);
                    if j - 1 == p {
                        T::lemma_goes_before_irreflexive(&r[p]);
                    }
                }
            } else {
                assert(n[i] == r[i - 1] && n[j] == r[j - 1]);
            }
        }
        assert(s =~= s.drop_last().push(x));
    }
}

fn insertion_index<T: Listed>(out: &Vec<T>, x: &T) -> (p: usize)
    ensures
        p == insertion_point(out@, *x),
{
    let mut i: usize = 0;
    while i < out.len()
        invariant
            i <= out@.len(),
            forall|k: int| 0 <= k < i ==> !x.goes_before(&out@[k]),
        decreases out.len() - i,
    {
        if x.goes_before_exec(&out[i]) {
            proof {
                lemma_insertion_point_at(out@, *x, i as int);
            }
            return i;
        }
        i += 1;
    }
    proof {
        lemma_insertion_point_at(out@, *x, out@.len() as int);
    }
    i
}

/// `v` in listing order; equal elements keep their order.
pub fn sort_stable<T: Listed>(v: Vec<T>) -> (r: Vec<T>)
    ensures
        r@ == listed(v@),
        in_listing_order(r@),
        r@.to_multiset() == v@.to_multiset(),
{
    proof {
        lemma_listed_is_sorted_permutation(v@);
    }
    let ghost whole = v@;
    let mut input = v;
    assert(input.len() == whole.len());
    let mut out: Vec<T> = Vec::new();
    let mut k: usize = 0;
    assert(whole.take(0) =~= Seq::<T>::empty());
    while input.len() > 0
        invariant
            k + input@.len() == whole.len(),
            whole.len() <= usize::MAX,
            input@ == whole.skip(k as int),
            out@ == listed(whole.take(k as int)),
        decreases input.len(),
    {
        let x = input.remove(0);
        proof {
            assert(x == whole[k as int]);
            assert(whole.take(k + 1).drop_last() =~= whole.take(k as int));
            assert(whole.take(k + 1).last() == x);
            lemma_listed_len(whole.take(k as int));
            lemma_insertion_point(out@, x);
        }
        let p = insertion_index(&out, &x);
        out.insert(p, x);
        assert(input@ =~= whole.skip(k + 1));
        k += 1;
    }
    assert(whole.take(k as int) =~= whole);
    out
}

} // verus!
