//! Facts about sequences that several modules use.
use vstd::prelude::*;

verus! {

/// Mapping a sequence extended by one element to sequences and joining them.
pub proof fn lemma_flat_map_push<A, B>(s: Seq<A>, f: spec_fn(A) -> Seq<B>, e: A)
    ensures
        s.push(e).flat_map(f) == s.flat_map(f) + f(e),
{
    assert(s.push(e).map_values(f) =~= s.map_values(f).push(f(e)));
    s.map_values(f).lemma_flatten_push(f(e));
}

/// Filtering a sequence extended by one element.
pub proof fn lemma_filter_push<A>(s: Seq<A>, pred: spec_fn(A) -> bool, e: A)
    ensures
        pred(e) ==> s.push(e).filter(pred) == s.filter(pred).push(e),
        !pred(e) ==> s.push(e).filter(pred) == s.filter(pred),
{
    reveal(Seq::filter);
    assert(s.push(e).drop_last() =~= s);
}

/// Records that carry a creation or start time by which lists are ordered.
pub trait Stamped: Sized {
    spec fn stamp_spec(&self) -> u64;

    fn stamp(&self) -> (r: u64)
        ensures
            r == self.stamp_spec(),
    ;
}

/// `x` placed after every element whose stamp is not greater than its own.
pub open spec fn insert_sorted<T: Stamped>(s: Seq<T>, x: T) -> Seq<T>
    decreases s.len(),
{
    if s.len() == 0 {
        seq![x]
    } else if s.last().stamp_spec() <= x.stamp_spec() {
        s.push(x)
    } else {
        insert_sorted(s.drop_last(), x).push(s.last())
    }
}

/// The stable sort of `s` by stamp (`sort_by_key` on the stamp).
pub open spec fn sort_by_stamp<T: Stamped>(s: Seq<T>) -> Seq<T>
    decreases s.len(),
{
    if s.len() == 0 {
        s
    } else {
        insert_sorted(sort_by_stamp(s.drop_last()), s.last())
    }
}

/// Stamps never decrease along `s`.
pub open spec fn stamps_sorted<T: Stamped>(s: Seq<T>) -> bool {
    forall|i: int, j: int| 0 <= i <= j < s.len() ==> s[i].stamp_spec() <= s[j].stamp_spec()
}

proof fn lemma_insert_at<T: Stamped>(s: Seq<T>, x: T, p: int)
    requires
        0 <= p <= s.len(),
        forall|j: int| p <= j < s.len() ==> s[j].stamp_spec() > x.stamp_spec(),
        p == 0 || s[p - 1].stamp_spec() <= x.stamp_spec(),
    ensures
        insert_sorted(s, x) == s.insert(p, x),
    decreases s.len(),
{
    if s.len() == 0 {
        assert(s.insert(p, x) =~= seq![x]);
    } else if s.last().stamp_spec() <= x.stamp_spec() {
        assert(p == s.len());
        assert(s.insert(p, x) =~= s.push(x));
    } else {
        let t = s.drop_last();
        assert forall|j: int| p <= j < t.len() implies t[j].stamp_spec() > x.stamp_spec() by {
            assert(t[j] == s[j]);
        }
        if p > 0 {
            assert(t[p - 1] == s[p - 1]);
        }
        lemma_insert_at(t, x, p);
        assert(t.insert(p, x).push(s.last()) =~= s.insert(p, x));
    }
}

proof fn lemma_insert_sorted_props<T: Stamped>(s: Seq<T>, x: T)
    requires
        stamps_sorted(s),
    ensures
        stamps_sorted(insert_sorted(s, x)),
        insert_sorted(s, x).to_multiset() == s.to_multiset().insert(x),
        insert_sorted(s, x).len() == s.len() + 1,
    decreases s.len(),
{
    broadcast use vstd::seq_lib::group_to_multiset_ensures;

    if s.len() == 0 {
        assert(seq![x] =~= s.push(x));
    } else if s.last().stamp_spec() <= x.stamp_spec() {
    } else {
        let t = s.drop_last();
        lemma_insert_sorted_props(t, x);
        let u = insert_sorted(t, x);
        assert(s =~= t.push(s.last()));
        assert forall|i: int, j: int| 0 <= i <= j < u.push(s.last()).len() implies u.push(
            s.last(),
        )[i].stamp_spec() <= u.push(s.last())[j].stamp_spec() by {
            if j == u.len() && i < u.len() {
                // every element of `u` is `x` or an element of `t`, both not above `s.last()`
                assert(u.to_multiset().contains(u[i]));
                assert(u.to_multiset() == t.to_multiset().insert(x));
                if u[i] != x {
                    assert(t.to_multiset().contains(u[i]));
                    assert(t.contains(u[i]));
                    let k = choose|k: int| 0 <= k < t.len() && t[k] == u[i];
                    assert(s[k] == t[k]);
                }
            }
        }
        assert(u.push(s.last()).to_multiset() == u.to_multiset().insert(s.last()));
        assert(s.to_multiset() == t.to_multiset().insert(s.last()));
        assert(u.push(s.last()).to_multiset() =~= s.to_multiset().insert(x));
    }
}

/// Law: the stable sort by stamp orders the stamps and keeps every element.
pub proof fn law_sort_by_stamp<T: Stamped>(s: Seq<T>)
    ensures
        stamps_sorted(sort_by_stamp(s)),
        sort_by_stamp(s).to_multiset() == s.to_multiset(),
        sort_by_stamp(s).len() == s.len(),
    decreases s.len(),
{
    broadcast use vstd::seq_lib::group_to_multiset_ensures;

    if s.len() > 0 {
        law_sort_by_stamp(s.drop_last());
        lemma_insert_sorted_props(sort_by_stamp(s.drop_last()), s.last());
        assert(s =~= s.drop_last().push(s.last()));
    }
}

/// Law: a list already in stamp order comes out of the sort unchanged.
pub proof fn law_sort_keeps_sorted<T: Stamped>(s: Seq<T>)
    requires
        stamps_sorted(s),
    ensures
        sort_by_stamp(s) == s,
    decreases s.len(),
{
    if s.len() > 0 {
        let t = s.drop_last();
        assert(stamps_sorted(t));
        law_sort_keeps_sorted(t);
        if t.len() > 0 {
            assert(t.last() == s[t.len() - 1]);
        }
        assert(t.push(s.last()) =~= s);
    }
}

/// Law: sorting twice gives what sorting once gives.
pub proof fn law_sort_idempotent<T: Stamped>(s: Seq<T>)
    ensures
        sort_by_stamp(sort_by_stamp(s)) == sort_by_stamp(s),
{
    law_sort_by_stamp(s);
    law_sort_keeps_sorted(sort_by_stamp(s));
}

/// Sorts by stamp, keeping the input order among equal stamps.
pub fn sort_by_stamp_vec<T: Stamped>(v: Vec<T>) -> (r: Vec<T>)
    ensures
        r@ == sort_by_stamp(v@),
{
    let ghost orig = v@;
    let mut input = v;
    let mut result: Vec<T> = Vec::new();
    let mut k: usize = 0;
    let total = input.len();
    while input.len() > 0
        invariant
            total == orig.len(),
            k + input@.len() == total,
            input@ == orig.skip(k as int),
            result@ == sort_by_stamp(orig.take(k as int)),
        decreases input@.len(),
    {
        let x = input.remove(0);
        let xs = x.stamp();
        let mut p = result.len();
        proof {
            law_sort_by_stamp(orig.take(k as int));
        }
        while p > 0 && result[p - 1].stamp() > xs
            invariant
                p <= result@.len(),
                xs == x.stamp_spec(),
                forall|j: int| p <= j < result@.len() ==> result@[j].stamp_spec() > xs,
            decreases p,
        {
            p = p - 1;
        }
        proof {
            lemma_insert_at(result@, x, p as int);
            assert(x == orig[k as int]);
            assert(orig.take(k + 1).drop_last() =~= orig.take(k as int));
            assert(orig.take(k + 1).last() == orig[k as int]);
            assert(input@ =~= orig.skip(k + 1));
        }
        result.insert(p, x);
        k = k + 1;
    }
    proof {
        assert(orig.take(k as int) =~= orig);
    }
    result
}

} // verus!
