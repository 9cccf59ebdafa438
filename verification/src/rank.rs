//! Stable ordering of rows by a total preorder on their views.

use vstd::prelude::*;

verus! {

/// Rows that a query orders: `before(a, b)` holds when `a` may be listed before `b`.
pub trait Ranked: View + Sized {
    spec fn before(a: Self::V, b: Self::V) -> bool;

    proof fn lemma_before_total(a: Self::V, b: Self::V)
        ensures
            Self::before(a, b) || Self::before(b, a),
    ;

    proof fn lemma_before_trans(a: Self::V, b: Self::V, c: Self::V)
        requires
            Self::before(a, b),
            Self::before(b, c),
        ensures
            Self::before(a, c),
    ;

    fn before_exec(&self, other: &Self) -> (r: bool)
        ensures
            r == Self::before(self@, other@),
    ;
}

/// The views of a sequence of rows.
pub open spec fn views<T: View>(s: Seq<T>) -> Seq<T::V> {
    s.map_values(|x: T| x@)
}

/// Places `x` after every element of `s` that may precede it, counted from the end.
pub open spec fn insert_ranked<T: Ranked>(s: Seq<T::V>, x: T::V) -> Seq<T::V>
    decreases s.len(),
{
    if s.len() == 0 {
        seq![x]
    } else if T::before(s.last(), x) {
        s.push(x)
    } else {
        insert_ranked::<T>(s.drop_last(), x).push(s.last())
    }
}

/// The stable sort of `s` by `T::before`: equal-ranked elements keep their order.
pub open spec fn rank_sort<T: Ranked>(s: Seq<T::V>) -> Seq<T::V>
    decreases s.len(),
{
    if s.len() == 0 {
        s
    } else {
        insert_ranked::<T>(rank_sort::<T>(s.drop_last()), s.last())
    }
}

/// Every element may precede every later one.
pub open spec fn is_ranked<T: Ranked>(s: Seq<T::V>) -> bool {
    forall|i: int, j: int| 0 <= i < j < s.len() ==> T::before(#[trigger] s[i], #[trigger] s[j])
}

proof fn lemma_insert_at<T: Ranked>(s: Seq<T::V>, x: T::V, p: int)
    requires
        0 <= p <= s.len(),
        p == 0 || T::before(s[p - 1], x),
        forall|j: int| p <= j < s.len() ==> !T::before(#[trigger] s[j], x),
    ensures
        insert_ranked::<T>(s, x) == s.insert(p, x),
    decreases s.len(),
{
    if s.len() == 0 {
        assert(s.insert(p, x) =~= seq![x]);
    } else if p == s.len() {
        assert(s.insert(p, x) =~= s.push(x));
    } else {
        assert(!T::before(s.last(), x));
        let t = s.drop_last();
        assert forall|j: int| p <= j < t.len() implies !T::before(#[trigger] t[j], x) by {
            assert(t[j] == s[j]);
        }
        if p > 0 {
            assert(t[p - 1] == s[p - 1]);
        }
        lemma_insert_at::<T>(t, x, p);
        assert(t.insert(p, x).push(s.last()) =~= s.insert(p, x));
    }
}

proof fn lemma_insert_ranked_props<T: Ranked>(s: Seq<T::V>, x: T::V)
    requires
        is_ranked::<T>(s),
    ensures
        is_ranked::<T>(insert_ranked::<T>(s, x)),
        insert_ranked::<T>(s, x).to_multiset() == s.to_multiset().insert(x),
        insert_ranked::<T>(s, x).len() == s.len() + 1,
    decreases s.len(),
{
    broadcast use vstd::seq_lib::group_to_multiset_ensures;

    if s.len() == 0 {
        assert(seq![x] =~= Seq::<T::V>::empty().push(x));
    } else if T::before(s.last(), x) {
        let r = s.push(x);
        assert forall|i: int, j: int| 0 <= i < j < r.len() implies T::before(
            #[trigger] r[i],
            #[trigger] r[j],
        ) by {
            if j == s.len() {
                if i < s.len() - 1 {
                    T::lemma_before_trans(s[i], s.last(), x);
                }
            }
        }
    } else {
        let t = s.drop_last();
        assert(is_ranked::<T>(t)) by {
            assert forall|i: int, j: int| 0 <= i < j < t.len() implies T::before(
                #[trigger] t[i],
                #[trigger] t[j],
            ) by {
                assert(t[i] == s[i] && t[j] == s[j]);
            }
        }
        lemma_insert_ranked_props::<T>(t, x);
        let u = insert_ranked::<T>(t, x);
        let r = u.push(s.last());
        T::lemma_before_total(s.last(), x);
        assert forall|k: int| 0 <= k < u.len() implies T::before(#[trigger] u[k], s.last()) by {
            assert(u.to_multiset().count(u[k]) > 0);
            assert(u.to_multiset().count(u[k]) == t.to_multiset().insert(x).count(u[k]));
            if u[k] != x {
                assert(t.to_multiset().count(u[k]) > 0);
                let m = choose|m: int| 0 <= m < t.len() && t[m] == u[k];
                assert(s[m] == t[m]);
            }
        }
        assert forall|i: int, j: int| 0 <= i < j < r.len() implies T::before(
            #[trigger] r[i],
            #[trigger] r[j],
        ) by {
            if j == u.len() {
                assert(r[i] == u[i]);
            } else {
                assert(r[i] == u[i] && r[j] == u[j]);
            }
        }
        assert(s =~= t.push(s.last()));
    }
}

pub proof fn lemma_rank_sort<T: Ranked>(s: Seq<T::V>)
    ensures
        is_ranked::<T>(rank_sort::<T>(s)),
        rank_sort::<T>(s).to_multiset() == s.to_multiset(),
        rank_sort::<T>(s).len() == s.len(),
    decreases s.len(),
{
    broadcast use vstd::seq_lib::group_to_multiset_ensures;

    if s.len() > 0 {
        lemma_rank_sort::<T>(s.drop_last());
        lemma_insert_ranked_props::<T>(rank_sort::<T>(s.drop_last()), s.last());
        assert(s =~= s.drop_last().push(s.last()));
    }
}

proof fn lemma_views_insert<T: View>(s: Seq<T>, p: int, x: T)
    requires
        0 <= p <= s.len(),
    ensures
        views(s.insert(p, x)) == views(s).insert(p, x@),
{
    assert(views(s.insert(p, x)) =~= views(s).insert(p, x@));
}

/// Sorts rows stably by `T::before`.
pub fn sort_ranked<T: Ranked>(v: Vec<T>) -> (r: Vec<T>)
    ensures
        views(r@) == rank_sort::<T>(views(v@)),
{
    let ghost orig = views(v@);
    let len = v.len();
    let mut rest = v;
    let mut out: Vec<T> = Vec::new();
    let mut i: usize = 0;
    while rest.len() > 0
        invariant
            orig.len() == len,
            i + rest@.len() == len,
            views(rest@) == orig.skip(i as int),
            views(out@) == rank_sort::<T>(orig.take(i as int)),
        decreases rest@.len(),
    {
        let ghost before_rest = rest@;
        let x = rest.remove(0);
        proof {
            assert forall|j: int| 0 <= j < rest@.len() implies #[trigger] views(rest@)[j] == orig.skip(i + 1)[j] by {
                assert(rest@[j] == before_rest[j + 1]);
                assert(views(before_rest)[j + 1] == orig.skip(i as int)[j + 1]);
            }
            assert(views(rest@) =~= orig.skip(i + 1));
            assert(orig[i as int] == x@) by {
                assert(orig.skip(i as int)[0] == orig[i as int]);
            }
        }
        let mut p = out.len();
        while p > 0 && !out[p - 1].before_exec(&x)
            invariant
                p <= out@.len(),
                forall|j: int| p <= j < out@.len() ==> !T::before(#[trigger] views(out@)[j], x@),
            decreases p,
        {
            p = p - 1;
        }
        proof {
            lemma_insert_at::<T>(views(out@), x@, p as int);
            lemma_views_insert(out@, p as int, x);
            let t = orig.take(i + 1);
            assert(t.drop_last() =~= orig.take(i as int));
        }
        out.insert(p, x);
        i = i + 1;
    }
    assert(orig.take(len as int) =~= orig);
    out
}

} // verus!
