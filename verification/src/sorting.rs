//! Sorting by a total order.
//!
//! Records that the projection puts in order implement [`Ranked`]. Because the
//! order is total and antisymmetric, a set of records has exactly one sorted
//! arrangement: the result of [`sort`] depends on which records it is given,
//! never on the order in which they arrive.

use vstd::prelude::*;
use vstd::relations::{sorted_by, total_ordering};
use vstd::seq_lib::lemma_sorted_unique;

verus! {

/// A type whose values stand in a total order.
pub trait Ranked: Copy {
    /// Whether `a` comes no later than `b`.
    spec fn leq(a: Self, b: Self) -> bool;

    /// Decides [`Ranked::leq`].
    fn no_later(&self, other: &Self) -> (r: bool)
        ensures
            r == Self::leq(*self, *other),
    ;

    /// The order is total, antisymmetric and transitive.
    proof fn lemma_total_order()
        ensures
            forall|a: Self, b: Self| #[trigger] Self::leq(a, b) || Self::leq(b, a),
            forall|a: Self, b: Self| #[trigger] Self::leq(a, b) && Self::leq(b, a) ==> a == b,
            forall|a: Self, b: Self, c: Self|
                #[trigger] Self::leq(a, b) && #[trigger] Self::leq(b, c) ==> Self::leq(a, c),
    ;
}

/// The order of `T` as a relation.
pub open spec fn rank<T: Ranked>() -> spec_fn(T, T) -> bool {
    |a: T, b: T| T::leq(a, b)
}

/// The order of `T` is a total ordering in the sense of `vstd`.
pub proof fn lemma_rank_is_total<T: Ranked>()
    ensures
        total_ordering(rank::<T>()),
{
    T::lemma_total_order();
    let r = rank::<T>();
    assert forall|a: T| #[trigger] r(a, a) by {
        assert(T::leq(a, a) || T::leq(a, a));
    }
    assert forall|a: T, b: T| #[trigger] r(a, b) && #[trigger] r(b, a) implies a == b by {
        assert(T::leq(a, b) && T::leq(b, a));
    }
    assert forall|a: T, b: T, c: T| #[trigger] r(a, b) && #[trigger] r(b, c) implies r(a, c) by {
        assert(T::leq(a, b) && T::leq(b, c));
    }
    assert forall|a: T, b: T| #[trigger] r(a, b) || #[trigger] r(b, a) by {
        assert(T::leq(a, b) || T::leq(b, a));
    }
}

/// The records of `s` from first to last in the order of `T`.
pub open spec fn ordered<T: Ranked>(s: Seq<T>) -> Seq<T> {
    s.sort_by(rank::<T>())
}

/// `ordered(s)` is sorted and holds the records of `s`, each as often as `s`
/// does.
pub proof fn lemma_ordered<T: Ranked>(s: Seq<T>)
    ensures
        sorted_by(ordered(s), rank::<T>()),
        ordered(s).to_multiset() == s.to_multiset(),
        ordered(s).len() == s.len(),
{
    lemma_rank_is_total::<T>();
    s.lemma_sort_by_ensures(rank::<T>());
    s.to_multiset_ensures();
    ordered(s).to_multiset_ensures();
}

/// A sorted arrangement of the records of `s` is `ordered(s)`.
pub proof fn lemma_ordered_unique<T: Ranked>(s: Seq<T>, r: Seq<T>)
    requires
        sorted_by(r, rank::<T>()),
        r.to_multiset() == s.to_multiset(),
    ensures
        r == ordered(s),
{
    lemma_rank_is_total::<T>();
    lemma_ordered(s);
    lemma_sorted_unique(r, ordered(s), rank::<T>());
}

/// The order of the result does not depend on the order of the input: two
/// sequences of the same records sort to the same sequence.
pub proof fn lemma_ordered_of_permutation<T: Ranked>(a: Seq<T>, b: Seq<T>)
    requires
        a.to_multiset() == b.to_multiset(),
    ensures
        ordered(a) == ordered(b),
{
    lemma_ordered(a);
    lemma_ordered_unique(b, ordered(a));
}

/// A sequence that is sorted already stays as it is.
pub proof fn lemma_ordered_of_sorted<T: Ranked>(s: Seq<T>)
    requires
        sorted_by(s, rank::<T>()),
    ensures
        ordered(s) == s,
{
    lemma_ordered_unique(s, s);
}

/// A sorted run stays sorted when a record is appended that none of its
/// records comes after; and whatever that record comes no later than, no
/// record of the longer run comes after.
proof fn lemma_append_to_run<T: Ranked>(run: Seq<T>, x: T)
    requires
        sorted_by(run, rank::<T>()),
        forall|k: int| 0 <= k < run.len() ==> #[trigger] T::leq(run[k], x),
    ensures
        sorted_by(run.push(x), rank::<T>()),
        run.push(x).to_multiset() == run.to_multiset().insert(x),
        forall|y: T, k: int|
            T::leq(x, y) && 0 <= k < run.len() + 1 ==> #[trigger] T::leq(run.push(x)[k], y),
{
    lemma_rank_is_total::<T>();
    let longer = run.push(x);
    assert forall|a: int, b: int| 0 <= a < b < longer.len() implies #[trigger] rank::<T>()(
        longer[a],
        longer[b],
    ) by {
        if b < run.len() {
            assert(rank::<T>()(run[a], run[b]));
        } else {
            assert(T::leq(run[a], x));
        }
    }
    vstd::seq_lib::to_multiset_build(run, x);
    assert forall|y: T, k: int| T::leq(x, y) && 0 <= k < run.len() + 1 implies #[trigger] T::leq(
        longer[k],
        y,
    ) by {
        assert(rank::<T>()(x, y));
        if k < run.len() {
            assert(rank::<T>()(run[k], x));
        }
    }
}

/// Merges two sorted runs into one.
fn merge<T: Ranked>(left: &Vec<T>, right: &Vec<T>) -> (r: Vec<T>)
    requires
        sorted_by(left@, rank::<T>()),
        sorted_by(right@, rank::<T>()),
    ensures
        sorted_by(r@, rank::<T>()),
        r@.to_multiset() == left@.to_multiset().add(right@.to_multiset()),
{
    let mut out: Vec<T> = Vec::new();
    let n = left.len();
    let m = right.len();
    let mut i: usize = 0;
    let mut j: usize = 0;
    proof {
        lemma_rank_is_total::<T>();
        assert(left@.take(0) =~= Seq::<T>::empty());
        assert(right@.take(0) =~= Seq::<T>::empty());
        assert(out@ =~= left@.take(0) + right@.take(0));
        vstd::seq_lib::lemma_multiset_commutative(left@.take(0), right@.take(0));
    }
    while i < n || j < m
        invariant
            n == left@.len(),
            m == right@.len(),
            i <= n,
            j <= m,
            total_ordering(rank::<T>()),
            sorted_by(left@, rank::<T>()),
            sorted_by(right@, rank::<T>()),
            sorted_by(out@, rank::<T>()),
            forall|k: int| 0 <= k < out@.len() && i < n ==> #[trigger] T::leq(out@[k], left@[i as int]),
            forall|k: int|
                0 <= k < out@.len() && j < m ==> #[trigger] T::leq(out@[k], right@[j as int]),
            out@.to_multiset() == left@.take(i as int).to_multiset().add(
                right@.take(j as int).to_multiset(),
            ),
        decreases (n - i) + (m - j),
    {
        let ghost before = out@;
        let from_left = if i < n && j < m {
            left[i].no_later(&right[j])
        } else {
            i < n
        };
        let x = if from_left {
            left[i]
        } else {
            right[j]
        };
        out.push(x);
        proof {
            lemma_append_to_run(before, x);
            if from_left {
                assert(left@.take(i + 1) =~= left@.take(i as int).push(x));
                vstd::seq_lib::to_multiset_build(left@.take(i as int), x);
                if i + 1 < n {
                    assert(rank::<T>()(x, left@[i + 1]));
                }
            } else {
                assert(right@.take(j + 1) =~= right@.take(j as int).push(x));
                vstd::seq_lib::to_multiset_build(right@.take(j as int), x);
                if i < n {
                    assert(rank::<T>()(left@[i as int], x) || rank::<T>()(x, left@[i as int]));
                }
                if j + 1 < m {
                    assert(rank::<T>()(x, right@[j + 1]));
                }
            }
        }
        if from_left {
            i += 1;
        } else {
            j += 1;
        }
    }
    proof {
        assert(left@.take(n as int) =~= left@);
        assert(right@.take(m as int) =~= right@);
    }
    out
}

/// Sorts the records of `v` from position `from` up to position `to`.
fn sort_range<T: Ranked>(v: &Vec<T>, from: usize, to: usize) -> (r: Vec<T>)
    requires
        from <= to <= v@.len(),
    ensures
        sorted_by(r@, rank::<T>()),
        r@.to_multiset() == v@.subrange(from as int, to as int).to_multiset(),
    decreases to - from,
{
    if to - from <= 1 {
        let mut out: Vec<T> = Vec::new();
        if from < to {
            out.push(v[from]);
        }
        proof {
            assert(out@ =~= v@.subrange(from as int, to as int));
        }
        out
    } else {
        let mid = from + (to - from) / 2;
        let left = sort_range(v, from, mid);
        let right = sort_range(v, mid, to);
        proof {
            assert(v@.subrange(from as int, to as int) =~= v@.subrange(from as int, mid as int)
                + v@.subrange(mid as int, to as int));
            vstd::seq_lib::lemma_multiset_commutative(
                v@.subrange(from as int, mid as int),
                v@.subrange(mid as int, to as int),
            );
        }
        merge(&left, &right)
    }
}

/// Sorts the records of `v` into the order of `T`.
pub fn sort<T: Ranked>(v: &Vec<T>) -> (r: Vec<T>)
    ensures
        r@ == ordered(v@),
        sorted_by(r@, rank::<T>()),
        r@.to_multiset() == v@.to_multiset(),
{
    let out = sort_range(v, 0, v.len());
    proof {
        assert(v@.subrange(0, v@.len() as int) =~= v@);
        lemma_ordered_unique(v@, out@);
    }
    out
}

} // verus!
