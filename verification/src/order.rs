//! How a row of primitives is arranged under a hierarchy, and why the box
//! that bounds a row does not depend on the arrangement.

use vstd::prelude::*;
use crate::aabb::Aabb;
use crate::hittable::{bounds, Object};
use crate::ray::Interval;
use crate::scalar::{max_rank, min_rank, Scalar, INFINITY, NEG_INFINITY};

verus! {

/// The scalar by which a primitive is ordered along an axis: the lower bound
/// of its box there.
pub open spec fn axis_key(o: Object, axis: u8) -> Scalar {
    o.bbox.axis_interval_spec(axis).min
}

/// Whether no primitive of the second half of the row comes before one of
/// the first half along the axis. The halves are cut in the middle, the
/// shorter first.
pub open spec fn split_by(row: Seq<Object>, axis: u8) -> bool {
    forall|i: int, j: int|
        0 <= i < row.len() / 2 <= j < row.len() ==> axis_key(#[trigger] row[i], axis) <= axis_key(
            #[trigger] row[j],
            axis,
        )
}

/// Whether a row is arranged as a hierarchy needs it: a row of more than two
/// primitives is split along the longest axis of the box that bounds the
/// row, for extents that `extent` may give, and each half is arranged in
/// turn.
pub open spec fn arranged<E: Fn(Interval) -> Scalar>(row: Seq<Object>, extent: E) -> bool
    decreases row.len(),
{
    row.len() >= 3 ==> {
        &&& exists|axis: u8| #[trigger]
            bounds(row).may_be_longest(extent, axis) && split_by(row, axis)
        &&& arranged(row.subrange(0, (row.len() / 2) as int), extent)
        &&& arranged(row.subrange((row.len() / 2) as int, row.len() as int), extent)
    }
}

/// The least of the scalars that `f` gives for the primitives of a row;
/// positive infinity for the empty row.
pub open spec fn least(row: Seq<Object>, f: spec_fn(Object) -> Scalar) -> Scalar
    decreases row.len(),
{
    if row.len() == 0 {
        INFINITY
    } else {
        min_rank(least(row.drop_last(), f), f(row.last()))
    }
}

/// The greatest of the scalars that `f` gives for the primitives of a row;
/// negative infinity for the empty row.
pub open spec fn greatest(row: Seq<Object>, f: spec_fn(Object) -> Scalar) -> Scalar
    decreases row.len(),
{
    if row.len() == 0 {
        NEG_INFINITY
    } else {
        max_rank(greatest(row.drop_last(), f), f(row.last()))
    }
}

/// The box whose six bounds are the least lower and the greatest upper
/// bounds of the boxes of a row.
pub open spec fn extremes(row: Seq<Object>) -> Aabb {
    Aabb {
        x: Interval {
            min: least(row, |o: Object| o.bbox.x.min),
            max: greatest(row, |o: Object| o.bbox.x.max),
        },
        y: Interval {
            min: least(row, |o: Object| o.bbox.y.min),
            max: greatest(row, |o: Object| o.bbox.y.max),
        },
        z: Interval {
            min: least(row, |o: Object| o.bbox.z.min),
            max: greatest(row, |o: Object| o.bbox.z.max),
        },
    }
}

/// The box that bounds a row is the box of its extremes.
pub proof fn lemma_bounds_are_extremes(row: Seq<Object>)
    ensures
        bounds(row) == extremes(row),
    decreases row.len(),
{
    if row.len() > 0 {
        lemma_bounds_are_extremes(row.drop_last());
    }
}

/// The least scalar of a row lies at or below each of them and, in a row
/// that is not empty, is one of them.
pub proof fn lemma_least(row: Seq<Object>, f: spec_fn(Object) -> Scalar)
    ensures
        forall|i: int| 0 <= i < row.len() ==> least(row, f) <= f(#[trigger] row[i]),
        row.len() > 0 ==> exists|i: int| 0 <= i < row.len() && least(row, f) == f(#[trigger] row[i]),
    decreases row.len(),
{
    if row.len() > 0 {
        let rest = row.drop_last();
        lemma_least(rest, f);
        assert forall|i: int| 0 <= i < row.len() implies least(row, f) <= f(#[trigger] row[i]) by {
            if i < rest.len() {
                assert(rest[i] == row[i]);
            }
        }
        if least(row, f) == f(row.last()) {
            assert(row[row.len() - 1] == row.last());
        } else {
            let i = choose|i: int| 0 <= i < rest.len() && least(rest, f) == f(#[trigger] rest[i]);
            assert(rest[i] == row[i]);
        }
    }
}

/// The greatest scalar of a row lies at or above each of them and, in a row
/// that is not empty, is one of them.
pub proof fn lemma_greatest(row: Seq<Object>, f: spec_fn(Object) -> Scalar)
    ensures
        forall|i: int| 0 <= i < row.len() ==> greatest(row, f) >= f(#[trigger] row[i]),
        row.len() > 0 ==> exists|i: int|
            0 <= i < row.len() && greatest(row, f) == f(#[trigger] row[i]),
    decreases row.len(),
{
    if row.len() > 0 {
        let rest = row.drop_last();
        lemma_greatest(rest, f);
        assert forall|i: int| 0 <= i < row.len() implies greatest(row, f) >= f(
            #[trigger] row[i],
        ) by {
            if i < rest.len() {
                assert(rest[i] == row[i]);
            }
        }
        if greatest(row, f) == f(row.last()) {
            assert(row[row.len() - 1] == row.last());
        } else {
            let i = choose|i: int|
                0 <= i < rest.len() && greatest(rest, f) == f(#[trigger] rest[i]);
            assert(rest[i] == row[i]);
        }
    }
}

/// Rows with the same members have the same least scalar.
pub proof fn lemma_least_same_members(a: Seq<Object>, b: Seq<Object>, f: spec_fn(Object) -> Scalar)
    requires
        forall|o: Object| a.contains(o) <==> b.contains(o),
    ensures
        least(a, f) == least(b, f),
{
    lemma_least(a, f);
    lemma_least(b, f);
    if a.len() > 0 {
        let i = choose|i: int| 0 <= i < a.len() && least(a, f) == f(#[trigger] a[i]);
        assert(a.contains(a[i]));
        let k = choose|k: int| 0 <= k < b.len() && b[k] == a[i];
        assert(least(b, f) <= f(b[k]));
    }
    if b.len() > 0 {
        let i = choose|i: int| 0 <= i < b.len() && least(b, f) == f(#[trigger] b[i]);
        assert(b.contains(b[i]));
        let k = choose|k: int| 0 <= k < a.len() && a[k] == b[i];
        assert(least(a, f) <= f(a[k]));
    }
    if a.len() == 0 && b.len() > 0 {
        assert(b.contains(b[0]));
    }
    if b.len() == 0 && a.len() > 0 {
        assert(a.contains(a[0]));
    }
}

/// Rows with the same members have the same greatest scalar.
pub proof fn lemma_greatest_same_members(
    a: Seq<Object>,
    b: Seq<Object>,
    f: spec_fn(Object) -> Scalar,
)
    requires
        forall|o: Object| a.contains(o) <==> b.contains(o),
    ensures
        greatest(a, f) == greatest(b, f),
{
    lemma_greatest(a, f);
    lemma_greatest(b, f);
    if a.len() > 0 {
        let i = choose|i: int| 0 <= i < a.len() && greatest(a, f) == f(#[trigger] a[i]);
        assert(a.contains(a[i]));
        let k = choose|k: int| 0 <= k < b.len() && b[k] == a[i];
        assert(greatest(b, f) >= f(b[k]));
    }
    if b.len() > 0 {
        let i = choose|i: int| 0 <= i < b.len() && greatest(b, f) == f(#[trigger] b[i]);
        assert(b.contains(b[i]));
        let k = choose|k: int| 0 <= k < a.len() && a[k] == b[i];
        assert(greatest(a, f) >= f(a[k]));
    }
    if a.len() == 0 && b.len() > 0 {
        assert(b.contains(b[0]));
    }
    if b.len() == 0 && a.len() > 0 {
        assert(a.contains(a[0]));
    }
}

/// Rows with the same members are bounded by the same box, in whatever order
/// and however often they hold them.
pub proof fn lemma_bounds_same_members(a: Seq<Object>, b: Seq<Object>)
    requires
        forall|o: Object| a.contains(o) <==> b.contains(o),
    ensures
        bounds(a) == bounds(b),
{
    lemma_bounds_are_extremes(a);
    lemma_bounds_are_extremes(b);
    lemma_least_same_members(a, b, |o: Object| o.bbox.x.min);
    lemma_least_same_members(a, b, |o: Object| o.bbox.y.min);
    lemma_least_same_members(a, b, |o: Object| o.bbox.z.min);
    lemma_greatest_same_members(a, b, |o: Object| o.bbox.x.max);
    lemma_greatest_same_members(a, b, |o: Object| o.bbox.y.max);
    lemma_greatest_same_members(a, b, |o: Object| o.bbox.z.max);
}

/// The box that bounds two rows set end to end encloses the boxes that
/// bound each.
pub proof fn lemma_bounds_concat(a: Seq<Object>, b: Seq<Object>)
    ensures
        bounds(a + b) == Aabb::enclose_spec(bounds(a), bounds(b)),
    decreases b.len(),
{
    if b.len() == 0 {
        assert(a + b =~= a);
    } else {
        lemma_bounds_concat(a, b.drop_last());
        assert((a + b).drop_last() =~= a + b.drop_last());
        assert((a + b).last() == b.last());
    }
}

/// Two rows that hold the same primitives equally often have the same
/// length and the same members.
pub proof fn lemma_same_members(a: Seq<Object>, b: Seq<Object>)
    requires
        a.to_multiset() == b.to_multiset(),
    ensures
        a.len() == b.len(),
        forall|o: Object| a.contains(o) <==> b.contains(o),
{
    a.to_multiset_ensures();
    b.to_multiset_ensures();
    assert forall|o: Object| a.contains(o) <==> b.contains(o) by {
        assert(a.contains(o) <==> a.to_multiset().count(o) > 0);
        assert(b.contains(o) <==> b.to_multiset().count(o) > 0);
    }
}

/// A row that is split along an axis stays split when each half is
/// rearranged within itself.
pub proof fn lemma_split_survives(before: Seq<Object>, after: Seq<Object>, axis: u8)
    requires
        before.len() == after.len(),
        split_by(before, axis),
        before.subrange(0, (before.len() / 2) as int).to_multiset() == after.subrange(
            0,
            (after.len() / 2) as int,
        ).to_multiset(),
        before.subrange((before.len() / 2) as int, before.len() as int).to_multiset()
            == after.subrange((after.len() / 2) as int, after.len() as int).to_multiset(),
    ensures
        split_by(after, axis),
{
    let m = (before.len() / 2) as int;
    let n = before.len() as int;
    lemma_same_members(before.subrange(0, m), after.subrange(0, m));
    lemma_same_members(before.subrange(m, n), after.subrange(m, n));
    assert forall|i: int, j: int| 0 <= i < m <= j < n implies axis_key(
        #[trigger] after[i],
        axis,
    ) <= axis_key(#[trigger] after[j], axis) by {
        let a1 = after.subrange(0, m);
        let a2 = after.subrange(m, n);
        let b1 = before.subrange(0, m);
        let b2 = before.subrange(m, n);
        assert(a1[i] == after[i]);
        assert(a2[j - m] == after[j]);
        assert(a1.contains(after[i]));
        assert(a2.contains(after[j]));
        let p = choose|p: int| 0 <= p < b1.len() && b1[p] == after[i];
        let q = choose|q: int| 0 <= q < b2.len() && b2[q] == after[j];
        assert(before[p] == after[i]);
        assert(before[m + q] == after[j]);
    }
}

} // verus!
