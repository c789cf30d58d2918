//! Why the hierarchy finds what a scan of the whole scene finds.
//!
//! A ray crosses each primitive at a set of parameters. A probe is
//! consistent with such a set where it answers with the least crossing
//! strictly inside the range it is asked for, and a slab function is sound
//! for it where the ray passes every box that covers a primitive it crosses.
//! Under these two conditions a traversal and a scan return the same
//! distance.

use vstd::prelude::*;
use crate::aabb::Aabb;
use crate::bvh::{BVHNode, Child};
use crate::hittable::{later_or, narrowed, scan_model, HitRecord, Object};
use crate::order::lemma_same_members;
use crate::ray::Interval;
use crate::scalar::Scalar;

verus! {

/// Whether `probe` answers, for every primitive and range, with a crossing
/// of that primitive strictly inside the range, and with the least such
/// crossing where there is one.
pub open spec fn probe_consistent(
    probe: spec_fn(usize, Interval) -> Option<HitRecord>,
    crossings: spec_fn(usize, Scalar) -> bool,
) -> bool {
    &&& forall|id: usize, iv: Interval|
        (#[trigger] probe(id, iv)) matches Some(h) ==> crossings(id, h.t) && iv.surrounds_spec(h.t)
    &&& forall|id: usize, iv: Interval, t: Scalar|
        #![trigger probe(id, iv), crossings(id, t)]
        crossings(id, t) && iv.surrounds_spec(t) ==> (probe(id, iv) matches Some(h) && h.t <= t)
}

/// Whether the ray passes, within a range, every box that covers the box of
/// a primitive of `objects` which it crosses strictly inside that range.
pub open spec fn boxes_sound(
    times: spec_fn(Interval, u8) -> (Scalar, Scalar),
    crossings: spec_fn(usize, Scalar) -> bool,
    objects: Seq<Object>,
) -> bool {
    forall|b: Aabb, o: Object, t: Scalar, iv: Interval|
        #![trigger b.covers(o.bbox), crossings(o.id, t), iv.surrounds_spec(t)]
        objects.contains(o) && b.covers(o.bbox) && crossings(o.id, t) && iv.surrounds_spec(t)
            ==> b.hit_model(times, iv)
}

/// Whether `found` is the closest crossing of the primitives of `objects`
/// strictly inside `range`: a crossing of one of them that none undercuts,
/// or nothing where none of them is crossed there.
pub open spec fn is_closest(
    found: Option<HitRecord>,
    objects: Seq<Object>,
    crossings: spec_fn(usize, Scalar) -> bool,
    range: Interval,
) -> bool {
    match found {
        Some(h) => {
            &&& range.surrounds_spec(h.t)
            &&& exists|o: Object| #[trigger] objects.contains(o) && crossings(o.id, h.t)
            &&& forall|o: Object, t: Scalar|
                #![trigger objects.contains(o), crossings(o.id, t)]
                objects.contains(o) && crossings(o.id, t) && range.surrounds_spec(t) ==> h.t <= t
        },
        None => forall|o: Object, t: Scalar|
            #![trigger objects.contains(o), crossings(o.id, t)]
            objects.contains(o) && crossings(o.id, t) ==> !range.surrounds_spec(t),
    }
}

/// Whether two answers agree on the distance: both nothing, or hits with the
/// same parameter.
pub open spec fn same_distance(a: Option<HitRecord>, b: Option<HitRecord>) -> bool {
    match (a, b) {
        (Some(x), Some(y)) => x.t == y.t,
        (None, None) => true,
        _ => false,
    }
}

/// A consistent probe finds the closest crossing of the one primitive it is
/// asked about.
pub proof fn lemma_single_closest(
    probe: spec_fn(usize, Interval) -> Option<HitRecord>,
    crossings: spec_fn(usize, Scalar) -> bool,
    o: Object,
    range: Interval,
)
    requires
        probe_consistent(probe, crossings),
    ensures
        is_closest(probe(o.id, range), seq![o], crossings, range),
{
    let found = probe(o.id, range);
    assert(seq![o][0] == o);
    assert(seq![o].contains(o));
    assert forall|p: Object, t: Scalar| seq![o].contains(p) && crossings(p.id, t)
        && range.surrounds_spec(t) implies (found matches Some(h) && h.t <= t) by {
        assert(p == o);
    }
}

/// Asking a second group in the range narrowed by the closest crossing of a
/// first group, and preferring its answer, finds the closest crossing of
/// both groups together.
pub proof fn lemma_combine_closest(
    first: Option<HitRecord>,
    second: Option<HitRecord>,
    a: Seq<Object>,
    b: Seq<Object>,
    crossings: spec_fn(usize, Scalar) -> bool,
    range: Interval,
)
    requires
        is_closest(first, a, crossings, range),
        is_closest(second, b, crossings, narrowed(range, first)),
    ensures
        is_closest(later_or(second, first), a + b, crossings, range),
{
    let both = a + b;
    let found = later_or(second, first);
    assert forall|o: Object| both.contains(o) <==> a.contains(o) || b.contains(o) by {
        if a.contains(o) {
            let i = choose|i: int| 0 <= i < a.len() && a[i] == o;
            assert(both[i] == o);
        }
        if b.contains(o) {
            let i = choose|i: int| 0 <= i < b.len() && b[i] == o;
            assert(both[a.len() + i] == o);
        }
        if both.contains(o) {
            let i = choose|i: int| 0 <= i < both.len() && both[i] == o;
            if i < a.len() {
                assert(a[i] == o);
            } else {
                assert(b[i - a.len()] == o);
            }
        }
    }
    let near = narrowed(range, first);
    match found {
        Some(h) => {
            if second is Some {
                let w = choose|o: Object| #[trigger] b.contains(o) && crossings(o.id, h.t);
                assert(both.contains(w) && crossings(w.id, h.t));
            } else {
                let w = choose|o: Object| #[trigger] a.contains(o) && crossings(o.id, h.t);
                assert(both.contains(w) && crossings(w.id, h.t));
            }
            assert forall|o: Object, t: Scalar|
                #![trigger both.contains(o), crossings(o.id, t)]
                both.contains(o) && crossings(o.id, t) && range.surrounds_spec(t) implies h.t
                <= t by {
                if a.contains(o) {
                    assert(first is Some);
                } else {
                    assert(b.contains(o));
                    if near.surrounds_spec(t) {
                        assert(second is Some);
                    }
                }
            }
        },
        None => {
            assert forall|o: Object, t: Scalar|
                #![trigger both.contains(o), crossings(o.id, t)]
                both.contains(o) && crossings(o.id, t) implies !range.surrounds_spec(t) by {
                if a.contains(o) {
                } else {
                    assert(b.contains(o));
                }
            }
        },
    }
}

/// What is closest among some primitives is closest among any row with the
/// same members.
pub proof fn lemma_closest_same_members(
    found: Option<HitRecord>,
    a: Seq<Object>,
    b: Seq<Object>,
    crossings: spec_fn(usize, Scalar) -> bool,
    range: Interval,
)
    requires
        is_closest(found, a, crossings, range),
        forall|o: Object| a.contains(o) <==> b.contains(o),
    ensures
        is_closest(found, b, crossings, range),
{
    match found {
        Some(h) => {
            let w = choose|o: Object| #[trigger] a.contains(o) && crossings(o.id, h.t);
            assert(b.contains(w) && crossings(w.id, h.t));
            assert forall|o: Object, t: Scalar|
                #![trigger b.contains(o), crossings(o.id, t)]
                b.contains(o) && crossings(o.id, t) && range.surrounds_spec(t) implies h.t
                <= t by {
                assert(a.contains(o));
            }
        },
        None => {
            assert forall|o: Object, t: Scalar|
                #![trigger b.contains(o), crossings(o.id, t)]
                b.contains(o) && crossings(o.id, t) implies !range.surrounds_spec(t) by {
                assert(a.contains(o));
            }
        },
    }
}

/// Two answers that are both closest among the same primitives agree on the
/// distance.
pub proof fn lemma_closest_unique(
    x: Option<HitRecord>,
    y: Option<HitRecord>,
    objects: Seq<Object>,
    crossings: spec_fn(usize, Scalar) -> bool,
    range: Interval,
)
    requires
        is_closest(x, objects, crossings, range),
        is_closest(y, objects, crossings, range),
    ensures
        same_distance(x, y),
{
    if let Some(h) = x {
        let w = choose|o: Object| #[trigger] objects.contains(o) && crossings(o.id, h.t);
        assert(objects.contains(w) && crossings(w.id, h.t));
    }
    if let Some(h) = y {
        let w = choose|o: Object| #[trigger] objects.contains(o) && crossings(o.id, h.t);
        assert(objects.contains(w) && crossings(w.id, h.t));
    }
}

/// A scan with a consistent probe finds the closest crossing of the scene.
pub proof fn lemma_scan_closest(
    probe: spec_fn(usize, Interval) -> Option<HitRecord>,
    crossings: spec_fn(usize, Scalar) -> bool,
    objects: Seq<Object>,
    range: Interval,
)
    requires
        probe_consistent(probe, crossings),
    ensures
        is_closest(scan_model(probe, objects, range), objects, crossings, range),
    decreases objects.len(),
{
    if objects.len() > 0 {
        let rest = objects.drop_last();
        let before = scan_model(probe, rest, range);
        lemma_scan_closest(probe, crossings, rest, range);
        lemma_single_closest(probe, crossings, objects.last(), narrowed(range, before));
        lemma_combine_closest(
            before,
            probe(objects.last().id, narrowed(range, before)),
            rest,
            seq![objects.last()],
            crossings,
            range,
        );
        assert(rest + seq![objects.last()] =~= objects);
    }
}

/// In a well-formed hierarchy the box of a node covers the box of every
/// primitive under it.
pub proof fn lemma_node_covers_leaves(node: BVHNode, o: Object)
    requires
        node.wf(),
        node.leaves().contains(o),
    ensures
        node.bbox.covers(o.bbox),
    decreases node,
{
    node.lemma_side_leaves(o);
    Aabb::lemma_enclose_covers(node.left.bbox_spec(), node.right.bbox_spec());
    let on_left = match node.left {
        Child::Leaf(l) => l == o,
        Child::Inner(n) => n.leaves().contains(o),
    };
    if on_left {
        match node.left {
            Child::Leaf(l) => {},
            Child::Inner(n) => {
                lemma_node_covers_leaves(*n, o);
                Aabb::lemma_covers_transitive(node.bbox, n.bbox, o.bbox);
            },
        }
    } else {
        match node.right {
            Child::Leaf(r) => {},
            Child::Inner(n) => {
                lemma_node_covers_leaves(*n, o);
                Aabb::lemma_covers_transitive(node.bbox, n.bbox, o.bbox);
            },
        }
    }
}

/// A traversal with a consistent probe and sound boxes finds the closest
/// crossing of the primitives under the node.
pub proof fn lemma_traversal_closest(
    node: BVHNode,
    times: spec_fn(Interval, u8) -> (Scalar, Scalar),
    probe: spec_fn(usize, Interval) -> Option<HitRecord>,
    crossings: spec_fn(usize, Scalar) -> bool,
    range: Interval,
)
    requires
        node.wf(),
        probe_consistent(probe, crossings),
        boxes_sound(times, crossings, node.leaves()),
    ensures
        is_closest(node.hit_model(times, probe, range), node.leaves(), crossings, range),
    decreases node,
{
    let all = node.leaves();
    if !node.bbox.hit_model(times, range) {
        assert forall|o: Object, t: Scalar|
            #![trigger all.contains(o), crossings(o.id, t)]
            all.contains(o) && crossings(o.id, t) implies !range.surrounds_spec(t) by {
            lemma_node_covers_leaves(node, o);
            if range.surrounds_spec(t) {
                assert(node.bbox.covers(o.bbox) && crossings(o.id, t) && range.surrounds_spec(t));
            }
        }
    } else {
        let a = match node.left {
            Child::Leaf(o) => seq![o],
            Child::Inner(n) => n.leaves(),
        };
        let b = match node.right {
            Child::Leaf(o) => seq![o],
            Child::Inner(n) => n.leaves(),
        };
        assert(all == a + b);
        let hit_left = match node.left {
            Child::Leaf(o) => probe(o.id, range),
            Child::Inner(n) => n.hit_model(times, probe, range),
        };
        let near = narrowed(range, hit_left);
        let hit_right = match node.right {
            Child::Leaf(o) => probe(o.id, near),
            Child::Inner(n) => n.hit_model(times, probe, near),
        };
        match node.left {
            Child::Leaf(o) => {
                lemma_single_closest(probe, crossings, o, range);
            },
            Child::Inner(n) => {
                assert forall|o: Object| n.leaves().contains(o) implies all.contains(o) by {
                    node.lemma_side_leaves(o);
                }
                lemma_traversal_closest(*n, times, probe, crossings, range);
            },
        }
        match node.right {
            Child::Leaf(o) => {
                lemma_single_closest(probe, crossings, o, near);
            },
            Child::Inner(n) => {
                assert forall|o: Object| n.leaves().contains(o) implies all.contains(o) by {
                    node.lemma_side_leaves(o);
                }
                lemma_traversal_closest(*n, times, probe, crossings, near);
            },
        }
        lemma_combine_closest(hit_left, hit_right, a, b, crossings, range);
    }
}

/// A traversal of a well-formed hierarchy and a scan of a scene with the
/// same primitives return the same distance, for a ray whose probe is
/// consistent with its crossings and whose slab function is sound for them.
pub proof fn lemma_traversal_agrees_with_scan(
    node: BVHNode,
    objects: Seq<Object>,
    times: spec_fn(Interval, u8) -> (Scalar, Scalar),
    probe: spec_fn(usize, Interval) -> Option<HitRecord>,
    crossings: spec_fn(usize, Scalar) -> bool,
    range: Interval,
)
    requires
        node.wf(),
        forall|o: Object| node.leaves().contains(o) <==> objects.contains(o),
        probe_consistent(probe, crossings),
        boxes_sound(times, crossings, objects),
    ensures
        same_distance(node.hit_model(times, probe, range), scan_model(probe, objects, range)),
{
    assert(boxes_sound(times, crossings, node.leaves()));
    lemma_traversal_closest(node, times, probe, crossings, range);
    lemma_scan_closest(probe, crossings, objects, range);
    lemma_closest_same_members(
        node.hit_model(times, probe, range),
        node.leaves(),
        objects,
        crossings,
        range,
    );
    lemma_closest_unique(
        node.hit_model(times, probe, range),
        scan_model(probe, objects, range),
        objects,
        crossings,
        range,
    );
}

/// The hierarchy over any rearrangement of a scene returns the distance
/// that a scan of the scene returns, for a ray whose probe is consistent
/// with its crossings and whose slab function is sound for them.
pub proof fn lemma_built_hierarchy_agrees_with_scan(
    objects: Seq<Object>,
    row: Seq<Object>,
    times: spec_fn(Interval, u8) -> (Scalar, Scalar),
    probe: spec_fn(usize, Interval) -> Option<HitRecord>,
    crossings: spec_fn(usize, Scalar) -> bool,
    range: Interval,
)
    requires
        objects.len() >= 1,
        row.to_multiset() == objects.to_multiset(),
        probe_consistent(probe, crossings),
        boxes_sound(times, crossings, objects),
    ensures
        same_distance(
            BVHNode::tree_of(row).hit_model(times, probe, range),
            scan_model(probe, objects, range),
        ),
{
    lemma_same_members(row, objects);
    BVHNode::lemma_tree_of(row);
    lemma_traversal_agrees_with_scan(
        BVHNode::tree_of(row),
        objects,
        times,
        probe,
        crossings,
        range,
    );
}

} // verus!
