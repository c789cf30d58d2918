use vstd::prelude::*;
use crate::aabb::{slab_functional, slab_model, Aabb};
use crate::hittable::{
    bounds, later_or, narrowed, probe_functional, probe_model, HitRecord, HittableList, Object,
};
use crate::order::{
    arranged, axis_key, lemma_bounds_concat, lemma_bounds_same_members, lemma_same_members,
    lemma_split_survives, split_by,
};
use crate::ray::Interval;
use crate::scalar::Scalar;
use vstd::arithmetic::power2::{lemma2_to64, lemma_pow2_unfold, pow2};
use vstd::seq_lib::lemma_multiset_commutative;

verus! {

/// The scalar by which a primitive is ordered along an axis.
pub fn axis_min(o: &Object, axis: u8) -> (k: Scalar)
    ensures
        k == axis_key(*o, axis),
{
    o.bbox.axis_interval(axis).min
}

/// The number of levels of nodes over `n` primitives: one for up to two of
/// them, and one more each time the larger half is halved again.
pub open spec fn levels(n: nat) -> nat
    decreases n,
{
    if n <= 2 {
        1
    } else {
        1 + levels((n - n / 2) as nat)
    }
}

/// More primitives never need fewer levels.
pub proof fn lemma_levels_monotone(a: nat, b: nat)
    requires
        a <= b,
    ensures
        levels(a) <= levels(b),
    decreases b,
{
    if b > 2 && a > 2 {
        lemma_levels_monotone((a - a / 2) as nat, (b - b / 2) as nat);
    }
}

/// From two primitives on, the number of levels is the logarithm of their
/// number to base two, rounded up.
pub proof fn lemma_levels_is_log(n: nat)
    requires
        n >= 2,
    ensures
        pow2((levels(n) - 1) as nat) < n <= pow2(levels(n)),
    decreases n,
{
    lemma2_to64();
    if n > 2 {
        let m = (n - n / 2) as nat;
        lemma_levels_is_log(m);
        lemma_pow2_unfold(levels(m));
        lemma_pow2_unfold(levels(n));
    }
}

/// Sorts `objects[lo..hi]` with `sort_unstable_by_key` of std's slices, by
/// the key `axis_min` for the given axis. As std documents it, the part ends
/// in ascending order of the key and holds what it held, equal keys in no
/// promised order; nothing outside the part is touched.
#[verifier::external_body]
fn sort_range(objects: &mut Vec<Object>, lo: usize, hi: usize, axis: u8)
    requires
        lo <= hi <= old(objects)@.len(),
    ensures
        final(objects)@.len() == old(objects)@.len(),
        forall|k: int|
            0 <= k < lo || hi <= k < old(objects)@.len() ==> final(objects)@[k] == old(objects)@[k],
        final(objects)@.subrange(lo as int, hi as int).to_multiset() == old(objects)@.subrange(
            lo as int,
            hi as int,
        ).to_multiset(),
        forall|i: int, j: int|
            lo <= i <= j < hi ==> axis_key(final(objects)@[i], axis) <= axis_key(
                final(objects)@[j],
                axis,
            ),
{
    objects[lo..hi].sort_unstable_by_key(|o| axis_min(o, axis));
}

/// One side of a node: a primitive, or a node below.
pub enum Child {
    Leaf(Object),
    Inner(Box<BVHNode>),
}

/// A node of the bounding-volume hierarchy: two sides and the box that holds
/// both. A node over a single primitive names it on both sides.
pub struct BVHNode {
    pub left: Child,
    pub right: Child,
    pub bbox: Aabb,
}

impl Child {
    /// The box of this side: the primitive's, or the node's.
    pub open spec fn bbox_spec(&self) -> Aabb {
        match *self {
            Child::Leaf(o) => o.bbox,
            Child::Inner(n) => n.bbox,
        }
    }

    /// The box of this side.
    pub fn bounding_box(&self) -> (b: &Aabb)
        ensures
            *b == self.bbox_spec(),
    {
        match self {
            Child::Leaf(o) => &o.bbox,
            Child::Inner(n) => &n.bbox,
        }
    }
}

impl BVHNode {
    /// The primitives under the node, from left to right.
    pub open spec fn leaves(&self) -> Seq<Object>
        decreases self,
    {
        (match self.left {
            Child::Leaf(o) => seq![o],
            Child::Inner(n) => n.leaves(),
        }) + (match self.right {
            Child::Leaf(o) => seq![o],
            Child::Inner(n) => n.leaves(),
        })
    }

    /// Whether, at this node and at every node below, the box is exactly the
    /// one that encloses the boxes of the two sides.
    pub open spec fn wf(&self) -> bool
        decreases self,
    {
        &&& self.bbox == Aabb::enclose_spec(self.left.bbox_spec(), self.right.bbox_spec())
        &&& match self.left {
            Child::Leaf(_) => true,
            Child::Inner(n) => n.wf(),
        }
        &&& match self.right {
            Child::Leaf(_) => true,
            Child::Inner(n) => n.wf(),
        }
    }

    /// The number of levels of nodes, this one included.
    pub open spec fn height(&self) -> nat
        decreases self,
    {
        let l: nat = match self.left {
            Child::Leaf(_) => 0,
            Child::Inner(n) => n.height(),
        };
        let r: nat = match self.right {
            Child::Leaf(_) => 0,
            Child::Inner(n) => n.height(),
        };
        if l >= r {
            l + 1
        } else {
            r + 1
        }
    }

    /// What a traversal finds in `range`: nothing where the ray misses the
    /// node's box; else the left side is asked in `range`, the right side in
    /// `range` narrowed by the left answer, and the right answer counts
    /// before the left.
    pub open spec fn hit_model(
        &self,
        times: spec_fn(Interval, u8) -> (Scalar, Scalar),
        probe: spec_fn(usize, Interval) -> Option<HitRecord>,
        range: Interval,
    ) -> Option<HitRecord>
        decreases self,
    {
        if !self.bbox.hit_model(times, range) {
            None
        } else {
            let hit_left = match self.left {
                Child::Leaf(o) => probe(o.id, range),
                Child::Inner(n) => n.hit_model(times, probe, range),
            };
            let range_right = narrowed(range, hit_left);
            let hit_right = match self.right {
                Child::Leaf(o) => probe(o.id, range_right),
                Child::Inner(n) => n.hit_model(times, probe, range_right),
            };
            later_or(hit_right, hit_left)
        }
    }

    /// The node over two sides, with the box that encloses both.
    pub open spec fn join(left: Child, right: Child) -> BVHNode {
        BVHNode { left, right, bbox: Aabb::enclose_spec(left.bbox_spec(), right.bbox_spec()) }
    }

    /// The hierarchy over a row of primitives: a single one stands on both
    /// sides of a node, two stand one on each side, and a longer row is cut
    /// in the middle, the shorter part to the left where the length is odd,
    /// with a hierarchy over each part.
    pub open spec fn tree_of(row: Seq<Object>) -> BVHNode
        recommends
            row.len() >= 1,
        decreases row.len(),
    {
        if row.len() <= 1 {
            Self::join(Child::Leaf(row[0]), Child::Leaf(row[0]))
        } else if row.len() == 2 {
            Self::join(Child::Leaf(row[0]), Child::Leaf(row[1]))
        } else {
            let mid = (row.len() / 2) as int;
            Self::join(
                Child::Inner(Box::new(Self::tree_of(row.subrange(0, mid)))),
                Child::Inner(Box::new(Self::tree_of(row.subrange(mid, row.len() as int)))),
            )
        }
    }

    /// The hierarchy over a row is well formed, holds exactly the primitives
    /// of the row, and has the levels that the length of the row asks for.
    pub proof fn lemma_tree_of(row: Seq<Object>)
        requires
            row.len() >= 1,
        ensures
            Self::tree_of(row).wf(),
            Self::tree_of(row).height() == levels(row.len()),
            forall|o: Object| Self::tree_of(row).leaves().contains(o) <==> row.contains(o),
        decreases row.len(),
    {
        let t = Self::tree_of(row);
        if row.len() == 1 {
            assert(t.leaves() =~= seq![row[0], row[0]]);
            assert forall|o: Object| t.leaves().contains(o) <==> row.contains(o) by {
                if t.leaves().contains(o) {
                    assert(row[0] == o);
                }
                if row.contains(o) {
                    assert(t.leaves()[0] == o);
                }
            }
        } else if row.len() == 2 {
            assert(t.leaves() =~= row);
        } else {
            let mid = (row.len() / 2) as int;
            let a = row.subrange(0, mid);
            let b = row.subrange(mid, row.len() as int);
            Self::lemma_tree_of(a);
            Self::lemma_tree_of(b);
            lemma_levels_monotone(a.len(), b.len());
            assert(row =~= a + b);
            assert forall|o: Object| t.leaves().contains(o) <==> row.contains(o) by {
                t.lemma_side_leaves(o);
                if row.contains(o) {
                    let i = choose|i: int| 0 <= i < row.len() && row[i] == o;
                    if i < mid {
                        assert(a[i] == o);
                    } else {
                        assert(b[i - mid] == o);
                    }
                }
                if a.contains(o) {
                    let i = choose|i: int| 0 <= i < a.len() && a[i] == o;
                    assert(row[i] == o);
                }
                if b.contains(o) {
                    let i = choose|i: int| 0 <= i < b.len() && b[i] == o;
                    assert(row[mid + i] == o);
                }
            }
        }
    }

    /// The box of the hierarchy over a row is the box that bounds the row.
    pub proof fn lemma_tree_box(row: Seq<Object>)
        requires
            row.len() >= 1,
        ensures
            Self::tree_of(row).bbox == bounds(row),
        decreases row.len(),
    {
        if row.len() == 1 {
            assert(bounds(row.drop_last()) == Aabb::empty_spec());
            assert(bounds(row) == Aabb::enclose_spec(Aabb::empty_spec(), row[0].bbox));
        } else if row.len() == 2 {
            let first = row.drop_last();
            assert(bounds(first.drop_last()) == Aabb::empty_spec());
            assert(bounds(first) == Aabb::enclose_spec(Aabb::empty_spec(), row[0].bbox));
            assert(bounds(row) == Aabb::enclose_spec(bounds(first), row[1].bbox));
        } else {
            let mid = (row.len() / 2) as int;
            let a = row.subrange(0, mid);
            let b = row.subrange(mid, row.len() as int);
            Self::lemma_tree_box(a);
            Self::lemma_tree_box(b);
            lemma_bounds_concat(a, b);
            assert(row =~= a + b);
        }
    }

    /// One step of the build: a part `[lo, hi)` of a row is sorted along the
    /// longest axis of its box, then its first half `[lo, mid)` and its second
    /// half `[mid, hi)` are rearranged, each within itself, until each is
    /// arranged. The part then holds what it held, is arranged, and its
    /// hierarchy joins the hierarchies of the two halves.
    #[verifier::rlimit(40)]
    pub proof fn lemma_build_step<E: Fn(Interval) -> Scalar>(
        s0: Seq<Object>,
        s1: Seq<Object>,
        s2: Seq<Object>,
        s3: Seq<Object>,
        lo: int,
        mid: int,
        hi: int,
        axis: u8,
        extent: E,
    )
        requires
            0 <= lo < hi <= s0.len(),
            hi - lo >= 3,
            mid == lo + (hi - lo) / 2,
            s1.len() == s0.len() && s2.len() == s0.len() && s3.len() == s0.len(),
            bounds(s0.subrange(lo, hi)).may_be_longest(extent, axis),
            s1.subrange(lo, hi).to_multiset() == s0.subrange(lo, hi).to_multiset(),
            forall|i: int, j: int|
                lo <= i <= j < hi ==> axis_key(s1[i], axis) <= axis_key(s1[j], axis),
            forall|k: int| 0 <= k < lo || mid <= k < s0.len() ==> s2[k] == s1[k],
            s2.subrange(lo, mid).to_multiset() == s1.subrange(lo, mid).to_multiset(),
            forall|k: int| 0 <= k < mid || hi <= k < s0.len() ==> s3[k] == s2[k],
            s3.subrange(mid, hi).to_multiset() == s2.subrange(mid, hi).to_multiset(),
            arranged(s2.subrange(lo, mid), extent),
            arranged(s3.subrange(mid, hi), extent),
        ensures
            s3.subrange(lo, hi).to_multiset() == s0.subrange(lo, hi).to_multiset(),
            arranged(s3.subrange(lo, hi), extent),
            Self::tree_of(s3.subrange(lo, hi)) == Self::join(
                Child::Inner(Box::new(Self::tree_of(s2.subrange(lo, mid)))),
                Child::Inner(Box::new(Self::tree_of(s3.subrange(mid, hi)))),
            ),
    {
        let row = s3.subrange(lo, hi);
        let sorted = s1.subrange(lo, hi);
        let m = (row.len() / 2) as int;
        assert(m == mid - lo);
        assert(row.subrange(0, m) =~= s3.subrange(lo, mid));
        assert(row.subrange(m, row.len() as int) =~= s3.subrange(mid, hi));
        assert(s3.subrange(lo, mid) =~= s2.subrange(lo, mid));
        assert(s2.subrange(mid, hi) =~= s1.subrange(mid, hi));
        assert(sorted.subrange(0, m) =~= s1.subrange(lo, mid));
        assert(sorted.subrange(m, sorted.len() as int) =~= s1.subrange(mid, hi));
        assert(row =~= s3.subrange(lo, mid) + s3.subrange(mid, hi));
        assert(sorted =~= s1.subrange(lo, mid) + s1.subrange(mid, hi));
        lemma_multiset_commutative(s3.subrange(lo, mid), s3.subrange(mid, hi));
        lemma_multiset_commutative(s1.subrange(lo, mid), s1.subrange(mid, hi));
        assert(row.to_multiset() == sorted.to_multiset());
        assert(split_by(sorted, axis)) by {
            assert forall|i: int, j: int|
                0 <= i < sorted.len() / 2 <= j < sorted.len() implies axis_key(
                #[trigger] sorted[i],
                axis,
            ) <= axis_key(#[trigger] sorted[j], axis) by {
                assert(sorted[i] == s1[lo + i]);
                assert(sorted[j] == s1[lo + j]);
            }
        }
        lemma_split_survives(sorted, row, axis);
        lemma_same_members(row, s0.subrange(lo, hi));
        lemma_bounds_same_members(row, s0.subrange(lo, hi));
        assert(bounds(row).may_be_longest(extent, axis));
    }

    /// Builds the hierarchy over `objects[lo..hi]`, sorting parts of it in
    /// place on the way down.
    #[verifier::rlimit(40)]
    fn build_range<E: Fn(Interval) -> Scalar>(
        objects: &mut Vec<Object>,
        lo: usize,
        hi: usize,
        extent: &E,
    ) -> (node: BVHNode)
        requires
            lo < hi <= old(objects)@.len(),
            forall|iv: Interval| #[trigger] extent.requires((iv,)),
        ensures
            final(objects)@.len() == old(objects)@.len(),
            forall|k: int|
                0 <= k < lo || hi <= k < old(objects)@.len() ==> final(objects)@[k] == old(
                    objects,
                )@[k],
            final(objects)@.subrange(lo as int, hi as int).to_multiset() == old(objects)@.subrange(
                lo as int,
                hi as int,
            ).to_multiset(),
            hi - lo <= 2 ==> final(objects)@ == old(objects)@,
            node == Self::tree_of(final(objects)@.subrange(lo as int, hi as int)),
            arranged(final(objects)@.subrange(lo as int, hi as int), *extent),
        decreases hi - lo,
    {
        let object_span = hi - lo;
        let ghost row0 = objects@.subrange(lo as int, hi as int);
        let ghost row0_all = objects@;
        let left;
        let right;
        if object_span == 1 {
            left = Child::Leaf(objects[lo]);
            right = Child::Leaf(objects[lo]);
            assert(row0.len() == 1 && row0[0] == objects@[lo as int]);
        } else if object_span == 2 {
            left = Child::Leaf(objects[lo]);
            right = Child::Leaf(objects[lo + 1]);
            assert(row0.len() == 2 && row0[0] == objects@[lo as int] && row0[1] == objects@[lo
                + 1]);
        } else {
            let mut bbox = Aabb::empty();
            let mut k: usize = lo;
            while k < hi
                invariant
                    lo <= k <= hi <= objects@.len(),
                    bbox == bounds(objects@.subrange(lo as int, k as int)),
                decreases hi - k,
            {
                bbox = Aabb::enclose(&bbox, &objects[k].bbox);
                k += 1;
                proof {
                    let upto = objects@.subrange(lo as int, k as int);
                    assert(upto.drop_last() =~= objects@.subrange(lo as int, k - 1));
                }
            }
            assert(objects@.subrange(lo as int, hi as int) == row0);
            let axis = bbox.longest_axis(extent);
            sort_range(objects, lo, hi, axis);
            let ghost s1 = objects@;
            let mid = lo + object_span / 2;
            let l = Self::build_range(objects, lo, mid, extent);
            let ghost s2 = objects@;
            let r = Self::build_range(objects, mid, hi, extent);
            let ghost s3 = objects@;
            proof {
                Self::lemma_build_step(
                    row0_all,
                    s1,
                    s2,
                    s3,
                    lo as int,
                    mid as int,
                    hi as int,
                    axis,
                    *extent,
                );
            }
            left = Child::Inner(Box::new(l));
            right = Child::Inner(Box::new(r));
        }
        let bbox = Aabb::enclose(left.bounding_box(), right.bounding_box());
        BVHNode { left, right, bbox }
    }

    /// Builds the hierarchy over the primitives of `objects`, which must hold
    /// at least one. A part of more than two primitives is sorted in place
    /// along the longest axis of the box that bounds the part, by the lower
    /// bounds of the primitives' boxes there, and cut in the middle; the
    /// hierarchy is the one over the row as it stands in the end. `extent`
    /// gives the extent of a range.
    pub fn from_object_slice<E: Fn(Interval) -> Scalar>(
        objects: &mut Vec<Object>,
        extent: &E,
    ) -> (node: BVHNode)
        requires
            old(objects)@.len() >= 1,
            forall|iv: Interval| #[trigger] extent.requires((iv,)),
        ensures
            final(objects)@.to_multiset() == old(objects)@.to_multiset(),
            old(objects)@.len() <= 2 ==> final(objects)@ == old(objects)@,
            node == Self::tree_of(final(objects)@),
            arranged(final(objects)@, *extent),
            node.wf(),
            node.bbox == bounds(old(objects)@),
            node.height() == levels(old(objects)@.len()),
            forall|o: Object| node.leaves().contains(o) <==> old(objects)@.contains(o),
    {
        let n = objects.len();
        let node = Self::build_range(objects, 0, n, extent);
        proof {
            assert(objects@.subrange(0, n as int) =~= objects@);
            assert(old(objects)@.subrange(0, n as int) =~= old(objects)@);
            Self::lemma_tree_of(objects@);
            lemma_same_members(objects@, old(objects)@);
            Self::lemma_tree_box(objects@);
            lemma_bounds_same_members(objects@, old(objects)@);
        }
        node
    }

    /// Builds the hierarchy over the primitives of a flat scene, which must
    /// hold at least one: the hierarchy over some rearrangement of them.
    pub fn from_hittable_list<E: Fn(Interval) -> Scalar>(
        hittable_list: HittableList,
        extent: &E,
    ) -> (node: BVHNode)
        requires
            hittable_list.objects@.len() >= 1,
            forall|iv: Interval| #[trigger] extent.requires((iv,)),
        ensures
            exists|row: Seq<Object>|
                row.to_multiset() == hittable_list.objects@.to_multiset() && arranged(
                    row,
                    *extent,
                ) && node == #[trigger] Self::tree_of(row),
            hittable_list.objects@.len() <= 2 ==> node == Self::tree_of(hittable_list.objects@),
            node.wf(),
            node.bbox == bounds(hittable_list.objects@),
            hittable_list.wf() ==> node.bbox == hittable_list.bbox,
            node.height() == levels(hittable_list.objects@.len()),
            forall|o: Object| node.leaves().contains(o) <==> hittable_list.objects@.contains(o),
    {
        let mut hittable_list = hittable_list;
        Self::from_object_slice(&mut hittable_list.objects, extent)
    }

    /// The primitives of either side are primitives of the node.
    pub proof fn lemma_side_leaves(&self, o: Object)
        ensures
            (match self.left {
                Child::Leaf(l) => l == o,
                Child::Inner(n) => n.leaves().contains(o),
            }) ==> self.leaves().contains(o),
            (match self.right {
                Child::Leaf(r) => r == o,
                Child::Inner(n) => n.leaves().contains(o),
            }) ==> self.leaves().contains(o),
            self.leaves().contains(o) ==> (match self.left {
                Child::Leaf(l) => l == o,
                Child::Inner(n) => n.leaves().contains(o),
            }) || (match self.right {
                Child::Leaf(r) => r == o,
                Child::Inner(n) => n.leaves().contains(o),
            }),
    {
        let l = match self.left {
            Child::Leaf(x) => seq![x],
            Child::Inner(n) => n.leaves(),
        };
        let r = match self.right {
            Child::Leaf(x) => seq![x],
            Child::Inner(n) => n.leaves(),
        };
        assert(self.leaves() == l + r);
        if l.contains(o) {
            let i = choose|i: int| 0 <= i < l.len() && l[i] == o;
            assert((l + r)[i] == o);
        }
        if r.contains(o) {
            let i = choose|i: int| 0 <= i < r.len() && r[i] == o;
            assert((l + r)[l.len() + i] == o);
        }
        if (l + r).contains(o) {
            let i = choose|i: int| 0 <= i < (l + r).len() && (l + r)[i] == o;
            if i < l.len() {
                assert(l[i] == o);
            } else {
                assert(r[i - l.len()] == o);
            }
        }
        assert(seq![o].contains(o)) by {
            assert(seq![o][0] == o);
        }
    }

    /// The closest hit of a ray within `range`. The ray is known through
    /// `slab`, which gives the two parameters at which it meets the bounds of
    /// a range on an axis, and through `probe`, which gives what it finds on
    /// a primitive in a range. A side is asked only where the ray passes the
    /// node's box.
    pub fn hit<S: Fn(Interval, u8) -> (Scalar, Scalar), P: Fn(usize, Interval) -> Option<HitRecord>>(
        &self,
        slab: &S,
        probe: &P,
        range: &Interval,
    ) -> (rec: Option<HitRecord>)
        requires
            forall|iv: Interval, ax: u8| ax < 3 ==> #[trigger] slab.requires((iv, ax)),
            forall|o: Object, iv: Interval|
                self.leaves().contains(o) ==> #[trigger] probe.requires((o.id, iv)),
        ensures
            rec matches Some(h) ==> exists|o: Object, iv: Interval|
                self.leaves().contains(o) && iv.min == range.min && #[trigger] probe.ensures(
                    (o.id, iv),
                    Some(h),
                ),
            slab_functional(*slab) && probe_functional(*probe) ==> rec == self.hit_model(
                slab_model(*slab),
                probe_model(*probe),
                *range,
            ),
        decreases self,
    {
        if !self.bbox.hit(slab, range) {
            return None;
        }
        let hit_left = match &self.left {
            Child::Leaf(o) => {
                proof {
                    self.lemma_side_leaves(*o);
                }
                let found = probe(o.id, *range);
                assert(found matches Some(h) ==> self.leaves().contains(*o) && probe.ensures(
                    (o.id, *range),
                    Some(h),
                ));
                found
            },
            Child::Inner(n) => {
                assert forall|o: Object, iv: Interval|
                    n.leaves().contains(o) implies #[trigger] probe.requires((o.id, iv)) by {
                    self.lemma_side_leaves(o);
                }
                let found = n.hit(slab, probe, range);
                proof {
                    if let Some(h) = found {
                        let (o, iv) = choose|o: Object, iv: Interval|
                            n.leaves().contains(o) && iv.min == range.min && #[trigger] probe.ensures(
                                (o.id, iv),
                                Some(h),
                            );
                        self.lemma_side_leaves(o);
                    }
                }
                found
            },
        };
        let range_right = match hit_left {
            Some(rec) => Interval::new(range.min, rec.t),
            None => *range,
        };
        let hit_right = match &self.right {
            Child::Leaf(o) => {
                proof {
                    self.lemma_side_leaves(*o);
                }
                let found = probe(o.id, range_right);
                assert(found matches Some(h) ==> self.leaves().contains(*o) && probe.ensures(
                    (o.id, range_right),
                    Some(h),
                ));
                found
            },
            Child::Inner(n) => {
                assert forall|o: Object, iv: Interval|
                    n.leaves().contains(o) implies #[trigger] probe.requires((o.id, iv)) by {
                    self.lemma_side_leaves(o);
                }
                let found = n.hit(slab, probe, &range_right);
                proof {
                    if let Some(h) = found {
                        let (o, iv) = choose|o: Object, iv: Interval|
                            n.leaves().contains(o) && iv.min == range.min && #[trigger] probe.ensures(
                                (o.id, iv),
                                Some(h),
                            );
                        self.lemma_side_leaves(o);
                    }
                }
                found
            },
        };
        match hit_right {
            Some(h) => Some(h),
            None => hit_left,
        }
    }

    /// The box that holds everything under the node.
    pub fn bounding_box(&self) -> (b: &Aabb)
        ensures
            *b == self.bbox,
    {
        &self.bbox
    }
}

} // verus!
