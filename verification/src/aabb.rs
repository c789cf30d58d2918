use vstd::prelude::*;
use crate::ray::Interval;
use crate::scalar::{Scalar, ZERO};
use crate::vector::Point3;

verus! {

/// An axis-aligned box: one range for each of the three axes.
#[derive(Clone, Copy, Debug, PartialEq, Eq, Structural)]
pub struct Aabb {
    pub x: Interval,
    pub y: Interval,
    pub z: Interval,
}

/// The range between two scalars, whichever is the smaller.
pub open spec fn span(a: Scalar, b: Scalar) -> Interval {
    if a <= b {
        Interval { min: a, max: b }
    } else {
        Interval { min: b, max: a }
    }
}

/// Whether a ray that enters a slab at the smaller and leaves it at the larger
/// of the two parameters `t.0` and `t.1` is inside the slab somewhere strictly
/// within `range`: the range, narrowed to the slab, keeps its upper bound above
/// its lower one.
pub open spec fn slab_admits(t: (Scalar, Scalar), range: Interval) -> bool {
    let lo = if t.0 < t.1 { t.0 } else { t.1 };
    let hi = if t.0 < t.1 { t.1 } else { t.0 };
    let new_min = if lo > range.min { lo } else { range.min };
    let new_max = if hi < range.max { hi } else { range.max };
    new_max > new_min
}

/// Whether the origin of the ray lies strictly between the two bounds of a
/// slab: one of the two parameters lies below zero and the other above.
pub open spec fn straddles_origin(t: (Scalar, Scalar)) -> bool {
    (t.0 < ZERO && ZERO < t.1) || (t.1 < ZERO && ZERO < t.0)
}

/// Whether a slab probe answers each question in one way only.
pub open spec fn slab_functional<S: Fn(Interval, u8) -> (Scalar, Scalar)>(slab: S) -> bool {
    forall|iv: Interval, ax: u8, a: (Scalar, Scalar), b: (Scalar, Scalar)|
        slab.ensures((iv, ax), a) && slab.ensures((iv, ax), b) ==> a == b
}

/// A slab probe as a function: an answer that the probe may give to each
/// question.
pub open spec fn slab_model<S: Fn(Interval, u8) -> (Scalar, Scalar)>(slab: S) -> spec_fn(
    Interval,
    u8,
) -> (Scalar, Scalar) {
    |iv: Interval, ax: u8| choose|t: (Scalar, Scalar)| slab.ensures((iv, ax), t)
}

/// The axis of the greatest of three extents, given for x, y and z: x where
/// no other is greater, else y where z is not greater, else z.
pub open spec fn longest_of(x: Scalar, y: Scalar, z: Scalar) -> u8 {
    if x >= y && x >= z {
        0
    } else if y >= z {
        1
    } else {
        2
    }
}

impl Aabb {
    /// Whether `axis` is the longest axis of the box for some extents that
    /// `extent` may give for its three ranges.
    pub open spec fn may_be_longest<E: Fn(Interval) -> Scalar>(&self, extent: E, axis: u8) -> bool {
        exists|sx: Scalar, sy: Scalar, sz: Scalar|
            #![trigger
                extent.ensures((self.x,), sx),
                extent.ensures((self.y,), sy),
                extent.ensures((self.z,), sz),
            ]
            extent.ensures((self.x,), sx) && extent.ensures((self.y,), sy) && extent.ensures(
                (self.z,),
                sz,
            ) && axis == longest_of(sx, sy, sz)
    }

    /// The box that holds nothing.
    pub open spec fn empty_spec() -> Aabb {
        Aabb { x: Interval::empty_spec(), y: Interval::empty_spec(), z: Interval::empty_spec() }
    }

    /// The box with opposite corners `a` and `b`.
    pub open spec fn new_spec(a: Point3, b: Point3) -> Aabb {
        Aabb { x: span(a.x, b.x), y: span(a.y, b.y), z: span(a.z, b.z) }
    }

    /// The range of the box on axis `n`: 1 is y, 2 is z, any other number x.
    pub open spec fn axis_interval_spec(&self, n: u8) -> Interval {
        if n == 1 {
            self.y
        } else if n == 2 {
            self.z
        } else {
            self.x
        }
    }

    /// The least box that holds both boxes.
    pub open spec fn enclose_spec(box0: Aabb, box1: Aabb) -> Aabb {
        Aabb {
            x: Interval::enclose_spec(box0.x, box1.x),
            y: Interval::enclose_spec(box0.y, box1.y),
            z: Interval::enclose_spec(box0.z, box1.z),
        }
    }

    /// Whether every point of `inner` is a point of `self`.
    pub open spec fn covers(&self, inner: Aabb) -> bool {
        self.x.covers(inner.x) && self.y.covers(inner.y) && self.z.covers(inner.z)
    }

    /// Whether a ray whose slab parameters are given by `times` passes the box
    /// within `range`: each axis admits it, tested against `range` itself.
    pub open spec fn hit_model(
        &self,
        times: spec_fn(Interval, u8) -> (Scalar, Scalar),
        range: Interval,
    ) -> bool {
        forall|ax: u8| ax < 3 ==> slab_admits(#[trigger] times(self.axis_interval_spec(ax), ax), range)
    }

    /// Whether the probe has an answer for axis `ax` of the box that admits
    /// the ray within `range`.
    pub open spec fn may_admit<S: Fn(Interval, u8) -> (Scalar, Scalar)>(
        &self,
        slab: S,
        ax: u8,
        range: Interval,
    ) -> bool {
        exists|t: (Scalar, Scalar)|
            #[trigger] slab.ensures((self.axis_interval_spec(ax), ax), t) && slab_admits(t, range)
    }

    /// The box that holds nothing.
    pub fn empty() -> (b: Self)
        ensures
            b == Self::empty_spec(),
    {
        Aabb { x: Interval::empty(), y: Interval::empty(), z: Interval::empty() }
    }

    /// The box with opposite corners `a` and `b`, in either order.
    pub fn new(a: &Point3, b: &Point3) -> (r: Self)
        ensures
            r == Self::new_spec(*a, *b),
            r.x.min <= r.x.max && r.y.min <= r.y.max && r.z.min <= r.z.max,
    {
        let x = if a.x <= b.x {
            Interval::new(a.x, b.x)
        } else {
            Interval::new(b.x, a.x)
        };
        let y = if a.y <= b.y {
            Interval::new(a.y, b.y)
        } else {
            Interval::new(b.y, a.y)
        };
        let z = if a.z <= b.z {
            Interval::new(a.z, b.z)
        } else {
            Interval::new(b.z, a.z)
        };
        Aabb { x, y, z }
    }

    /// The range of the box on axis `n`: 1 is y, 2 is z, any other number x.
    pub fn axis_interval(&self, n: u8) -> (i: &Interval)
        ensures
            *i == self.axis_interval_spec(n),
    {
        match n {
            1 => &self.y,
            2 => &self.z,
            _ => &self.x,
        }
    }

    /// The least box that holds both boxes.
    pub fn enclose(box0: &Aabb, box1: &Aabb) -> (b: Aabb)
        ensures
            b == Self::enclose_spec(*box0, *box1),
    {
        Aabb {
            x: Interval::enclose(&box0.x, &box1.x),
            y: Interval::enclose(&box0.y, &box1.y),
            z: Interval::enclose(&box0.z, &box1.z),
        }
    }

    /// The number of the axis along which the box extends farthest. `extent`
    /// gives the extent of a range; among equal extents x comes before y and
    /// y before z.
    pub fn longest_axis<E: Fn(Interval) -> Scalar>(&self, extent: &E) -> (axis: u8)
        requires
            forall|iv: Interval| #[trigger] extent.requires((iv,)),
        ensures
            axis < 3,
            self.may_be_longest(*extent, axis),
    {
        let sx = extent(self.x);
        let sy = extent(self.y);
        let sz = extent(self.z);
        if sx >= sy && sx >= sz {
            0
        } else if sy >= sz {
            1
        } else {
            2
        }
    }

    /// Whether a ray passes the box within `range`. The ray is known through
    /// `slab`, which gives for a range and the number of its axis the two
    /// parameters at which the ray meets the bounds of that range. The axes
    /// are asked in the order x, y, z, and none after the first that rejects.
    pub fn hit<S: Fn(Interval, u8) -> (Scalar, Scalar)>(
        &self,
        slab: &S,
        range: &Interval,
    ) -> (b: bool)
        requires
            forall|ax: u8| ax < 3 ==> slab.requires((#[trigger] self.axis_interval_spec(ax), ax)),
        ensures
            b ==> forall|ax: u8| ax < 3 ==> #[trigger] self.may_admit(*slab, ax, *range),
            !b ==> exists|ax: u8, t: (Scalar, Scalar)|
                ax < 3 && #[trigger] slab.ensures((self.axis_interval_spec(ax), ax), t)
                    && !slab_admits(t, *range),
            slab_functional(*slab) ==> b == self.hit_model(slab_model(*slab), *range),
    {
        let mut axis: u8 = 0;
        while axis < 3
            invariant
                axis <= 3,
                forall|ax: u8| ax < axis ==> #[trigger] self.may_admit(*slab, ax, *range),
                forall|ax: u8| ax < 3 ==> slab.requires((#[trigger] self.axis_interval_spec(ax), ax)),
                slab_functional(*slab) ==> forall|ax: u8|
                    ax < axis ==> slab_admits(
                        #[trigger] slab_model(*slab)(self.axis_interval_spec(ax), ax),
                        *range,
                    ),
            decreases 3 - axis,
        {
            let ax = *self.axis_interval(axis);
            assert(ax == self.axis_interval_spec(axis));
            let t = slab(ax, axis);
            let ghost m = slab_model(*slab)(ax, axis);
            assert(slab_functional(*slab) ==> t == m);
            let lo = if t.0 < t.1 { t.0 } else { t.1 };
            let hi = if t.0 < t.1 { t.1 } else { t.0 };
            let new_min = if lo > range.min { lo } else { range.min };
            let new_max = if hi < range.max { hi } else { range.max };
            assert(slab.ensures((self.axis_interval_spec(axis), axis), t));
            if new_max <= new_min {
                assert(slab_functional(*slab) ==> !slab_admits(
                    slab_model(*slab)(self.axis_interval_spec(axis), axis),
                    *range,
                ));
                return false;
            }
            assert(self.may_admit(*slab, axis, *range));
            axis += 1;
        }
        true
    }

    /// A ray whose origin lies strictly between the bounds of the box on
    /// every axis passes the box within the range that holds everything.
    pub proof fn lemma_inside_passes(b: Aabb, times: spec_fn(Interval, u8) -> (Scalar, Scalar))
        requires
            forall|ax: u8|
                ax < 3 ==> straddles_origin(#[trigger] times(b.axis_interval_spec(ax), ax)),
        ensures
            b.hit_model(times, Interval::universe_spec()),
    {
    }

    /// Enclosing does not depend on the order of the two boxes.
    pub proof fn lemma_enclose_commutative(a: Aabb, b: Aabb)
        ensures
            Self::enclose_spec(a, b) == Self::enclose_spec(b, a),
    {
    }

    /// Enclosing three boxes gives the same box however they are grouped.
    pub proof fn lemma_enclose_associative(a: Aabb, b: Aabb, c: Aabb)
        ensures
            Self::enclose_spec(Self::enclose_spec(a, b), c) == Self::enclose_spec(
                a,
                Self::enclose_spec(b, c),
            ),
    {
    }

    /// Enclosing the empty box with a box gives that box, on either side.
    pub proof fn lemma_enclose_empty(b: Aabb)
        ensures
            Self::enclose_spec(Self::empty_spec(), b) == b,
            Self::enclose_spec(b, Self::empty_spec()) == b,
    {
    }

    /// The box that encloses two boxes covers each of them.
    pub proof fn lemma_enclose_covers(a: Aabb, b: Aabb)
        ensures
            Self::enclose_spec(a, b).covers(a),
            Self::enclose_spec(a, b).covers(b),
    {
    }

    /// A box covers whatever a box that it covers does.
    pub proof fn lemma_covers_transitive(a: Aabb, b: Aabb, c: Aabb)
        requires
            a.covers(b),
            b.covers(c),
        ensures
            a.covers(c),
    {
    }
}

} // verus!
