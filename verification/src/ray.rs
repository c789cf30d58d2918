use vstd::prelude::*;
use crate::scalar::{max_rank, min_rank, Scalar, INFINITY, NEG_INFINITY};
use crate::vector::{Point3, Vec3};

verus! {

/// A half-line: the points `origin + t * dir`.
#[derive(Clone, Copy, Debug, PartialEq, Eq, Structural)]
pub struct Ray {
    pub origin: Point3,
    pub dir: Vec3,
}

impl Ray {
    /// The ray from `origin` along `dir`.
    pub fn new(origin: Point3, dir: Vec3) -> (r: Self)
        ensures
            r == (Ray { origin, dir }),
    {
        Ray { origin, dir }
    }
}

/// A surface normal that points against the ray, tagged with the side of the
/// surface that the ray struck.
#[derive(Clone, Copy, Debug, PartialEq, Eq, Structural)]
pub enum FaceNormal {
    /// The ray came from outside.
    Front(Vec3),
    /// The ray came from inside.
    Back(Vec3),
}

impl FaceNormal {
    /// The normal, whichever side was struck.
    pub open spec fn normal_spec(&self) -> Vec3 {
        match *self {
            FaceNormal::Front(n) => n,
            FaceNormal::Back(n) => n,
        }
    }

    /// Whether the ray struck the outer side.
    pub fn is_front(&self) -> (b: bool)
        ensures
            b == (*self is Front),
    {
        match self {
            FaceNormal::Front(_) => true,
            FaceNormal::Back(_) => false,
        }
    }

    /// Whether the ray struck the inner side.
    pub fn is_back(&self) -> (b: bool)
        ensures
            b == (*self is Back),
    {
        !self.is_front()
    }

    /// The normal, whichever side was struck.
    pub fn normal(&self) -> (n: &Vec3)
        ensures
            *n == self.normal_spec(),
    {
        match self {
            FaceNormal::Front(normal) => normal,
            FaceNormal::Back(normal) => normal,
        }
    }
}

/// A range of scalars between two bounds.
#[derive(Clone, Copy, Debug, PartialEq, Eq, Structural)]
pub struct Interval {
    pub min: Scalar,
    pub max: Scalar,
}

impl Interval {
    /// The range that holds nothing: it runs from positive to negative
    /// infinity.
    pub open spec fn empty_spec() -> Interval {
        Interval { min: INFINITY, max: NEG_INFINITY }
    }

    /// The range that holds everything.
    pub open spec fn universe_spec() -> Interval {
        Interval { min: NEG_INFINITY, max: INFINITY }
    }

    /// Whether `x` lies in the range, the bounds included.
    pub open spec fn contains_spec(&self, x: Scalar) -> bool {
        self.min <= x && x <= self.max
    }

    /// Whether `x` lies in the range, the bounds excluded.
    pub open spec fn surrounds_spec(&self, x: Scalar) -> bool {
        self.min < x && x < self.max
    }

    /// The member of the range nearest to `x`.
    pub open spec fn clamp_spec(&self, x: Scalar) -> Scalar {
        if x < self.min {
            self.min
        } else if x > self.max {
            self.max
        } else {
            x
        }
    }

    /// The least range that holds both `a` and `b`.
    pub open spec fn enclose_spec(a: Interval, b: Interval) -> Interval {
        Interval { min: min_rank(a.min, b.min), max: max_rank(a.max, b.max) }
    }

    /// Whether every member of `inner` is a member of `self`.
    pub open spec fn covers(&self, inner: Interval) -> bool {
        self.min <= inner.min && inner.max <= self.max
    }

    /// The range from `min` to `max`.
    pub fn new(min: Scalar, max: Scalar) -> (i: Self)
        ensures
            i == (Interval { min, max }),
    {
        Interval { min, max }
    }

    /// The range that holds nothing.
    pub fn empty() -> (i: Self)
        ensures
            i == Self::empty_spec(),
    {
        Interval { min: INFINITY, max: NEG_INFINITY }
    }

    /// The range that holds everything.
    pub fn universe() -> (i: Self)
        ensures
            i == Self::universe_spec(),
    {
        Interval { min: NEG_INFINITY, max: INFINITY }
    }

    /// Whether `x` lies in the range, the bounds included.
    pub fn contains(&self, x: Scalar) -> (b: bool)
        ensures
            b == self.contains_spec(x),
    {
        self.min <= x && x <= self.max
    }

    /// Whether `x` lies in the range, the bounds excluded.
    pub fn surrounds(&self, x: Scalar) -> (b: bool)
        ensures
            b == self.surrounds_spec(x),
    {
        self.min < x && x < self.max
    }

    /// The member of the range nearest to `x`. The range must not be
    /// inverted.
    pub fn clamp(&self, x: Scalar) -> (c: Scalar)
        requires
            self.min <= self.max,
        ensures
            c == self.clamp_spec(x),
            self.contains_spec(c),
    {
        if x < self.min {
            self.min
        } else if x > self.max {
            self.max
        } else {
            x
        }
    }

    /// The least range that holds both `a` and `b`.
    pub fn enclose(a: &Interval, b: &Interval) -> (i: Self)
        ensures
            i == Self::enclose_spec(*a, *b),
    {
        let min = if a.min <= b.min { a.min } else { b.min };
        let max = if a.max >= b.max { a.max } else { b.max };
        Interval { min, max }
    }

    /// Enclosing does not depend on the order of the two ranges.
    pub proof fn lemma_enclose_commutative(a: Interval, b: Interval)
        ensures
            Self::enclose_spec(a, b) == Self::enclose_spec(b, a),
    {
    }

    /// Enclosing three ranges gives the same range however they are grouped.
    pub proof fn lemma_enclose_associative(a: Interval, b: Interval, c: Interval)
        ensures
            Self::enclose_spec(Self::enclose_spec(a, b), c) == Self::enclose_spec(
                a,
                Self::enclose_spec(b, c),
            ),
    {
    }

    /// Enclosing the empty range with a range gives that range, on either
    /// side.
    pub proof fn lemma_enclose_empty(b: Interval)
        ensures
            Self::enclose_spec(Self::empty_spec(), b) == b,
            Self::enclose_spec(b, Self::empty_spec()) == b,
    {
    }

    /// The empty range contains no scalar.
    pub proof fn lemma_empty_contains_nothing(x: Scalar)
        ensures
            !Self::empty_spec().contains_spec(x),
            !Self::empty_spec().surrounds_spec(x),
    {
    }
}

} // verus!
