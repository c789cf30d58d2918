use vstd::prelude::*;
use crate::scalar::{Scalar, ONE, ZERO};

verus! {

/// The rank of the threshold under which a component counts as vanishing:
/// the bit pattern of the binary64 value nearest to 1e-8.
pub const NEAR_ZERO: Scalar = 0x3E45_798E_E230_8C3A;

/// A triple of scalars: a direction, a position or a colour.
#[derive(Clone, Copy, Debug, PartialEq, Eq, Structural)]
pub struct Vec3 {
    pub x: Scalar,
    pub y: Scalar,
    pub z: Scalar,
}

/// A position in space.
pub type Point3 = Vec3;

impl Vec3 {
    /// The triple with the given components.
    pub fn new(x: Scalar, y: Scalar, z: Scalar) -> (v: Self)
        ensures
            v == (Vec3 { x, y, z }),
    {
        Vec3 { x, y, z }
    }

    /// The triple whose components are all zero.
    pub fn zero() -> (v: Self)
        ensures
            v == Self::zero_spec(),
    {
        Vec3 { x: ZERO, y: ZERO, z: ZERO }
    }

    /// The triple whose components are all one.
    pub fn one() -> (v: Self)
        ensures
            v == Self::one_spec(),
    {
        Vec3 { x: ONE, y: ONE, z: ONE }
    }

    /// The triple (0, 0, 0).
    pub open spec fn zero_spec() -> Vec3 {
        Vec3 { x: ZERO, y: ZERO, z: ZERO }
    }

    /// The triple (1, 1, 1).
    pub open spec fn one_spec() -> Vec3 {
        Vec3 { x: ONE, y: ONE, z: ONE }
    }

    /// Whether a component lies strictly within the vanishing threshold of
    /// zero, on either side.
    pub open spec fn tiny(c: Scalar) -> bool {
        -NEAR_ZERO < c < NEAR_ZERO
    }

    /// Whether every component is closer to zero than the threshold.
    pub open spec fn near_zero_spec(&self) -> bool {
        Self::tiny(self.x) && Self::tiny(self.y) && Self::tiny(self.z)
    }

    /// Whether every component is closer to zero than the threshold.
    pub fn near_zero(&self) -> (b: bool)
        ensures
            b == self.near_zero_spec(),
    {
        -NEAR_ZERO < self.x && self.x < NEAR_ZERO && -NEAR_ZERO < self.y && self.y < NEAR_ZERO
            && -NEAR_ZERO < self.z && self.z < NEAR_ZERO
    }
}

impl Default for Vec3 {
    /// The zero triple.
    fn default() -> (v: Self)
        ensures
            v == Vec3::zero_spec(),
    {
        Vec3 { x: ZERO, y: ZERO, z: ZERO }
    }
}

} // verus!
