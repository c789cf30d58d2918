use vstd::prelude::*;
use crate::aabb::Aabb;
use crate::hittable::HitRecord;
use crate::ray::Interval;
use crate::scalar::{Scalar, ZERO};
use crate::vector::{Point3, Vec3};

verus! {

/// The surface of a sphere where a ray meets it: the point, the dot product
/// of the ray's direction with the outward normal, and the outward normal
/// with its reverse.
#[derive(Clone, Copy, Debug, PartialEq, Eq, Structural)]
pub struct SurfacePoint {
    pub p: Point3,
    pub facing: Scalar,
    pub outward_normal: Vec3,
    pub reversed_normal: Vec3,
}

/// A sphere: centre, radius, the number of its material, and the box that
/// bounds it.
#[derive(Clone, Copy, Debug, PartialEq, Eq, Structural)]
pub struct Sphere {
    pub centre: Point3,
    pub radius: Scalar,
    pub mat: usize,
    pub bbox: Aabb,
}

/// The crossing that counts in `range`, of the two crossings of a ray with a
/// sphere given nearer first: the nearer where it lies strictly inside the
/// range, else the farther where that one does, else nothing.
pub open spec fn nearest_root_spec(near: Scalar, far: Scalar, range: Interval) -> Option<Scalar> {
    if range.surrounds_spec(near) {
        Some(near)
    } else if range.surrounds_spec(far) {
        Some(far)
    } else {
        None
    }
}

/// Whether `rec` is the record of the crossing `t` for the surface `at` on a
/// sphere with material `mat`.
pub open spec fn records(rec: HitRecord, t: Scalar, at: SurfacePoint, mat: usize) -> bool {
    rec == (HitRecord {
        t,
        p: at.p,
        face_normal: HitRecord::calc_face_normal_spec(
            at.facing,
            at.outward_normal,
            at.reversed_normal,
        ),
        mat,
    })
}

impl Sphere {
    /// The sphere about `centre`, its radius raised to zero where it is
    /// below, with the box between `corner_a` and `corner_b`, the two points
    /// that lie one radius from the centre along every axis, one downward
    /// and one upward.
    pub fn new(
        centre: Point3,
        radius: Scalar,
        mat: usize,
        corner_a: &Point3,
        corner_b: &Point3,
    ) -> (s: Self)
        ensures
            s.centre == centre,
            s.radius == (if radius >= ZERO {
                radius
            } else {
                ZERO
            }),
            s.mat == mat,
            s.bbox == Aabb::new_spec(*corner_a, *corner_b),
    {
        let radius = if radius >= ZERO { radius } else { ZERO };
        let bbox = Aabb::new(corner_a, corner_b);
        Sphere { centre, radius, mat, bbox }
    }

    /// The crossing that counts in `range`: the nearer of the two where it
    /// lies strictly inside, else the farther where that one does.
    pub fn nearest_root(near: Scalar, far: Scalar, range: &Interval) -> (t: Option<Scalar>)
        ensures
            t == nearest_root_spec(near, far, *range),
    {
        if range.surrounds(near) {
            Some(near)
        } else if range.surrounds(far) {
            Some(far)
        } else {
            None
        }
    }

    /// What a ray finds on the sphere in `range`. The ray is known through
    /// the discriminant of its quadratic, through `roots`, which gives its
    /// two crossings, nearer first, and through `surface`, which gives the
    /// surface at a crossing. Below a discriminant of zero the ray passes
    /// the sphere by and nothing is asked; else the crossings are asked for,
    /// and the surface at the one that counts, if any.
    pub fn hit<R: Fn() -> (Scalar, Scalar), G: Fn(Scalar) -> SurfacePoint>(
        &self,
        discriminant: Scalar,
        roots: &R,
        range: &Interval,
        surface: &G,
    ) -> (rec: Option<HitRecord>)
        requires
            roots.requires(()),
            forall|t: Scalar| #[trigger] surface.requires((t,)),
        ensures
            discriminant < ZERO ==> rec is None,
            rec matches Some(h) ==> range.surrounds_spec(h.t) && h.mat == self.mat,
            discriminant >= ZERO ==> exists|crossings: (Scalar, Scalar)|
                {
                    &&& #[trigger] roots.ensures((), crossings)
                    &&& match nearest_root_spec(crossings.0, crossings.1, *range) {
                        None => rec is None,
                        Some(t) => exists|at: SurfacePoint|
                            {
                                &&& #[trigger] surface.ensures((t,), at)
                                &&& rec matches Some(h) && records(h, t, at, self.mat)
                            },
                    }
                },
    {
        if discriminant < ZERO {
            return None;
        }
        let crossings = roots();
        match Self::nearest_root(crossings.0, crossings.1, range) {
            None => None,
            Some(t) => {
                let at = surface(t);
                let face_normal = HitRecord::calc_face_normal(
                    at.facing,
                    &at.outward_normal,
                    &at.reversed_normal,
                );
                let h = HitRecord::new(t, at.p, face_normal, self.mat);
                assert(surface.ensures((t,), at) && records(h, t, at, self.mat));
                Some(h)
            },
        }
    }

    /// The box that bounds the sphere.
    pub fn bounding_box(&self) -> (b: &Aabb)
        ensures
            *b == self.bbox,
    {
        &self.bbox
    }
}

} // verus!
