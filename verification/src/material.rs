use vstd::prelude::*;
use crate::color::Color;
use crate::hittable::HitRecord;
use crate::ray::Ray;
use crate::scalar::{Scalar, ONE, ZERO};
use crate::vector::Vec3;

verus! {

/// What a surface does with a ray that arrives: it sends on a new ray,
/// weakened channel by channel by the attenuation, or swallows it.
#[derive(Clone, Copy, Debug, PartialEq, Eq, Structural)]
pub enum Scatter {
    Scattered(Ray, Color),
    Absorbed,
}

/// A matte surface.
#[derive(Clone, Copy, Debug, PartialEq, Eq, Structural)]
pub struct Lambertian {
    pub albedo: Color,
}

/// A mirror-like surface; `fuzz` blurs the reflection.
#[derive(Clone, Copy, Debug, PartialEq, Eq, Structural)]
pub struct Metal {
    pub albedo: Color,
    pub fuzz: Scalar,
}

/// A transparent surface with the given index of refraction.
#[derive(Clone, Copy, Debug, PartialEq, Eq, Structural)]
pub struct Dielectric {
    pub refract_idx: Scalar,
}

impl Lambertian {
    /// The matte surface of the given colour.
    pub fn new(albedo: Color) -> (m: Self)
        ensures
            m.albedo == albedo,
    {
        Lambertian { albedo }
    }

    /// The direction in which a matte surface sends a ray on: the drawn
    /// direction, or the normal where the drawn direction all but vanishes.
    pub open spec fn direction_spec(rec: HitRecord, drawn: Vec3) -> Vec3 {
        if drawn.near_zero_spec() {
            rec.face_normal.normal_spec()
        } else {
            drawn
        }
    }

    /// Scatters at `rec` along `drawn`, the sum of the normal and a random
    /// unit vector. The ray leaves the point of the hit, weakened by the
    /// albedo; a matte surface swallows nothing.
    pub fn scatter(&self, rec: &HitRecord, drawn: Vec3) -> (s: Scatter)
        ensures
            s == Scatter::Scattered(
                Ray { origin: rec.p, dir: Self::direction_spec(*rec, drawn) },
                self.albedo,
            ),
            !(s is Absorbed),
    {
        let mut scatter_dir = drawn;
        if scatter_dir.near_zero() {
            scatter_dir = *rec.normal();
        }
        let r = Ray::new(rec.p, scatter_dir);
        Scatter::Scattered(r, self.albedo)
    }
}

impl Metal {
    /// The metal of the given colour and blur.
    pub fn new(albedo: Color, fuzz: Scalar) -> (m: Self)
        ensures
            m.albedo == albedo,
            m.fuzz == fuzz,
    {
        Metal { albedo, fuzz }
    }

    /// Scatters at `rec` along `reflected`, the blurred reflection, whose dot
    /// product with the normal is `facing`. The ray is swallowed exactly
    /// where that product is zero or below; else it leaves the point of the
    /// hit, weakened by the albedo.
    pub fn scatter(&self, rec: &HitRecord, reflected: Vec3, facing: Scalar) -> (s: Scatter)
        ensures
            s is Absorbed <==> facing <= ZERO,
            facing > ZERO ==> s == Scatter::Scattered(
                Ray { origin: rec.p, dir: reflected },
                self.albedo,
            ),
    {
        let r = Ray::new(rec.p, reflected);
        if facing > ZERO {
            Scatter::Scattered(r, self.albedo)
        } else {
            Scatter::Absorbed
        }
    }
}

impl Dielectric {
    /// The transparent surface with the given index of refraction.
    pub fn new(refract_idx: Scalar) -> (m: Self)
        ensures
            m.refract_idx == refract_idx,
    {
        Dielectric { refract_idx }
    }

    /// The index that counts for a hit: `reciprocal`, the inverse of the
    /// surface's index, where the ray enters, and the index itself where it
    /// leaves.
    pub fn relative_index(&self, rec: &HitRecord, reciprocal: Scalar) -> (ri: Scalar)
        ensures
            ri == (if rec.face_normal is Front {
                reciprocal
            } else {
                self.refract_idx
            }),
    {
        if rec.face_normal.is_front() {
            reciprocal
        } else {
            self.refract_idx
        }
    }

    /// Whether the ray is reflected for the draw `drawn`: `grazing`, the
    /// relative index times the sine of the angle of arrival, lies above one,
    /// or the reflectance lies above the draw.
    pub open spec fn reflects(grazing: Scalar, reflectance: Scalar, drawn: Scalar) -> bool {
        grazing > ONE || reflectance > drawn
    }

    /// The ray that leaves `rec` once it is settled whether it is reflected:
    /// it runs along `reflected` or along `refracted`, at full strength.
    pub fn resolve(rec: &HitRecord, reflect: bool, reflected: Vec3, refracted: Vec3) -> (s: Scatter)
        ensures
            s == Scatter::Scattered(
                Ray {
                    origin: rec.p,
                    dir: if reflect {
                        reflected
                    } else {
                        refracted
                    },
                },
                Vec3::one_spec(),
            ),
    {
        let dir = if reflect { reflected } else { refracted };
        Scatter::Scattered(Ray::new(rec.p, dir), Vec3::one())
    }

    /// Scatters at `rec`. The ray is reflected where `grazing` lies above
    /// one; else `draw` is asked for a number, and the ray is reflected where
    /// the reflectance lies above it, refracted where not. The attenuation is
    /// always one in every channel, and nothing is swallowed.
    pub fn scatter<D: Fn() -> Scalar>(
        rec: &HitRecord,
        grazing: Scalar,
        reflectance: Scalar,
        draw: &D,
        reflected: Vec3,
        refracted: Vec3,
    ) -> (s: Scatter)
        requires
            draw.requires(()),
        ensures
            s matches Scatter::Scattered(r, attenuation) && attenuation == Vec3::one_spec()
                && r.origin == rec.p,
            grazing > ONE ==> s == Scatter::Scattered(
                Ray { origin: rec.p, dir: reflected },
                Vec3::one_spec(),
            ),
            grazing <= ONE ==> exists|drawn: Scalar|
                {
                    &&& #[trigger] draw.ensures((), drawn)
                    &&& s == Scatter::Scattered(
                        Ray {
                            origin: rec.p,
                            dir: if Self::reflects(grazing, reflectance, drawn) {
                                reflected
                            } else {
                                refracted
                            },
                        },
                        Vec3::one_spec(),
                    )
                },
    {
        let cannot_refract = grazing > ONE;
        if cannot_refract {
            Self::resolve(rec, true, reflected, refracted)
        } else {
            let drawn = draw();
            Self::resolve(rec, reflectance > drawn, reflected, refracted)
        }
    }
}

} // verus!
