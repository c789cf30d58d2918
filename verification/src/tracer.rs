use vstd::prelude::*;
use crate::color::Color;
use crate::hittable::HitRecord;
use crate::material::Scatter;
use crate::ray::{Interval, Ray};
use crate::scalar::{Scalar, INFINITY};

verus! {

/// The rank of the least distance at which a surface counts as hit: the bit
/// pattern of the binary64 value nearest to 0.001. Crossings at or below it
/// are the surface that the ray has just left.
pub const SURFACE_BIAS: Scalar = 0x3F50_624D_D2F1_A9FC;

/// How a light path ends.
#[derive(Clone, Copy, Debug, PartialEq, Eq, Structural)]
pub enum PathEnd {
    /// The bounce budget ran out: the path carries no light.
    Exhausted,
    /// A surface swallowed the ray: the path carries no light.
    Absorbed,
    /// The ray left the scene: the path carries the background seen along
    /// this ray.
    Escaped(Ray),
}

/// A light path: the attenuations of its bounces, first bounce first, and
/// its end. Its radiance is what the end carries, weakened channel by
/// channel by every attenuation.
pub struct LightPath {
    pub attenuations: Vec<Color>,
    pub end: PathEnd,
}

/// The range in which a surface counts as hit: strictly beyond the bias.
pub open spec fn reach() -> Interval {
    Interval { min: SURFACE_BIAS, max: INFINITY }
}

/// Whether a path with the given attenuations and end is one that `ray` can
/// take with a budget of `depth` bounces. Without budget the path is
/// exhausted at once. Else the world is asked what the ray hits within
/// reach: on a miss the ray escapes; on a hit the material is asked, and
/// either swallows the ray or sends on a new one, whose path, with one
/// bounce less to spend, follows the attenuation of this bounce.
pub open spec fn follows<
    W: Fn(Ray, Interval) -> Option<HitRecord>,
    M: Fn(Ray, HitRecord) -> Scatter,
>(world: W, material: M, ray: Ray, depth: nat, attenuations: Seq<Color>, end: PathEnd) -> bool
    decreases depth,
{
    if depth == 0 {
        attenuations.len() == 0 && end == PathEnd::Exhausted
    } else {
        exists|found: Option<HitRecord>|
            {
                &&& #[trigger] world.ensures((ray, reach()), found)
                &&& match found {
                    None => attenuations.len() == 0 && end == PathEnd::Escaped(ray),
                    Some(rec) => exists|s: Scatter|
                        {
                            &&& #[trigger] material.ensures((ray, rec), s)
                            &&& match s {
                                Scatter::Absorbed => attenuations.len() == 0 && end
                                    == PathEnd::Absorbed,
                                Scatter::Scattered(next, attenuation) => {
                                    &&& attenuations.len() > 0
                                    &&& attenuations[0] == attenuation
                                    &&& follows(
                                        world,
                                        material,
                                        next,
                                        (depth - 1) as nat,
                                        attenuations.drop_first(),
                                        end,
                                    )
                                },
                            }
                        },
                }
            }
    }
}

/// Whether the world never reports a hit, as a scene without primitives
/// does.
pub open spec fn never_hits<W: Fn(Ray, Interval) -> Option<HitRecord>>(world: W) -> bool {
    forall|ray: Ray, iv: Interval, found: Option<HitRecord>|
        #[trigger] world.ensures((ray, iv), found) ==> found is None
}

/// Follows a ray through the scene for at most `bounce_depth` bounces.
/// `world` gives what a ray hits in a range, `material` what the surface of
/// a hit does with the ray.
pub fn trace<W: Fn(Ray, Interval) -> Option<HitRecord>, M: Fn(Ray, HitRecord) -> Scatter>(
    r: &Ray,
    world: &W,
    material: &M,
    bounce_depth: usize,
) -> (path: LightPath)
    requires
        forall|ray: Ray| #[trigger] world.requires((ray, reach())),
        forall|ray: Ray, rec: HitRecord| #[trigger] material.requires((ray, rec)),
    ensures
        follows(*world, *material, *r, bounce_depth as nat, path.attenuations@, path.end),
        path.attenuations@.len() <= bounce_depth,
        bounce_depth == 0 ==> path.attenuations@.len() == 0 && path.end == PathEnd::Exhausted,
        bounce_depth > 0 && never_hits(*world) ==> path.attenuations@.len() == 0 && path.end
            == PathEnd::Escaped(*r),
        path.end is Exhausted ==> path.attenuations@.len() == bounce_depth,
    decreases bounce_depth,
{
    if bounce_depth == 0 {
        return LightPath { attenuations: Vec::new(), end: PathEnd::Exhausted };
    }
    let found = world(*r, Interval::new(SURFACE_BIAS, INFINITY));
    match found {
        Some(rec) => {
            let s = material(*r, rec);
            match s {
                Scatter::Scattered(next, attenuation) => {
                    let mut path = trace(&next, world, material, bounce_depth - 1);
                    let ghost rest = path.attenuations@;
                    path.attenuations.insert(0, attenuation);
                    proof {
                        assert(path.attenuations@.drop_first() =~= rest);
                        assert(world.ensures((*r, reach()), found));
                        assert(material.ensures((*r, rec), s));
                    }
                    path
                },
                Scatter::Absorbed => {
                    proof {
                        assert(world.ensures((*r, reach()), found));
                        assert(material.ensures((*r, rec), s));
                    }
                    LightPath { attenuations: Vec::new(), end: PathEnd::Absorbed }
                },
            }
        },
        None => {
            proof {
                assert(world.ensures((*r, reach()), found));
            }
            LightPath { attenuations: Vec::new(), end: PathEnd::Escaped(*r) }
        },
    }
}

} // verus!
