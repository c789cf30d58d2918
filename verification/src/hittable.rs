use vstd::prelude::*;
use crate::aabb::Aabb;
use crate::ray::{FaceNormal, Interval};
use crate::scalar::{Scalar, ZERO};
use crate::vector::{Point3, Vec3};

verus! {

/// What a ray found on a surface: the ray parameter `t` of the point, the
/// point, the normal with its side, and the number of the surface's material.
#[derive(Clone, Copy, Debug, PartialEq, Eq, Structural)]
pub struct HitRecord {
    pub t: Scalar,
    pub p: Point3,
    pub face_normal: FaceNormal,
    pub mat: usize,
}

impl HitRecord {
    /// The side-tagged normal for a ray whose direction has the dot product
    /// `facing` with the outward normal: below zero the ray came from outside
    /// and keeps the outward normal, otherwise it came from inside and takes
    /// the reversed one.
    pub open spec fn calc_face_normal_spec(
        facing: Scalar,
        outward_normal: Vec3,
        reversed_normal: Vec3,
    ) -> FaceNormal {
        if facing < ZERO {
            FaceNormal::Front(outward_normal)
        } else {
            FaceNormal::Back(reversed_normal)
        }
    }

    /// The side-tagged normal for a ray whose direction has the dot product
    /// `facing` with the outward normal.
    pub fn calc_face_normal(
        facing: Scalar,
        outward_normal: &Vec3,
        reversed_normal: &Vec3,
    ) -> (n: FaceNormal)
        ensures
            n == Self::calc_face_normal_spec(facing, *outward_normal, *reversed_normal),
    {
        if facing < ZERO {
            FaceNormal::Front(*outward_normal)
        } else {
            FaceNormal::Back(*reversed_normal)
        }
    }

    /// The normal at the point, against the ray.
    pub fn normal(&self) -> (n: &Vec3)
        ensures
            *n == self.face_normal.normal_spec(),
    {
        self.face_normal.normal()
    }

    /// The record with the given parts.
    pub fn new(t: Scalar, p: Point3, face_normal: FaceNormal, mat: usize) -> (rec: Self)
        ensures
            rec == (HitRecord { t, p, face_normal, mat }),
    {
        HitRecord { t, p, face_normal, mat }
    }
}

/// A primitive as the scene holds it: the number under which the embedding
/// program keeps the surface, and the box that bounds it.
#[derive(Clone, Copy, Debug, PartialEq, Eq, Structural)]
pub struct Object {
    pub id: usize,
    pub bbox: Aabb,
}

/// Whether a primitive probe answers each question in one way only.
pub open spec fn probe_functional<P: Fn(usize, Interval) -> Option<HitRecord>>(probe: P) -> bool {
    forall|id: usize, iv: Interval, a: Option<HitRecord>, b: Option<HitRecord>|
        probe.ensures((id, iv), a) && probe.ensures((id, iv), b) ==> a == b
}

/// A primitive probe as a function: an answer that the probe may give to each
/// question.
pub open spec fn probe_model<P: Fn(usize, Interval) -> Option<HitRecord>>(probe: P) -> spec_fn(
    usize,
    Interval,
) -> Option<HitRecord> {
    |id: usize, iv: Interval| choose|r: Option<HitRecord>| probe.ensures((id, iv), r)
}

/// The range in which a later primitive is asked once `found` is known:
/// `range` itself, with its upper bound lowered to the parameter of the hit
/// where there is one.
pub open spec fn narrowed(range: Interval, found: Option<HitRecord>) -> Interval {
    match found {
        Some(h) => Interval { min: range.min, max: h.t },
        None => range,
    }
}

/// The later answer where there is one, else the earlier.
pub open spec fn later_or(later: Option<HitRecord>, earlier: Option<HitRecord>) -> Option<
    HitRecord,
> {
    match later {
        Some(h) => Some(h),
        None => earlier,
    }
}

/// What a scan of `objects` from first to last finds in `range`: each
/// primitive is asked in the range narrowed by what was found before it, and
/// the last answer counts.
pub open spec fn scan_model(
    probe: spec_fn(usize, Interval) -> Option<HitRecord>,
    objects: Seq<Object>,
    range: Interval,
) -> Option<HitRecord>
    decreases objects.len(),
{
    if objects.len() == 0 {
        None
    } else {
        let before = scan_model(probe, objects.drop_last(), range);
        later_or(probe(objects.last().id, narrowed(range, before)), before)
    }
}

/// The least box that holds the boxes of all of `objects`.
pub open spec fn bounds(objects: Seq<Object>) -> Aabb
    decreases objects.len(),
{
    if objects.len() == 0 {
        Aabb::empty_spec()
    } else {
        Aabb::enclose_spec(bounds(objects.drop_last()), objects.last().bbox)
    }
}

/// A flat scene: primitives in the order in which they were added, and the
/// box that bounds them all.
pub struct HittableList {
    pub objects: Vec<Object>,
    pub bbox: Aabb,
}

impl HittableList {
    /// Whether the box is the one that bounds the primitives.
    pub open spec fn wf(&self) -> bool {
        self.bbox == bounds(self.objects@)
    }

    /// The scene without primitives.
    pub fn new() -> (list: Self)
        ensures
            list.objects@ == Seq::<Object>::empty(),
            list.bbox == Aabb::empty_spec(),
            list.wf(),
    {
        HittableList { objects: Vec::new(), bbox: Aabb::empty() }
    }

    /// Adds a primitive at the end and widens the box to hold it.
    pub fn add(&mut self, object: Object)
        ensures
            final(self).objects@ == old(self).objects@.push(object),
            final(self).bbox == Aabb::enclose_spec(old(self).bbox, object.bbox),
            old(self).wf() ==> final(self).wf(),
    {
        self.bbox = Aabb::enclose(&self.bbox, &object.bbox);
        self.objects.push(object);
        proof {
            assert(self.objects@.drop_last() =~= old(self).objects@);
        }
    }

    /// The closest hit of a ray within `range`, found by asking every
    /// primitive in turn. The ray is known through `probe`, which gives for
    /// the number of a primitive and a range what the ray finds on that
    /// primitive in that range.
    pub fn hit<P: Fn(usize, Interval) -> Option<HitRecord>>(
        &self,
        probe: &P,
        range: &Interval,
    ) -> (rec: Option<HitRecord>)
        requires
            forall|i: int, iv: Interval|
                0 <= i < self.objects@.len() ==> #[trigger] probe.requires((self.objects@[i].id, iv)),
        ensures
            self.objects@.len() == 0 ==> rec is None,
            rec matches Some(h) ==> exists|i: int, iv: Interval|
                0 <= i < self.objects@.len() && iv.min == range.min && #[trigger] probe.ensures(
                    (self.objects@[i].id, iv),
                    Some(h),
                ),
            probe_functional(*probe) ==> rec == scan_model(
                probe_model(*probe),
                self.objects@,
                *range,
            ),
    {
        let mut closest_so_far = range.max;
        let mut rec: Option<HitRecord> = None;
        let mut i: usize = 0;
        while i < self.objects.len()
            invariant
                i <= self.objects@.len(),
                forall|k: int, iv: Interval|
                    0 <= k < self.objects@.len() ==> #[trigger] probe.requires(
                        (self.objects@[k].id, iv),
                    ),
                i == 0 ==> rec is None,
                rec matches Some(h) ==> exists|k: int, iv: Interval|
                    0 <= k < i && iv.min == range.min && #[trigger] probe.ensures(
                        (self.objects@[k].id, iv),
                        Some(h),
                    ),
                (Interval { min: range.min, max: closest_so_far }) == narrowed(*range, rec),
                probe_functional(*probe) ==> rec == scan_model(
                    probe_model(*probe),
                    self.objects@.take(i as int),
                    *range,
                ),
            decreases self.objects@.len() - i,
        {
            let object = self.objects[i];
            let asked = Interval::new(range.min, closest_so_far);
            let temp_rec = probe(object.id, asked);
            proof {
                let upto = self.objects@.take(i + 1);
                assert(upto.drop_last() =~= self.objects@.take(i as int));
                assert(upto.last() == object);
                assert(probe_functional(*probe) ==> temp_rec == probe_model(*probe)(
                    object.id,
                    asked,
                ));
            }
            if let Some(temp_rec1) = temp_rec {
                closest_so_far = temp_rec1.t;
                rec = Some(temp_rec1);
                assert(probe.ensures((self.objects@[i as int].id, asked), Some(temp_rec1)));
            }
            i += 1;
        }
        proof {
            assert(self.objects@.take(i as int) =~= self.objects@);
        }
        rec
    }

    /// The box that bounds the scene.
    pub fn bounding_box(&self) -> (b: &Aabb)
        ensures
            *b == self.bbox,
    {
        &self.bbox
    }
}

} // verus!
