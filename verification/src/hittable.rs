use crate::aabb::AABB;
use crate::ray::Ray;
use crate::scalar::Scalar;
use crate::scalar::ONE_BITS;
use crate::vec3::Color;
use crate::vec3::Point3;
use crate::vec3::Vec3;
use std::sync::Arc;
use vstd::prelude::*;

verus! {

/// What a hit query reports: where the ray met the surface and what it met.
/// Its fields mean something only after a query has answered `true`.
pub struct HitRecord<M> {
    pub p: Point3,
    pub normal: Vec3,
    pub t: Scalar,
    pub u: Scalar,
    pub v: Scalar,
    pub front_face: bool,
    pub material: Option<Arc<M>>,
    pub override_color: Option<Color>,
}

impl<M> HitRecord<M> {
    /// The record that `HitRecord::default()` gives: zeros, the back face, no
    /// material and no colour.
    pub open spec fn blank() -> HitRecord<M> {
        let o = Vec3 { x: Scalar { bits: 0 }, y: Scalar { bits: 0 }, z: Scalar { bits: 0 } };
        HitRecord {
            p: o,
            normal: o,
            t: Scalar { bits: 0 },
            u: Scalar { bits: 0 },
            v: Scalar { bits: 0 },
            front_face: false,
            material: None,
            override_color: None,
        }
    }

    /// The two records tell of one and the same hit: they agree in the
    /// place, the normal, the distance, the surface coordinates, the face and
    /// the material, which is all that a hit writes. The colour of its own
    /// that a record may carry is left aside: not every object sets it.
    pub open spec fn same_hit(self, other: HitRecord<M>) -> bool {
        &&& self.p == other.p
        &&& self.normal == other.normal
        &&& self.t == other.t
        &&& self.u == other.u
        &&& self.v == other.v
        &&& self.front_face == other.front_face
        &&& self.material == other.material
    }

    /// The record with the side that was hit and the normal turned against
    /// the ray: the outward normal on the front face, its opposite on the
    /// back face.
    pub open spec fn facing(self, front_face: bool, outward_normal: Vec3) -> HitRecord<M> {
        HitRecord {
            front_face,
            normal: if front_face {
                outward_normal
            } else {
                outward_normal.negated()
            },
            ..self
        }
    }

    pub fn set_front_face_and_normal(&mut self, front_face: bool, outward_normal: Vec3)
        ensures
            *final(self) == old(self).facing(front_face, outward_normal),
    {
        self.front_face = front_face;
        self.normal = if front_face {
            outward_normal
        } else {
            outward_normal.neg()
        };
    }

    /// As [`HitRecord::set_front_face_and_normal`], where the front face is
    /// the one that the ray runs against: `facing`, the dot product of the
    /// ray's direction and the outward normal, is below zero.
    pub fn set_face_normal(&mut self, facing: Scalar, outward_normal: Vec3)
        ensures
            *final(self) == old(self).facing(facing.less(Scalar { bits: 0 }), outward_normal),
    {
        let front_face = facing < Scalar::zero();
        self.set_front_face_and_normal(front_face, outward_normal);
    }
}

impl<M> Default for HitRecord<M> {
    fn default() -> (r: HitRecord<M>)
        ensures
            r == HitRecord::<M>::blank(),
    {
        HitRecord {
            p: Vec3::zero(),
            normal: Vec3::zero(),
            t: Scalar::zero(),
            u: Scalar::zero(),
            v: Scalar::zero(),
            front_face: false,
            material: None,
            override_color: None,
        }
    }
}

/// Anything that a ray can hit and that may have a bounding box.
///
/// An implementation answers a query as a function of the query alone
/// (`found`, `bounds`), and leaves the record as it was when it reports a
/// miss. An implementation in verified code says what these functions are,
/// as `HittableList` does. One that does its arithmetic outside verified
/// code cannot, and leaves `found` and `bounds` as they stand here. The
/// bodies given here say nothing of such an implementation: each is one
/// unknown value, written only so that none has to be written elsewhere, and
/// no proof in this library rests on them. What is proved of objects in
/// general is proved from the contracts of `hit` and `bounding_box` alone,
/// and holds of an outside implementation as far as it keeps them.
pub trait Hittable: Sync + Send {
    /// The material that this object's records refer to.
    type Mat;

    /// What `hit` reports for a query: `None` for a miss, else the record as
    /// it stands after the hit. `before` is the record as it stood when the
    /// query was made.
    open spec fn found(
        &self,
        ray: Ray,
        t_min: Scalar,
        t_max: Scalar,
        before: HitRecord<Self::Mat>,
    ) -> Option<HitRecord<Self::Mat>> {
        arbitrary()
    }

    /// The box that `bounding_box` reports, if the object has one. `before`
    /// is the box as it stood when the question was asked.
    open spec fn bounds(&self, time0: Scalar, time1: Scalar, before: AABB) -> Option<AABB> {
        arbitrary()
    }

    fn hit(
        &self,
        ray: &Ray,
        t_min: Scalar,
        t_max: Scalar,
        record: &mut HitRecord<Self::Mat>,
    ) -> (b: bool)
        ensures
            b == self.found(*ray, t_min, t_max, *old(record)).is_some(),
            b ==> *final(record) == self.found(*ray, t_min, t_max, *old(record)).unwrap(),
            !b ==> *final(record) == *old(record),
    ;

    fn bounding_box(&self, time0: Scalar, time1: Scalar, output_box: &mut AABB) -> (b: bool)
        ensures
            b == self.bounds(time0, time1, *old(output_box)).is_some(),
            b ==> *final(output_box) == self.bounds(time0, time1, *old(output_box)).unwrap(),
    ;
}

/// An object moved by a fixed displacement.
pub struct Translate<H> {
    pub hittable: Arc<H>,
    pub displacement: Vec3,
}

/// The record of a hit in an object's own frame, brought back to the frame
/// of the ray: the place is `p`, and the normal is `normal`, turned against
/// the ray by `facing`, the dot product of the ray's direction and `normal`.
pub open spec fn brought_back<M>(
    rec: HitRecord<M>,
    p: Point3,
    normal: Vec3,
    facing: Scalar,
) -> HitRecord<M> {
    HitRecord { p, ..rec }.facing(facing.less(Scalar { bits: 0 }), normal)
}

impl<H: Hittable> Translate<H> {
    /// Whether `out` is what a query may report, where `moved_r` is the ray
    /// moved back by the displacement, `shift` moves a point forward by it
    /// and `facing` gives the dot product of the ray's direction and a
    /// normal: what the object itself reports for `moved_r`, with the place
    /// moved forward and the normal turned against the ray again.
    pub open spec fn reports<S: Fn(Point3) -> Point3, F: Fn(Vec3) -> Scalar>(
        self,
        moved_r: Ray,
        t_min: Scalar,
        t_max: Scalar,
        before: HitRecord<H::Mat>,
        shift: S,
        facing: F,
        out: Option<HitRecord<H::Mat>>,
    ) -> bool {
        match self.hittable.found(moved_r, t_min, t_max, before) {
            None => out is None,
            Some(rec) => exists|p: Point3, d: Scalar|
                {
                    &&& #[trigger] call_ensures(shift, (rec.p,), p)
                    &&& #[trigger] call_ensures(facing, (rec.normal,), d)
                    &&& out == Some(brought_back(rec, p, rec.normal, d))
                },
        }
    }

    pub fn new(hittable: Arc<H>, displacement: Vec3) -> (r: Translate<H>)
        ensures
            r == (Translate { hittable, displacement }),
    {
        Translate { hittable, displacement }
    }

    pub fn arc(self) -> (r: Arc<Translate<H>>)
        ensures
            *r == self,
    {
        Arc::new(self)
    }

    /// Whether the ray hits the moved object. `moved_r` is the ray moved
    /// back by the displacement.
    pub fn hit<S: Fn(Point3) -> Point3, F: Fn(Vec3) -> Scalar>(
        &self,
        moved_r: &Ray,
        t_min: Scalar,
        t_max: Scalar,
        rec: &mut HitRecord<H::Mat>,
        shift: &S,
        facing: &F,
    ) -> (b: bool)
        requires
            forall|p: Point3| call_requires(*shift, (p,)),
            forall|n: Vec3| call_requires(*facing, (n,)),
        ensures
            self.reports(
                *moved_r,
                t_min,
                t_max,
                *old(rec),
                *shift,
                *facing,
                if b {
                    Some(*final(rec))
                } else {
                    None
                },
            ),
            !b ==> *final(rec) == *old(rec),
    {
        if !self.hittable.hit(moved_r, t_min, t_max, rec) {
            return false;
        }
        rec.p = shift(rec.p);
        let d = facing(rec.normal);
        let normal = rec.normal;
        rec.set_face_normal(d, normal);
        true
    }

    /// The object's bounding box, moved forward by the displacement.
    pub fn bounding_box<S: Fn(Point3) -> Point3>(
        &self,
        time0: Scalar,
        time1: Scalar,
        output_box: &mut AABB,
        shift: &S,
    ) -> (b: bool)
        requires
            forall|p: Point3| call_requires(*shift, (p,)),
        ensures
            b == self.hittable.bounds(time0, time1, *old(output_box)).is_some(),
            b ==> {
                let inner = self.hittable.bounds(time0, time1, *old(output_box)).unwrap();
                &&& call_ensures(*shift, (inner.minimum,), final(output_box).minimum)
                &&& call_ensures(*shift, (inner.maximum,), final(output_box).maximum)
            },
    {
        if !self.hittable.bounding_box(time0, time1, output_box) {
            return false;
        }
        *output_box = AABB::new(shift(output_box.minimum), shift(output_box.maximum));
        true
    }
}

/// An object turned round the y axis by a fixed angle.
pub struct RotateY<H> {
    pub hittable: Arc<H>,
    pub sin_theta: Scalar,
    pub cos_theta: Scalar,
    pub has_box: bool,
    pub bbox: AABB,
}

impl<H: Hittable> RotateY<H> {
    /// Whether `out` is what a query may report, where `rotated_r` is the
    /// ray turned into the object's frame, `turn_back` turns a point or a
    /// direction back and `facing` gives the dot product of the turned ray's
    /// direction and a normal: what the object itself reports for
    /// `rotated_r`, with the place and the normal turned back and the normal
    /// turned against the ray again.
    pub open spec fn reports<T: Fn(Vec3) -> Vec3, F: Fn(Vec3) -> Scalar>(
        self,
        rotated_r: Ray,
        t_min: Scalar,
        t_max: Scalar,
        before: HitRecord<H::Mat>,
        turn_back: T,
        facing: F,
        out: Option<HitRecord<H::Mat>>,
    ) -> bool {
        match self.hittable.found(rotated_r, t_min, t_max, before) {
            None => out is None,
            Some(rec) => exists|p: Point3, normal: Vec3, d: Scalar|
                {
                    &&& #[trigger] call_ensures(turn_back, (rec.p,), p)
                    &&& #[trigger] call_ensures(turn_back, (rec.normal,), normal)
                    &&& #[trigger] call_ensures(facing, (normal,), d)
                    &&& out == Some(brought_back(rec, p, normal, d))
                },
        }
    }

    /// An object turned by the angle whose sine and cosine are given.
    /// `corners` gives the eight corners of a box, turned by that angle; the
    /// box of the turned object is the smallest one round them.
    pub fn new<C: Fn(&AABB) -> [Vec3; 8]>(
        hittable: Arc<H>,
        sin_theta: Scalar,
        cos_theta: Scalar,
        corners: &C,
    ) -> (r: RotateY<H>)
        requires
            forall|b: &AABB| call_requires(*corners, (b,)),
        ensures
            r.hittable == hittable,
            r.sin_theta == sin_theta,
            r.cos_theta == cos_theta,
            r.has_box == hittable.bounds(
                Scalar { bits: 0 },
                Scalar { bits: ONE_BITS },
                AABB::default_box(),
            ).is_some(),
            exists|inner: AABB, turned: [Vec3; 8]|
                {
                    &&& #[trigger] call_ensures(*corners, (&inner,), turned)
                    &&& r.has_box ==> inner == hittable.bounds(
                        Scalar { bits: 0 },
                        Scalar { bits: ONE_BITS },
                        AABB::default_box(),
                    ).unwrap()
                    &&& r.bbox == AABB::enclosure(turned@)
                },
    {
        let mut bbox = AABB::default();
        let has_box = hittable.bounding_box(Scalar::zero(), Scalar::one(), &mut bbox);
        let turned = corners(&bbox);
        let bbox = AABB::around(turned.as_slice());
        RotateY { hittable, sin_theta, cos_theta, has_box, bbox }
    }

    pub fn arc(self) -> (r: Arc<RotateY<H>>)
        ensures
            *r == self,
    {
        Arc::new(self)
    }

    /// Whether the ray hits the turned object. `rotated_r` is the ray turned
    /// into the object's frame.
    pub fn hit<T: Fn(Vec3) -> Vec3, F: Fn(Vec3) -> Scalar>(
        &self,
        rotated_r: &Ray,
        t_min: Scalar,
        t_max: Scalar,
        rec: &mut HitRecord<H::Mat>,
        turn_back: &T,
        facing: &F,
    ) -> (b: bool)
        requires
            forall|p: Vec3| call_requires(*turn_back, (p,)),
            forall|n: Vec3| call_requires(*facing, (n,)),
        ensures
            self.reports(
                *rotated_r,
                t_min,
                t_max,
                *old(rec),
                *turn_back,
                *facing,
                if b {
                    Some(*final(rec))
                } else {
                    None
                },
            ),
            !b ==> *final(rec) == *old(rec),
    {
        if !self.hittable.hit(rotated_r, t_min, t_max, rec) {
            return false;
        }
        let p = turn_back(rec.p);
        let normal = turn_back(rec.normal);
        rec.p = p;
        let d = facing(normal);
        rec.set_face_normal(d, normal);
        true
    }

    pub fn bounding_box(&self, _time0: Scalar, _time1: Scalar, output_box: &mut AABB) -> (b: bool)
        ensures
            b == self.has_box,
            *final(output_box) == self.bbox,
    {
        *output_box = self.bbox;
        self.has_box
    }
}

/// `Arc::clone`, which gives another handle to the same value.
#[verifier::external_body]
pub(crate) fn share<T>(a: &Arc<T>) -> (r: Arc<T>)
    ensures
        r == *a,
{
    Arc::clone(a)
}

} // verus!
