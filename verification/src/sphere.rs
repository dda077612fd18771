use crate::hittable::share;
use crate::hittable::HitRecord;
use crate::scalar::Scalar;
use crate::vec3::Point3;
use crate::vec3::Vec3;
use std::sync::Arc;
use vstd::prelude::*;

verus! {

/// A sphere.
pub struct Sphere<M> {
    pub center: Point3,
    pub radius: Scalar,
    pub material: Arc<M>,
}

/// A place where a ray meets a sphere, as the caller has worked it out.
#[derive(Clone, Copy, Debug)]
pub struct Root {
    /// The ray parameter of the place.
    pub t: Scalar,
    /// The place itself.
    pub p: Point3,
    /// The unit normal that points away from the centre.
    pub outward_normal: Vec3,
    /// The surface coordinates of the place.
    pub u: Scalar,
    pub v: Scalar,
    /// The dot product of the ray's direction and the outward normal.
    pub facing: Scalar,
}

/// How a ray's line meets a sphere: the discriminant of the quadratic
/// equation for the ray parameter, and what becomes of its two roots.
#[derive(Clone, Copy, Debug)]
pub struct SphereCrossing {
    pub discriminant: Scalar,
    /// The root with the square root subtracted.
    pub near: Root,
    /// The root with the square root added.
    pub far: Root,
}

impl Root {
    /// The root lies outside the distances asked for.
    pub open spec fn outside(self, t_min: Scalar, t_max: Scalar) -> bool {
        self.t.less(t_min) || t_max.less(self.t)
    }
}

impl SphereCrossing {
    /// The root that counts as the hit: none where the discriminant is below
    /// zero; else the near root unless it lies outside the distances asked
    /// for; else the far root unless that lies outside too.
    pub open spec fn chosen(self, t_min: Scalar, t_max: Scalar) -> Option<Root> {
        if self.discriminant.less(Scalar { bits: 0 }) {
            None
        } else if !self.near.outside(t_min, t_max) {
            Some(self.near)
        } else if !self.far.outside(t_min, t_max) {
            Some(self.far)
        } else {
            None
        }
    }
}

impl<M> Sphere<M> {
    /// What `hit` reports: for the chosen root, its place and surface
    /// coordinates, the normal turned against the ray, and the sphere's
    /// material. The colour of its own that the record may carry is left as
    /// it was.
    pub open spec fn found(
        self,
        crossing: SphereCrossing,
        t_min: Scalar,
        t_max: Scalar,
        before: HitRecord<M>,
    ) -> Option<HitRecord<M>> {
        match crossing.chosen(t_min, t_max) {
            None => None,
            Some(root) => Some(
                HitRecord {
                    t: root.t,
                    p: root.p,
                    u: root.u,
                    v: root.v,
                    material: Some(self.material),
                    ..before
                }.facing(root.facing.less(Scalar { bits: 0 }), root.outward_normal),
            ),
        }
    }

    pub fn new(center: Point3, radius: Scalar, material: Arc<M>) -> (r: Arc<Sphere<M>>)
        ensures
            *r == (Sphere { center, radius, material }),
    {
        Arc::new(Sphere { center, radius, material })
    }

    /// Whether the ray whose crossing is given hits the sphere between
    /// `t_min` and `t_max`. On a hit the record describes it; on a miss the
    /// record is left as it was.
    pub fn hit(
        &self,
        crossing: &SphereCrossing,
        t_min: Scalar,
        t_max: Scalar,
        record: &mut HitRecord<M>,
    ) -> (b: bool)
        ensures
            b == self.found(*crossing, t_min, t_max, *old(record)).is_some(),
            b ==> *final(record) == self.found(*crossing, t_min, t_max, *old(record)).unwrap(),
            !b ==> *final(record) == *old(record),
    {
        if crossing.discriminant < Scalar::zero() {
            return false;
        }
        let mut root = crossing.near;
        if root.t < t_min || t_max < root.t {
            root = crossing.far;
            if root.t < t_min || t_max < root.t {
                return false;
            }
        }
        record.t = root.t;
        record.p = root.p;
        record.u = root.u;
        record.v = root.v;
        record.set_face_normal(root.facing, root.outward_normal);
        record.material = Some(share(&self.material));
        true
    }
}

/// A sphere reports the nearer of its two roots that lies within the
/// distances asked for, where the roots are numbers in their order: what it
/// finds lies within the distance; it finds the same root whenever that root
/// lies within the distance asked for, whatever the record held before; and
/// it finds nothing where that root lies beyond the distance asked for.
pub proof fn lemma_sphere_is_steady<M>(
    sphere: Sphere<M>,
    crossing: SphereCrossing,
    t_min: Scalar,
    t1: Scalar,
    t2: Scalar,
    b1: HitRecord<M>,
    b2: HitRecord<M>,
)
    requires
        !t1.nan(),
        !t2.nan(),
        !crossing.near.t.nan(),
        !crossing.far.t.nan(),
        crossing.near.t.at_most(crossing.far.t),
        sphere.found(crossing, t_min, t1, b1) is Some,
    ensures
        ({
            let whole = sphere.found(crossing, t_min, t1, b1).unwrap();
            let again = sphere.found(crossing, t_min, t2, b2);
            &&& whole.t.at_most(t1)
            &&& whole.t.at_most(t2) ==> {
                &&& again matches Some(part)
                &&& part.same_hit(whole)
            }
            &&& t2.less(whole.t) ==> again is None
        }),
{
}

} // verus!
