use crate::aabb::AABB;
use crate::attribute::Attribute;
use crate::hittable::share;
use crate::hittable::HitRecord;
use crate::scalar::Scalar;
use crate::scalar::MILLIONTH_BITS;
use crate::scalar::ONE_BITS;
use crate::vec2::Vec2;
use crate::vec3::Point3;
use crate::vec3::Vec3;
use std::sync::Arc;
use vstd::prelude::*;

verus! {

/// A triangle with a normal and a surface coordinate at each corner.
pub struct Triangle<M> {
    pub position: Attribute<Vec3>,
    pub normal: Attribute<Vec3>,
    pub uv: Attribute<Vec2>,
    pub face_normal: Vec3,
    pub material: Arc<M>,
}

/// How a ray's line meets the plane of a triangle, as the caller has worked
/// it out.
#[derive(Clone, Copy, Debug)]
pub struct TriangleCrossing {
    /// The determinant: the dot product of the first edge and the cross
    /// product of the ray's direction and the second edge.
    pub d: Scalar,
    /// The ray parameter of the place.
    pub t: Scalar,
    /// The weights of the second and third corner at the place.
    pub u: Scalar,
    pub v: Scalar,
    /// The sum of the two weights.
    pub weight: Scalar,
    /// The place itself.
    pub p: Point3,
    /// The corner normals, weighted.
    pub outward_normal: Vec3,
    /// The corner surface coordinates, weighted.
    pub uv: Vec2,
    /// The dot product of the ray's direction and the face normal.
    pub facing: Scalar,
}

impl TriangleCrossing {
    /// The ray runs all but parallel to the plane: the determinant lies
    /// strictly between minus and plus one millionth.
    pub open spec fn parallel(self) -> bool {
        let eps = Scalar { bits: MILLIONTH_BITS };
        self.d.greater(eps.negated()) && self.d.less(eps)
    }

    /// The place lies in the triangle: neither weight is below zero or above
    /// one, and their sum is not above one.
    pub open spec fn inside(self) -> bool {
        let zero = Scalar { bits: 0 };
        let one = Scalar { bits: ONE_BITS };
        &&& !(self.u.less(zero) || self.u.greater(one))
        &&& !(self.v.less(zero) || self.v.greater(one) || self.weight.greater(one))
    }

    /// The ray hits the triangle between `t_min` and `t_max`.
    pub open spec fn counts(self, t_min: Scalar, t_max: Scalar) -> bool {
        &&& !self.parallel()
        &&& !(self.t.less(t_min) || t_max.less(self.t))
        &&& self.inside()
    }
}

impl<M> Triangle<M> {
    /// What `hit` reports: the place, the weighted normal turned by the side
    /// of the face that the ray runs against, the weighted surface
    /// coordinates, the triangle's material and no colour of its own.
    pub open spec fn found(
        self,
        crossing: TriangleCrossing,
        t_min: Scalar,
        t_max: Scalar,
        before: HitRecord<M>,
    ) -> Option<HitRecord<M>> {
        if crossing.counts(t_min, t_max) {
            Some(
                HitRecord {
                    t: crossing.t,
                    p: crossing.p,
                    u: crossing.uv.x,
                    v: crossing.uv.y,
                    material: Some(self.material),
                    override_color: None,
                    ..before
                }.facing(crossing.facing.less(Scalar { bits: 0 }), crossing.outward_normal),
            )
        } else {
            None
        }
    }

    /// The box around the three corners.
    pub open spec fn bounds(self) -> AABB {
        let Attribute { a, b, c } = self.position;
        AABB { minimum: a.min_of(b).min_of(c), maximum: a.max_of(b).max_of(c) }
    }

    /// A triangle of the corners given. `face_normal` is the unit normal of
    /// its plane: the cross product of the edges from the first corner to
    /// the second and to the third, scaled to length one.
    pub fn new(
        position: Attribute<Vec3>,
        normal: Attribute<Vec3>,
        uv: Attribute<Vec2>,
        face_normal: Vec3,
        material: Arc<M>,
    ) -> (r: Arc<Triangle<M>>)
        ensures
            *r == (Triangle { position, normal, uv, face_normal, material }),
    {
        Arc::new(Triangle { position, normal, uv, face_normal, material })
    }

    /// Whether the ray whose crossing is given hits the triangle between
    /// `t_min` and `t_max`. On a hit the record describes it; on a miss the
    /// record is left as it was.
    pub fn hit(
        &self,
        crossing: &TriangleCrossing,
        t_min: Scalar,
        t_max: Scalar,
        record: &mut HitRecord<M>,
    ) -> (b: bool)
        ensures
            b == self.found(*crossing, t_min, t_max, *old(record)).is_some(),
            b ==> *final(record) == self.found(*crossing, t_min, t_max, *old(record)).unwrap(),
            !b ==> *final(record) == *old(record),
    {
        let eps = Scalar::new(MILLIONTH_BITS);
        if crossing.d > eps.neg() && crossing.d < eps {
            return false;
        }
        if crossing.t < t_min || t_max < crossing.t {
            return false;
        }
        if crossing.u < Scalar::zero() || crossing.u > Scalar::one() {
            return false;
        }
        if crossing.v < Scalar::zero() || crossing.v > Scalar::one() || crossing.weight
            > Scalar::one() {
            return false;
        }
        record.t = crossing.t;
        record.p = crossing.p;
        let front_face = crossing.facing < Scalar::zero();
        record.set_front_face_and_normal(front_face, crossing.outward_normal);
        record.u = crossing.uv.x;
        record.v = crossing.uv.y;
        record.material = Some(share(&self.material));
        record.override_color = None;
        true
    }

    pub fn bounding_box(&self, _time0: Scalar, _time1: Scalar, output_box: &mut AABB) -> (b: bool)
        ensures
            b,
            *final(output_box) == self.bounds(),
    {
        let a = self.position.a;
        let b = self.position.b;
        let c = self.position.c;
        *output_box = AABB::new(a.min(b).min(c), a.max(b).max(c));
        true
    }
}

/// A triangle reports the one place where the ray meets it, where that
/// place is a number: what it finds lies within the distance; it finds the
/// same place whenever that place lies within the distance asked for,
/// whatever the record held before; and it finds nothing where that place
/// lies beyond the distance asked for.
pub proof fn lemma_triangle_is_steady<M>(
    triangle: Triangle<M>,
    crossing: TriangleCrossing,
    t_min: Scalar,
    t1: Scalar,
    t2: Scalar,
    b1: HitRecord<M>,
    b2: HitRecord<M>,
)
    requires
        !t1.nan(),
        !t2.nan(),
        !crossing.t.nan(),
        triangle.found(crossing, t_min, t1, b1) is Some,
    ensures
        ({
            let whole = triangle.found(crossing, t_min, t1, b1).unwrap();
            let again = triangle.found(crossing, t_min, t2, b2);
            &&& whole.t.at_most(t1)
            &&& whole.t.at_most(t2) ==> {
                &&& again matches Some(part)
                &&& part.same_hit(whole)
            }
            &&& t2.less(whole.t) ==> again is None
        }),
{
}

} // verus!
