use crate::scalar::fmax;
use crate::scalar::fmin;
use crate::scalar::Scalar;
use crate::scalar::HUNDRED_MILLIONTH_BITS;
use vstd::prelude::*;

verus! {

/// Three scalars: a direction, a point or a colour.
#[derive(Clone, Copy, Debug)]
pub struct Vec3 {
    pub x: Scalar,
    pub y: Scalar,
    pub z: Scalar,
}

pub type Point3 = Vec3;

pub type Color = Vec3;

impl Vec3 {
    /// The component on axis 0, 1 or 2.
    pub open spec fn at(self, axis: int) -> Scalar {
        if axis == 0 {
            self.x
        } else if axis == 1 {
            self.y
        } else {
            self.z
        }
    }

    /// No component is a NaN.
    pub open spec fn numeric(self) -> bool {
        !self.x.nan() && !self.y.nan() && !self.z.nan()
    }

    /// Component by component the same number (the two zeros count as one).
    pub open spec fn same(self, other: Vec3) -> bool {
        self.x.same(other.x) && self.y.same(other.y) && self.z.same(other.z)
    }

    /// The component-wise smaller, as `Scalar::min_of` picks it.
    pub open spec fn min_of(self, other: Vec3) -> Vec3 {
        Vec3 { x: self.x.min_of(other.x), y: self.y.min_of(other.y), z: self.z.min_of(other.z) }
    }

    /// The component-wise larger, as `Scalar::max_of` picks it.
    pub open spec fn max_of(self, other: Vec3) -> Vec3 {
        Vec3 { x: self.x.max_of(other.x), y: self.y.max_of(other.y), z: self.z.max_of(other.z) }
    }

    /// Every component is closer to zero than one part in a hundred million.
    pub open spec fn tiny(self) -> bool {
        let s = Scalar { bits: HUNDRED_MILLIONTH_BITS };
        &&& !self.x.nan() && self.x.magnitude() < s.magnitude()
        &&& !self.y.nan() && self.y.magnitude() < s.magnitude()
        &&& !self.z.nan() && self.z.magnitude() < s.magnitude()
    }

    /// The vector of three zeros.
    pub open spec fn origin() -> Vec3 {
        Vec3 { x: Scalar { bits: 0 }, y: Scalar { bits: 0 }, z: Scalar { bits: 0 } }
    }

    /// The vector with every sign flipped.
    pub open spec fn negated(self) -> Vec3 {
        Vec3 { x: self.x.negated(), y: self.y.negated(), z: self.z.negated() }
    }

    pub fn new(x: Scalar, y: Scalar, z: Scalar) -> (r: Vec3)
        ensures
            r == (Vec3 { x, y, z }),
    {
        Vec3 { x, y, z }
    }

    /// The three numbers that stand at `index` and behind it.
    pub fn from_array(array: &[Scalar], index: usize) -> (r: Vec3)
        requires
            index + 2 < array@.len(),
        ensures
            r == (Vec3 { x: array@[index as int], y: array@[index + 1], z: array@[index + 2] }),
    {
        let x = array[index];
        let y = array[index + 1];
        let z = array[index + 2];
        Vec3 { x, y, z }
    }

    pub fn zero() -> (r: Vec3)
        ensures
            r == Vec3::origin(),
    {
        Vec3 { x: Scalar::zero(), y: Scalar::zero(), z: Scalar::zero() }
    }

    /// The component on `axis`.
    pub fn get(&self, axis: usize) -> (r: Scalar)
        requires
            axis < 3,
        ensures
            r == self.at(axis as int),
    {
        if axis == 0 {
            self.x
        } else if axis == 1 {
            self.y
        } else {
            self.z
        }
    }

    /// Replaces the component on `axis`.
    pub fn set(&mut self, axis: usize, value: Scalar)
        requires
            axis < 3,
        ensures
            final(self).at(axis as int) == value,
            forall|a: int| 0 <= a < 3 && a != axis ==> final(self).at(a) == old(self).at(a),
    {
        if axis == 0 {
            self.x = value;
        } else if axis == 1 {
            self.y = value;
        } else {
            self.z = value;
        }
    }

    pub fn min(self, other: Vec3) -> (r: Vec3)
        ensures
            r == self.min_of(other),
    {
        Vec3 { x: fmin(self.x, other.x), y: fmin(self.y, other.y), z: fmin(self.z, other.z) }
    }

    pub fn max(self, other: Vec3) -> (r: Vec3)
        ensures
            r == self.max_of(other),
    {
        Vec3 { x: fmax(self.x, other.x), y: fmax(self.y, other.y), z: fmax(self.z, other.z) }
    }

    /// Every component with its sign flipped.
    pub fn neg(self) -> (r: Vec3)
        ensures
            r == self.negated(),
    {
        Vec3 { x: self.x.neg(), y: self.y.neg(), z: self.z.neg() }
    }

    pub fn near_zero(self) -> (r: bool)
        ensures
            r == self.tiny(),
    {
        let s = Scalar::new(HUNDRED_MILLIONTH_BITS);
        self.x.abs() < s && self.y.abs() < s && self.z.abs() < s
    }
}

impl Default for Vec3 {
    fn default() -> (r: Vec3)
        ensures
            r == Vec3::origin(),
    {
        Vec3 { x: Scalar::zero(), y: Scalar::zero(), z: Scalar::zero() }
    }
}

} // verus!
