use crate::vec3::Point3;
use crate::vec3::Vec3;
use vstd::prelude::*;

verus! {

/// A half-line: the points `orig + t * dir`.
#[derive(Clone, Copy, Debug)]
pub struct Ray {
    pub orig: Point3,
    pub dir: Vec3,
}

impl Ray {
    pub fn new(orig: Point3, dir: Vec3) -> (r: Ray)
        ensures
            r == (Ray { orig, dir }),
    {
        Ray { orig, dir }
    }
}

impl Default for Ray {
    fn default() -> (r: Ray)
        ensures
            r == (Ray { orig: Vec3::origin(), dir: Vec3::origin() }),
    {
        Ray { orig: Vec3::zero(), dir: Vec3::zero() }
    }
}

} // verus!
