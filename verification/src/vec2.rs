use crate::scalar::Scalar;
use vstd::prelude::*;

verus! {

/// Two scalars: a place on a surface.
#[derive(Clone, Copy, Debug)]
pub struct Vec2 {
    pub x: Scalar,
    pub y: Scalar,
}

pub type Point2 = Vec2;

impl Vec2 {
    pub fn new(x: Scalar, y: Scalar) -> (r: Vec2)
        ensures
            r == (Vec2 { x, y }),
    {
        Vec2 { x, y }
    }

    /// The two numbers that stand at `index` and behind it.
    pub fn from_array(array: &[Scalar], index: usize) -> (r: Vec2)
        requires
            index + 1 < array@.len(),
        ensures
            r == (Vec2 { x: array@[index as int], y: array@[index + 1] }),
    {
        let x = array[index];
        let y = array[index + 1];
        Vec2 { x, y }
    }
}

impl Default for Vec2 {
    fn default() -> (r: Vec2)
        ensures
            r == (Vec2 { x: Scalar { bits: 0 }, y: Scalar { bits: 0 } }),
    {
        Vec2 { x: Scalar::zero(), y: Scalar::zero() }
    }
}

} // verus!
