use vstd::prelude::*;

verus! {

/// One value for each corner of a triangle.
#[derive(Debug, Copy, Clone, Default)]
pub struct Attribute<T> {
    pub a: T,
    pub b: T,
    pub c: T,
}

impl<T> Attribute<T> {
    pub fn new(a: T, b: T, c: T) -> (r: Attribute<T>)
        ensures
            r == (Attribute { a, b, c }),
    {
        Attribute { a, b, c }
    }
}

} // verus!
