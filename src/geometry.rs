use vstd::prelude::*;

verus! {

/// A planar vector in whole world units: a muzzle offset in the firing
/// entity's local frame, or a movement direction.
#[derive(Clone, Copy, Debug, PartialEq, Eq, Structural)]
pub struct Offset {
    pub x: i32,
    pub y: i32,
}

impl Offset {
    pub fn new(x: i32, y: i32) -> (r: Offset)
        ensures
            r.x == x,
            r.y == y,
    {
        Offset { x, y }
    }
}

} // verus!
