//! Small integer vectors used for positions, sizes and offsets.

use vstd::prelude::*;

verus! {

/// A signed 3-D integer position or offset.
#[derive(Clone, Copy, Debug, PartialEq, Eq, Structural, Hash)]
pub struct Int3 {
    pub x: i32,
    pub y: i32,
    pub z: i32,
}

/// An unsigned 3-D index or size.
#[derive(Clone, Copy, Debug, PartialEq, Eq, Structural, Hash)]
pub struct USize3 {
    pub x: usize,
    pub y: usize,
    pub z: usize,
}

impl Int3 {
    pub fn new(x: i32, y: i32, z: i32) -> (r: Int3)
        ensures
            r == (Int3 { x, y, z }),
    {
        Int3 { x, y, z }
    }

    pub open spec fn splat_spec(v: i32) -> Int3 {
        Int3 { x: v, y: v, z: v }
    }

    pub fn splat(v: i32) -> (r: Int3)
        ensures
            r == Int3::splat_spec(v),
    {
        Int3 { x: v, y: v, z: v }
    }
}

impl USize3 {
    pub fn new(x: usize, y: usize, z: usize) -> (r: USize3)
        ensures
            r == (USize3 { x, y, z }),
    {
        USize3 { x, y, z }
    }

    /// Number of cells in a box of these sizes.
    pub open spec fn volume_spec(self) -> nat {
        (self.x * self.y * self.z) as nat
    }
}

} // verus!
