//! A three-component coordinate whose components are binary32 bit patterns.

use vstd::prelude::*;
use crate::binary32::add_bits;
use crate::binary32::add32;

verus! {

/// One point or vector: the `x`, `y` and `z` fields hold the bit patterns of
/// the IEEE 754 binary32 components.
#[derive(Clone, Copy, Debug, PartialEq, Eq, Structural)]
pub struct Coordinate {
    pub x: u32,
    pub y: u32,
    pub z: u32,
}

/// Component-wise sum of two coordinates, as binary32 addition on each axis.
pub open spec fn pairwise_add_spec(a: Coordinate, b: Coordinate) -> Coordinate {
    Coordinate { x: add_bits(a.x, b.x), y: add_bits(a.y, b.y), z: add_bits(a.z, b.z) }
}

impl Coordinate {
    /// The coordinate with all three components equal to positive zero.
    pub fn origin() -> (r: Coordinate)
        ensures
            r == (Coordinate { x: 0u32, y: 0u32, z: 0u32 }),
    {
        Coordinate { x: 0, y: 0, z: 0 }
    }

    /// Component-wise sum; used as an intermediate in the area computation.
    pub fn pairwise_add(&self, other: &Coordinate) -> (r: Coordinate)
        ensures
            r == pairwise_add_spec(*self, *other),
    {
        Coordinate {
            x: add32(self.x, other.x),
            y: add32(self.y, other.y),
            z: add32(self.z, other.z),
        }
    }
}

} // verus!
