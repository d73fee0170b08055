//! One triangle: a normal vector and exactly three vertices.

use vstd::prelude::*;
use crate::binary32::add_bits;
use crate::binary32::add32;
use crate::binary32::mul_bits;
use crate::binary32::mul32;
use crate::binary32::sqrt_bits;
use crate::binary32::sqrt32;
use crate::binary32::sub_bits;
use crate::binary32::sub32;
use crate::bounding_box::expand_spec;
use crate::bounding_box::BoundingBox;
use crate::coordinate::pairwise_add_spec;
use crate::coordinate::Coordinate;

verus! {

/// Bit pattern of binary32 one half, the final factor of the area formula.
pub const ONE_HALF_BITS: u32 = 0x3F00_0000;

/// A facet's normal vector (three binary32 bit patterns, not necessarily of
/// unit length) and its three vertices, in the order they were encountered.
#[derive(Clone, Copy, Debug, PartialEq, Eq)]
pub struct Facet {
    pub normal_vector: (u32, u32, u32),
    pub vertices: (Coordinate, Coordinate, Coordinate),
}

/// The facet's surface area, computed over the vertex sums `u = a + b` and
/// `v = a + c` as `sqrt((u.x*v.y - u.y*v.x)^2 + (u.y*v.z - u.z*v.y)^2 +
/// (u.z*v.x - u.x*v.z)^2) * 0.5` in binary32 steps. Note that this uses the
/// vertex sums, not the edge vectors `b - a`, `c - a` of the textbook
/// triangle-area identity; the sums are kept deliberately, to reproduce the
/// established behaviour of the format's consumers.
pub open spec fn surface_area_spec(f: Facet) -> u32 {
    let u = pairwise_add_spec(f.vertices.0, f.vertices.1);
    let v = pairwise_add_spec(f.vertices.0, f.vertices.2);
    let t1 = sub_bits(mul_bits(u.x, v.y), mul_bits(u.y, v.x));
    let t2 = sub_bits(mul_bits(u.y, v.z), mul_bits(u.z, v.y));
    let t3 = sub_bits(mul_bits(u.z, v.x), mul_bits(u.x, v.z));
    mul_bits(
        sqrt_bits(add_bits(add_bits(mul_bits(t1, t1), mul_bits(t2, t2)), mul_bits(t3, t3))),
        ONE_HALF_BITS,
    )
}

impl Facet {
    /// Grows the given box to cover this facet's three vertices.
    pub fn update_bounding_box(&self, bounding_box: BoundingBox) -> (r: BoundingBox)
        ensures
            r == expand_spec(bounding_box, self.vertices.0, self.vertices.1, self.vertices.2),
    {
        bounding_box.expand_to_include(&self.vertices.0, &self.vertices.1, &self.vertices.2)
    }

    /// Finds the surface area of this facet. A solid may have overlapping
    /// facets, so some of this surface area may not count towards the total
    /// for the solid.
    pub fn surface_area(&self) -> (r: u32)
        ensures
            r == surface_area_spec(*self),
    {
        let (a, b, c) = self.vertices;
        let u = a.pairwise_add(&b);
        let v = a.pairwise_add(&c);
        let t1 = sub32(mul32(u.x, v.y), mul32(u.y, v.x));
        let t2 = sub32(mul32(u.y, v.z), mul32(u.z, v.y));
        let t3 = sub32(mul32(u.z, v.x), mul32(u.x, v.z));
        mul32(sqrt32(add32(add32(mul32(t1, t1), mul32(t2, t2)), mul32(t3, t3))), ONE_HALF_BITS)
    }
}

} // verus!
