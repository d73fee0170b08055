//! The decoded triangle mesh: an optional name and an ordered facet sequence.

use vstd::prelude::*;
use crate::binary32::add_bits;
use crate::bounding_box::zeroed_spec;
use crate::bounding_box::BoundingBox;
use crate::facet::surface_area_spec;
use crate::facet::Facet;

verus! {

/// An optional name (only the text encoding carries one) and the facets in
/// file order. Built wholly by a decoder in one pass and read-only after.
#[derive(Debug)]
pub struct Solid {
    pub name: Option<Vec<u8>>,
    pub facets: Vec<Facet>,
}

/// Binary32 sum of the areas of the first `n` facets, added in sequence
/// order starting from positive zero.
pub open spec fn area_fold(fs: Seq<Facet>, n: int) -> u32
    decreases n,
{
    if n <= 0 {
        0u32
    } else {
        add_bits(area_fold(fs, n - 1), surface_area_spec(fs[n - 1]))
    }
}

/// The zeroed box grown over the vertices of the first `n` facets, folded in
/// sequence order.
pub open spec fn bbox_fold(fs: Seq<Facet>, n: int) -> BoundingBox
    decreases n,
{
    if n <= 0 {
        zeroed_spec()
    } else {
        let b = bbox_fold(fs, n - 1);
        let f = fs[n - 1];
        crate::bounding_box::expand_spec(b, f.vertices.0, f.vertices.1, f.vertices.2)
    }
}

impl Solid {
    /// Does some basic analysis of the solid: the number of triangles, the
    /// total surface area (overlapping facets are summed, not corrected),
    /// and a bounding box that just fits the shape.
    pub fn analyze(&self) -> (r: (usize, u32, BoundingBox))
        ensures
            r.0 == self.facets@.len(),
            r.1 == area_fold(self.facets@, self.facets@.len() as int),
            r.2 == bbox_fold(self.facets@, self.facets@.len() as int),
    {
        let mut total_surface_area: u32 = 0;
        let mut solid_bounding_box = BoundingBox::zeroed();
        let n = self.facets.len();
        let mut i: usize = 0;
        while i < n
            invariant
                n == self.facets@.len(),
                i <= n,
                total_surface_area == area_fold(self.facets@, i as int),
                solid_bounding_box == bbox_fold(self.facets@, i as int),
            decreases n - i,
        {
            let facet = &self.facets[i];
            total_surface_area = crate::binary32::add32(total_surface_area, facet.surface_area());
            solid_bounding_box = facet.update_bounding_box(solid_bounding_box);
            i = i + 1;
        }
        (n, total_surface_area, solid_bounding_box)
    }
}

/// A solid with no facets analyzes to a zero count, an area of positive zero
/// and the box at the origin.
pub proof fn lemma_analyze_empty(fs: Seq<Facet>)
    requires
        fs.len() == 0,
    ensures
        area_fold(fs, fs.len() as int) == 0u32,
        bbox_fold(fs, fs.len() as int) == zeroed_spec(),
{
}

} // verus!
