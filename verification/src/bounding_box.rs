//! An axis-aligned bounding box over binary32 coordinates.

use vstd::prelude::*;
use crate::binary32::is_nan_bits;
use crate::binary32::lemma_max_absorb;
use crate::binary32::lemma_max_assoc;
use crate::binary32::lemma_max_comm;
use crate::binary32::lemma_min_absorb;
use crate::binary32::lemma_min_assoc;
use crate::binary32::lemma_min_comm;
use crate::binary32::max32;
use crate::binary32::max_bits;
use crate::binary32::min32;
use crate::binary32::min_bits;
use crate::coordinate::Coordinate;

verus! {

/// `min` and `max` corners of the box. A freshly constructed box sits at the
/// origin; folding zero points into it leaves it there.
#[derive(Clone, Copy, Debug, PartialEq, Eq, Structural)]
pub struct BoundingBox {
    pub min: Coordinate,
    pub max: Coordinate,
}

/// The box grown to include the three given points: on every axis the new
/// `min` (`max`) is the binary32 minimum (maximum) of the old one and the
/// three points' components.
pub open spec fn expand_spec(b: BoundingBox, p: Coordinate, q: Coordinate, r: Coordinate) -> BoundingBox {
    BoundingBox {
        min: Coordinate {
            x: min_bits(b.min.x, min_bits(p.x, min_bits(q.x, r.x))),
            y: min_bits(b.min.y, min_bits(p.y, min_bits(q.y, r.y))),
            z: min_bits(b.min.z, min_bits(p.z, min_bits(q.z, r.z))),
        },
        max: Coordinate {
            x: max_bits(b.max.x, max_bits(p.x, max_bits(q.x, r.x))),
            y: max_bits(b.max.y, max_bits(p.y, max_bits(q.y, r.y))),
            z: max_bits(b.max.z, max_bits(p.z, max_bits(q.z, r.z))),
        },
    }
}

/// No component of the coordinate is a NaN bit pattern.
pub open spec fn coord_not_nan(c: Coordinate) -> bool {
    &&& !is_nan_bits(c.x)
    &&& !is_nan_bits(c.y)
    &&& !is_nan_bits(c.z)
}

/// No corner component of the box is a NaN bit pattern.
pub open spec fn box_not_nan(b: BoundingBox) -> bool {
    coord_not_nan(b.min) && coord_not_nan(b.max)
}

impl BoundingBox {
    /// A box whose two corners both sit at the origin.
    pub fn zeroed() -> (r: BoundingBox)
        ensures
            r == zeroed_spec(),
    {
        BoundingBox { min: Coordinate::origin(), max: Coordinate::origin() }
    }

    /// Purely functional growth of the box to cover three more points.
    pub fn expand_to_include(&self, p: &Coordinate, q: &Coordinate, r: &Coordinate) -> (out: BoundingBox)
        ensures
            out == expand_spec(*self, *p, *q, *r),
    {
        BoundingBox {
            min: Coordinate {
                x: min32(self.min.x, min32(p.x, min32(q.x, r.x))),
                y: min32(self.min.y, min32(p.y, min32(q.y, r.y))),
                z: min32(self.min.z, min32(p.z, min32(q.z, r.z))),
            },
            max: Coordinate {
                x: max32(self.max.x, max32(p.x, max32(q.x, r.x))),
                y: max32(self.max.y, max32(p.y, max32(q.y, r.y))),
                z: max32(self.max.z, max32(p.z, max32(q.z, r.z))),
            },
        }
    }

    /// The 8 corner points of the rectangular volume the box bounds, ordered
    /// by varying z fastest, then y, then x: min corner first, max corner
    /// last. For display and debugging only.
    pub fn rectangle(&self) -> (r: [Coordinate; 8])
        ensures
            r@ == rectangle_spec(*self),
    {
        [
            Coordinate { x: self.min.x, y: self.min.y, z: self.min.z },
            Coordinate { x: self.min.x, y: self.min.y, z: self.max.z },
            Coordinate { x: self.min.x, y: self.max.y, z: self.min.z },
            Coordinate { x: self.min.x, y: self.max.y, z: self.max.z },
            Coordinate { x: self.max.x, y: self.min.y, z: self.min.z },
            Coordinate { x: self.max.x, y: self.min.y, z: self.max.z },
            Coordinate { x: self.max.x, y: self.max.y, z: self.min.z },
            Coordinate { x: self.max.x, y: self.max.y, z: self.max.z },
        ]
    }
}

/// The box with both corners at the origin.
pub open spec fn zeroed_spec() -> BoundingBox {
    BoundingBox {
        min: Coordinate { x: 0u32, y: 0u32, z: 0u32 },
        max: Coordinate { x: 0u32, y: 0u32, z: 0u32 },
    }
}

/// The corner sequence of `rectangle`, z varying fastest, then y, then x.
pub open spec fn rectangle_spec(b: BoundingBox) -> Seq<Coordinate> {
    seq![
        Coordinate { x: b.min.x, y: b.min.y, z: b.min.z },
        Coordinate { x: b.min.x, y: b.min.y, z: b.max.z },
        Coordinate { x: b.min.x, y: b.max.y, z: b.min.z },
        Coordinate { x: b.min.x, y: b.max.y, z: b.max.z },
        Coordinate { x: b.max.x, y: b.min.y, z: b.min.z },
        Coordinate { x: b.max.x, y: b.min.y, z: b.max.z },
        Coordinate { x: b.max.x, y: b.max.y, z: b.min.z },
        Coordinate { x: b.max.x, y: b.max.y, z: b.max.z },
    ]
}

/// Including the same three points a second time does not change the box.
pub proof fn lemma_expand_idempotent(b: BoundingBox, p: Coordinate, q: Coordinate, r: Coordinate)
    ensures
        expand_spec(expand_spec(b, p, q, r), p, q, r) == expand_spec(b, p, q, r),
{
    let b1 = expand_spec(b, p, q, r);
    assert(b1.min.x == min_bits(b1.min.x, min_bits(p.x, min_bits(q.x, r.x)))) by {
        lemma_min_absorb(b.min.x, min_bits(p.x, min_bits(q.x, r.x)));
    }
    assert(b1.min.y == min_bits(b1.min.y, min_bits(p.y, min_bits(q.y, r.y)))) by {
        lemma_min_absorb(b.min.y, min_bits(p.y, min_bits(q.y, r.y)));
    }
    assert(b1.min.z == min_bits(b1.min.z, min_bits(p.z, min_bits(q.z, r.z)))) by {
        lemma_min_absorb(b.min.z, min_bits(p.z, min_bits(q.z, r.z)));
    }
    assert(b1.max.x == max_bits(b1.max.x, max_bits(p.x, max_bits(q.x, r.x)))) by {
        lemma_max_absorb(b.max.x, max_bits(p.x, max_bits(q.x, r.x)));
    }
    assert(b1.max.y == max_bits(b1.max.y, max_bits(p.y, max_bits(q.y, r.y)))) by {
        lemma_max_absorb(b.max.y, max_bits(p.y, max_bits(q.y, r.y)));
    }
    assert(b1.max.z == max_bits(b1.max.z, max_bits(p.z, max_bits(q.z, r.z)))) by {
        lemma_max_absorb(b.max.z, max_bits(p.z, max_bits(q.z, r.z)));
    }
}

/// With no NaN among the components, the box does not depend on the order in
/// which two point triples are folded in.
pub proof fn lemma_expand_commutes(
    b: BoundingBox,
    p: Coordinate,
    q: Coordinate,
    r: Coordinate,
    p2: Coordinate,
    q2: Coordinate,
    r2: Coordinate,
)
    requires
        box_not_nan(b),
        coord_not_nan(p),
        coord_not_nan(q),
        coord_not_nan(r),
        coord_not_nan(p2),
        coord_not_nan(q2),
        coord_not_nan(r2),
    ensures
        expand_spec(expand_spec(b, p, q, r), p2, q2, r2) == expand_spec(
            expand_spec(b, p2, q2, r2),
            p,
            q,
            r,
        ),
{
    lemma_axis_min_swap(b.min.x, p.x, q.x, r.x, p2.x, q2.x, r2.x);
    lemma_axis_min_swap(b.min.y, p.y, q.y, r.y, p2.y, q2.y, r2.y);
    lemma_axis_min_swap(b.min.z, p.z, q.z, r.z, p2.z, q2.z, r2.z);
    lemma_axis_max_swap(b.max.x, p.x, q.x, r.x, p2.x, q2.x, r2.x);
    lemma_axis_max_swap(b.max.y, p.y, q.y, r.y, p2.y, q2.y, r2.y);
    lemma_axis_max_swap(b.max.z, p.z, q.z, r.z, p2.z, q2.z, r2.z);
}

proof fn lemma_axis_min_swap(m: u32, a: u32, c: u32, d: u32, a2: u32, c2: u32, d2: u32)
    requires
        !is_nan_bits(m),
        !is_nan_bits(a),
        !is_nan_bits(c),
        !is_nan_bits(d),
        !is_nan_bits(a2),
        !is_nan_bits(c2),
        !is_nan_bits(d2),
    ensures
        min_bits(min_bits(m, min_bits(a, min_bits(c, d))), min_bits(a2, min_bits(c2, d2)))
            == min_bits(min_bits(m, min_bits(a2, min_bits(c2, d2))), min_bits(a, min_bits(c, d))),
{
    let g = min_bits(a, min_bits(c, d));
    let h = min_bits(a2, min_bits(c2, d2));
    lemma_min_assoc(m, g, h);
    lemma_min_assoc(m, h, g);
    lemma_min_comm(g, h);
}

proof fn lemma_axis_max_swap(m: u32, a: u32, c: u32, d: u32, a2: u32, c2: u32, d2: u32)
    requires
        !is_nan_bits(m),
        !is_nan_bits(a),
        !is_nan_bits(c),
        !is_nan_bits(d),
        !is_nan_bits(a2),
        !is_nan_bits(c2),
        !is_nan_bits(d2),
    ensures
        max_bits(max_bits(m, max_bits(a, max_bits(c, d))), max_bits(a2, max_bits(c2, d2)))
            == max_bits(max_bits(m, max_bits(a2, max_bits(c2, d2))), max_bits(a, max_bits(c, d))),
{
    let g = max_bits(a, max_bits(c, d));
    let h = max_bits(a2, max_bits(c2, d2));
    lemma_max_assoc(m, g, h);
    lemma_max_assoc(m, h, g);
    lemma_max_comm(g, h);
}

} // verus!
