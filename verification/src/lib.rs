//! Reads a triangle-mesh "solid" stored in either a compact binary layout or
//! a verbose text grammar, and derives three measurements from it: triangle
//! count, total surface area, and an axis-aligned bounding box.
//!
//! Every coordinate component is kept as the bit pattern (`u32`) of an IEEE
//! 754 binary32 number, so that all structural logic is verified over plain
//! integers; the four arithmetic operations on such bit patterns stand behind
//! trusted wrappers around soft-float libraries.

pub mod binary32;
pub mod bounding_box;
pub mod coordinate;
pub mod facet;
pub mod parser;
pub mod solid;
