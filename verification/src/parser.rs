//! Decoders for the two solid encodings, and their shared error vocabulary.

pub mod ascii;
pub mod binary;
pub mod error;
