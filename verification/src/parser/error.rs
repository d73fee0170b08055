//! Failure vocabulary of the text decoder.

use vstd::prelude::*;

verus! {

/// Declares `std::io::Error` so that decoder errors can carry the underlying
/// cause of a failed read. The value is opaque and only ever passed through.
#[verifier::external_type_specification]
#[verifier::external_body]
pub struct ExIoError(std::io::Error);

/// What the text decoder can fail with: a failed read of the byte source, or
/// a buffer that does not conform to the grammar. All grammar violations
/// collapse into the one `Unparsable` case; the decoder does not report which
/// rule failed or at what offset.
#[derive(Debug)]
pub enum SolidError {
    IO(std::io::Error),
    Unparsable,
}

} // verus!
