//! Declarations of the outside types that the library carries through its
//! values without looking inside them.
use vstd::prelude::*;

verus! {

/// An I/O error of the standard library, carried by the read and write
/// error variants.
#[verifier::external_type_specification]
#[verifier::external_body]
pub struct IoErrorType(std::io::Error);

} // verus!
