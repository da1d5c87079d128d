use vstd::prelude::*;

verus! {

/// `std::io::Error`, the error of the I/O that readers and writers of logs and resource
/// controllers perform. Verified code only carries such values through.
#[verifier::external_type_specification]
#[verifier::external_body]
pub struct ExIoError(std::io::Error);

} // verus!

