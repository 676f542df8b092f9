//! Filesystem paths, carried through the library as opaque values.
use vstd::prelude::*;

verus! {

/// `std::path::PathBuf`, which the library only stores and hands back.
#[verifier::external_type_specification]
#[verifier::external_body]
pub struct ExPathBuf(std::path::PathBuf);

} // verus!
