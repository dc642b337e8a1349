use vstd::prelude::*;

verus! {

/// `std::time::Instant`, carried through the library as an opaque time stamp.
#[verifier::external_type_specification]
#[verifier::external_body]
pub struct ExInstant(std::time::Instant);

/// `std::path::PathBuf`, carried through the library as an opaque file path.
#[verifier::external_type_specification]
#[verifier::external_body]
pub struct ExPathBuf(std::path::PathBuf);

/// `<PathBuf as Clone>::clone`, which the standard library documents as
/// returning a copy of the path; the specification claims that the copy equals
/// the path it was made from.
pub assume_specification[ <std::path::PathBuf as Clone>::clone ](p: &std::path::PathBuf) -> (r:
    std::path::PathBuf)
    ensures
        r == *p,
;

} // verus!
