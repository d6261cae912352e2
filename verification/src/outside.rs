//! Types from std and from outside crates that the library carries without
//! looking inside.
use vstd::prelude::*;

verus! {

/// `std::path::PathBuf`, carried opaquely in entries.
#[verifier::external_type_specification]
#[verifier::external_body]
pub struct ExPathBuf(std::path::PathBuf);

/// `anyhow::Error`, the failure a directory scan reports.
#[verifier::external_type_specification]
#[verifier::external_body]
pub struct ExAnyhowError(anyhow::Error);

}
