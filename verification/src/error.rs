//! Why a load cannot go on.

use vstd::prelude::*;

verus! {

/// An error of the `csv` crate.
#[verifier::external_type_specification]
#[verifier::external_body]
pub struct ExCsvError(csv::Error);

/// An error of the `serde_json` crate.
#[verifier::external_type_specification]
#[verifier::external_body]
pub struct ExJsonError(serde_json::Error);

/// Why a load cannot go on: in words, or as the format at fault has it.
#[derive(Debug)]
pub enum LoadError {
    Message(String),
    Csv(csv::Error),
    Json(serde_json::Error),
}

} // verus!
