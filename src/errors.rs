//! The library's error type.
use vstd::prelude::*;

verus! {

/// The decoding error of the base64 crate, carried through unchanged.
#[verifier::external_type_specification]
#[verifier::external_body]
pub struct ExDecodeError(base64::DecodeError);

/// The parsing error of serde_json, carried through unchanged.
#[verifier::external_type_specification]
#[verifier::external_body]
pub struct ExJsonError(serde_json::Error);

/// What a broker worker reports about a task.
#[derive(Debug, Clone, Copy, PartialEq, Eq, Structural)]
pub enum WorkStatus {
    Claimed,
    TempFailed,
    PermFailed,
    Succeeded,
}

/// Why an operation of the library failed.
#[derive(Debug)]
pub enum PrismError {
    /// The configuration could not be used.
    ConfigError(String),
    /// A measure report lacks a part that the reduction reads.
    ParsingError(String),
    /// The broker refused or could not be reached.
    BeamError(String),
    /// A document was not valid JSON of the expected shape.
    DeserializationError(serde_json::Error),
    /// A result body was not valid base64.
    DecodeError(base64::DecodeError),
    /// A result that did not succeed.
    UnexpectedWorkStatus(WorkStatus),
}

} // verus!
