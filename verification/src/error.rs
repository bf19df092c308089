//! What ends a resolution early.

use vstd::prelude::*;

verus! {

/// `serde_json::Error`, what a JSON decoder fails with. The value is opaque
/// here: it is carried from the caller's decoder into a `ParseError`, unread.
#[verifier::external_type_specification]
#[verifier::external_body]
pub struct ExJsonError(serde_json::Error);

/// `reqwest::Error`, what an HTTP transfer fails with. The value is opaque
/// here: it is carried from the caller's transfer into a `ParseError`, unread.
#[verifier::external_type_specification]
#[verifier::external_body]
pub struct ExTransferError(reqwest::Error);

/// `std::io::Error`, what reading a response body fails with. The value is
/// opaque here: it is carried from the caller into a `ParseError`, unread.
#[verifier::external_type_specification]
#[verifier::external_body]
pub struct ExReadError(std::io::Error);

/// Why a table could not be resolved.
#[derive(Debug)]
pub enum ParseError {
    /// The entry URL is no HTTP URL, or ends in none of `.json`, `.htm`, `.html`.
    UnSupportedURLFormat,
    /// A document was there but does not hold what it must; the text says what is wrong.
    CorruptedHeaderData(String),
    /// A document is not JSON of the expected shape.
    SerdeError(serde_json::Error),
    /// A transfer failed, or was answered with a failure status.
    ReqwestError(reqwest::Error),
    /// A response body could not be read.
    IOError(std::io::Error),
}

/// A `ParseError` with its text as characters.
pub ghost enum Failure {
    UnSupportedURLFormat,
    CorruptedHeaderData(Seq<char>),
    SerdeError(serde_json::Error),
    ReqwestError(reqwest::Error),
    IOError(std::io::Error),
}

impl View for ParseError {
    type V = Failure;

    open spec fn view(&self) -> Failure {
        match *self {
            ParseError::UnSupportedURLFormat => Failure::UnSupportedURLFormat,
            ParseError::CorruptedHeaderData(detail) => Failure::CorruptedHeaderData(detail@),
            ParseError::SerdeError(e) => Failure::SerdeError(e),
            ParseError::ReqwestError(e) => Failure::ReqwestError(e),
            ParseError::IOError(e) => Failure::IOError(e),
        }
    }
}

impl ParseError {
    /// The error for a document that is there but wrong, with `detail` as its text.
    pub fn corrupted(detail: &str) -> (e: ParseError)
        ensures
            e@ == Failure::CorruptedHeaderData(detail@),
    {
        ParseError::CorruptedHeaderData(String::from_str(detail))
    }
}

} // verus!
