//! The error of the template engine, and the outside error types it carries.
use vstd::prelude::*;

verus! {

#[verifier::external_type_specification]
#[verifier::external_body]
pub struct ExIoError(std::io::Error);

#[verifier::external_type_specification]
#[verifier::external_body]
pub struct ExZipError(zip::result::ZipError);

#[verifier::external_type_specification]
#[verifier::external_body]
pub struct ExCsvError(csv::Error);

/// Failure of one of the template engine's operations; the message of the
/// variants that carry one says what went wrong.
#[derive(Debug)]
pub enum DocxError {
    /// Reading or writing failed.
    Io(std::io::Error),
    /// The zip container is malformed or could not be written.
    Zip(zip::result::ZipError),
    /// The input is inconsistent (counts, patterns, text encoding).
    Validation(String),
    /// The template or the destination does not allow the work.
    Processing(String),
    /// A delimited-text record is malformed.
    CsvError(csv::Error),
    ProagramDispendikError(String),
    UnknownError,
}

} // verus!
