//! The errors of opening and reading an EPUB container.
use vstd::prelude::*;

use crate::xmlutils::XMLError;

verus! {

#[verifier::external_type_specification]
#[verifier::external_body]
pub struct ExIoError(std::io::Error);

#[verifier::external_type_specification]
#[verifier::external_body]
pub struct ExZipError(zip::result::ZipError);

#[verifier::external_type_specification]
#[verifier::external_body]
pub struct ExUtf8Error(std::str::Utf8Error);

/// Why an archive or a document could not be read.
#[derive(Debug)]
pub enum ArchiveError {
    /// I/O Error
    IO(std::io::Error),
    /// Zip Error
    Zip(zip::result::ZipError),
    /// Invalid UTF-8
    Utf8(std::str::Utf8Error),
    /// Invalid XML
    Xml(XMLError),
    /// Parsing of this epub failed
    ParsingFailure,
    /// An invalid ID was provided
    InvalidId,
    /// Invalid UTF-8 Path
    PathUtf8,
}

impl ArchiveError {
    /// A short description of the error.
    pub fn describe(&self) -> (r: String) {
        let s = match self {
            ArchiveError::IO(_) => "I/O Error",
            ArchiveError::Zip(_) => "Zip Error",
            ArchiveError::Utf8(_) => "Invalid UTF-8",
            ArchiveError::Xml(_) => "Invalid XML error",
            ArchiveError::ParsingFailure => "Parsing of this epub failed",
            ArchiveError::InvalidId => "An invalid ID was provided",
            ArchiveError::PathUtf8 => "Invalid UTF-8 Path",
        };
        s.to_owned()
    }
}

} // verus!
