//! The ways reading a package fails.

use vstd::prelude::*;
use vstd::string::StringExecFns;

verus! {

/// Why a package could not be read.
#[derive(Debug, Clone, PartialEq, Eq)]
pub enum OoxmlError {
    /// Reading the file failed; the text says how.
    IoError(String),
    /// The archive is damaged; the text says how.
    ZipError(String),
    ContentTypeNotFound(String),
    PartNotFound(String),
    RelationshipNotFound(String),
    InvalidContentType(String),
    MissingRequiredPart(String),
    InvalidNamespace(String),
    ParseError(String),
    UnsupportedContentType(String),
}

impl OoxmlError {
    /// What each kind of failure is called in messages.
    pub open spec fn label(&self) -> Seq<char> {
        match *self {
            OoxmlError::IoError(_) => "IO error: "@,
            OoxmlError::ZipError(_) => "ZIP archive error: "@,
            OoxmlError::ContentTypeNotFound(_) => "Content-Type not found for part: "@,
            OoxmlError::PartNotFound(_) => "Part not found: "@,
            OoxmlError::RelationshipNotFound(_) => "Relationship not found: "@,
            OoxmlError::InvalidContentType(_) => "Invalid content type: "@,
            OoxmlError::MissingRequiredPart(_) => "Missing required part: "@,
            OoxmlError::InvalidNamespace(_) => "Invalid namespace: "@,
            OoxmlError::ParseError(_) => "Parse error: "@,
            OoxmlError::UnsupportedContentType(_) => "Unsupported content type: "@,
        }
    }

    /// What the failure is about.
    pub open spec fn detail(&self) -> Seq<char> {
        match *self {
            OoxmlError::IoError(s) => s@,
            OoxmlError::ZipError(s) => s@,
            OoxmlError::ContentTypeNotFound(s) => s@,
            OoxmlError::PartNotFound(s) => s@,
            OoxmlError::RelationshipNotFound(s) => s@,
            OoxmlError::InvalidContentType(s) => s@,
            OoxmlError::MissingRequiredPart(s) => s@,
            OoxmlError::InvalidNamespace(s) => s@,
            OoxmlError::ParseError(s) => s@,
            OoxmlError::UnsupportedContentType(s) => s@,
        }
    }

    /// The message for this failure: its label, then what it is about.
    pub fn message(&self) -> (m: String)
        ensures
            m@ == self.label() + self.detail(),
    {
        match self {
            OoxmlError::IoError(s) => "IO error: ".to_owned().concat(s.as_str()),
            OoxmlError::ZipError(s) => "ZIP archive error: ".to_owned().concat(s.as_str()),
            OoxmlError::ContentTypeNotFound(s) => "Content-Type not found for part: ".to_owned().concat(
                s.as_str(),
            ),
            OoxmlError::PartNotFound(s) => "Part not found: ".to_owned().concat(s.as_str()),
            OoxmlError::RelationshipNotFound(s) => "Relationship not found: ".to_owned().concat(
                s.as_str(),
            ),
            OoxmlError::InvalidContentType(s) => "Invalid content type: ".to_owned().concat(
                s.as_str(),
            ),
            OoxmlError::MissingRequiredPart(s) => "Missing required part: ".to_owned().concat(
                s.as_str(),
            ),
            OoxmlError::InvalidNamespace(s) => "Invalid namespace: ".to_owned().concat(s.as_str()),
            OoxmlError::ParseError(s) => "Parse error: ".to_owned().concat(s.as_str()),
            OoxmlError::UnsupportedContentType(s) => "Unsupported content type: ".to_owned().concat(
                s.as_str(),
            ),
        }
    }
}

} // verus!
