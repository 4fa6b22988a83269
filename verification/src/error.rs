//! The error kinds of the package subsystem.

use vstd::prelude::*;

verus! {

/// What can go wrong while writing, extracting or parsing a package.
#[derive(Clone, Copy, Debug, PartialEq, Eq, Structural)]
pub enum DocxError {
    /// The zip container could not be written or opened.
    Zip,
    /// A required part is missing from the archive.
    PartNotFound,
    /// A part's text is not well-formed for its schema.
    MalformedXml,
}

impl DocxError {
    /// A short description, for callers that report errors as text.
    pub fn message(&self) -> (r: &'static str)
        ensures
            r@ == self.spec_message(),
    {
        match self {
            DocxError::Zip => "zip container failure",
            DocxError::PartNotFound => "required part not found in archive",
            DocxError::MalformedXml => "malformed part",
        }
    }

    /// The text that `message` returns.
    pub open spec fn spec_message(self) -> Seq<char> {
        match self {
            DocxError::Zip => "zip container failure"@,
            DocxError::PartNotFound => "required part not found in archive"@,
            DocxError::MalformedXml => "malformed part"@,
        }
    }
}

} // verus!
