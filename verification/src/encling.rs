//! The errors of formatting words.
use vstd::prelude::*;
use vstd::string::StringExecFns;

verus! {

/// An error of formatting a word of an encyclopedia.
#[derive(Clone, Copy, Debug, PartialEq, Eq, Structural)]
pub enum EncLingError {
    /// The word could not be written out.
    FmtError,
    /// The tags of the word are invalid.
    InvalidTags,
}

impl EncLingError {
    /// The description of the error.
    pub open spec fn spec_description(self) -> Seq<char> {
        match self {
            EncLingError::FmtError => "format error"@,
            EncLingError::InvalidTags => "invalid word tags"@,
        }
    }

    /// Returns the description of the error.
    pub fn description(&self) -> (r: &'static str)
        ensures
            r@ == self.spec_description(),
    {
        match self {
            EncLingError::FmtError => "format error",
            EncLingError::InvalidTags => "invalid word tags",
        }
    }

    /// Returns the message of the error, which is its description.
    pub fn message(&self) -> (r: String)
        ensures
            r@ == self.spec_description(),
    {
        String::from_str(self.description())
    }
}

} // verus!
