//! The errors of the lexicographical operations.
use vstd::prelude::*;
use vstd::string::StringExecFns;

verus! {

/// An error of a lexicographical operation of an encyclopedia.
#[derive(Debug)]
pub enum LingError {
    /// A word could not be formatted.
    FmtError,
    /// The tags of a word are invalid.
    InvalidTags,
    /// No grammatical category has the given name.
    NoSuchGrammCat(String),
    /// The grammatical category has no such value.
    NoSuchGrammeme(String),
    /// No value was given, and the grammatical category of the given name
    /// has no default value.
    NoDefaultOrValue(String),
}

/// What an error is.
pub enum LingErrorView {
    FmtError,
    InvalidTags,
    NoSuchGrammCat(Seq<char>),
    NoSuchGrammeme(Seq<char>),
    NoDefaultOrValue(Seq<char>),
}

impl View for LingError {
    type V = LingErrorView;

    open spec fn view(&self) -> LingErrorView {
        match *self {
            LingError::FmtError => LingErrorView::FmtError,
            LingError::InvalidTags => LingErrorView::InvalidTags,
            LingError::NoSuchGrammCat(s) => LingErrorView::NoSuchGrammCat(s@),
            LingError::NoSuchGrammeme(s) => LingErrorView::NoSuchGrammeme(s@),
            LingError::NoDefaultOrValue(s) => LingErrorView::NoDefaultOrValue(s@),
        }
    }
}

impl LingErrorView {
    /// The description of an error of this kind.
    pub open spec fn description(self) -> Seq<char> {
        match self {
            LingErrorView::FmtError => "format error"@,
            LingErrorView::InvalidTags => "invalid word tags"@,
            LingErrorView::NoSuchGrammCat(_) => "grammatical category not found"@,
            LingErrorView::NoSuchGrammeme(_) => "grammeme value not found"@,
            LingErrorView::NoDefaultOrValue(_) =>
                "no grammeme value was given and there is no default value for the category"@,
        }
    }

    /// The message of the error: its description, and after a colon what
    /// the error is about, where it is about something.
    pub open spec fn message(self) -> Seq<char> {
        match self {
            LingErrorView::FmtError => self.description(),
            LingErrorView::InvalidTags => self.description(),
            LingErrorView::NoSuchGrammCat(s) => self.description() + ": "@ + s,
            LingErrorView::NoSuchGrammeme(s) => self.description() + ": "@ + s,
            LingErrorView::NoDefaultOrValue(s) => self.description() + ": "@ + s,
        }
    }
}

impl LingError {
    /// Returns the description of an error of this kind.
    pub fn description(&self) -> (r: &'static str)
        ensures
            r@ == self@.description(),
    {
        match self {
            LingError::FmtError => "format error",
            LingError::InvalidTags => "invalid word tags",
            LingError::NoSuchGrammCat(_) => "grammatical category not found",
            LingError::NoSuchGrammeme(_) => "grammeme value not found",
            LingError::NoDefaultOrValue(_) => {
                "no grammeme value was given and there is no default value for the category"
            },
        }
    }

    /// Returns the message of the error: its description, and after a colon
    /// what the error is about, where it is about something.
    pub fn message(&self) -> (r: String)
        ensures
            r@ == self@.message(),
    {
        let text = String::from_str(self.description());
        match self {
            LingError::NoSuchGrammCat(s) => text.concat(": ").concat(s.as_str()),
            LingError::NoSuchGrammeme(s) => text.concat(": ").concat(s.as_str()),
            LingError::NoDefaultOrValue(s) => text.concat(": ").concat(s.as_str()),
            _ => text,
        }
    }
}

} // verus!
