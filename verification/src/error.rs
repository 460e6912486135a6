//! The one failure that ends a whole search: a pattern that does not compile.

use vstd::prelude::*;

verus! {

/// A failure that aborts a search before any file is looked at.
#[derive(Debug)]
pub enum SearchError {
    /// The pattern, after any word-boundary wrapping, is not a valid regular expression.
    /// Carries the diagnostic of the regex engine.
    InvalidPattern(String),
}

/// The fixed words that open the message of an invalid pattern.
pub open spec fn invalid_pattern_prefix() -> Seq<char> {
    "Invalid regex pattern: "@
}

impl SearchError {
    /// The diagnostic that the error carries.
    pub open spec fn diagnostic(self) -> Seq<char> {
        match self {
            SearchError::InvalidPattern(text) => text@,
        }
    }

    /// The message shown to a caller: the fixed prefix, then the diagnostic.
    pub open spec fn message_text(self) -> Seq<char> {
        invalid_pattern_prefix() + self.diagnostic()
    }

    /// Wraps the diagnostic of the regex engine.
    pub fn invalid_pattern(diagnostic: String) -> (e: SearchError)
        ensures
            e == SearchError::InvalidPattern(diagnostic),
            e.diagnostic() == diagnostic@,
    {
        SearchError::InvalidPattern(diagnostic)
    }

    /// The message shown to a caller.
    pub fn message(&self) -> (text: String)
        ensures
            text@ == self.message_text(),
    {
        match self {
            SearchError::InvalidPattern(diagnostic) => {
                String::from_str("Invalid regex pattern: ").concat(diagnostic.as_str())
            },
        }
    }
}

} // verus!
