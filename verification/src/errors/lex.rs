//! Errors reported by the lexer.

use crate::util::span::Span;
use vstd::prelude::*;
use vstd::string::StringExecFns;

verus! {

/// A lexical error.
#[derive(Debug, Clone, Copy, PartialEq, Eq, Structural)]
pub enum LexError {
    /// No token rule matched the input covered by the span.
    InvalidToken(Span),
}

impl LexError {
    /// The one-line message of the error.
    pub open spec fn spec_message(&self) -> Seq<char> {
        match self {
            LexError::InvalidToken(span) => "invalid token at "@ + span.spec_text(),
        }
    }

    /// Renders the one-line message of the error.
    pub fn message(&self) -> (text: String)
        ensures
            text@ == self.spec_message(),
    {
        match self {
            LexError::InvalidToken(span) => {
                let mut text = String::from_str("invalid token at ");
                span.write_to(&mut text);
                text
            },
        }
    }
}

} // verus!
