//! Errors reported by the parser.

use crate::util::span::Span;
use vstd::prelude::*;
use vstd::string::StringExecFns;

verus! {

/// A syntax error.
#[derive(Debug, Clone, PartialEq, Eq)]
pub enum ParseError {
    /// A token is present but not valid at this position of the grammar.
    UnexpectedToken(Span),
    /// The input ended before a construct was closed.
    Incomplete(Span),
    /// A diagnostic carried as text.
    Generic(String),
}

/// Mathematical value of a [`ParseError`].
pub enum ParseErrorView {
    UnexpectedToken(Span),
    Incomplete(Span),
    Generic(Seq<char>),
}

impl View for ParseError {
    type V = ParseErrorView;

    open spec fn view(&self) -> ParseErrorView {
        match self {
            ParseError::UnexpectedToken(span) => ParseErrorView::UnexpectedToken(*span),
            ParseError::Incomplete(span) => ParseErrorView::Incomplete(*span),
            ParseError::Generic(text) => ParseErrorView::Generic(text@),
        }
    }
}

/// The one-line message of a syntax error.
pub open spec fn parse_error_text(e: ParseErrorView) -> Seq<char> {
    match e {
        ParseErrorView::UnexpectedToken(span) => "unexpected token at "@ + span.spec_text(),
        ParseErrorView::Incomplete(span) => "Incomplete input at "@ + span.spec_text(),
        ParseErrorView::Generic(text) => "generic parse error: "@ + text,
    }
}

impl ParseError {
    /// Renders the one-line message of the error.
    pub fn message(&self) -> (text: String)
        ensures
            text@ == parse_error_text(self@),
    {
        match self {
            ParseError::UnexpectedToken(span) => {
                let mut text = String::from_str("unexpected token at ");
                span.write_to(&mut text);
                text
            },
            ParseError::Incomplete(span) => {
                let mut text = String::from_str("Incomplete input at ");
                span.write_to(&mut text);
                text
            },
            ParseError::Generic(detail) => {
                let mut text = String::from_str("generic parse error: ");
                text.append(detail.as_str());
                text
            },
        }
    }
}

} // verus!
