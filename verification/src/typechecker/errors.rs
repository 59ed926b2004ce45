//! Errors reported by the type checker.

use crate::util::span::Span;
use vstd::prelude::*;
use vstd::string::StringExecFns;

verus! {

/// A type error.
#[derive(Debug, Clone, PartialEq, Eq)]
pub enum TypeError {
    /// An identifier that is not in scope.
    UnknownIdent(Span, String),
    /// Two types that should agree and do not; no rule of the language
    /// reports it yet.
    Mismatch(Span, String, String),
    /// The right-hand side of `|>` is a bare literal.
    InvalidPipeline(Span),
    /// A diagnostic carried as text.
    Generic(String),
}

/// Mathematical value of a [`TypeError`].
pub enum TypeErrorView {
    UnknownIdent(Span, Seq<char>),
    Mismatch(Span, Seq<char>, Seq<char>),
    InvalidPipeline(Span),
    Generic(Seq<char>),
}

impl View for TypeError {
    type V = TypeErrorView;

    open spec fn view(&self) -> TypeErrorView {
        match self {
            TypeError::UnknownIdent(span, name) => TypeErrorView::UnknownIdent(*span, name@),
            TypeError::Mismatch(span, expected, found) => TypeErrorView::Mismatch(
                *span,
                expected@,
                found@,
            ),
            TypeError::InvalidPipeline(span) => TypeErrorView::InvalidPipeline(*span),
            TypeError::Generic(text) => TypeErrorView::Generic(text@),
        }
    }
}

/// The one-line message of a type error.
pub open spec fn type_error_text(e: TypeErrorView) -> Seq<char> {
    match e {
        TypeErrorView::UnknownIdent(span, name) => "unknown identifier `"@ + name + "` at "@
            + span.spec_text(),
        TypeErrorView::Mismatch(span, expected, found) => "type mismatch at "@ + span.spec_text()
            + ": expected "@ + expected + ", found "@ + found,
        TypeErrorView::InvalidPipeline(span) => "invalid pipeline at "@ + span.spec_text()
            + ": right side must be callable"@,
        TypeErrorView::Generic(text) => "generic type error: "@ + text,
    }
}

impl TypeError {
    /// Renders the one-line message of the error.
    pub fn message(&self) -> (text: String)
        ensures
            text@ == type_error_text(self@),
    {
        match self {
            TypeError::UnknownIdent(span, name) => {
                let mut text = String::from_str("unknown identifier `");
                text.append(name.as_str());
                text.append("` at ");
                span.write_to(&mut text);
                text
            },
            TypeError::Mismatch(span, expected, found) => {
                let mut text = String::from_str("type mismatch at ");
                span.write_to(&mut text);
                text.append(": expected ");
                text.append(expected.as_str());
                text.append(", found ");
                text.append(found.as_str());
                text
            },
            TypeError::InvalidPipeline(span) => {
                let mut text = String::from_str("invalid pipeline at ");
                span.write_to(&mut text);
                text.append(": right side must be callable");
                text
            },
            TypeError::Generic(detail) => {
                let mut text = String::from_str("generic type error: ");
                text.append(detail.as_str());
                text
            },
        }
    }
}

} // verus!
