//! Errors that end the evaluation of a program.

use vstd::prelude::*;
use vstd::string::StringExecFns;

verus! {

/// A runtime error.
#[derive(Debug, Clone, PartialEq, Eq)]
pub enum RuntimeError {
    /// A name was read that is not bound.
    UnknownVariable(String),
    /// An effect left the program without meeting a handler.
    UnhandledEffect(String),
}

/// Mathematical value of a [`RuntimeError`].
pub enum RuntimeErrorView {
    UnknownVariable(Seq<char>),
    UnhandledEffect(Seq<char>),
}

impl View for RuntimeError {
    type V = RuntimeErrorView;

    open spec fn view(&self) -> RuntimeErrorView {
        match self {
            RuntimeError::UnknownVariable(name) => RuntimeErrorView::UnknownVariable(name@),
            RuntimeError::UnhandledEffect(name) => RuntimeErrorView::UnhandledEffect(name@),
        }
    }
}

/// The one-line message of a runtime error.
pub open spec fn runtime_error_text(e: RuntimeErrorView) -> Seq<char> {
    match e {
        RuntimeErrorView::UnknownVariable(name) => "unknown variable `"@ + name + "`"@,
        RuntimeErrorView::UnhandledEffect(name) => "effect `"@ + name + "` was not handled"@,
    }
}

impl RuntimeError {
    /// Renders the one-line message of the error.
    pub fn message(&self) -> (text: String)
        ensures
            text@ == runtime_error_text(self@),
    {
        match self {
            RuntimeError::UnknownVariable(name) => {
                let mut text = String::from_str("unknown variable `");
                text.append(name.as_str());
                text.append("`");
                text
            },
            RuntimeError::UnhandledEffect(name) => {
                let mut text = String::from_str("effect `");
                text.append(name.as_str());
                text.append("` was not handled");
                text
            },
        }
    }
}

} // verus!
