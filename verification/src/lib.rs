//! Front end and semantic core of the Sauce language, a small
//! expression-oriented language with a pipeline operator `|>` and effects
//! raised by `toss`.
//!
//! A source text goes through four stages, each a function with a proved
//! contract over a mathematical model of its input and output:
//!
//! - [`lexer`] turns the bytes of the text into spanned tokens,
//! - [`parser`] turns the tokens into the tree of [`ast`],
//! - [`typechecker`] accepts or rejects the tree,
//! - [`interpreter`] evaluates it.
//!
//! [`soundness`] states what checking guarantees of evaluating; [`errors`]
//! and the stages themselves hold the error kinds with their messages, and
//! [`util`] the value types and helpers they share.

pub mod ast;
pub mod errors;
pub mod interpreter;
pub mod lexer;
pub mod parser;
pub mod soundness;
pub mod typechecker;
pub mod util;
