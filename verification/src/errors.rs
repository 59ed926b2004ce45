//! Error kinds of the lexing and parsing stages.

pub mod lex;
pub mod parse;
