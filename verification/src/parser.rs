//! Syntax analysis: from spanned tokens to the abstract syntax tree.

pub mod parser;
pub mod syntax;

pub use parser::SauceParser;
