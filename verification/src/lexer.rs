//! Lexical analysis: from source text to spanned tokens.

pub mod lexer;
pub mod rules;
pub mod scan;
pub mod token;

pub use lexer::{tokenize, Lexer, SpannedToken};
pub use token::Token;
