//! The abstract syntax tree shared by every stage after parsing.

pub mod ast;
