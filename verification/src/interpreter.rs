//! Evaluation of programs by walking the tree.

pub mod effects;
pub mod env;
pub mod error;
pub mod eval;
pub mod value;
