//! The types of the language.

use vstd::prelude::*;

verus! {

/// The type of an expression.
#[derive(Debug, Clone, Copy, PartialEq, Eq, Structural)]
pub enum Type {
    Int,
    String,
    Unit,
}

} // verus!
