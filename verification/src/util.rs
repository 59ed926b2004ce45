//! Small value types and helpers shared by every stage.

pub mod bindings;
pub mod span;
pub mod text;
