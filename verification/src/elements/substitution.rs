//! The left side of an assignment: a name, with or without a subscript.

pub mod array;
pub mod subscript;
pub mod variable;
