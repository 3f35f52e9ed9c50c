//! The parsed elements that read and write the store.

pub mod expr;
pub mod substitution;
pub mod subword;
pub mod word;
