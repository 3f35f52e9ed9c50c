//! The operations inside `${...}`, and the substitutions that stand where
//! a word can.

pub mod process_sub;
pub mod substr;
