//! Helpers that the store and the evaluators share.

pub mod arg;
pub mod file;
pub mod name_map;
pub mod number;
pub mod param_name;
pub mod sparse_map;
pub mod text;
