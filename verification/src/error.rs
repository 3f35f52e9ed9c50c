//! The failures that the parameter store and the evaluators report.

pub mod arith;
pub mod exec;
pub mod parse;
