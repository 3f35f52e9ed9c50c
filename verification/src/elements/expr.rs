//! Expressions.

pub mod arithmetic;
