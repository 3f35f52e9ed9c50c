//! The runtime variable subsystem of a POSIX shell: the typed parameter
//! store with its layers and flags, the arithmetic evaluator, subscripts,
//! variable references and the substring operator, with their contracts.

pub mod elements;
pub mod error;
pub mod feeder;
pub mod shell;
pub mod utils;
