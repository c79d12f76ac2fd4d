//! Operators: the work a step does.

pub mod types;
pub mod builtin;
