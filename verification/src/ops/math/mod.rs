//! Arithmetic operations.

pub mod mul;
pub mod repeat;
