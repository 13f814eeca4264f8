//! Activation functions, applied element by element.

pub mod elementwise;
pub mod tanh;
