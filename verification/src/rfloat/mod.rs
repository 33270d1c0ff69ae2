//! Arbitrary-precision floating-point numbers with unbounded exponent, and
//! the rounding kernel that every other format is built on.
pub mod laws;
pub mod number;
pub mod ops;
pub mod order;
pub mod round;

pub use number::RFloat;
pub use round::{Context, ContextView};
