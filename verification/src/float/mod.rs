//! Fixed-precision floating-point numbers with unbounded exponent.
pub mod laws;
pub mod number;
pub mod order;
pub mod round;

pub use number::{Exceptions, Float, FloatView};
pub use round::{FloatContext, FloatContextView};
