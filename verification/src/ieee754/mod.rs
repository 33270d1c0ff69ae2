//! Floating-point numbers as described by the IEEE 754 standard.
pub mod laws;
pub mod number;
pub mod order;
pub mod round;

pub use number::{Exceptions, IEEE754Val, IEEE754ValView, IEEE754View, IEEE754};
pub use round::{IEEE754Context, IEEE754ContextView};
