//! Fixed-point numbers.
pub mod laws;
pub mod number;
pub mod order;
pub mod round;

pub use number::{Exceptions, Fixed, FixedView};
pub use round::{FixedContext, FixedContextView, Overflow};
