//! Number formats, precisions, and rounding modes.
//!
//! `mpmfnum` emulates computer number systems, at multiple precisions and
//! with many rounding modes: "Multi-Precision, Multi-Format". A numerical
//! program is real-number arithmetic and rounding; a number format is what
//! rounding leaves.
//!
//! Every value is an extended real: a finite number `(-1)^s * c * 2^exp`
//! with an unbounded significand `c`, an infinity, or not a number. The
//! trait [`Real`] presents a value as one, and [`ExtReal`] is the number it
//! stands for in contracts and proofs.
//!
//! Rounding is done by one kernel, [`rfloat::Context`], which cuts a number
//! at a binary digit ([`Split`]) and rounds what is above the cut by a
//! [`RoundingMode`]. Each format is a thin shell around it:
//!
//!  - [`rfloat::Context`] rounds to floating-point numbers of any precision
//!    with unbounded exponent ([`RFloat`]);
//!  - [`float::FloatContext`] rounds to floating-point numbers of a fixed
//!    precision with unbounded exponent;
//!  - [`ieee754::IEEE754Context`] rounds to the floating-point numbers of
//!    the IEEE 754 standard, and encodes and decodes their bit patterns;
//!  - [`fixed::FixedContext`] rounds to fixed-point numbers.
//!
//! The contract of every rounding function gives the result and the flags
//! it raises exactly; the modules named `laws` prove what follows for all
//! inputs: rounding is idempotent, rounding to nearest errs by at most half
//! a unit in the last place, a split adds up to the number, the order is
//! total on numbers, encodings round-trip.
pub mod fixed;
pub mod float;
pub mod ieee754;
pub mod integer;
pub mod math;
pub mod number;
pub mod rfloat;
pub mod round;
pub mod split;
pub mod util;
pub mod value;

pub use crate::number::{ExtReal, Real};
pub use crate::rfloat::RFloat;
pub use crate::round::{RoundingDirection, RoundingMode};
pub use crate::split::Split;
