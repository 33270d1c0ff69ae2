use crate::float::number::{Exceptions, Float};
use crate::number::{ExtReal, Real};
use crate::rfloat::laws::lemma_cut_fits_precision;
use crate::rfloat::round::{Context, ContextView};
use crate::rfloat::RFloat;
use crate::round::RoundingMode;
use crate::split::Split;
use vstd::prelude::*;

verus! {

/// What a [`FloatContext`] holds.
pub ghost struct FloatContextView {
    /// The precision: the largest number of digits of a significand.
    pub prec: usize,
    /// The rounding mode.
    pub rm: RoundingMode,
}

impl FloatContextView {
    /// The context of the rounding kernel that rounds for this format:
    /// precision bounded, exponent unbounded.
    pub open spec fn kernel(self) -> ContextView {
        ContextView { max_p: Some(self.prec), min_n: None, rm: self.rm }
    }

    /// The number that `v` is rounded to.
    pub open spec fn rounded(self, v: ExtReal) -> ExtReal {
        self.kernel().rounded(v)
    }

    /// The flags that rounding `v` raises: inexact where digits are lost,
    /// carry where the increment made the exponent grow.
    pub open spec fn flags(self, v: ExtReal) -> Exceptions {
        if v.is_nonzero() {
            Exceptions {
                invalid: false,
                divzero: false,
                inexact: !self.kernel().cut(v).is_exact(),
                carry: self.kernel().cut(v).carries(Some(self.prec), self.rm),
            }
        } else {
            Exceptions { invalid: false, divzero: false, inexact: false, carry: false }
        }
    }
}

/// Rounding context of [`Float`]: floating-point numbers of a fixed
/// precision with unbounded exponent.
///
/// The default rounding mode is [`RoundingMode::NearestTiesToEven`].
#[derive(Clone, Copy, Debug)]
pub struct FloatContext {
    prec: usize,
    rm: RoundingMode,
}

impl View for FloatContext {
    type V = FloatContextView;

    closed spec fn view(&self) -> FloatContextView {
        FloatContextView { prec: self.prec, rm: self.rm }
    }
}

impl FloatContext {
    /// A context of the given precision, which must be positive.
    pub fn new(prec: usize) -> (r: Self)
        requires
            prec >= 1,
        ensures
            r@ == (FloatContextView { prec, rm: RoundingMode::NearestTiesToEven }),
    {
        Self { prec, rm: RoundingMode::NearestTiesToEven }
    }

    /// Sets the rounding mode.
    pub fn with_rounding_mode(self, rm: RoundingMode) -> (r: Self)
        ensures
            r@ == (FloatContextView { rm, ..self@ }),
    {
        Self { prec: self.prec, rm }
    }

    /// The precision.
    pub fn prec(&self) -> (r: usize)
        ensures
            r == self@.prec,
    {
        self.prec
    }

    /// The rounding mode.
    pub fn rm(&self) -> (r: RoundingMode)
        ensures
            r == self@.rm,
    {
        self.rm
    }

    /// Rounds a number to this format.
    pub fn round<T: Real>(&self, val: &T) -> (r: Float)
        requires
            self@.prec >= 1,
            self@.kernel().fits(val.value()),
        ensures
            r@.num == self@.rounded(val.value()),
            r@.flags == self@.flags(val.value()),
            r@.ctx == *self,
    {
        if val.is_zero() {
            Float::new(RFloat::zero(), Exceptions::new(), *self)
        } else if val.is_infinite() {
            let num = if val.is_negative().unwrap() {
                RFloat::NegInfinity
            } else {
                RFloat::PosInfinity
            };
            Float::new(num, Exceptions::new(), *self)
        } else if val.is_nar() {
            Float::new(RFloat::Nan, Exceptions::new(), *self)
        } else {
            // step 1: rounding parameters of a float with unbounded exponent
            let kernel = Context::new().with_max_precision(self.prec).with_rounding_mode(self.rm);
            let (p, n) = kernel.round_params(val);

            // step 2: split the significand at binary digit `n`
            proof {
                lemma_cut_fits_precision(self@.kernel(), val.value());
            }
            let split = Split::new(val, p, n);

            // step 3: the flags, then the rounded number
            let inexact = !split.is_exact();
            let carry = Context::round_carry(&split, p, self.rm);
            let num = Context::round_finalize(split, p, self.rm);
            Float::new(num, Exceptions { invalid: false, divzero: false, inexact, carry }, *self)
        }
    }
}

} // verus!
