use crate::integer;
use crate::integer::int_of;
use crate::math::{lemma_bitlen_shr, lemma_trailing_zeros, trailing_zeros};
use crate::util::shr_by;
use crate::number::{ExtReal, Real};
use rug::Integer;
use vstd::math::abs;
use vstd::prelude::*;

verus! {

/// An arbitrary-precision floating-point number with unbounded exponent:
/// `Real(s, exp, c)` is `(-1)^s * c * 2^exp`.
///
/// The significand is read by its magnitude, so every value of this type
/// stands for a number.
#[derive(Debug)]
pub enum RFloat {
    /// A finite number `(-1)^s * c * 2^exp`.
    Real(bool, isize, Integer),
    /// Positive infinity.
    PosInfinity,
    /// Negative infinity.
    NegInfinity,
    /// Not a number.
    Nan,
}

impl View for RFloat {
    type V = ExtReal;

    open spec fn view(&self) -> ExtReal {
        match *self {
            RFloat::Real(s, exp, c) => ExtReal::Real { sign: s, exp: exp as int, c: abs(int_of(c)) },
            RFloat::PosInfinity => ExtReal::PosInfinity,
            RFloat::NegInfinity => ExtReal::NegInfinity,
            RFloat::Nan => ExtReal::Nan,
        }
    }
}

impl Clone for RFloat {
    fn clone(&self) -> (r: Self)
        ensures
            r@ == self@,
    {
        match self {
            RFloat::Real(s, exp, c) => RFloat::Real(*s, *exp, integer::copy(c)),
            RFloat::PosInfinity => RFloat::PosInfinity,
            RFloat::NegInfinity => RFloat::NegInfinity,
            RFloat::Nan => RFloat::Nan,
        }
    }
}

impl RFloat {
    /// Zero, in canonical form.
    pub fn zero() -> (r: RFloat)
        ensures
            r@ == ExtReal::zero(),
    {
        RFloat::Real(false, 0, integer::zero())
    }

    /// One, in canonical form.
    pub fn one() -> (r: RFloat)
        ensures
            r@ == (ExtReal::Real { sign: false, exp: 0, c: 1 }),
    {
        RFloat::Real(false, 0, integer::from_u64(1))
    }
}

impl RFloat {
    /// The canonical form of this number: zero as `+0 * 2^0`, any other
    /// finite number with an odd significand; the numerical value is
    /// unchanged.
    pub fn canonicalize(&self) -> (r: RFloat)
        requires
            self@.positions_fit(),
        ensures
            r@ == self@.canonical(),
            r@.positions_fit(),
    {
        match self {
            RFloat::Real(s, exp, c) => {
                if integer::is_zero(c) {
                    RFloat::zero()
                } else {
                    let c = integer::abs(integer::copy(c));
                    proof {
                        lemma_trailing_zeros(int_of(c) as nat);
                        lemma_bitlen_shr(int_of(c) as nat, trailing_zeros(int_of(c) as nat));
                    }
                    let tz: u64 = integer::find_one(&c).unwrap();
                    let odd = shr_by(c, tz);
                    let high_exp: i128 = *exp as i128 + tz as i128;
                    RFloat::Real(*s, high_exp as isize, odd)
                }
            },
            RFloat::PosInfinity => RFloat::PosInfinity,
            RFloat::NegInfinity => RFloat::NegInfinity,
            RFloat::Nan => RFloat::Nan,
        }
    }
}

impl RFloat {
    /// The sign bit; `None` for what is not a number.
    pub fn sign(&self) -> (r: Option<bool>)
        ensures
            r == if self@ is Nan {
                None
            } else {
                Some(self@.sign())
            },
    {
        match self {
            RFloat::Real(s, _, _) => Some(*s),
            RFloat::PosInfinity => Some(false),
            RFloat::NegInfinity => Some(true),
            RFloat::Nan => None,
        }
    }

    /// The exponent of the lowest digit of the significand, for a finite
    /// number other than zero.
    pub fn exp(&self) -> (r: Option<isize>)
        ensures
            self@.is_nonzero() ==> r is Some && r->0 == self@.exp(),
            !self@.is_nonzero() ==> r is None,
    {
        match self {
            RFloat::Real(_, exp, c) => if integer::is_zero(c) {
                None
            } else {
                Some(*exp)
            },
            _ => None,
        }
    }

    /// The position of the leading digit, for a finite number other than
    /// zero.
    pub fn e(&self) -> (r: Option<isize>)
        requires
            self@.positions_fit(),
        ensures
            self@.is_nonzero() ==> r is Some && r->0 == self@.e(),
            !self@.is_nonzero() ==> r is None,
    {
        match self {
            RFloat::Real(_, exp, c) => if integer::is_zero(c) {
                None
            } else {
                let bits: u64 = integer::significant_bits(c);
                let e: i128 = (*exp as i128 - 1) + bits as i128;
                Some(e as isize)
            },
            _ => None,
        }
    }

    /// The position just below the lowest digit, for a finite number other
    /// than zero.
    pub fn n(&self) -> (r: Option<isize>)
        requires
            self@.positions_fit(),
        ensures
            self@.is_nonzero() ==> r is Some && r->0 == self@.n(),
            !self@.is_nonzero() ==> r is None,
    {
        match self {
            RFloat::Real(_, exp, c) => if integer::is_zero(c) {
                None
            } else {
                Some(*exp - 1)
            },
            _ => None,
        }
    }

    /// The magnitude of the significand of a finite number; zero for zero.
    pub fn c(&self) -> (r: Option<Integer>)
        ensures
            r is Some <==> self@ is Real,
            r is Some ==> int_of(r->0) == self@.c(),
    {
        match self {
            RFloat::Real(_, _, c) => Some(integer::abs(integer::copy(c))),
            _ => None,
        }
    }

    /// The signed significand of a finite number; zero for zero.
    pub fn m(&self) -> (r: Option<Integer>)
        ensures
            r is Some <==> self@ is Real,
            r is Some ==> int_of(r->0) == self@.m(),
    {
        match self {
            RFloat::Real(s, _, c) => {
                let c = integer::abs(integer::copy(c));
                if *s {
                    Some(integer::negate(c))
                } else {
                    Some(c)
                }
            },
            _ => None,
        }
    }

    /// The number of digits of the significand of a finite number; zero
    /// for zero.
    pub fn prec(&self) -> (r: Option<usize>)
        requires
            self@.positions_fit(),
        ensures
            r is Some <==> self@ is Real,
            r is Some ==> r->0 == self@.prec(),
    {
        match self {
            RFloat::Real(_, _, c) => {
                let bits: u64 = integer::significant_bits(c);
                proof {
                    if int_of(*c) == 0 {
                        assert(crate::math::bitlen(0) == 0);
                    }
                }
                Some(bits as usize)
            },
            _ => None,
        }
    }

    /// Whether this is not a real number: an infinity or not a number.
    pub fn is_nar(&self) -> (r: bool)
        ensures
            r == self@.is_nar(),
    {
        match self {
            RFloat::Real(_, _, _) => false,
            _ => true,
        }
    }

    /// Whether this is a finite number.
    pub fn is_finite(&self) -> (r: bool)
        ensures
            r == self@.is_finite(),
    {
        match self {
            RFloat::Real(_, _, _) => true,
            _ => false,
        }
    }

    /// Whether this is an infinity.
    pub fn is_infinite(&self) -> (r: bool)
        ensures
            r == self@.is_infinite(),
    {
        match self {
            RFloat::PosInfinity => true,
            RFloat::NegInfinity => true,
            _ => false,
        }
    }

    /// Whether this is zero.
    pub fn is_zero(&self) -> (r: bool)
        ensures
            r == self@.is_zero(),
    {
        match self {
            RFloat::Real(_, _, c) => integer::is_zero(c),
            _ => false,
        }
    }

    /// Whether this is below zero; `None` for zero and for what is not a
    /// number.
    pub fn is_negative(&self) -> (r: Option<bool>)
        ensures
            r == self@.is_negative(),
    {
        match self {
            RFloat::Real(s, _, c) => if integer::is_zero(c) {
                None
            } else {
                Some(*s)
            },
            RFloat::PosInfinity => Some(false),
            RFloat::NegInfinity => Some(true),
            RFloat::Nan => None,
        }
    }

    /// Whether this is a number: finite or infinite.
    pub fn is_numerical(&self) -> (r: bool)
        ensures
            r == self@.is_numerical(),
    {
        match self {
            RFloat::Nan => false,
            _ => true,
        }
    }
}

impl Real for RFloat {
    open spec fn value(&self) -> ExtReal {
        self@
    }

    fn radix() -> (r: usize) {
        2
    }

    fn sign(&self) -> (r: Option<bool>) {
        RFloat::sign(self)
    }

    fn exp(&self) -> (r: Option<isize>) {
        RFloat::exp(self)
    }

    fn e(&self) -> (r: Option<isize>) {
        RFloat::e(self)
    }

    fn n(&self) -> (r: Option<isize>) {
        RFloat::n(self)
    }

    fn c(&self) -> (r: Option<Integer>) {
        RFloat::c(self)
    }

    fn m(&self) -> (r: Option<Integer>) {
        RFloat::m(self)
    }

    fn prec(&self) -> (r: Option<usize>) {
        RFloat::prec(self)
    }

    fn is_nar(&self) -> (r: bool) {
        RFloat::is_nar(self)
    }

    fn is_finite(&self) -> (r: bool) {
        RFloat::is_finite(self)
    }

    fn is_infinite(&self) -> (r: bool) {
        RFloat::is_infinite(self)
    }

    fn is_zero(&self) -> (r: bool) {
        RFloat::is_zero(self)
    }

    fn is_negative(&self) -> (r: Option<bool>) {
        RFloat::is_negative(self)
    }

    fn is_numerical(&self) -> (r: bool) {
        RFloat::is_numerical(self)
    }
}

} // verus!
