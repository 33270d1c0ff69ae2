//! Extended real numbers: the mathematical model and the trait that every
//! number format implements.
use crate::integer;
use crate::integer::int_of;
use crate::math::{bitlen, lemma_bit_and_mask, lemma_bitlen_le, trailing_zeros};
use crate::rfloat::RFloat;
use crate::util::{bitmask, shr_by};
use rug::Integer;
use vstd::arithmetic::div_mod::{lemma_basic_div, lemma_small_mod};
use vstd::arithmetic::power2::{lemma_pow2_pos, pow2};
use vstd::prelude::*;

verus! {

/// An extended real number as mathematics sees it: a finite number
/// `(-1)^sign * c * 2^exp`, an infinity, or not a number.
///
/// A finite number keeps the digits it was written with: `3 * 2^1` and
/// `6 * 2^0` are different values of this type with the same numerical
/// value. [`ExtReal::canonical`] picks one representative of each.
pub ghost enum ExtReal {
    Real { sign: bool, exp: int, c: nat },
    PosInfinity,
    NegInfinity,
    Nan,
}

impl ExtReal {
    /// Zero, in canonical form.
    pub open spec fn zero() -> ExtReal {
        ExtReal::Real { sign: false, exp: 0, c: 0 }
    }

    pub open spec fn is_finite(self) -> bool {
        self is Real
    }

    pub open spec fn is_zero(self) -> bool {
        self is Real && self->c == 0
    }

    /// Finite and different from zero.
    pub open spec fn is_nonzero(self) -> bool {
        self is Real && self->c != 0
    }

    pub open spec fn is_infinite(self) -> bool {
        self is PosInfinity || self is NegInfinity
    }

    /// Not a real number: an infinity or not a number.
    pub open spec fn is_nar(self) -> bool {
        !(self is Real)
    }

    pub open spec fn is_numerical(self) -> bool {
        !(self is Nan)
    }

    /// The sign bit; `false` where there is none.
    pub open spec fn sign(self) -> bool {
        match self {
            ExtReal::Real { sign, .. } => sign,
            ExtReal::NegInfinity => true,
            _ => false,
        }
    }

    /// The exponent of the lowest digit of the significand (0 where there
    /// is no significand).
    pub open spec fn exp(self) -> int {
        match self {
            ExtReal::Real { exp, .. } => exp,
            _ => 0,
        }
    }

    /// The significand (0 where there is none).
    pub open spec fn c(self) -> nat {
        match self {
            ExtReal::Real { c, .. } => c,
            _ => 0,
        }
    }

    /// The significand with the sign applied.
    pub open spec fn m(self) -> int {
        if self.sign() {
            -(self.c() as int)
        } else {
            self.c() as int
        }
    }

    /// The number of digits of the significand.
    pub open spec fn prec(self) -> nat {
        bitlen(self.c())
    }

    /// The position of the leading digit.
    pub open spec fn e(self) -> int {
        self.exp() + bitlen(self.c()) - 1
    }

    /// The position just below the lowest digit.
    pub open spec fn n(self) -> int {
        self.exp() - 1
    }

    /// Whether the number is below zero, where that is defined: not for
    /// zero, and not for what is not a number.
    pub open spec fn is_negative(self) -> Option<bool> {
        match self {
            ExtReal::Real { sign, c, .. } => if c == 0 {
                None
            } else {
                Some(sign)
            },
            ExtReal::PosInfinity => Some(false),
            ExtReal::NegInfinity => Some(true),
            ExtReal::Nan => None,
        }
    }

    /// The representative of the numerical value: zero is `+0 * 2^0`, and
    /// any other finite number has an odd significand.
    pub open spec fn canonical(self) -> ExtReal {
        match self {
            ExtReal::Real { sign, exp, c } => if c == 0 {
                ExtReal::zero()
            } else {
                ExtReal::Real {
                    sign,
                    exp: exp + trailing_zeros(c),
                    c: c / pow2(trailing_zeros(c)),
                }
            },
            _ => self,
        }
    }

    pub open spec fn is_canonical(self) -> bool {
        match self {
            ExtReal::Real { sign, exp, c } => if c == 0 {
                !sign && exp == 0
            } else {
                c % 2 == 1
            },
            _ => true,
        }
    }

    /// The finite number as a multiple of `2^k`, for `k` at or below its
    /// exponent: the integer `m * 2^(exp - k)`.
    pub open spec fn scaled(self, k: int) -> int {
        self.m() * pow2((self.exp() - k) as nat)
    }

    /// The digits above position `n`: the significand shifted down to
    /// exponent `n + 1`, or the number itself where it has no digit at or
    /// below `n`. Defined for finite numbers.
    pub open spec fn high(self, n: int) -> ExtReal {
        if self.c() == 0 {
            ExtReal::Real { sign: self.sign(), exp: 0, c: 0 }
        } else if n < self.exp() {
            self
        } else {
            ExtReal::Real {
                sign: self.sign(),
                exp: n + 1,
                c: self.c() / pow2((n + 1 - self.exp()) as nat),
            }
        }
    }

    /// The digits at and below position `n`. Defined for finite numbers.
    pub open spec fn lost(self, n: int) -> ExtReal {
        if self.c() == 0 || n < self.exp() {
            ExtReal::Real { sign: self.sign(), exp: 0, c: 0 }
        } else {
            ExtReal::Real {
                sign: self.sign(),
                exp: self.exp(),
                c: self.c() % pow2((n + 1 - self.exp()) as nat),
            }
        }
    }

    /// Whether every position that the accessors report fits the machine
    /// integers they are reported in.
    pub open spec fn positions_fit(self) -> bool {
        self.is_nonzero() ==> {
            &&& isize::MIN <= self.exp() - 1
            &&& self.exp() <= isize::MAX
            &&& self.e() <= isize::MAX
            &&& self.prec() <= usize::MAX
        }
    }
}

/// An extended real number `(-1)^s * c * 2^exp`, an infinity or not a
/// number, as every number format of this crate presents its values.
///
/// [`Real::value`] is the number a value stands for. The accessors report on
/// it; those of the digits are defined for finite numbers other than zero,
/// and on zero a format may answer `None` or zero.
pub trait Real {
    /// The number this value stands for.
    spec fn value(&self) -> ExtReal;

    /// The radix of the format, which is 2.
    fn radix() -> (r: usize)
        ensures
            r == 2,
    ;

    /// The sign bit. It is defined for every finite and infinite number
    /// (also for zero); a format may or may not give one to what is not a
    /// number.
    fn sign(&self) -> (r: Option<bool>)
        ensures
            self.value().is_numerical() ==> r == Some(self.value().sign()),
    ;

    /// The exponent of the lowest digit of the significand.
    fn exp(&self) -> (r: Option<isize>)
        ensures
            self.value().is_nonzero() ==> r is Some && r->0 == self.value().exp(),
            !self.value().is_nonzero() ==> r is None,
    ;

    /// The position of the leading digit.
    fn e(&self) -> (r: Option<isize>)
        requires
            self.value().positions_fit(),
        ensures
            self.value().is_nonzero() ==> r is Some && r->0 == self.value().e(),
            !self.value().is_nonzero() ==> r is None,
    ;

    /// The position just below the lowest digit.
    fn n(&self) -> (r: Option<isize>)
        requires
            self.value().positions_fit(),
        ensures
            self.value().is_nonzero() ==> r is Some && r->0 == self.value().n(),
            !self.value().is_nonzero() ==> r is None,
    ;

    /// The significand, which is not negative.
    fn c(&self) -> (r: Option<Integer>)
        ensures
            self.value().is_nonzero() ==> r is Some,
            self.value().is_nar() ==> r is None,
            r is Some ==> int_of(r->0) == self.value().c(),
    ;

    /// The significand with the sign applied.
    fn m(&self) -> (r: Option<Integer>)
        ensures
            self.value().is_nonzero() ==> r is Some,
            self.value().is_nar() ==> r is None,
            r is Some ==> int_of(r->0) == self.value().m(),
    ;

    /// The number of digits of the significand.
    fn prec(&self) -> (r: Option<usize>)
        requires
            self.value().positions_fit(),
        ensures
            self.value().is_nonzero() ==> r is Some,
            self.value().is_nar() ==> r is None,
            r is Some ==> r->0 == self.value().prec(),
    ;

    fn is_nar(&self) -> (r: bool)
        ensures
            r == self.value().is_nar(),
    ;

    fn is_finite(&self) -> (r: bool)
        ensures
            r == self.value().is_finite(),
    ;

    fn is_infinite(&self) -> (r: bool)
        ensures
            r == self.value().is_infinite(),
    ;

    fn is_zero(&self) -> (r: bool)
        ensures
            r == self.value().is_zero(),
    ;

    fn is_negative(&self) -> (r: Option<bool>)
        ensures
            r == self.value().is_negative(),
    ;

    fn is_numerical(&self) -> (r: bool)
        ensures
            r == self.value().is_numerical(),
    ;

    /// Splits a finite number at binary digit `n` into the digits above
    /// position `n` and the digits at or below it. The two parts add up to
    /// the number.
    fn split(&self, n: isize) -> (r: (RFloat, RFloat))
        requires
            self.value().is_finite(),
            self.value().positions_fit(),
            n < isize::MAX,
        ensures
            r.0@ == self.value().high(n as int),
            r.1@ == self.value().lost(n as int),
    {
        let s = self.sign().unwrap();
        if self.is_zero() {
            (RFloat::Real(s, 0, integer::zero()), RFloat::Real(s, 0, integer::zero()))
        } else {
            // number components
            let e = self.e().unwrap();
            let exp = self.exp().unwrap();
            let c = self.c().unwrap();
            let ghost cn = self.value().c();
            if n >= e {
                // split point is above the significant digits
                proof {
                    let k = (n + 1 - exp) as nat;
                    lemma_bitlen_le(cn, k);
                    lemma_basic_div(cn as int, pow2(k) as int);
                    lemma_small_mod(cn, pow2(k));
                }
                (RFloat::Real(s, n + 1, integer::zero()), RFloat::Real(s, exp, c))
            } else if n < exp {
                // split point is below the significant digits
                (RFloat::Real(s, exp, c), RFloat::Real(s, 0, integer::zero()))
            } else {
                // split point is within the significant digits
                let offset: u64 = (n as i128 - (exp as i128 - 1)) as u64;
                let mask = bitmask(offset as usize);
                proof {
                    lemma_bit_and_mask(cn, offset as nat);
                    lemma_pow2_pos(offset as nat);
                }
                let c_high = shr_by(integer::copy(&c), offset);
                let c_low = integer::bitand(c, mask);
                (RFloat::Real(s, n + 1, c_high), RFloat::Real(s, exp, c_low))
            }
        }
    }
}

} // verus!
