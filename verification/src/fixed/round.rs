use crate::fixed::number::{Exceptions, Fixed};
use crate::integer;
use crate::integer::int_of;
use crate::math::trunc_rem;
use crate::number::{ExtReal, Real};
use crate::rfloat::laws::lemma_rounded_representable;
use crate::rfloat::round::{Context, ContextView};
use crate::rfloat::RFloat;
use crate::round::RoundingMode;
use crate::split::Split;
use crate::util::{power_of_two, shl_by};
use crate::value::{lemma_compare_at, lemma_scaled_magnitude, lemma_scaled_zero};
use vstd::arithmetic::power2::{lemma_pow2_pos, lemma_pow2_unfold, pow2};
use vstd::prelude::*;

verus! {

/// What a fixed-point format does with a number outside its range.
///
/// Hardware usually wraps, keeping only the lowest digits. The alternative
/// is to clamp to the nearest end of the range.
#[derive(Clone, Copy, Debug, PartialEq, Eq, Structural)]
pub enum Overflow {
    /// The number is wrapped into the range: the lowest digits are kept.
    Wrap,
    /// The number is clamped to the nearest end of the range.
    Saturate,
}

/// What a [`FixedContext`] holds, and the numbers derived from it.
pub ghost struct FixedContextView {
    /// Whether the format has negative numbers.
    pub signed: bool,
    /// The exponent of the lowest digit.
    pub scale: isize,
    /// The width of the encoding.
    pub nbits: usize,
    /// The rounding mode.
    pub rm: RoundingMode,
    /// What is done with a number outside the range.
    pub overflow: Overflow,
}

impl FixedContextView {
    /// Whether the format exists: at least one bit, and one more for the
    /// sign; and the position below the lowest digit fits the machine
    /// integers.
    pub open spec fn wf(self) -> bool {
        &&& (self.signed && self.nbits >= 2) || (!self.signed && self.nbits >= 1)
        &&& self.scale > isize::MIN
    }

    /// The largest significand of the format.
    pub open spec fn max_int(self) -> int {
        if self.signed {
            pow2((self.nbits - 1) as nat) - 1
        } else {
            pow2(self.nbits as nat) - 1
        }
    }

    /// The smallest signed significand of the format.
    pub open spec fn min_int(self) -> int {
        if self.signed {
            -(pow2((self.nbits - 1) as nat) as int)
        } else {
            0
        }
    }

    /// The largest number of the format.
    pub open spec fn maxval(self) -> ExtReal {
        ExtReal::of_int(self.max_int(), self.scale as int)
    }

    /// The smallest number of the format: zero, in canonical form, where
    /// the format has no negative numbers.
    pub open spec fn minval(self) -> ExtReal {
        if self.signed {
            ExtReal::of_int(self.min_int(), self.scale as int)
        } else {
            ExtReal::zero()
        }
    }

    /// The smallest positive number of the format: `2^scale`.
    pub open spec fn quantum(self) -> ExtReal {
        ExtReal::Real { sign: false, exp: self.scale as int, c: 1 }
    }

    /// Whether a number lies in the range of the format.
    pub open spec fn in_range(self, v: ExtReal) -> bool {
        self.minval().le(v) && v.le(self.maxval())
    }

    /// The context of the rounding kernel that rounds for this format: no
    /// digit below `scale`, precision unbounded.
    pub open spec fn kernel(self) -> ContextView {
        ContextView { max_p: None, min_n: Some((self.scale - 1) as isize), rm: self.rm }
    }

    /// The signed significand `raw`, a multiple of the quantum, wrapped
    /// into the range of significands: the remainder by `2^nbits`, taken in
    /// the range of the format.
    pub open spec fn wrapped_int(self, raw: int) -> int {
        let width = pow2(self.nbits as nat) as int;
        if self.signed {
            let half = pow2((self.nbits - 1) as nat) as int;
            ((raw + half) % width) - half
        } else {
            raw % width
        }
    }

    /// A finite number with no digit below `scale`, wrapped into the range
    /// of the format and written at exponent `scale`.
    pub open spec fn wrapped(self, v: ExtReal) -> ExtReal {
        ExtReal::of_int(self.wrapped_int(v.scaled(self.scale as int)), self.scale as int)
    }

    /// What the format makes of a rounded number outside its range.
    pub open spec fn overflowed(self, r: ExtReal) -> ExtReal {
        match self.overflow {
            Overflow::Wrap => self.wrapped(r),
            Overflow::Saturate => if self.maxval().lt(r) {
                self.maxval()
            } else {
                self.minval()
            },
        }
    }

    /// The number that `v` is rounded to: infinities go to the ends of the
    /// range, what is not a number to zero; a finite number is rounded by
    /// the kernel and, where that leaves the range, wrapped or clamped.
    pub open spec fn rounded(self, v: ExtReal) -> ExtReal {
        match v {
            ExtReal::Nan => ExtReal::zero(),
            ExtReal::PosInfinity => self.maxval(),
            ExtReal::NegInfinity => self.minval(),
            ExtReal::Real { .. } => {
                let r = self.kernel().rounded(v);
                if r.c() == 0 || self.in_range(r) {
                    r
                } else {
                    self.overflowed(r)
                }
            },
        }
    }

    /// The flags that rounding `v` raises.
    pub open spec fn flags(self, v: ExtReal) -> Exceptions {
        match v {
            ExtReal::Nan => Exceptions { invalid: true, ..Exceptions::none() },
            ExtReal::Real { c, .. } => {
                let r = self.kernel().rounded(v);
                if c == 0 {
                    Exceptions::none()
                } else {
                    Exceptions {
                        inexact: !self.kernel().cut(v).is_exact(),
                        overflow: r.c() != 0 && !self.in_range(r),
                        ..Exceptions::none()
                    }
                }
            },
            _ => Exceptions::none(),
        }
    }
}

/// Rounding context of [`Fixed`]: fixed-point numbers
/// `(-1)^s * c * 2^scale`, where `c` is an unsigned or signed integer of
/// `nbits` bits.
///
/// The default rounding mode is [`RoundingMode::ToZero`], and a number
/// outside the range is wrapped by default.
#[derive(Clone, Copy, Debug, PartialEq, Eq, Structural)]
pub struct FixedContext {
    signed: bool,
    scale: isize,
    nbits: usize,
    rm: RoundingMode,
    overflow: Overflow,
}

impl View for FixedContext {
    type V = FixedContextView;

    closed spec fn view(&self) -> FixedContextView {
        FixedContextView {
            signed: self.signed,
            scale: self.scale,
            nbits: self.nbits,
            rm: self.rm,
            overflow: self.overflow,
        }
    }
}

/// The remainder that rounds its quotient down, from the remainder that
/// rounds it toward zero.
pub proof fn lemma_trunc_rem(n: int, d: int)
    requires
        d > 0,
    ensures
        -d < trunc_rem(n, d) < d,
        n % d == if trunc_rem(n, d) < 0 {
            trunc_rem(n, d) + d
        } else {
            trunc_rem(n, d)
        },
{
    if n < 0 {
        let q = (-n) / d;
        let r = (-n) % d;
        vstd::arithmetic::div_mod::lemma_fundamental_div_mod(-n, d);
        vstd::arithmetic::div_mod::lemma_mod_bound(-n, d);
        if r > 0 {
            assert(n == (-q - 1) * d + (d - r)) by (nonlinear_arith)
                requires
                    -n == d * q + r,
            ;
            vstd::arithmetic::div_mod::lemma_fundamental_div_mod_converse(n, d, -q - 1, d - r);
        } else {
            assert(n == (-q) * d + 0) by (nonlinear_arith)
                requires
                    -n == d * q + r,
                    r == 0,
            ;
            vstd::arithmetic::div_mod::lemma_fundamental_div_mod_converse(n, d, -q, 0);
        }
    } else {
        vstd::arithmetic::div_mod::lemma_mod_bound(n, d);
    }
}

/// A wrapped significand lies in the range of the format.
pub proof fn lemma_wrapped_in_range(cv: FixedContextView, raw: int)
    requires
        cv.wf(),
    ensures
        cv.min_int() <= cv.wrapped_int(raw) <= cv.max_int(),
{
    let width = pow2(cv.nbits as nat) as int;
    lemma_pow2_pos(cv.nbits as nat);
    lemma_pow2_unfold(cv.nbits as nat);
    if cv.signed {
        let half = pow2((cv.nbits - 1) as nat) as int;
        vstd::arithmetic::div_mod::lemma_mod_bound(raw + half, width);
    } else {
        vstd::arithmetic::div_mod::lemma_mod_bound(raw, width);
    }
}

/// Numbers written at the same exponent are ordered as their signed
/// significands are.
pub proof fn lemma_of_int_order(x: int, y: int, exp: int)
    ensures
        ExtReal::of_int(x, exp).scaled(exp) == x,
        ExtReal::of_int(x, exp).lt(ExtReal::of_int(y, exp)) <==> x < y,
        ExtReal::of_int(x, exp).eqv(ExtReal::of_int(y, exp)) <==> x == y,
        ExtReal::of_int(x, exp).le(ExtReal::of_int(y, exp)) <==> x <= y,
{
    let a = ExtReal::of_int(x, exp);
    let b = ExtReal::of_int(y, exp);
    lemma_scaled_magnitude(a, exp);
    lemma_scaled_magnitude(b, exp);
    lemma_compare_at(a, b, exp);
}

/// The ends of the range are numbers of the format, and so is zero.
pub proof fn lemma_range(cv: FixedContextView)
    requires
        cv.wf(),
    ensures
        cv.min_int() <= 0 <= cv.max_int(),
        cv.in_range(cv.minval()),
        cv.in_range(cv.maxval()),
        cv.in_range(ExtReal::zero()),
        cv.minval() is Real,
        cv.maxval() is Real,
{
    let e = cv.scale as int;
    lemma_pow2_pos(cv.nbits as nat);
    lemma_pow2_pos((cv.nbits - 1) as nat);
    lemma_of_int_order(cv.min_int(), cv.max_int(), e);
    lemma_of_int_order(cv.min_int(), cv.min_int(), e);
    lemma_of_int_order(cv.max_int(), cv.max_int(), e);
    lemma_in_range(cv, ExtReal::zero());
    lemma_in_range(cv, cv.minval());
    lemma_in_range(cv, cv.maxval());
    lemma_scaled_zero(ExtReal::zero(), e);
}

/// A finite number with no digit below `scale` lies in the range of the
/// format exactly where its significand, written at `scale`, lies between
/// the smallest and the largest significand.
pub proof fn lemma_in_range(cv: FixedContextView, v: ExtReal)
    requires
        cv.wf(),
        v is Real,
        v.c() != 0 ==> v.exp() >= cv.scale,
    ensures
        cv.maxval().lt(v) <==> v.scaled(cv.scale as int) > cv.max_int(),
        v.lt(cv.minval()) <==> v.scaled(cv.scale as int) < cv.min_int(),
        cv.in_range(v) <==> cv.min_int() <= v.scaled(cv.scale as int) <= cv.max_int(),
        cv.in_range(v) <==> !cv.maxval().lt(v) && !v.lt(cv.minval()),
{
    let e = cv.scale as int;
    lemma_pow2_pos(cv.nbits as nat);
    lemma_pow2_pos((cv.nbits - 1) as nat);
    lemma_of_int_order(cv.max_int(), 0, e);
    lemma_of_int_order(cv.min_int(), 0, e);
    lemma_scaled_zero(ExtReal::zero(), e);
    lemma_compare_at(cv.maxval(), v, e);
    lemma_compare_at(v, cv.maxval(), e);
    lemma_compare_at(cv.minval(), v, e);
    lemma_compare_at(v, cv.minval(), e);
}

/// Wrapping leaves a number of the format.
pub proof fn lemma_wrap_in_range(cv: FixedContextView, v: ExtReal)
    requires
        cv.wf(),
    ensures
        cv.in_range(cv.wrapped(v)),
        cv.wrapped(v) is Real,
        cv.wrapped(v).exp() == cv.scale,
{
    let e = cv.scale as int;
    let w = cv.wrapped_int(v.scaled(e));
    lemma_wrapped_in_range(cv, v.scaled(e));
    lemma_of_int_order(w, w, e);
    lemma_in_range(cv, cv.wrapped(v));
}

impl FixedContext {
    /// Wraps a rounded number, finite, other than zero and with no digit
    /// below `scale`, into the range of the format: its significand at
    /// `scale` is replaced by its remainder by `2^nbits`, taken between the
    /// smallest and the largest significand of the format.
    pub fn round_wrap(&self, val: RFloat) -> (r: RFloat)
        requires
            self@.wf(),
            val@.is_nonzero(),
            val@.exp() >= self@.scale,
        ensures
            r@ == self@.wrapped(val@),
            self@.in_range(r@),
    {
        let ghost raw = val@.scaled(self.scale as int);
        proof {
            lemma_scaled_magnitude(val@, self.scale as int);
            lemma_wrap_in_range(self@, val@);
            lemma_pow2_pos(self.nbits as nat);
            lemma_pow2_pos((self.nbits - 1) as nat);
        }
        let exp = val.exp().unwrap();
        let sign = val.sign().unwrap();
        let offset: i128 = exp as i128 - self.scale as i128;
        let div = power_of_two(self.nbits as u64);
        let c = shl_by(val.c().unwrap(), offset as u64);
        let m = if sign {
            integer::negate(c)
        } else {
            c
        };
        assert(int_of(m) == raw);
        if self.signed {
            // signed wrapping: `((v + 2^(w - 1)) mod 2^w) - 2^(w - 1)`
            let shift = power_of_two((self.nbits - 1) as u64);
            let moved = integer::plus(m, integer::copy(&shift));
            proof {
                lemma_trunc_rem(int_of(moved), int_of(div));
            }
            let rem = integer::rem(moved, integer::copy(&div));
            let rem = if integer::is_negative(&rem) {
                integer::plus(rem, div)
            } else {
                rem
            };
            let wrapped = integer::minus(rem, shift);
            let negative = integer::is_negative(&wrapped);
            RFloat::Real(negative, self.scale, integer::abs(wrapped))
        } else {
            // unsigned wrapping: `v mod 2^w`
            proof {
                lemma_trunc_rem(int_of(m), int_of(div));
            }
            let rem = integer::rem(m, integer::copy(&div));
            let rem = if integer::is_negative(&rem) {
                integer::plus(rem, div)
            } else {
                rem
            };
            RFloat::Real(false, self.scale, rem)
        }
    }

    /// Rounds a number to this format. The result lies in the range of the
    /// format.
    pub fn round<T: Real>(&self, val: &T) -> (r: Fixed)
        requires
            self@.wf(),
            self@.kernel().fits(val.value()),
        ensures
            r@.num == self@.rounded(val.value()),
            r@.flags == self@.flags(val.value()),
            r@.ctx == *self,
            self@.in_range(r@.num),
    {
        proof {
            lemma_range(self@);
        }
        // case split by class
        if val.is_zero() {
            // zero is always representable
            Fixed::new(RFloat::zero(), Exceptions::new(), *self)
        } else if val.is_infinite() {
            // +Inf goes to MAX, -Inf goes to MIN
            if val.is_negative().unwrap() {
                self.minval()
            } else {
                self.maxval()
            }
        } else if val.is_nar() {
            // NaN goes to 0
            let mut flags = Exceptions::new();
            flags.invalid = true;
            Fixed::new(RFloat::zero(), flags, *self)
        } else {
            let ghost v = val.value();
            // step 1: rounding parameters of an unbounded fixed-point
            // number: only the first digit to chop off is set
            let kernel = Context::new().with_min_n(self.scale - 1).with_rounding_mode(self.rm);
            let (p, n) = kernel.round_params(val);

            // step 2: split the significand at binary digit `n`
            let split = Split::new(val, p, n);

            // step 3: the inexact flag, then the rounded number
            let mut flags = Exceptions::new();
            flags.inexact = !split.is_exact();
            let rounded = Context::round_finalize(split, p, self.rm);

            // early exit if zero
            if rounded.is_zero() {
                proof {
                    crate::value::lemma_canonical(self@.kernel().cut(v).rounded(None, self.rm));
                }
                return Fixed::new(rounded, flags, *self);
            }
            proof {
                lemma_rounded_representable(self@.kernel(), v);
                lemma_in_range(self@, rounded@);
            }

            // step 4: may need to wrap or saturate
            let maxval = self.maxval().into_rfloat();
            let minval = self.minval().into_rfloat();
            let above = match rounded.compare(&maxval) {
                Some(o) => o > 0,
                None => false,
            };
            let below = match rounded.compare(&minval) {
                Some(o) => o < 0,
                None => false,
            };
            if above {
                // larger than the maxval
                flags.overflow = true;
                let num = match self.overflow {
                    Overflow::Wrap => self.round_wrap(rounded),
                    Overflow::Saturate => maxval,
                };
                Fixed::new(num, flags, *self)
            } else if below {
                // smaller than the minval
                flags.overflow = true;
                let num = match self.overflow {
                    Overflow::Wrap => self.round_wrap(rounded),
                    Overflow::Saturate => minval,
                };
                Fixed::new(num, flags, *self)
            } else {
                Fixed::new(rounded, flags, *self)
            }
        }
    }
}

impl FixedContext {
    /// The format of `nbits` bits with the lowest digit at `scale`, signed
    /// or not. There must be at least one bit, and one more for the sign.
    pub fn new(signed: bool, scale: isize, nbits: usize) -> (r: Self)
        requires
            (signed && nbits >= 2) || (!signed && nbits >= 1),
            scale > isize::MIN,
        ensures
            r@ == (FixedContextView {
                signed,
                scale,
                nbits,
                rm: RoundingMode::ToZero,
                overflow: Overflow::Wrap,
            }),
            r@.wf(),
    {
        Self { signed, scale, nbits, rm: RoundingMode::ToZero, overflow: Overflow::Wrap }
    }

    /// Sets the rounding mode.
    pub fn with_rounding_mode(self, rm: RoundingMode) -> (r: Self)
        ensures
            r@ == (FixedContextView { rm, ..self@ }),
    {
        Self {
            signed: self.signed,
            scale: self.scale,
            nbits: self.nbits,
            rm,
            overflow: self.overflow,
        }
    }

    /// Sets what is done with a number outside the range.
    pub fn with_overflow(self, overflow: Overflow) -> (r: Self)
        ensures
            r@ == (FixedContextView { overflow, ..self@ }),
    {
        Self { signed: self.signed, scale: self.scale, nbits: self.nbits, rm: self.rm, overflow }
    }

    /// The largest number of the format: `(2^nbits - 1) * 2^scale` where
    /// the format is unsigned, `(2^(nbits-1) - 1) * 2^scale` where it is
    /// signed.
    pub fn maxval(&self) -> (r: Fixed)
        requires
            self@.wf(),
        ensures
            r@.num == self@.maxval(),
            r@.flags == Exceptions::none(),
            r@.ctx == *self,
    {
        proof {
            lemma_pow2_pos(self.nbits as nat);
            lemma_pow2_pos((self.nbits - 1) as nat);
        }
        let width = if self.signed {
            self.nbits - 1
        } else {
            self.nbits
        };
        let c = integer::minus(power_of_two(width as u64), integer::from_u64(1));
        Fixed::new(RFloat::Real(false, self.scale, c), Exceptions::new(), *self)
    }

    /// The smallest number of the format: `0` where the format is
    /// unsigned, `-2^(nbits-1) * 2^scale` where it is signed.
    pub fn minval(&self) -> (r: Fixed)
        requires
            self@.wf(),
        ensures
            r@.num == self@.minval(),
            r@.flags == Exceptions::none(),
            r@.ctx == *self,
    {
        if self.signed {
            proof {
                lemma_pow2_pos((self.nbits - 1) as nat);
            }
            let c = power_of_two((self.nbits - 1) as u64);
            Fixed::new(RFloat::Real(true, self.scale, c), Exceptions::new(), *self)
        } else {
            Fixed::new(RFloat::zero(), Exceptions::new(), *self)
        }
    }

    /// Zero in this format.
    pub fn zero(&self) -> (r: Fixed)
        ensures
            r@.num == ExtReal::zero(),
            r@.flags == Exceptions::none(),
            r@.ctx == *self,
    {
        Fixed::new(RFloat::zero(), Exceptions::new(), *self)
    }

    /// The smallest positive number of the format, which is the difference
    /// between neighbouring numbers: `2^scale`.
    pub fn quantum(&self) -> (r: Fixed)
        ensures
            r@.num == self@.quantum(),
            r@.flags == Exceptions::none(),
            r@.ctx == *self,
    {
        Fixed::new(RFloat::Real(false, self.scale, integer::from_u64(1)), Exceptions::new(), *self)
    }
}

} // verus!
