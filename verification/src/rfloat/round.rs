use crate::integer;
use crate::integer::int_of;
use crate::math::bitlen;
use crate::number::{ExtReal, Real};
use crate::rfloat::RFloat;
use crate::round::{RoundingDirection, RoundingMode};
use crate::split::{Split, SplitView};
use crate::util::shr_by;
use rug::Integer;
use vstd::prelude::*;

verus! {

/// Whether rounding adds one unit in the last place to the truncated
/// significand: the decision by rounding mode, sign, parity of the truncated
/// significand, the digit at the cut and whether any digit below it is one.
pub open spec fn increments(
    rm: RoundingMode,
    sign: bool,
    odd: bool,
    half: bool,
    sticky: bool,
) -> bool {
    let by_direction = match rm.direction(sign) {
        RoundingDirection::ToZero => false,
        RoundingDirection::AwayZero => true,
        RoundingDirection::ToEven => odd,
        RoundingDirection::ToOdd => !odd,
    };
    if !half && !sticky {
        false
    } else if rm.is_nearest() {
        half && (sticky || by_direction)
    } else {
        by_direction
    }
}

impl SplitView {
    /// Whether rounding in mode `rm` adds one unit to the high part.
    pub open spec fn increments(self, rm: RoundingMode) -> bool {
        increments(
            rm,
            self.high.sign(),
            self.high.c() % 2 == 1,
            self.halfway,
            self.quarter || self.sticky,
        )
    }

    /// The significand of the high part after the increment, if any.
    pub open spec fn incremented(self, rm: RoundingMode) -> nat {
        if self.increments(rm) {
            self.high.c() + 1
        } else {
            self.high.c()
        }
    }

    /// Whether the increment made the significand outgrow the precision
    /// `p`, so that the exponent grew by one.
    pub open spec fn carries(self, p: Option<usize>, rm: RoundingMode) -> bool {
        self.increments(rm) && p is Some && bitlen(self.incremented(rm)) > p->0
    }

    /// The rounded number with the digits that rounding leaves it.
    pub open spec fn rounded(self, p: Option<usize>, rm: RoundingMode) -> ExtReal {
        if self.carries(p, rm) {
            ExtReal::Real {
                sign: self.high.sign(),
                exp: self.high.exp() + 1,
                c: self.incremented(rm) / 2,
            }
        } else {
            ExtReal::Real {
                sign: self.high.sign(),
                exp: self.high.exp(),
                c: self.incremented(rm),
            }
        }
    }
}

/// What a [`Context`] holds.
pub ghost struct ContextView {
    /// The largest precision of a rounded number, if bounded.
    pub max_p: Option<usize>,
    /// The position below the lowest digit that a rounded number may have,
    /// if bounded.
    pub min_n: Option<isize>,
    /// The rounding mode.
    pub rm: RoundingMode,
}

impl ContextView {
    /// Whether rounding is defined: a bound is given, and a precision
    /// bound is positive.
    pub open spec fn wf(self) -> bool {
        &&& self.max_p is Some || self.min_n is Some
        &&& self.max_p is Some ==> self.max_p->0 >= 1
    }

    /// The position at which a finite number is cut: `min_n` for a
    /// fixed-point context, `e - max_p` for a floating-point context, the
    /// larger of the two where both are given. The leading digit of zero is
    /// taken to be at position 0.
    pub open spec fn cut_position(self, v: ExtReal) -> int {
        let e = if v.is_nonzero() {
            v.e()
        } else {
            0
        };
        match (self.max_p, self.min_n) {
            (None, None) => 0,
            (None, Some(min_n)) => min_n as int,
            (Some(max_p), None) => e - max_p,
            (Some(max_p), Some(min_n)) => if min_n >= e - max_p {
                min_n as int
            } else {
                e - max_p
            },
        }
    }

    /// A finite number cut where this context cuts it.
    pub open spec fn cut(self, v: ExtReal) -> SplitView {
        v.cut(self.max_p, self.cut_position(v))
    }

    /// The number rounded under this context: zero, infinities and what is
    /// not a number stay; any other number is cut, rounded by the mode and
    /// brought to canonical form.
    pub open spec fn rounded(self, v: ExtReal) -> ExtReal {
        match v {
            ExtReal::Real { c, .. } => if c == 0 {
                ExtReal::zero()
            } else {
                self.cut(v).rounded(self.max_p, self.rm).canonical()
            },
            _ => v,
        }
    }

    /// Whether the positions that arise in rounding `v` fit the machine
    /// integers.
    pub open spec fn fits(self, v: ExtReal) -> bool {
        &&& v.positions_fit()
        &&& v.is_finite() ==> isize::MIN <= self.cut_position(v) < isize::MAX
        &&& v.is_nonzero() ==> self.cut(v).rounded(self.max_p, self.rm).positions_fit()
    }
}

/// Rounding context of [`RFloat`]: the rounding kernel.
///
/// Rounding takes a maximum precision `max_p`, a minimum position `min_n`
/// below the lowest digit, or both, and a rounding mode. With `min_n` alone
/// it is fixed-point rounding with unbounded precision; with `max_p` alone,
/// floating-point rounding with unbounded exponent; with both, `min_n`
/// takes precedence, so that a result may have fewer than `max_p` digits, as
/// the subnormal numbers of IEEE 754 do. The exponent of a result is never
/// bounded from above.
#[derive(Clone, Copy, Debug)]
pub struct Context {
    max_p: Option<usize>,
    min_n: Option<isize>,
    rm: RoundingMode,
}

impl View for Context {
    type V = ContextView;

    closed spec fn view(&self) -> ContextView {
        ContextView { max_p: self.max_p, min_n: self.min_n, rm: self.rm }
    }
}

impl Context {
    /// A context with neither bound, which cannot round yet, and the mode
    /// [`RoundingMode::NearestTiesToEven`].
    pub fn new() -> (r: Self)
        ensures
            r@ == (ContextView { max_p: None, min_n: None, rm: RoundingMode::NearestTiesToEven }),
    {
        Self { max_p: None, min_n: None, rm: RoundingMode::NearestTiesToEven }
    }

    /// Sets the maximum precision.
    pub fn with_max_precision(self, max_p: usize) -> (r: Self)
        ensures
            r@ == (ContextView { max_p: Some(max_p), ..self@ }),
    {
        Self { max_p: Some(max_p), min_n: self.min_n, rm: self.rm }
    }

    /// Sets the minimum position below the lowest digit.
    pub fn with_min_n(self, min_n: isize) -> (r: Self)
        ensures
            r@ == (ContextView { min_n: Some(min_n), ..self@ }),
    {
        Self { max_p: self.max_p, min_n: Some(min_n), rm: self.rm }
    }

    /// Sets the rounding mode.
    pub fn with_rounding_mode(self, rm: RoundingMode) -> (r: Self)
        ensures
            r@ == (ContextView { rm, ..self@ }),
    {
        Self { max_p: self.max_p, min_n: self.min_n, rm }
    }

    /// Clears the maximum precision.
    pub fn without_max_precision(self) -> (r: Self)
        ensures
            r@ == (ContextView { max_p: None, ..self@ }),
    {
        Self { max_p: None, min_n: self.min_n, rm: self.rm }
    }

    /// Clears the minimum position.
    pub fn without_min_n(self) -> (r: Self)
        ensures
            r@ == (ContextView { min_n: None, ..self@ }),
    {
        Self { max_p: self.max_p, min_n: None, rm: self.rm }
    }

    /// The maximum precision, if bounded.
    pub fn max_p(&self) -> (r: Option<usize>)
        ensures
            r == self@.max_p,
    {
        self.max_p
    }

    /// The minimum position, if bounded.
    pub fn min_n(&self) -> (r: Option<isize>)
        ensures
            r == self@.min_n,
    {
        self.min_n
    }

    /// The rounding mode.
    pub fn rm(&self) -> (r: RoundingMode)
        ensures
            r == self@.rm,
    {
        self.rm
    }

    /// The parameters by which a finite number is rounded under this
    /// context: the precision bound and the position of the cut.
    pub fn round_params<T: Real>(&self, num: &T) -> (r: (Option<usize>, isize))
        requires
            self@.max_p is Some || self@.min_n is Some,
            num.value().is_finite(),
            num.value().positions_fit(),
            isize::MIN <= self@.cut_position(num.value()) <= isize::MAX,
        ensures
            r.0 == self@.max_p,
            r.1 == self@.cut_position(num.value()),
    {
        let e: i128 = match num.e() {
            Some(e) => e as i128,
            None => 0,
        };
        match (self.max_p, self.min_n) {
            (None, None) => (None, 0),
            (None, Some(min_n)) => {
                // fixed-point rounding: limited by n, precision is unbounded
                (None, min_n)
            },
            (Some(max_p), None) => {
                // floating-point rounding: limited by precision, exponent is unbounded
                let n: i128 = e - max_p as i128;
                (Some(max_p), n as isize)
            },
            (Some(max_p), Some(min_n)) => {
                // floating-point rounding with subnormalization: limited by
                // precision or exponent
                let unbounded_n: i128 = e - max_p as i128;
                if min_n as i128 >= unbounded_n {
                    (Some(max_p), min_n)
                } else {
                    (Some(max_p), unbounded_n as isize)
                }
            },
        }
    }

    /// Cuts a finite number at digit `n`: the digits above, the two digits
    /// at and below the cut, and whether any lower digit is one.
    pub fn round_prepare<T: Real>(num: &T, n: isize) -> (r: Split)
        requires
            num.value().is_finite(),
            num.value().positions_fit(),
            n < isize::MAX,
        ensures
            r@ == num.value().cut(None, n as int),
    {
        Split::new(num, None, n)
    }

    /// Given the truncated significand and the rounding digits, whether the
    /// truncated result is incremented to give the rounded result.
    pub fn round_increment(
        sign: bool,
        c: &Integer,
        half_bit: bool,
        sticky_bit: bool,
        rm: RoundingMode,
    ) -> (r: bool)
        ensures
            r == increments(rm, sign, int_of(*c) % 2 == 1, half_bit, sticky_bit),
    {
        let (is_nearest, rd) = rm.to_direction(sign);
        match (is_nearest, half_bit, sticky_bit, rd) {
            // exact => truncate
            (_, false, false, _) => false,
            // nearest, below the halfway point => truncate
            (true, false, _, _) => false,
            // nearest, above the halfway point => increment
            (true, true, true, _) => true,
            // nearest, exactly halfway => by the direction of ties
            (true, true, false, RoundingDirection::ToZero) => false,
            (true, true, false, RoundingDirection::AwayZero) => true,
            (true, true, false, RoundingDirection::ToEven) => integer::is_odd(c),
            (true, true, false, RoundingDirection::ToOdd) => integer::is_even(c),
            // directed
            (false, _, _, RoundingDirection::ToZero) => false,
            (false, _, _, RoundingDirection::AwayZero) => true,
            (false, _, _, RoundingDirection::ToEven) => integer::is_odd(c),
            (false, _, _, RoundingDirection::ToOdd) => integer::is_even(c),
        }
    }

    /// Whether finishing the rounding of `split` carries: the increment
    /// makes the significand outgrow the precision `p`, and the exponent
    /// grows by one.
    pub fn round_carry(split: &Split, p: Option<usize>, rm: RoundingMode) -> (r: bool)
        requires
            split@.high is Real,
        ensures
            r == split@.carries(p, rm),
    {
        let high = split.high();
        let c = high.c().unwrap();
        let sign = high.sign().unwrap();
        let sticky = split.quarter_bit() || split.sticky_bit();
        if Self::round_increment(sign, &c, split.halfway_bit(), sticky, rm) {
            let c = integer::plus(c, integer::from_u64(1));
            match p {
                Some(p) => integer::significant_bits(&c) > p as u64,
                None => false,
            }
        } else {
            false
        }
    }

    /// Finishes the rounding of a cut number: the high part, incremented
    /// where the mode and the rounding digits say so, in canonical form.
    pub fn round_finalize(split: Split, p: Option<usize>, rm: RoundingMode) -> (r: RFloat)
        requires
            split@.high is Real,
            p is Some ==> p->0 >= 1,
            split@.rounded(p, rm).positions_fit(),
            isize::MIN <= split@.high.exp() <= isize::MAX,
        ensures
            r@ == split@.rounded(p, rm).canonical(),
            r@.positions_fit(),
    {
        // truncated result
        let high = split.high();
        let sign = high.sign().unwrap();
        let mut exp: isize = match high {
            RFloat::Real(_, exp, _) => *exp,
            _ => 0,
        };
        let mut c = high.c().unwrap();

        // rounding bits
        let halfway_bit = split.halfway_bit();
        let sticky_bit = split.quarter_bit() || split.sticky_bit();

        // correct if needed
        if Self::round_increment(sign, &c, halfway_bit, sticky_bit, rm) {
            c = integer::plus(c, integer::from_u64(1));
            let carry = match p {
                Some(p) => integer::significant_bits(&c) > p as u64,
                None => false,
            };
            if carry {
                proof {
                    lemma_carry_is_power(split@.high.c(), p->0 as nat);
                }
                c = shr_by(c, 1);
                exp = exp + 1;
            }
        }
        RFloat::Real(sign, exp, c).canonicalize()
    }

    /// Rounds a finite number other than zero.
    pub fn round_finite<T: Real>(&self, num: &T) -> (r: RFloat)
        requires
            self@.wf(),
            num.value().is_nonzero(),
            self@.fits(num.value()),
        ensures
            r@ == self@.rounded(num.value()),
            r@.positions_fit(),
    {
        // step 1: compute the first digit we will split off
        let (p, n) = self.round_params(num);

        // step 2: split the significand at binary digit `n`
        let split = Self::round_prepare(num, n);

        // step 3: finalize the rounding
        Self::round_finalize(split, p, self.rm)
    }

    /// Rounds a number under this context. The result is in canonical form,
    /// so that the significand of a result other than zero is odd; a result
    /// other than zero has the sign of the number.
    pub fn round<T: Real>(&self, num: &T) -> (r: RFloat)
        requires
            self@.wf(),
            self@.fits(num.value()),
        ensures
            r@ == self@.rounded(num.value()),
            r@.is_canonical(),
            r@.is_nonzero() ==> r@.c() % 2 == 1,
            num.value().is_nonzero() && r@.is_nonzero() ==> r@.sign() == num.value().sign(),
            r@.positions_fit(),
    {
        proof {
            crate::rfloat::laws::lemma_round_canonical(self@, num.value());
        }
        // case split by class
        if num.is_zero() {
            RFloat::zero()
        } else if num.is_infinite() {
            if num.is_negative().unwrap() {
                RFloat::NegInfinity
            } else {
                RFloat::PosInfinity
            }
        } else if num.is_nar() {
            RFloat::Nan
        } else {
            self.round_finite(num)
        }
    }
}

impl Default for Context {
    fn default() -> (r: Self)
        ensures
            r@ == (ContextView { max_p: None, min_n: None, rm: RoundingMode::NearestTiesToEven }),
    {
        Self::new()
    }
}

/// If `c` has at most `p` digits and `c + 1` has more, then `c + 1 = 2^p`.
pub proof fn lemma_carry_is_power(c: nat, p: nat)
    requires
        bitlen(c + 1) > p,
    ensures
        bitlen(c) <= p ==> c + 1 == vstd::arithmetic::power2::pow2(p),
        bitlen((c + 1) / 2) + 1 == bitlen(c + 1),
        (c + 1) / 2 > 0 || p == 0,
        vstd::arithmetic::power2::pow2(1) == 2,
{
    crate::math::lemma_bitlen_le(c, p);
    crate::math::lemma_bitlen_le(c + 1, p);
    crate::math::lemma_pow2_zero();
    crate::math::lemma_bitlen_half(c + 1);
    if (c + 1) / 2 == 0 {
        assert(c == 0);
        assert(bitlen(1) == 1) by {
            reveal_with_fuel(bitlen, 2);
        }
    }
}

} // verus!
