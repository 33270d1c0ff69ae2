//! A number cut in two at a binary digit.
use crate::integer;
use crate::integer::int_of;
use crate::math::{bit, lemma_bitlen_le, lemma_pow2_zero, lemma_top_digit};
use crate::number::{ExtReal, Real};
use crate::rfloat::RFloat;
use crate::util::power_of_two;
use vstd::arithmetic::power2::{lemma_pow2_pos, pow2};
use vstd::prelude::*;

verus! {

/// What a [`Split`] holds, as mathematics sees it.
pub ghost struct SplitView {
    /// The digits above the cut.
    pub high: ExtReal,
    /// The digits at and below the cut.
    pub lost: ExtReal,
    /// The digit at the cut.
    pub halfway: bool,
    /// The digit just below the cut.
    pub quarter: bool,
    /// Whether any digit below the cut is one.
    pub sticky: bool,
    /// The precision that the high part was asked to stay within, if any.
    pub max_p: Option<usize>,
    /// The position of the cut.
    pub n: int,
}

impl SplitView {
    /// Whether nothing was lost.
    pub open spec fn is_exact(self) -> bool {
        !self.halfway && !self.quarter && !self.sticky
    }
}

impl ExtReal {
    /// The digit of a finite number at position `n`.
    pub open spec fn halfway(self, n: int) -> bool {
        n >= self.exp() && bit(self.c(), (n - self.exp()) as nat)
    }

    /// The digit of a finite number at position `n - 1`.
    pub open spec fn quarter(self, n: int) -> bool {
        n - 1 >= self.exp() && bit(self.c(), (n - 1 - self.exp()) as nat)
    }

    /// Whether a finite number has a one digit below position `n`.
    pub open spec fn sticky(self, n: int) -> bool {
        n > self.exp() && self.c() % pow2((n - self.exp()) as nat) != 0
    }

    /// A finite number cut at position `n`.
    pub open spec fn cut(self, max_p: Option<usize>, n: int) -> SplitView {
        SplitView {
            high: self.high(n),
            lost: self.lost(n),
            halfway: self.halfway(n),
            quarter: self.quarter(n),
            sticky: self.sticky(n),
            max_p,
            n,
        }
    }
}

/// A finite number cut at a binary digit `n`: the digits above `n`, the
/// digits at and below `n`, and the three facts about the latter by which
/// rounding decides.
pub struct Split {
    high: RFloat,
    lost: RFloat,
    halfway: bool,
    quarter: bool,
    sticky: bool,
    max_p: Option<usize>,
    n: isize,
}

impl View for Split {
    type V = SplitView;

    closed spec fn view(&self) -> SplitView {
        SplitView {
            high: self.high@,
            lost: self.lost@,
            halfway: self.halfway,
            quarter: self.quarter,
            sticky: self.sticky,
            max_p: self.max_p,
            n: self.n as int,
        }
    }
}

impl Split {
    /// Cuts a finite number at digit `n`. Where a precision is given, the
    /// digits above the cut must fit it.
    pub fn new<T: Real>(num: &T, max_p: Option<usize>, n: isize) -> (r: Split)
        requires
            num.value().is_finite(),
            num.value().positions_fit(),
            n < isize::MAX,
            max_p is Some ==> num.value().high(n as int).prec() <= max_p->0,
        ensures
            r@ == num.value().cut(max_p, n as int),
    {
        let (high, lost) = num.split(n);
        let ghost v = num.value();
        // the number of digits at and below the cut
        let ghost off = n + 1 - v.exp();
        let mut halfway = false;
        let mut quarter = false;
        let mut sticky = false;
        if !lost.is_zero() {
            let exp = lost.exp().unwrap();
            let c = lost.c().unwrap();
            let width: i128 = n as i128 + 1 - exp as i128;
            let ghost j = (off - 1) as nat;
            proof {
                lemma_top_digit(v.c(), j);
                lemma_pow2_pos(j);
                lemma_bitlen_le(lost@.c(), j);
                lemma_bitlen_le(lost@.c(), j + 1);
            }
            // the digit at the cut is the leading one of what is lost
            let bits: u64 = integer::significant_bits(&c);
            halfway = bits as i128 == width;
            // the digits below the cut
            let rest = if halfway {
                integer::minus(c, power_of_two(bits - 1))
            } else {
                c
            };
            assert(int_of(rest) == v.c() % pow2(j));
            proof {
                if off >= 2 {
                    let i = (off - 2) as nat;
                    lemma_top_digit(v.c(), i);
                    lemma_pow2_pos(i);
                    lemma_bitlen_le(int_of(rest) as nat, i);
                    lemma_bitlen_le(int_of(rest) as nat, i + 1);
                } else {
                    lemma_pow2_zero();
                }
            }
            let rest_bits: u64 = integer::significant_bits(&rest);
            quarter = width >= 2 && rest_bits as i128 == width - 1;
            sticky = !integer::is_zero(&rest);
        } else {
            proof {
                if v.c() != 0 && n >= v.exp() {
                    let j = (off - 1) as nat;
                    lemma_top_digit(v.c(), j);
                    lemma_pow2_pos(j);
                    if off >= 2 {
                        let i = (off - 2) as nat;
                        lemma_top_digit(v.c(), i);
                        lemma_pow2_pos(i);
                    } else {
                        lemma_pow2_zero();
                    }
                } else if v.c() == 0 {
                    lemma_zero_has_no_digits(n - v.exp());
                    lemma_zero_has_no_digits(n - 1 - v.exp());
                }
            }
        }
        Split { high, lost, halfway, quarter, sticky, max_p, n }
    }

    /// The digits above the cut.
    pub fn high(&self) -> (r: &RFloat)
        ensures
            r@ == self@.high,
    {
        &self.high
    }

    /// The digits at and below the cut: what rounding toward zero loses.
    pub fn lost(&self) -> (r: &RFloat)
        ensures
            r@ == self@.lost,
    {
        &self.lost
    }

    /// The digit at the cut.
    pub fn halfway_bit(&self) -> (r: bool)
        ensures
            r == self@.halfway,
    {
        self.halfway
    }

    /// The digit just below the cut.
    pub fn quarter_bit(&self) -> (r: bool)
        ensures
            r == self@.quarter,
    {
        self.quarter
    }

    /// Whether any digit below the cut is one.
    pub fn sticky_bit(&self) -> (r: bool)
        ensures
            r == self@.sticky,
    {
        self.sticky
    }

    /// The precision that the high part was asked to stay within, if any.
    pub fn max_p(&self) -> (r: Option<usize>)
        ensures
            r == self@.max_p,
    {
        self.max_p
    }

    /// The position of the cut.
    pub fn n(&self) -> (r: isize)
        ensures
            r == self@.n,
    {
        self.n
    }

    /// Whether nothing was lost.
    pub fn is_exact(&self) -> (r: bool)
        ensures
            r == self@.is_exact(),
    {
        !self.halfway && !self.quarter && !self.sticky
    }
}

/// Zero has no one digit.
pub proof fn lemma_zero_has_no_digits(i: int)
    ensures
        !bit(0, i as nat),
        0nat % pow2(i as nat) == 0,
{
    lemma_pow2_pos(i as nat);
    vstd::arithmetic::div_mod::lemma_div_basics(pow2(i as nat) as int);
    vstd::arithmetic::div_mod::lemma_small_mod(0, pow2(i as nat));
}

} // verus!

