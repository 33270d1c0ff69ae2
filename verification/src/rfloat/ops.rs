use crate::integer;
use crate::integer::int_of;
use crate::math::{lemma_pow2_monotone, lemma_pow2_zero};
use crate::number::ExtReal;
use crate::rfloat::RFloat;
use crate::util::shl_by;
use crate::value::{
    lemma_scaled_bounds, lemma_scaled_magnitude, lemma_scaled_neg, lemma_scaled_sign, lesser,
};
use rug::Integer;
use vstd::math::abs;
use vstd::prelude::*;

verus! {

/// Orders the magnitudes `|c1| * 2^exp1` and `|c2| * 2^exp2` of two numbers
/// other than zero: negative where the first is smaller, zero where they
/// are equal, positive where the first is larger.
fn magnitude_order(exp1: isize, c1: &Integer, exp2: isize, c2: &Integer) -> (r: i8)
    requires
        int_of(*c1) != 0,
        int_of(*c2) != 0,
    ensures
        ({
            let a = ExtReal::Real { sign: false, exp: exp1 as int, c: abs(int_of(*c1)) };
            let b = ExtReal::Real { sign: false, exp: exp2 as int, c: abs(int_of(*c2)) };
            let k = lesser(exp1 as int, exp2 as int);
            &&& -1 <= r <= 1
            &&& r < 0 <==> a.scaled(k) < b.scaled(k)
            &&& r == 0 <==> a.scaled(k) == b.scaled(k)
        }),
{
    let ghost a = ExtReal::Real { sign: false, exp: exp1 as int, c: abs(int_of(*c1)) };
    let ghost b = ExtReal::Real { sign: false, exp: exp2 as int, c: abs(int_of(*c2)) };
    let ghost k = lesser(exp1 as int, exp2 as int);
    let bits1: u64 = integer::significant_bits(c1);
    let bits2: u64 = integer::significant_bits(c2);
    // the positions above the leading digits
    let top1 = integer::plus(integer::from_isize(exp1), integer::from_u64(bits1));
    let top2 = integer::plus(integer::from_isize(exp2), integer::from_u64(bits2));
    proof {
        lemma_scaled_bounds(a, k);
        lemma_scaled_bounds(b, k);
    }
    if integer::less(&top1, &top2) {
        proof {
            lemma_pow2_monotone((a.e() + 1 - k) as nat, (b.e() - k) as nat);
        }
        -1
    } else if integer::less(&top2, &top1) {
        proof {
            lemma_pow2_monotone((b.e() + 1 - k) as nat, (a.e() - k) as nat);
        }
        1
    } else {
        // the leading digits are at the same position: align the lowest
        let m1 = integer::abs(integer::copy(c1));
        let m2 = integer::abs(integer::copy(c2));
        proof {
            lemma_pow2_zero();
            lemma_scaled_magnitude(a, k);
            lemma_scaled_magnitude(b, k);
        }
        assert(exp1 + bits1 == exp2 + bits2);
        let (x1, x2) = if bits1 >= bits2 {
            assert(k == exp1 && exp2 - k == bits1 - bits2);
            assert((exp2 - k) as nat == (bits1 - bits2) as nat);
            assert(int_of(m1) * 1 == a.scaled(k));
            (m1, shl_by(m2, bits1 - bits2))
        } else {
            assert(k == exp2 && exp1 - k == bits2 - bits1);
            assert((exp1 - k) as nat == (bits2 - bits1) as nat);
            assert(int_of(m2) * 1 == b.scaled(k));
            (shl_by(m1, bits2 - bits1), m2)
        };
        assert(int_of(x1) == a.scaled(k));
        assert(int_of(x2) == b.scaled(k));
        if integer::less(&x1, &x2) {
            -1
        } else if integer::equal(&x1, &x2) {
            0
        } else {
            1
        }
    }
}

impl RFloat {
    /// Compares two numbers by their numerical value: `None` where either
    /// is not a number, otherwise a negative number where `self` is below
    /// `other`, zero where they are equal, a positive number where `self`
    /// is above.
    pub fn compare(&self, other: &RFloat) -> (r: Option<i8>)
        ensures
            r is None <==> (self@ is Nan || other@ is Nan),
            r is Some ==> -1 <= r->0 <= 1,
            (r is Some && r->0 < 0) <==> self@.lt(other@),
            (r is Some && r->0 == 0) <==> self@.eqv(other@),
            (r is Some && r->0 > 0) <==> other@.lt(self@),
    {
        match (self, other) {
            (RFloat::Nan, _) => None,
            (_, RFloat::Nan) => None,
            (RFloat::PosInfinity, RFloat::PosInfinity) => Some(0),
            (RFloat::NegInfinity, RFloat::NegInfinity) => Some(0),
            (RFloat::PosInfinity, _) => Some(1),
            (_, RFloat::PosInfinity) => Some(-1),
            (RFloat::NegInfinity, _) => Some(-1),
            (_, RFloat::NegInfinity) => Some(1),
            (RFloat::Real(s1, exp1, c1), RFloat::Real(s2, exp2, c2)) => {
                let ghost k = lesser(*exp1 as int, *exp2 as int);
                proof {
                    lemma_scaled_sign(self@, k);
                    lemma_scaled_sign(other@, k);
                }
                let zero1 = integer::is_zero(c1);
                let zero2 = integer::is_zero(c2);
                if zero1 && zero2 {
                    Some(0)
                } else if zero1 {
                    if *s2 {
                        Some(1)
                    } else {
                        Some(-1)
                    }
                } else if zero2 {
                    if *s1 {
                        Some(-1)
                    } else {
                        Some(1)
                    }
                } else if *s1 != *s2 {
                    if *s1 {
                        Some(-1)
                    } else {
                        Some(1)
                    }
                } else {
                    let m = magnitude_order(*exp1, c1, *exp2, c2);
                    proof {
                        if *s1 {
                            let a = ExtReal::Real { sign: false, exp: *exp1 as int, c: self@.c() };
                            let b = ExtReal::Real { sign: false, exp: *exp2 as int, c: other@.c() };
                            lemma_scaled_neg(a, k);
                            lemma_scaled_neg(b, k);
                        }
                    }
                    if *s1 {
                        Some(-m)
                    } else {
                        Some(m)
                    }
                }
            },
        }
    }
}

impl std::ops::Neg for RFloat {
    type Output = RFloat;

    /// The negated number.
    fn neg(self) -> (r: RFloat)
        ensures
            r@ == self@.neg(),
    {
        match self {
            RFloat::Real(s, exp, c) => if integer::is_zero(&c) {
                RFloat::zero()
            } else {
                RFloat::Real(!s, exp, c)
            },
            RFloat::PosInfinity => RFloat::NegInfinity,
            RFloat::NegInfinity => RFloat::PosInfinity,
            RFloat::Nan => RFloat::Nan,
        }
    }
}

/// The result is stated by the contract of `neg`, over the numbers that the
/// operands stand for; a result cannot be written down as a value of the
/// type, so `neg_spec` goes unused.
impl vstd::std_specs::ops::NegSpecImpl for RFloat {
    open spec fn obeys_neg_spec() -> bool {
        false
    }

    open spec fn neg_req(self) -> bool {
        true
    }

    open spec fn neg_spec(self) -> RFloat {
        self
    }
}

impl std::ops::Add for RFloat {
    type Output = RFloat;

    /// The exact sum, in canonical form.
    fn add(self, rhs: RFloat) -> (r: RFloat)
        ensures
            r@ == self@.add(rhs@),
    {
        let ghost a = self@;
        let ghost b = rhs@;
        match (self, rhs) {
            (RFloat::Nan, _) => RFloat::Nan,
            (_, RFloat::Nan) => RFloat::Nan,
            (RFloat::PosInfinity, RFloat::NegInfinity) => RFloat::Nan,
            (RFloat::NegInfinity, RFloat::PosInfinity) => RFloat::Nan,
            (RFloat::PosInfinity, _) => RFloat::PosInfinity,
            (_, RFloat::PosInfinity) => RFloat::PosInfinity,
            (RFloat::NegInfinity, _) => RFloat::NegInfinity,
            (_, RFloat::NegInfinity) => RFloat::NegInfinity,
            (RFloat::Real(s1, exp1, c1), RFloat::Real(s2, exp2, c2)) => {
                if integer::is_zero(&c1) {
                    RFloat::Real(s2, exp2, c2).canonicalize()
                } else if integer::is_zero(&c2) {
                    RFloat::Real(s1, exp1, c1).canonicalize()
                } else {
                    let exp = if exp1 <= exp2 {
                        exp1
                    } else {
                        exp2
                    };
                    let m1 = signed_shifted(s1, c1, (exp1 as i128 - exp as i128) as u64);
                    let m2 = signed_shifted(s2, c2, (exp2 as i128 - exp as i128) as u64);
                    let m = integer::plus(m1, m2);
                    let sign = integer::is_negative(&m);
                    RFloat::Real(sign, exp, integer::abs(m)).canonicalize()
                }
            },
        }
    }
}

/// The result is stated by the contract of `add`, over the numbers that the
/// operands stand for; a result cannot be written down as a value of the
/// type, so `add_spec` goes unused.
impl vstd::std_specs::ops::AddSpecImpl for RFloat {
    open spec fn obeys_add_spec() -> bool {
        false
    }

    /// The positions of the sum, before it is brought to canonical form,
    /// must fit the machine integers.
    open spec fn add_req(self, rhs: RFloat) -> bool {
        self@.sum(rhs@).positions_fit()
    }

    open spec fn add_spec(self, rhs: RFloat) -> RFloat {
        self
    }
}

impl std::ops::Mul for RFloat {
    type Output = RFloat;

    /// The exact product, in canonical form.
    fn mul(self, rhs: RFloat) -> (r: RFloat)
        ensures
            r@ == self@.mul(rhs@),
    {
        match (self, rhs) {
            (RFloat::Nan, _) => RFloat::Nan,
            (_, RFloat::Nan) => RFloat::Nan,
            (RFloat::Real(s1, exp1, c1), RFloat::Real(s2, exp2, c2)) => {
                if integer::is_zero(&c1) || integer::is_zero(&c2) {
                    RFloat::zero()
                } else {
                    let exp: i128 = exp1 as i128 + exp2 as i128;
                    let c = integer::times(integer::abs(c1), integer::abs(c2));
                    assert(int_of(c) != 0) by (nonlinear_arith)
                        requires
                            int_of(c) == abs(int_of(c1)) * abs(int_of(c2)),
                            abs(int_of(c1)) > 0,
                            abs(int_of(c2)) > 0,
                    ;
                    RFloat::Real(s1 != s2, exp as isize, c).canonicalize()
                }
            },
            (a, b) => {
                // at least one infinity, and no operand that is not a number
                let zero = match &a {
                    RFloat::Real(_, _, c) => integer::is_zero(c),
                    _ => false,
                } || match &b {
                    RFloat::Real(_, _, c) => integer::is_zero(c),
                    _ => false,
                };
                if zero {
                    RFloat::Nan
                } else if sign_of(&a) != sign_of(&b) {
                    RFloat::NegInfinity
                } else {
                    RFloat::PosInfinity
                }
            },
        }
    }
}

/// The result is stated by the contract of `mul`, over the numbers that the
/// operands stand for; a result cannot be written down as a value of the
/// type, so `mul_spec` goes unused.
impl vstd::std_specs::ops::MulSpecImpl for RFloat {
    open spec fn obeys_mul_spec() -> bool {
        false
    }

    /// The positions of the product, before it is brought to canonical
    /// form, must fit the machine integers.
    open spec fn mul_req(self, rhs: RFloat) -> bool {
        self@.product(rhs@).positions_fit()
    }

    open spec fn mul_spec(self, rhs: RFloat) -> RFloat {
        self
    }
}

/// The sign bit of a number; `false` for what is not a number.
fn sign_of(a: &RFloat) -> (r: bool)
    ensures
        r == a@.sign(),
{
    match a {
        RFloat::Real(s, _, _) => *s,
        RFloat::NegInfinity => true,
        _ => false,
    }
}

/// `(-1)^sign * |c| * 2^k`.
fn signed_shifted(sign: bool, c: Integer, k: u64) -> (r: Integer)
    ensures
        int_of(r) == (ExtReal::Real { sign, exp: k as int, c: abs(int_of(c)) }).scaled(0),
{
    let m = shl_by(integer::abs(c), k);
    if sign {
        proof {
            let x = abs(int_of(c)) as int;
            let p = vstd::arithmetic::power2::pow2(k as nat) as int;
            assert((-x) * p == -(x * p)) by (nonlinear_arith);
        }
        integer::negate(m)
    } else {
        m
    }
}

} // verus!
