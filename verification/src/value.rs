//! The numerical value of extended reals: order, equality and arithmetic,
//! with the laws they obey.
use crate::math::{
    bitlen, lemma_bitlen_bounds, lemma_pow2_split, lemma_pow2_zero, lemma_trailing_zeros,
    trailing_zeros,
};
use crate::number::ExtReal;
use vstd::arithmetic::power2::{lemma_pow2_pos, pow2};
use vstd::prelude::*;

verus! {

/// The lesser of two integers.
pub open spec fn lesser(a: int, b: int) -> int {
    if a <= b {
        a
    } else {
        b
    }
}

impl ExtReal {
    /// The finite number `m * 2^exp`, with the sign of `m` (and a positive
    /// sign for zero).
    pub open spec fn of_int(m: int, exp: int) -> ExtReal {
        if m < 0 {
            ExtReal::Real { sign: true, exp, c: (-m) as nat }
        } else {
            ExtReal::Real { sign: false, exp, c: m as nat }
        }
    }

    /// Numerical equality: two finite numbers with the same value, or the
    /// same infinity. What is not a number equals nothing.
    pub open spec fn eqv(self, other: ExtReal) -> bool {
        match (self, other) {
            (ExtReal::Real { .. }, ExtReal::Real { .. }) => {
                let k = lesser(self.exp(), other.exp());
                self.scaled(k) == other.scaled(k)
            },
            (ExtReal::PosInfinity, ExtReal::PosInfinity) => true,
            (ExtReal::NegInfinity, ExtReal::NegInfinity) => true,
            _ => false,
        }
    }

    /// The strict order of the extended reals. What is not a number is
    /// below nothing and above nothing.
    pub open spec fn lt(self, other: ExtReal) -> bool {
        match (self, other) {
            (ExtReal::Nan, _) => false,
            (_, ExtReal::Nan) => false,
            (ExtReal::Real { .. }, ExtReal::Real { .. }) => {
                let k = lesser(self.exp(), other.exp());
                self.scaled(k) < other.scaled(k)
            },
            (ExtReal::NegInfinity, ExtReal::NegInfinity) => false,
            (ExtReal::NegInfinity, _) => true,
            (ExtReal::PosInfinity, _) => false,
            (_, ExtReal::PosInfinity) => true,
            (_, ExtReal::NegInfinity) => false,
        }
    }

    /// The order of the extended reals.
    pub open spec fn le(self, other: ExtReal) -> bool {
        self.lt(other) || self.eqv(other)
    }

    /// The negated number. Zero has no negative: its negation is zero in
    /// canonical form.
    pub open spec fn neg(self) -> ExtReal {
        match self {
            ExtReal::Real { sign, exp, c } => if c == 0 {
                ExtReal::zero()
            } else {
                ExtReal::Real { sign: !sign, exp, c }
            },
            ExtReal::PosInfinity => ExtReal::NegInfinity,
            ExtReal::NegInfinity => ExtReal::PosInfinity,
            ExtReal::Nan => ExtReal::Nan,
        }
    }

    /// The exact sum, with the digits that the addition leaves it: the sum
    /// of two finite numbers other than zero is written at the lesser of
    /// their exponents. Infinities of opposite sign have no sum.
    pub open spec fn sum(self, other: ExtReal) -> ExtReal {
        match (self, other) {
            (ExtReal::Nan, _) => ExtReal::Nan,
            (_, ExtReal::Nan) => ExtReal::Nan,
            (ExtReal::PosInfinity, ExtReal::NegInfinity) => ExtReal::Nan,
            (ExtReal::NegInfinity, ExtReal::PosInfinity) => ExtReal::Nan,
            (ExtReal::PosInfinity, _) => ExtReal::PosInfinity,
            (_, ExtReal::PosInfinity) => ExtReal::PosInfinity,
            (ExtReal::NegInfinity, _) => ExtReal::NegInfinity,
            (_, ExtReal::NegInfinity) => ExtReal::NegInfinity,
            (ExtReal::Real { .. }, ExtReal::Real { .. }) => {
                if self.c() == 0 {
                    other
                } else if other.c() == 0 {
                    self
                } else {
                    let k = lesser(self.exp(), other.exp());
                    ExtReal::of_int(self.scaled(k) + other.scaled(k), k)
                }
            },
        }
    }

    /// The exact sum in canonical form.
    pub open spec fn add(self, other: ExtReal) -> ExtReal {
        self.sum(other).canonical()
    }

    /// The exact product, with the digits that the multiplication leaves
    /// it. Zero times an infinity has no product.
    pub open spec fn product(self, other: ExtReal) -> ExtReal {
        match (self, other) {
            (ExtReal::Nan, _) => ExtReal::Nan,
            (_, ExtReal::Nan) => ExtReal::Nan,
            (ExtReal::Real { .. }, ExtReal::Real { .. }) => {
                if self.c() == 0 || other.c() == 0 {
                    ExtReal::zero()
                } else {
                    ExtReal::Real {
                        sign: self.sign() != other.sign(),
                        exp: self.exp() + other.exp(),
                        c: self.c() * other.c(),
                    }
                }
            },
            _ => {
                if self.is_zero() || other.is_zero() {
                    ExtReal::Nan
                } else if self.sign() != other.sign() {
                    ExtReal::NegInfinity
                } else {
                    ExtReal::PosInfinity
                }
            },
        }
    }

    /// The exact product in canonical form.
    pub open spec fn mul(self, other: ExtReal) -> ExtReal {
        self.product(other).canonical()
    }
}

/// Writing a finite number at a lower exponent multiplies its scaled
/// significand by the power of two between the exponents.
pub proof fn lemma_rescale(v: ExtReal, k1: int, k2: int)
    requires
        v is Real,
        k2 <= k1 <= v.exp(),
    ensures
        v.scaled(k2) == v.scaled(k1) * pow2((k1 - k2) as nat),
        pow2((k1 - k2) as nat) > 0,
{
    lemma_pow2_split((v.exp() - k1) as nat, (k1 - k2) as nat);
    let m = v.m();
    let a = pow2((v.exp() - k1) as nat) as int;
    let b = pow2((k1 - k2) as nat) as int;
    assert((v.exp() - k1) as nat + (k1 - k2) as nat == (v.exp() - k2) as nat);
    assert(m * (a * b) == (m * a) * b) by (nonlinear_arith);
}

/// Zero scales to zero, at any exponent.
pub proof fn lemma_scaled_zero(v: ExtReal, k: int)
    requires
        v.c() == 0,
    ensures
        v.scaled(k) == 0,
{
    let p = pow2((v.exp() - k) as nat) as int;
    assert(0 * p == 0) by (nonlinear_arith);
}

/// The sign of a scaled number is the sign of the number.
pub proof fn lemma_scaled_sign(v: ExtReal, k: int)
    requires
        v is Real,
    ensures
        v.c() == 0 ==> v.scaled(k) == 0,
        v.c() != 0 && v.sign() ==> v.scaled(k) < 0,
        v.c() != 0 && !v.sign() ==> v.scaled(k) > 0,
{
    let p = pow2((v.exp() - k) as nat) as int;
    lemma_pow2_pos((v.exp() - k) as nat);
    let m = v.m();
    assert(m == 0 ==> m * p == 0) by (nonlinear_arith);
    assert(m < 0 && p > 0 ==> m * p < 0) by (nonlinear_arith);
    assert(m > 0 && p > 0 ==> m * p > 0) by (nonlinear_arith);
}

/// A positive number lies between the power of two of its leading digit and
/// the next one.
pub proof fn lemma_scaled_bounds(v: ExtReal, k: int)
    requires
        v.is_nonzero(),
        !v.sign(),
        k <= v.exp(),
    ensures
        pow2((v.e() - k) as nat) <= v.scaled(k) < pow2((v.e() + 1 - k) as nat),
{
    let c = v.c();
    let b = bitlen(c);
    lemma_bitlen_bounds(c);
    let d = (v.exp() - k) as nat;
    lemma_pow2_split((b - 1) as nat, d);
    lemma_pow2_split(b, d);
    assert((b - 1) as nat + d == (v.e() - k) as nat);
    assert(b + d == (v.e() + 1 - k) as nat);
    let lo = pow2((b - 1) as nat) as int;
    let hi = pow2(b) as int;
    let p = pow2(d) as int;
    let ci = c as int;
    assert(lo * p <= ci * p < hi * p) by (nonlinear_arith)
        requires
            lo <= ci < hi,
            p > 0,
    ;
}

/// The scaled significand is the significand times a power of two, with the
/// sign of the number; at the exponent of the number it is the signed
/// significand itself.
pub proof fn lemma_scaled_magnitude(v: ExtReal, k: int)
    requires
        v is Real,
    ensures
        v.sign() ==> v.scaled(k) == -(v.c() * pow2((v.exp() - k) as nat)),
        !v.sign() ==> v.scaled(k) == v.c() * pow2((v.exp() - k) as nat),
        k == v.exp() ==> v.scaled(k) == v.m(),
{
    let p = pow2((v.exp() - k) as nat) as int;
    let c = v.c() as int;
    assert((-c) * p == -(c * p)) by (nonlinear_arith);
    if k == v.exp() {
        lemma_pow2_zero();
        assert(c * 1 == c) by (nonlinear_arith);
    }
}

/// Flipping the sign of a finite number negates its scaled significand.
pub proof fn lemma_scaled_neg(v: ExtReal, k: int)
    requires
        v is Real,
    ensures
        (ExtReal::Real { sign: !v.sign(), exp: v.exp(), c: v.c() }).scaled(k) == -v.scaled(k),
{
    let p = pow2((v.exp() - k) as nat) as int;
    let c = v.c() as int;
    assert((-c) * p == -(c * p)) by (nonlinear_arith);
}

/// Two finite numbers compare as their scaled significands do, at any
/// exponent at or below both of theirs.
pub proof fn lemma_compare_at(a: ExtReal, b: ExtReal, j: int)
    requires
        a is Real,
        b is Real,
        a.c() != 0 ==> j <= a.exp(),
        b.c() != 0 ==> j <= b.exp(),
    ensures
        a.eqv(b) <==> a.scaled(j) == b.scaled(j),
        a.lt(b) <==> a.scaled(j) < b.scaled(j),
{
    let k = lesser(a.exp(), b.exp());
    lemma_scaled_sign(a, k);
    lemma_scaled_sign(b, k);
    lemma_scaled_sign(a, j);
    lemma_scaled_sign(b, j);
    if a.c() != 0 && b.c() != 0 {
        lemma_rescale(a, k, j);
        lemma_rescale(b, k, j);
        let p = pow2((k - j) as nat) as int;
        let x = a.scaled(k);
        let y = b.scaled(k);
        assert(p > 0 ==> ((x == y) <==> (x * p == y * p))) by (nonlinear_arith);
        assert(p > 0 ==> ((x < y) <==> (x * p < y * p))) by (nonlinear_arith);
    }
}

/// An odd or zero significand is already canonical, but for the exponent
/// and sign of zero.
pub proof fn lemma_canonical_fixed(v: ExtReal)
    requires
        v.is_canonical(),
    ensures
        v.canonical() == v,
{
    if v is Real && v.c() != 0 {
        assert(trailing_zeros(v.c()) == 0);
        lemma_pow2_zero();
    }
}

/// The canonical form is canonical, keeps the sign of a number other than
/// zero, and is zero exactly where the number is.
pub proof fn lemma_canonical(v: ExtReal)
    ensures
        v.canonical().is_canonical(),
        v.canonical().canonical() == v.canonical(),
        v.is_nonzero() <==> v.canonical().is_nonzero(),
        v.is_nonzero() ==> v.canonical().sign() == v.sign(),
        v.is_nonzero() ==> v.canonical().exp() >= v.exp(),
        v.is_nonzero() ==> v.canonical().e() == v.e(),
        v.is_nonzero() ==> v.canonical().prec() <= v.prec(),
        !(v is Real) ==> v.canonical() == v,
        v is Real <==> v.canonical() is Real,
{
    if v.is_nonzero() {
        let c = v.c();
        let t = trailing_zeros(c);
        lemma_trailing_zeros(c);
        crate::math::lemma_bitlen_shr(c, t);
    }
    lemma_canonical_fixed(v.canonical());
}

/// The canonical form has the value of the number: it scales alike.
pub proof fn lemma_canonical_scaled(v: ExtReal, k: int)
    requires
        v is Real,
        k <= v.exp(),
    ensures
        v.canonical().scaled(k) == v.scaled(k),
{
    if v.c() == 0 {
        lemma_scaled_zero(v, k);
        lemma_scaled_zero(v.canonical(), k);
    } else {
        let c = v.c();
        let t = trailing_zeros(c);
        lemma_trailing_zeros(c);
        let odd = (c / pow2(t)) as int;
        lemma_pow2_split(t, (v.exp() - k) as nat);
        assert(t + (v.exp() - k) as nat == (v.exp() + t - k) as nat);
        let pt = pow2(t) as int;
        let pk = pow2((v.exp() - k) as nat) as int;
        assert(odd * (pt * pk) == (odd * pt) * pk) by (nonlinear_arith);
        assert((-odd) * (pt * pk) == (-(odd * pt)) * pk) by (nonlinear_arith);
    }
}

/// The canonical form equals the number numerically.
pub proof fn lemma_canonical_eqv(v: ExtReal)
    requires
        v.is_numerical(),
    ensures
        v.canonical().eqv(v),
        v.eqv(v.canonical()),
{
    if v is Real {
        lemma_canonical(v);
        let j = lesser(v.exp(), v.canonical().exp());
        if v.c() == 0 {
            lemma_scaled_zero(v, j);
            lemma_scaled_zero(v.canonical(), j);
        } else {
            lemma_canonical_scaled(v, v.exp());
        }
    }
}

/// The order is reflexive on everything that is a number.
pub proof fn lemma_order_reflexive(a: ExtReal)
    requires
        a.is_numerical(),
    ensures
        a.le(a),
        a.eqv(a),
        !a.lt(a),
{
}

/// The order is antisymmetric: numbers that are each at or below the other
/// are numerically equal.
pub proof fn lemma_order_antisymmetric(a: ExtReal, b: ExtReal)
    requires
        a.le(b),
        b.le(a),
    ensures
        a.eqv(b),
{
}

/// The order is transitive.
pub proof fn lemma_order_transitive(a: ExtReal, b: ExtReal, c: ExtReal)
    requires
        a.le(b),
        b.le(c),
    ensures
        a.le(c),
        a.lt(b) || b.lt(c) ==> a.lt(c),
{
    if a is Real && b is Real && c is Real {
        let j0 = lesser(a.exp(), lesser(b.exp(), c.exp()));
        lemma_compare_at(a, b, j0);
        lemma_compare_at(b, c, j0);
        lemma_compare_at(a, c, j0);
    }
}

/// The order is total on everything that is a number: of two numbers,
/// exactly one is below the other, or they are numerically equal.
pub proof fn lemma_order_total(a: ExtReal, b: ExtReal)
    requires
        a.is_numerical(),
        b.is_numerical(),
    ensures
        a.lt(b) || a.eqv(b) || b.lt(a),
        !(a.lt(b) && a.eqv(b)),
        !(a.lt(b) && b.lt(a)),
        !(b.lt(a) && a.eqv(b)),
        a.eqv(b) == b.eqv(a),
{
}

/// What is not a number is incomparable with everything, itself included.
pub proof fn lemma_nan_incomparable(a: ExtReal, b: ExtReal)
    requires
        a is Nan || b is Nan,
    ensures
        !a.lt(b),
        !b.lt(a),
        !a.eqv(b),
        !a.le(b),
        !b.le(a),
{
}

/// Addition is commutative, for all operands.
pub proof fn lemma_add_commutative(a: ExtReal, b: ExtReal)
    ensures
        a.add(b) == b.add(a),
{
    if a is Real && b is Real {
        if a.c() == 0 || b.c() == 0 {
            if a.c() == 0 && b.c() == 0 {
            }
        }
    }
}

/// Multiplication is commutative, for all operands.
pub proof fn lemma_mul_commutative(a: ExtReal, b: ExtReal)
    ensures
        a.mul(b) == b.mul(a),
{
    if a is Real && b is Real {
        let x = a.c() as int;
        let y = b.c() as int;
        assert(x * y == y * x) by (nonlinear_arith);
    }
}

} // verus!
