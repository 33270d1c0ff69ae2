//! Laws of the rounding kernel.
use crate::math::{
    bit, bitlen, lemma_bitlen_half, lemma_bitlen_le, lemma_bitlen_shr, lemma_cut, lemma_pow2_zero, lemma_top_digit,
};
use crate::number::ExtReal;
use crate::rfloat::round::{lemma_carry_is_power, ContextView};
use crate::value::{
    lemma_canonical, lemma_canonical_eqv, lemma_canonical_scaled, lemma_compare_at,
    lemma_scaled_magnitude, lemma_scaled_zero, lesser,
};
use vstd::arithmetic::power2::{lemma_pow2_pos, lemma_pow2_unfold, pow2};
use vstd::prelude::*;

verus! {

/// A split is exact: the digits above the cut and the digits at and below
/// it add up to the number.
pub proof fn lemma_split_exact(v: ExtReal, n: int)
    requires
        v.is_finite(),
    ensures
        v.high(n).add(v.lost(n)).eqv(v),
{
    let high = v.high(n);
    let lost = v.lost(n);
    let c = v.c();
    let exp = v.exp();
    if c == 0 {
        let k = lesser(0, exp);
        lemma_scaled_zero(v, k);
        lemma_scaled_zero(ExtReal::zero(), k);
    } else if n < exp {
        lemma_canonical_eqv(v);
    } else {
        let off = (n + 1 - exp) as nat;
        let p = pow2(off);
        lemma_cut(c, off);
        lemma_pow2_pos(off);
        lemma_pow2_zero();
        let ch = c / p;
        let cl = c % p;
        let sum = high.sum(lost);
        // the sum is the number, or the high part alone where nothing is lost
        if ch == 0 {
            assert(sum == v);
            lemma_canonical_eqv(v);
        } else if cl == 0 {
            assert(sum == high);
            lemma_canonical_scaled(high, exp);
            lemma_canonical(high);
            lemma_scaled_magnitude(high, exp);
            lemma_scaled_magnitude(v, exp);
            assert(high.scaled(exp) == v.scaled(exp));
            lemma_compare_at(high.canonical(), v, exp);
        } else {
            let s = v.sign();
            let m = high.scaled(exp) + lost.scaled(exp);
            assert(m == v.m()) by {
                lemma_scaled_magnitude(high, exp);
                lemma_scaled_magnitude(lost, exp);
            }
            assert(sum == v);
            lemma_canonical_eqv(v);
        }
    }
}

/// The digits above the cut number as many as lie between the cut and the
/// leading digit.
pub proof fn lemma_high_prec(v: ExtReal, n: int)
    requires
        v.is_nonzero(),
    ensures
        v.high(n).prec() == if n < v.exp() {
            v.prec() as int
        } else if n >= v.e() {
            0
        } else {
            v.e() - n
        },
{
    if n >= v.exp() {
        lemma_bitlen_shr(v.c(), (n + 1 - v.exp()) as nat);
    }
}

/// Where a context bounds the precision, the digits above its cut fit the
/// bound.
pub proof fn lemma_cut_fits_precision(cv: ContextView, v: ExtReal)
    requires
        cv.max_p is Some,
        v.is_nonzero(),
    ensures
        cv.cut(v).high.prec() <= cv.max_p->0,
{
    lemma_high_prec(v, cv.cut_position(v));
}

/// Incrementing a number adds at most one digit.
pub proof fn lemma_bitlen_succ(c: nat)
    ensures
        bitlen(c + 1) <= bitlen(c) + 1,
{
    lemma_bitlen_le(c, bitlen(c));
    lemma_pow2_unfold(bitlen(c) + 1);
    lemma_bitlen_le(c + 1, bitlen(c) + 1);
}

/// A number with no digit at or below the cut is rounded to itself, in
/// canonical form.
pub proof fn lemma_round_exact(cv: ContextView, v: ExtReal)
    requires
        v.is_nonzero(),
        cv.cut_position(v) < v.exp(),
    ensures
        cv.rounded(v) == v.canonical(),
{
}

/// A rounded number is in canonical form, so that the significand of one
/// other than zero is odd; it is not a real number exactly where the number
/// rounded is not; and where neither is zero it has the sign of the number
/// rounded.
pub proof fn lemma_round_canonical(cv: ContextView, v: ExtReal)
    ensures
        cv.rounded(v).is_canonical(),
        cv.rounded(v).is_nonzero() ==> cv.rounded(v).c() % 2 == 1,
        cv.rounded(v) is Real <==> v is Real,
        v.is_nonzero() && cv.rounded(v).is_nonzero() ==> cv.rounded(v).sign() == v.sign(),
        !(v is Real) ==> cv.rounded(v) == v,
{
    if v.is_nonzero() {
        lemma_canonical(cv.cut(v).rounded(cv.max_p, cv.rm));
    }
}

/// A number has at least as many digits as any number that is not larger.
pub proof fn lemma_bitlen_monotone(a: nat, b: nat)
    requires
        a <= b,
    ensures
        bitlen(a) <= bitlen(b),
{
    lemma_bitlen_le(b, bitlen(b));
    lemma_bitlen_le(a, bitlen(b));
}

/// A rounded number other than zero is one of the format: it has at most
/// the precision that the context allows and no digit at or below the
/// minimum position; and its leading digit is not below that of the number
/// rounded.
pub proof fn lemma_rounded_representable(cv: ContextView, v: ExtReal)
    requires
        cv.wf(),
        v.is_nonzero(),
        cv.rounded(v).is_nonzero(),
    ensures
        cv.max_p is Some ==> cv.rounded(v).prec() <= cv.max_p->0,
        cv.min_n is Some ==> cv.rounded(v).exp() > cv.min_n->0,
        cv.rounded(v).exp() > cv.cut_position(v),
        cv.rounded(v).e() >= v.e(),
        cv.rounded(v).sign() == v.sign(),
{
    let n = cv.cut_position(v);
    let split = cv.cut(v);
    let x = split.rounded(cv.max_p, cv.rm);
    lemma_canonical(x);
    if n < v.exp() {
        assert(x == v);
    } else {
        let ch = split.high.c();
        lemma_high_prec(v, n);
        lemma_bitlen_succ(ch);
        lemma_bitlen_monotone(ch, ch + 1);
        lemma_bitlen_half(ch + 1);
        if cv.max_p is Some {
            let p = cv.max_p->0 as nat;
            if split.carries(cv.max_p, cv.rm) {
                lemma_carry_is_power(ch, p);
            }
        }
    }
}

/// A bound within which every position fits the machine integers of every
/// target: `2^29`.
pub open spec fn window() -> int {
    0x2000_0000
}

/// Rounding fits the machine integers wherever the exponent and the
/// precision of the number and the bounds of the context lie within
/// [`window`].
pub proof fn lemma_fits(cv: ContextView, v: ExtReal)
    requires
        cv.wf(),
        cv.max_p is Some ==> cv.max_p->0 <= window(),
        cv.min_n is Some ==> -window() <= cv.min_n->0 <= window(),
        v.is_nonzero() ==> -window() <= v.exp() <= window() && v.prec() <= window(),
    ensures
        cv.fits(v),
{
    if v.is_nonzero() {
        let n = cv.cut_position(v);
        let split = cv.cut(v);
        let x = split.rounded(cv.max_p, cv.rm);
        let ch = split.high.c();
        lemma_high_prec(v, n);
        lemma_bitlen_succ(ch);
        lemma_bitlen_half(ch + 1);
        lemma_bitlen_monotone(ch, ch + 1);
        crate::math::lemma_bitlen_bounds(v.c());
        assert(split.high.exp() == if n < v.exp() {
            v.exp()
        } else {
            n + 1
        });
        assert(x.prec() <= split.high.prec() + 1);
        assert(x.exp() <= split.high.exp() + 1);
    }
}

/// Rounding is idempotent: a rounded number is rounded to itself.
pub proof fn lemma_round_idempotent(cv: ContextView, v: ExtReal)
    requires
        cv.wf(),
    ensures
        cv.rounded(cv.rounded(v)) == cv.rounded(v),
{
    if v.is_nonzero() {
        let r = cv.rounded(v);
        lemma_canonical(cv.cut(v).rounded(cv.max_p, cv.rm));
        if r.is_nonzero() {
            lemma_rounded_representable(cv, v);
            assert(cv.cut_position(r) < r.exp());
            lemma_round_exact(cv, r);
        }
    }
}

/// The error of rounding the digits `c` at digit `off` up or down under a
/// mode that rounds to nearest is at most half a unit of the cut.
proof fn lemma_nearest_error(c: nat, off: nat, up: bool)
    requires
        off >= 1,
        up ==> bit(c, (off - 1) as nat),
        bit(c, (off - 1) as nat) && !up ==> c % pow2((off - 1) as nat) == 0,
    ensures
        up ==> 2 * ((c / pow2(off) + 1) * pow2(off) - c) <= pow2(off),
        up ==> (c / pow2(off) + 1) * pow2(off) - c >= 0,
        !up ==> 2 * (c - (c / pow2(off)) * pow2(off)) <= pow2(off),
        !up ==> c - (c / pow2(off)) * pow2(off) >= 0,
{
    let j = (off - 1) as nat;
    lemma_cut(c, off);
    lemma_top_digit(c, j);
    lemma_pow2_unfold(off);
    lemma_pow2_pos(j);
    let p = pow2(off) as int;
    let q = (c / pow2(off)) as int;
    assert((q + 1) * p == q * p + p) by (nonlinear_arith);
}

/// Under a mode that rounds to nearest, a rounded number is no farther from
/// the number rounded than half a unit in the last place that the cut
/// leaves: with both written as multiples of `2^k`, where `k` is the lesser
/// of the exponent of the number and the position `n + 1` above the cut,
/// twice their distance is at most `2^(n + 1 - k)`.
pub proof fn lemma_nearest_bound(cv: ContextView, v: ExtReal)
    requires
        cv.wf(),
        cv.rm.is_nearest(),
        v.is_nonzero(),
    ensures
        ({
            let n = cv.cut_position(v);
            let k = lesser(v.exp(), n + 1);
            let d = cv.rounded(v).scaled(k) - v.scaled(k);
            -pow2((n + 1 - k) as nat) <= 2 * d <= pow2((n + 1 - k) as nat)
        }),
{
    let n = cv.cut_position(v);
    let k = lesser(v.exp(), n + 1);
    let split = cv.cut(v);
    let x = split.rounded(cv.max_p, cv.rm);
    let r = x.canonical();
    lemma_pow2_pos((n + 1 - k) as nat);
    if n < v.exp() {
        assert(x == v);
        lemma_canonical_scaled(v, k);
    } else {
        let c = v.c();
        let off = (n + 1 - v.exp()) as nat;
        let p = pow2(off) as int;
        let ch = split.high.c();
        let up = split.increments(cv.rm);
        lemma_pow2_zero();
        lemma_top_digit(c, (off - 1) as nat);
        if off >= 2 {
            lemma_top_digit(c, (off - 2) as nat);
            lemma_pow2_pos((off - 2) as nat);
        }
        lemma_nearest_error(c, off, up);
        // the magnitude of the rounded number, in units of 2^exp
        let mag: int = if up {
            (ch + 1) * p
        } else {
            ch * p
        };
        lemma_scaled_magnitude(x, k);
        lemma_scaled_magnitude(v, k);
        assert(x.c() * pow2((x.exp() - k) as nat) == mag) by {
            if split.carries(cv.max_p, cv.rm) {
                lemma_cut_fits_precision(cv, v);
                lemma_carry_is_power(ch, cv.max_p->0 as nat);
                lemma_pow2_unfold(cv.max_p->0 as nat);
                lemma_pow2_unfold(off + 1);
                let h = ((ch + 1) / 2) as int;
                assert(2 * h == ch + 1);
                assert(h * (2 * p) == (2 * h) * p) by (nonlinear_arith);
            }
        }
        lemma_canonical_scaled(x, k);
        assert(v.scaled(k) == v.m());
    }
}

} // verus!
