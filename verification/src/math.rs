//! Binary-digit arithmetic on mathematical integers.
//!
//! The contracts of this crate speak of significands as natural numbers
//! and of their binary digits through the functions below; the lemmas relate
//! them to powers of two, division and remainder.
use vstd::arithmetic::div_mod::{
    lemma_div_denominator, lemma_fundamental_div_mod, lemma_fundamental_div_mod_converse,
    lemma_mod_breakdown,
};
use vstd::arithmetic::power2::{
    lemma2_to64, lemma_pow2_adds, lemma_pow2_pos, lemma_pow2_strictly_increases, lemma_pow2_unfold, pow2,
};
use vstd::prelude::*;

verus! {

/// The number of binary digits of `c`: zero for zero, otherwise one more than
/// the position of the leading one.
pub open spec fn bitlen(c: nat) -> nat
    decreases c,
{
    if c == 0 {
        0
    } else {
        1 + bitlen(c / 2)
    }
}

/// The number of zero digits below the lowest one of `c` (zero for zero).
pub open spec fn trailing_zeros(c: nat) -> nat
    decreases c,
{
    if c == 0 || c % 2 == 1 {
        0
    } else {
        1 + trailing_zeros(c / 2)
    }
}

/// The binary digit of `c` at position `i`.
pub open spec fn bit(c: nat, i: nat) -> bool {
    (c / pow2(i)) % 2 == 1
}

/// Digit-wise conjunction of two natural numbers.
pub open spec fn bit_and(a: nat, b: nat) -> nat
    decreases a,
{
    if a == 0 {
        0
    } else {
        2 * bit_and(a / 2, b / 2) + if a % 2 == 1 && b % 2 == 1 {
            1nat
        } else {
            0nat
        }
    }
}

/// Digit-wise disjunction of two natural numbers.
pub open spec fn bit_or(a: nat, b: nat) -> nat
    decreases a,
{
    if a == 0 {
        b
    } else {
        2 * bit_or(a / 2, b / 2) + if a % 2 == 1 || b % 2 == 1 {
            1nat
        } else {
            0nat
        }
    }
}

/// The remainder of the division that rounds its quotient toward zero: it
/// has the sign of the dividend.
pub open spec fn trunc_rem(n: int, d: int) -> int {
    let m = if d >= 0 {
        d
    } else {
        -d
    };
    if n >= 0 {
        n % m
    } else {
        -((-n) % m)
    }
}

/// `2^0 = 1` and `2^1 = 2`.
pub proof fn lemma_pow2_zero()
    ensures
        pow2(0) == 1,
        pow2(1) == 2,
{
    lemma2_to64();
}

/// `2^a <= 2^b` whenever `a <= b`.
pub proof fn lemma_pow2_monotone(a: nat, b: nat)
    requires
        a <= b,
    ensures
        0 < pow2(a) <= pow2(b),
{
    lemma_pow2_pos(a);
    if a < b {
        lemma_pow2_strictly_increases(a, b);
    }
}

/// `2^(a+b) = 2^a * 2^b`, with both factors positive.
pub proof fn lemma_pow2_split(a: nat, b: nat)
    ensures
        pow2(a + b) == pow2(a) * pow2(b),
        pow2(a) > 0,
        pow2(b) > 0,
        pow2(a + b) > 0,
{
    lemma_pow2_adds(a, b);
    lemma_pow2_pos(a);
    lemma_pow2_pos(b);
    lemma_pow2_pos(a + b);
}

/// Dividing by `2^(k+1)` is dividing by `2^k` and then halving, in either order.
pub proof fn lemma_div_pow2_step(c: nat, k: nat)
    ensures
        c / pow2(k + 1) == (c / pow2(k)) / 2,
        c / pow2(k + 1) == (c / 2) / pow2(k),
{
    lemma_pow2_pos(k);
    lemma_pow2_unfold(k + 1);
    lemma_div_denominator(c as int, pow2(k) as int, 2);
    lemma_div_denominator(c as int, 2, pow2(k) as int);
    assert(pow2(k) * 2 == 2 * pow2(k)) by (nonlinear_arith);
}

/// Dividing by `2^a` and then by `2^b` is dividing by `2^(a+b)`.
pub proof fn lemma_div_pow2_twice(c: nat, a: nat, b: nat)
    ensures
        (c / pow2(a)) / pow2(b) == c / pow2(a + b),
{
    lemma_pow2_split(a, b);
    lemma_div_denominator(c as int, pow2(a) as int, pow2(b) as int);
}

/// The remainder by `2^(k+1)` in terms of the remainder of the half by `2^k`.
pub proof fn lemma_mod_pow2_step(c: nat, k: nat)
    ensures
        c % pow2(k + 1) == 2 * ((c / 2) % pow2(k)) + c % 2,
{
    lemma_pow2_pos(k);
    lemma_pow2_unfold(k + 1);
    lemma_mod_breakdown(c as int, 2, pow2(k) as int);
}

/// A number lies below two to the power of its digit count, and, unless it is
/// zero, at or above half of that.
pub proof fn lemma_bitlen_bounds(c: nat)
    ensures
        c < pow2(bitlen(c)),
        c > 0 ==> bitlen(c) > 0 && pow2((bitlen(c) - 1) as nat) <= c,
    decreases c,
{
    if c == 0 {
        lemma_pow2_pos(0);
    } else {
        lemma_bitlen_bounds(c / 2);
        lemma_pow2_unfold(bitlen(c));
        if c / 2 > 0 {
            lemma_pow2_unfold(bitlen(c / 2));
        } else {
            assert(c == 1);
            assert(bitlen(1) == 1) by {
                reveal_with_fuel(bitlen, 2);
            }
            lemma_pow2_zero();
        }
    }
}

/// The digit count is the only `k` with `2^(k-1) <= c < 2^k`.
pub proof fn lemma_bitlen_unique(c: nat, k: nat)
    requires
        k > 0,
        pow2((k - 1) as nat) <= c < pow2(k),
    ensures
        bitlen(c) == k,
{
    lemma_pow2_pos((k - 1) as nat);
    lemma_bitlen_bounds(c);
    let b = bitlen(c);
    if b < k {
        lemma_pow2_monotone(b, (k - 1) as nat);
    } else if b > k {
        lemma_pow2_monotone(k, (b - 1) as nat);
    }
}

/// A number below `2^k` has at most `k` digits, and conversely.
pub proof fn lemma_bitlen_le(c: nat, k: nat)
    ensures
        c < pow2(k) <==> bitlen(c) <= k,
{
    lemma_bitlen_bounds(c);
    let b = bitlen(c);
    if b <= k {
        lemma_pow2_monotone(b, k);
    } else {
        lemma_pow2_monotone(k, (b - 1) as nat);
    }
}

/// Halving drops one digit.
pub proof fn lemma_bitlen_half(x: nat)
    ensures
        bitlen(x / 2) == if x == 0 {
            0
        } else {
            (bitlen(x) - 1) as nat
        },
{
}

/// Dropping the `k` lowest digits shortens a number by `k` digits.
pub proof fn lemma_bitlen_shr(c: nat, k: nat)
    ensures
        bitlen(c / pow2(k)) == if bitlen(c) >= k {
            (bitlen(c) - k) as nat
        } else {
            0
        },
    decreases k,
{
    if k == 0 {
        lemma_pow2_zero();
    } else {
        lemma_bitlen_shr(c, (k - 1) as nat);
        lemma_div_pow2_step(c, (k - 1) as nat);
        lemma_bitlen_half(c / pow2((k - 1) as nat));
    }
}

/// Appending `k` zero digits lengthens a non-zero number by `k` digits.
pub proof fn lemma_bitlen_shl(c: nat, k: nat)
    requires
        c > 0,
    ensures
        bitlen(c * pow2(k)) == bitlen(c) + k,
{
    lemma_bitlen_bounds(c);
    let b = bitlen(c);
    lemma_pow2_split((b - 1) as nat, k);
    lemma_pow2_split(b, k);
    let p = pow2(k) as int;
    let lo = pow2((b - 1) as nat) as int;
    let hi = pow2(b) as int;
    let ci = c as int;
    assert(lo * p <= ci * p < hi * p) by (nonlinear_arith)
        requires
            lo <= ci < hi,
            p > 0,
    ;
    lemma_bitlen_unique(c * pow2(k), b + k);
}

/// A non-zero number is its odd part times two to the number of its trailing
/// zeros, which is less than its digit count.
pub proof fn lemma_trailing_zeros(c: nat)
    requires
        c > 0,
    ensures
        trailing_zeros(c) < bitlen(c),
        c == (c / pow2(trailing_zeros(c))) * pow2(trailing_zeros(c)),
        (c / pow2(trailing_zeros(c))) % 2 == 1,
        c % pow2(trailing_zeros(c)) == 0,
    decreases c,
{
    if c % 2 == 1 {
        lemma_pow2_zero();
    } else {
        let h = c / 2;
        lemma_trailing_zeros(h);
        let t = trailing_zeros(h);
        lemma_div_pow2_step(c, t);
        lemma_pow2_unfold(t + 1);
        lemma_pow2_pos(t + 1);
        let q = (h / pow2(t)) as int;
        let p = pow2(t) as int;
        assert(c == q * (2 * p)) by (nonlinear_arith)
            requires
                h == q * p,
                c == 2 * h,
        ;
        lemma_fundamental_div_mod_converse(c as int, pow2(t + 1) as int, q, 0);
    }
}

/// Conjunction with `2^k - 1` keeps the `k` lowest digits.
pub proof fn lemma_bit_and_mask(c: nat, k: nat)
    ensures
        bit_and(c, (pow2(k) - 1) as nat) == c % pow2(k),
    decreases k,
{
    lemma_pow2_pos(k);
    if k == 0 {
        lemma_pow2_zero();
        lemma_bit_and_zero(c);
    } else if c == 0 {
    } else {
        let m = (pow2(k) - 1) as nat;
        let j = (k - 1) as nat;
        lemma_pow2_unfold(k);
        lemma_pow2_pos(j);
        assert(m / 2 == pow2(j) - 1);
        assert(m % 2 == 1);
        lemma_bit_and_mask(c / 2, j);
        lemma_mod_pow2_step(c, j);
    }
}

/// Conjunction with zero is zero.
pub proof fn lemma_bit_and_zero(c: nat)
    ensures
        bit_and(c, 0) == 0,
    decreases c,
{
    if c != 0 {
        lemma_bit_and_zero(c / 2);
    }
}

/// Disjunction with zero changes nothing.
pub proof fn lemma_bit_or_zero(a: nat)
    ensures
        bit_or(a, 0) == a,
    decreases a,
{
    if a != 0 {
        lemma_bit_or_zero(a / 2);
    }
}

/// The disjunction of a number below `2^k` and a multiple of `2^k` is their sum.
pub proof fn lemma_bit_or_disjoint(a: nat, b: nat, k: nat)
    requires
        a < pow2(k),
        b % pow2(k) == 0,
    ensures
        bit_or(a, b) == a + b,
        bit_or(b, a) == a + b,
    decreases k,
{
    lemma_pow2_pos(k);
    if k == 0 {
        lemma_pow2_zero();
        lemma_bit_or_zero(b);
    } else if a == 0 {
        lemma_bit_or_zero(b);
    } else if b == 0 {
        lemma_bit_or_zero(a);
    } else {
        let j = (k - 1) as nat;
        lemma_pow2_unfold(k);
        lemma_pow2_pos(j);
        lemma_mod_pow2_step(b, j);
        assert(b % 2 == 0);
        assert((b / 2) % pow2(j) == 0);
        lemma_bit_or_disjoint(a / 2, b / 2, j);
    }
}

/// The `j + 1` lowest digits of a number are its digit at position `j` and,
/// below it, its `j` lowest digits.
pub proof fn lemma_top_digit(c: nat, j: nat)
    ensures
        bit(c, j) ==> c % pow2(j + 1) == pow2(j) + c % pow2(j),
        !bit(c, j) ==> c % pow2(j + 1) == c % pow2(j),
        c % pow2(j) < pow2(j),
        c % pow2(j + 1) < pow2(j + 1),
        bit(c, j) <==> c % pow2(j + 1) >= pow2(j),
{
    lemma_pow2_pos(j);
    lemma_pow2_pos(j + 1);
    lemma_pow2_unfold(j + 1);
    lemma_mod_breakdown(c as int, pow2(j) as int, 2);
    assert(pow2(j) * 2 == pow2(j + 1)) by (nonlinear_arith)
        requires
            pow2(j + 1) == 2 * pow2(j),
    ;
    let b = (c / pow2(j)) % 2;
    let p = pow2(j) as int;
    assert(b == 0 || b == 1);
    assert(p * 0 == 0 && p * 1 == p) by (nonlinear_arith);
}

/// Cutting a number at digit `k` loses nothing: the digits above, shifted
/// back, plus the digits below give the number.
pub proof fn lemma_cut(c: nat, k: nat)
    ensures
        c == (c / pow2(k)) * pow2(k) + c % pow2(k),
        c % pow2(k) < pow2(k),
{
    lemma_pow2_pos(k);
    lemma_fundamental_div_mod(c as int, pow2(k) as int);
    let q = (c / pow2(k)) as int;
    let p = pow2(k) as int;
    assert(p * q == q * p) by (nonlinear_arith);
}

/// Shifting left by `k` and back right by `k` gives the number again, and the
/// shifted number has no digits below `k`.
pub proof fn lemma_shl_shr(c: nat, k: nat)
    ensures
        (c * pow2(k)) / pow2(k) == c,
        (c * pow2(k)) % pow2(k) == 0,
{
    lemma_pow2_pos(k);
    lemma_fundamental_div_mod_converse((c * pow2(k)) as int, pow2(k) as int, c as int, 0);
}

} // verus!
