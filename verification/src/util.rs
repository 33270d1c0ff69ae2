//! Shifts and masks on unbounded integers.
use crate::integer;
use crate::integer::int_of;
use crate::math::{lemma_div_pow2_twice, lemma_pow2_split, lemma_pow2_zero};
use rug::Integer;
use vstd::arithmetic::div_mod::lemma_div_pos_is_pos;
use vstd::arithmetic::power2::pow2;
use vstd::prelude::*;

verus! {

/// `a * 2^k`.
pub fn shl_by(a: Integer, k: u64) -> (r: Integer)
    ensures
        int_of(r) == int_of(a) * pow2(k as nat),
{
    let ghost a0 = int_of(a);
    let mut r = a;
    let mut done: u64 = 0;
    proof {
        lemma_pow2_zero();
    }
    while done < k
        invariant
            done <= k,
            int_of(r) == a0 * pow2(done as nat),
        decreases k - done,
    {
        let left: u64 = k - done;
        let step: u32 = if left > 0xffff_ffff {
            0xffff_ffff
        } else {
            left as u32
        };
        proof {
            lemma_pow2_split(done as nat, step as nat);
            let x = pow2(done as nat) as int;
            let y = pow2(step as nat) as int;
            assert((a0 * x) * y == a0 * (x * y)) by (nonlinear_arith);
        }
        r = integer::shl(r, step);
        done = done + step as u64;
    }
    r
}

/// `a / 2^k`, rounded down, for `a` that is not negative.
pub fn shr_by(a: Integer, k: u64) -> (r: Integer)
    requires
        int_of(a) >= 0,
    ensures
        int_of(r) == int_of(a) / (pow2(k as nat) as int),
{
    let ghost a0 = int_of(a) as nat;
    let mut r = a;
    let mut done: u64 = 0;
    proof {
        lemma_pow2_zero();
    }
    while done < k
        invariant
            done <= k,
            int_of(r) == a0 / pow2(done as nat),
            int_of(r) >= 0,
        decreases k - done,
    {
        let left: u64 = k - done;
        let step: u32 = if left > 0xffff_ffff {
            0xffff_ffff
        } else {
            left as u32
        };
        proof {
            lemma_div_pow2_twice(a0, done as nat, step as nat);
            lemma_pow2_split(done as nat, step as nat);
            lemma_div_pos_is_pos(int_of(r), pow2(step as nat) as int);
        }
        r = integer::shr(r, step);
        done = done + step as u64;
    }
    r
}

/// `2^k`.
pub fn power_of_two(k: u64) -> (r: Integer)
    ensures
        int_of(r) == pow2(k as nat),
{
    let r = shl_by(integer::from_u64(1), k);
    assert(1 * pow2(k as nat) == pow2(k as nat));
    r
}

/// The integer whose `n` lowest digits are one and whose other digits are
/// zero: `2^n - 1`.
pub fn bitmask(n: usize) -> (r: Integer)
    ensures
        int_of(r) == pow2(n as nat) - 1,
{
    integer::minus(power_of_two(n as u64), integer::from_u64(1))
}

} // verus!
