//! The arbitrary-precision integer primitive.
//!
//! Significands are unbounded, so they are held in [`rug::Integer`]. The
//! verifier cannot look inside such a value: [`int_of`] names the
//! mathematical integer it holds, and every operation on one goes through a
//! function of this module whose contract is taken on trust from the
//! documentation and source of `rug` (and of GMP beneath it). Nothing in
//! these functions is proved; everything else in the crate is proved from
//! them.
use crate::math::{bit_and, bit_or, bitlen, trailing_zeros, trunc_rem};
use num_traits::{Signed, Zero};
use rug::integer::IntegerExt64;
use rug::Integer;
use vstd::arithmetic::power2::pow2;
use vstd::prelude::*;

verus! {

#[verifier::external_type_specification]
#[verifier::external_body]
pub struct ExInteger(rug::Integer);

/// The mathematical integer that an [`Integer`] holds.
pub uninterp spec fn int_of(i: Integer) -> int;

/// `<Integer as num_traits::Zero>::zero`, which is `Integer::new()`: the
/// integer zero.
#[verifier::external_body]
pub(crate) fn zero() -> (r: Integer)
    ensures
        int_of(r) == 0,
{
    Integer::zero()
}

/// `<Integer as num_traits::Zero>::is_zero`: whether the value is zero (rug
/// compares the sign of the value with `Equal`).
#[verifier::external_body]
pub(crate) fn is_zero(a: &Integer) -> (r: bool)
    ensures
        r == (int_of(*a) == 0),
{
    a.is_zero()
}

/// `<Integer as num_traits::Signed>::is_negative`: whether the value is
/// below zero.
#[verifier::external_body]
pub(crate) fn is_negative(a: &Integer) -> (r: bool)
    ensures
        r == (int_of(*a) < 0),
{
    a.is_negative()
}

/// `Integer::from(isize)`: the integer with the value of `x`.
#[verifier::external_body]
pub(crate) fn from_isize(x: isize) -> (r: Integer)
    ensures
        int_of(r) == x,
{
    Integer::from(x)
}

/// `Integer::from(u64)`: the integer with the value of `x`.
#[verifier::external_body]
pub(crate) fn from_u64(x: u64) -> (r: Integer)
    ensures
        int_of(r) == x,
{
    Integer::from(x)
}

/// `Integer::to_isize`: the value as an `isize` where it fits, `None` where
/// it does not.
#[verifier::external_body]
pub(crate) fn to_isize(a: &Integer) -> (r: Option<isize>)
    ensures
        isize::MIN <= int_of(*a) <= isize::MAX ==> r == Some(int_of(*a) as isize),
        !(isize::MIN <= int_of(*a) <= isize::MAX) ==> r is None,
{
    a.to_isize()
}

/// `Integer::clone`: a second integer with the same value.
#[verifier::external_body]
pub(crate) fn copy(a: &Integer) -> (r: Integer)
    ensures
        int_of(r) == int_of(*a),
{
    a.clone()
}

/// `Integer << u32`: multiplication by a power of two (GMP's
/// `mpz_mul_2exp`), for every sign.
#[verifier::external_body]
pub(crate) fn shl(a: Integer, k: u32) -> (r: Integer)
    ensures
        int_of(r) == int_of(a) * pow2(k as nat),
{
    a << k
}

/// `Integer >> u32`: division by a power of two with the quotient rounded
/// down (GMP's `mpz_fdiv_q_2exp`). The contract is stated for values that
/// are not negative.
#[verifier::external_body]
pub(crate) fn shr(a: Integer, k: u32) -> (r: Integer)
    requires
        int_of(a) >= 0,
    ensures
        int_of(r) == int_of(a) / (pow2(k as nat) as int),
{
    a >> k
}

/// `Integer & Integer`: digit-wise conjunction (GMP's `mpz_and`). The
/// contract is stated for operands that are not negative.
#[verifier::external_body]
pub(crate) fn bitand(a: Integer, b: Integer) -> (r: Integer)
    requires
        int_of(a) >= 0,
        int_of(b) >= 0,
    ensures
        int_of(r) == bit_and(int_of(a) as nat, int_of(b) as nat),
{
    a & b
}

/// `Integer | Integer`: digit-wise disjunction (GMP's `mpz_ior`). The
/// contract is stated for operands that are not negative.
#[verifier::external_body]
pub(crate) fn bitor(a: Integer, b: Integer) -> (r: Integer)
    requires
        int_of(a) >= 0,
        int_of(b) >= 0,
    ensures
        int_of(r) == bit_or(int_of(a) as nat, int_of(b) as nat),
{
    a | b
}

/// `Integer + Integer`: the exact sum.
#[verifier::external_body]
pub(crate) fn plus(a: Integer, b: Integer) -> (r: Integer)
    ensures
        int_of(r) == int_of(a) + int_of(b),
{
    a + b
}

/// `Integer - Integer`: the exact difference.
#[verifier::external_body]
pub(crate) fn minus(a: Integer, b: Integer) -> (r: Integer)
    ensures
        int_of(r) == int_of(a) - int_of(b),
{
    a - b
}

/// `Integer * Integer`: the exact product.
#[verifier::external_body]
pub(crate) fn times(a: Integer, b: Integer) -> (r: Integer)
    ensures
        int_of(r) == int_of(a) * int_of(b),
{
    a * b
}

/// `-Integer`: the negated value.
#[verifier::external_body]
pub(crate) fn negate(a: Integer) -> (r: Integer)
    ensures
        int_of(r) == -int_of(a),
{
    -a
}

/// `Integer::abs`: the absolute value.
#[verifier::external_body]
pub(crate) fn abs(a: Integer) -> (r: Integer)
    ensures
        int_of(r) == vstd::math::abs(int_of(a)),
{
    a.abs()
}

/// `Integer % Integer` (the `Rem` trait): the remainder of the division
/// that rounds toward zero (GMP's `mpz_tdiv_r`). rug panics on a zero
/// divisor, which the precondition leaves out.
#[verifier::external_body]
pub(crate) fn rem(a: Integer, d: Integer) -> (r: Integer)
    requires
        int_of(d) != 0,
    ensures
        int_of(r) == trunc_rem(int_of(a), int_of(d)),
{
    a % d
}

/// `IntegerExt64::significant_bits_64`: the number of binary digits of the
/// absolute value.
#[verifier::external_body]
pub(crate) fn significant_bits(a: &Integer) -> (r: u64)
    ensures
        r == bitlen(vstd::math::abs(int_of(*a))),
{
    a.significant_bits_64()
}

/// `IntegerExt64::find_one_64`, from position zero: the position of the
/// lowest one digit, `None` where there is none. The contract is stated for
/// values that are not negative.
#[verifier::external_body]
pub(crate) fn find_one(a: &Integer) -> (r: Option<u64>)
    requires
        int_of(*a) >= 0,
    ensures
        int_of(*a) == 0 ==> r is None,
        int_of(*a) > 0 ==> r == Some(trailing_zeros(int_of(*a) as nat) as u64),
{
    a.find_one_64(0)
}

/// `Integer::is_odd`: whether the value is odd.
#[verifier::external_body]
pub(crate) fn is_odd(a: &Integer) -> (r: bool)
    ensures
        r == (int_of(*a) % 2 == 1),
{
    a.is_odd()
}

/// `Integer::is_even`: whether the value is even.
#[verifier::external_body]
pub(crate) fn is_even(a: &Integer) -> (r: bool)
    ensures
        r == (int_of(*a) % 2 == 0),
{
    a.is_even()
}

/// `Integer < Integer` (the `PartialOrd` impl): the order of the values.
#[verifier::external_body]
pub(crate) fn less(a: &Integer, b: &Integer) -> (r: bool)
    ensures
        r == (int_of(*a) < int_of(*b)),
{
    a < b
}

/// `Integer == Integer` (the `PartialEq` impl): equality of the values.
#[verifier::external_body]
pub(crate) fn equal(a: &Integer, b: &Integer) -> (r: bool)
    ensures
        r == (int_of(*a) == int_of(*b)),
{
    a == b
}

} // verus!
