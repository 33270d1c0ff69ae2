use mpmfnum::float::{Exceptions, Float, FloatContext};
use mpmfnum::rfloat::RFloat;
use mpmfnum::{Real, RoundingMode};
use rug::Integer;

fn finite(sign: bool, exp: isize, c: i64) -> RFloat {
    RFloat::Real(sign, exp, Integer::from(c))
}

fn flags(inexact: bool, carry: bool) -> Exceptions {
    let mut flags = Exceptions::new();
    flags.inexact = inexact;
    flags.carry = carry;
    flags
}

#[test]
fn float_exceptions_start_lowered() {
    let flags = Exceptions::new();
    assert!(!flags.invalid && !flags.divzero && !flags.inexact && !flags.carry);
    assert_eq!(Exceptions::default(), flags);
}

#[test]
fn float_context() {
    let ctx = FloatContext::new(8);
    assert_eq!(ctx.prec(), 8);
    assert_eq!(ctx.rm(), RoundingMode::NearestTiesToEven);
    assert_eq!(ctx.with_rounding_mode(RoundingMode::ToOdd).rm(), RoundingMode::ToOdd);
}

#[test]
fn rounding_to_a_precision() {
    let ctx = FloatContext::new(3);
    // exact
    let r = ctx.round(&finite(false, -2, 5));
    assert_eq!(r.clone().into_rfloat(), finite(false, -2, 5));
    assert_eq!(*r.flags(), flags(false, false));
    assert_eq!(r.ctx().prec(), 3);
    // 0b1011 to three digits: a tie, to even, which is 0b110 * 2
    let r = ctx.round(&finite(false, 0, 11));
    assert_eq!(r.clone().into_rfloat(), finite(false, 2, 3));
    assert_eq!(*r.flags(), flags(true, false));
    // 0b1111 to three digits carries
    let r = ctx.round(&finite(true, 0, 15));
    assert_eq!(r.clone().into_rfloat(), finite(true, 4, 1));
    assert_eq!(*r.flags(), flags(true, true));
    // the exponent is unbounded
    let r = ctx.round(&finite(false, 100000, 15));
    assert_eq!(r.into_rfloat(), finite(false, 100004, 1));
    let r = ctx.with_rounding_mode(RoundingMode::ToZero).round(&finite(false, -100000, 15));
    assert_eq!(r.into_rfloat(), finite(false, -99999, 7));
}

#[test]
fn float_classes_pass_through() {
    let ctx = FloatContext::new(3);
    let r = ctx.round(&RFloat::zero());
    assert!(r.is_zero());
    assert_eq!(*r.flags(), Exceptions::new());
    let r = ctx.round(&RFloat::PosInfinity);
    assert!(r.is_infinite() && !r.is_finite());
    assert_eq!(r.is_negative(), Some(false));
    assert_eq!(*r.flags(), Exceptions::new());
    let r = ctx.round(&RFloat::NegInfinity);
    assert!(r.is_infinite());
    assert_eq!(r.sign(), Some(true));
    let r = ctx.round(&RFloat::Nan);
    assert!(r.is_nar() && !r.is_numerical() && !r.is_infinite());
    assert_eq!(*r.flags(), Exceptions::new());
    // a finite number is not infinite
    let r = ctx.round(&RFloat::one());
    assert!(r.is_finite() && !r.is_infinite());
}

#[test]
fn float_accessors_and_order() {
    let ctx = FloatContext::new(4);
    let a = ctx.round(&finite(true, -3, 11));
    assert_eq!(a.sign(), Some(true));
    assert_eq!(a.exp(), Some(-3));
    assert_eq!(a.e(), Some(0));
    assert_eq!(a.n(), Some(-4));
    assert_eq!(a.c(), Some(Integer::from(11)));
    assert_eq!(a.m(), Some(Integer::from(-11)));
    assert_eq!(a.prec(), Some(4));
    assert_eq!(Float::radix(), 2);
    let b = ctx.round(&RFloat::one());
    assert!(a < b && b > a && a == a.clone());
    assert_eq!(a.compare(&b), Some(-1));
    assert_eq!(RFloat::from(b), RFloat::one());
    let nan = ctx.round(&RFloat::Nan);
    assert!(nan != nan);
}

#[test]
fn float_rounding_is_idempotent() {
    for prec in 1..6usize {
        let ctx = FloatContext::new(prec).with_rounding_mode(RoundingMode::NearestTiesToAway);
        for c in 0..300i64 {
            let v = finite(c % 2 == 0, -3, c);
            let once = ctx.round(&v);
            let twice = ctx.round(&once);
            assert!(once == twice);
            assert_eq!(*twice.flags(), Exceptions::new());
        }
    }
}
