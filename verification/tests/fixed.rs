use mpmfnum::fixed::{Exceptions, Fixed, FixedContext, Overflow};
use mpmfnum::rfloat::RFloat;
use mpmfnum::{Real, RoundingMode};
use rug::Integer;

fn finite(sign: bool, exp: isize, c: i64) -> RFloat {
    RFloat::Real(sign, exp, Integer::from(c))
}

fn digits(x: &Fixed) -> (bool, isize, Integer) {
    match x.clone().into_rfloat() {
        RFloat::Real(s, exp, c) => (s, exp, c),
        other => panic!("not a finite number: {:?}", other),
    }
}

fn flags(invalid: bool, overflow: bool, inexact: bool) -> Exceptions {
    let mut flags = Exceptions::new();
    flags.invalid = invalid;
    flags.overflow = overflow;
    flags.inexact = inexact;
    flags
}

#[test]
fn fixed_exceptions_start_lowered() {
    let flags = Exceptions::new();
    assert!(!flags.invalid && !flags.overflow && !flags.underflow && !flags.inexact);
    assert_eq!(Exceptions::default(), flags);
}

#[test]
fn unsigned_wrap() {
    let ctx = FixedContext::new(false, 0, 4);
    let r = ctx.round(&finite(false, 0, 17));
    assert_eq!(digits(&r), (false, 0, Integer::from(1)));
    assert_eq!(*r.flags(), flags(false, true, false));
}

#[test]
fn signed_wrap() {
    let ctx = FixedContext::new(true, 0, 4);
    let r = ctx.round(&finite(false, 0, 9));
    assert_eq!(digits(&r), (true, 0, Integer::from(7)));
    assert_eq!(*r.flags(), flags(false, true, false));
    // below the range
    let r = ctx.round(&finite(true, 0, 9));
    assert_eq!(digits(&r), (false, 0, Integer::from(7)));
    assert_eq!(*r.flags(), flags(false, true, false));
    let r = ctx.round(&finite(true, 0, 17));
    assert_eq!(digits(&r), (true, 0, Integer::from(1)));
    let r = ctx.round(&finite(false, 3, 1));
    assert_eq!(digits(&r), (true, 0, Integer::from(8)));
}

#[test]
fn unsigned_wrap_of_a_negative_number() {
    let ctx = FixedContext::new(false, 0, 4);
    let r = ctx.round(&finite(true, 0, 1));
    assert_eq!(digits(&r), (false, 0, Integer::from(15)));
    assert_eq!(*r.flags(), flags(false, true, false));
    let r = ctx.round(&finite(true, 0, 16));
    assert_eq!(digits(&r), (false, 0, Integer::from(0)));
}

#[test]
fn saturation() {
    let ctx = FixedContext::new(true, -2, 6).with_overflow(Overflow::Saturate);
    let r = ctx.round(&finite(false, 0, 100));
    assert_eq!(digits(&r), (false, -2, Integer::from(31)));
    assert_eq!(*r.flags(), flags(false, true, false));
    let r = ctx.round(&finite(true, 0, 100));
    assert_eq!(digits(&r), (true, -2, Integer::from(32)));
    assert_eq!(*r.flags(), flags(false, true, false));
    assert!(!r.flags().underflow);
    let ctx = FixedContext::new(false, -2, 6).with_overflow(Overflow::Saturate);
    let r = ctx.round(&finite(true, 0, 100));
    assert!(r.is_zero());
    assert_eq!(*r.flags(), flags(false, true, false));
    let r = ctx.round(&finite(false, -3, 1001));
    assert_eq!(digits(&r), (false, -2, Integer::from(63)));
    assert_eq!(*r.flags(), flags(false, true, true));
}

#[test]
fn ends_of_the_range() {
    let ctx = FixedContext::new(true, -2, 6);
    assert_eq!(digits(&ctx.maxval()), (false, -2, Integer::from(31)));
    assert_eq!(digits(&ctx.minval()), (true, -2, Integer::from(32)));
    assert_eq!(digits(&ctx.quantum()), (false, -2, Integer::from(1)));
    assert!(ctx.zero().is_zero());
    assert_eq!(*ctx.maxval().flags(), Exceptions::new());
    assert_eq!(*ctx.maxval().ctx(), ctx);
    let ctx = FixedContext::new(false, 3, 6);
    assert_eq!(digits(&ctx.maxval()), (false, 3, Integer::from(63)));
    assert!(ctx.minval().is_zero());
    assert_eq!(digits(&ctx.quantum()), (false, 3, Integer::from(1)));
    // the narrowest formats
    assert_eq!(digits(&FixedContext::new(false, 0, 1).maxval()), (false, 0, Integer::from(1)));
    assert_eq!(digits(&FixedContext::new(true, 0, 2).maxval()), (false, 0, Integer::from(1)));
    assert_eq!(digits(&FixedContext::new(true, 0, 2).minval()), (true, 0, Integer::from(2)));
}

#[test]
fn fixed_classes() {
    let ctx = FixedContext::new(true, -2, 6);
    let r = ctx.round(&RFloat::zero());
    assert!(r.is_zero());
    assert_eq!(*r.flags(), Exceptions::new());
    let r = ctx.round(&RFloat::PosInfinity);
    assert_eq!(digits(&r), (false, -2, Integer::from(31)));
    assert_eq!(*r.flags(), Exceptions::new());
    let r = ctx.round(&RFloat::NegInfinity);
    assert_eq!(digits(&r), (true, -2, Integer::from(32)));
    let r = ctx.round(&RFloat::Nan);
    assert!(r.is_zero());
    assert_eq!(*r.flags(), flags(true, false, false));
}

#[test]
fn rounding_within_the_range() {
    let ctx = FixedContext::new(true, -2, 6);
    // truncation by default
    let r = ctx.round(&finite(false, -4, 23));
    assert_eq!(r.clone().into_rfloat(), finite(false, -2, 5));
    assert_eq!(*r.flags(), flags(false, false, true));
    assert_eq!(r.exp(), Some(-2));
    assert_eq!(r.c(), Some(Integer::from(5)));
    assert_eq!(r.e(), Some(0));
    assert_eq!(r.n(), Some(-3));
    assert_eq!(r.m(), Some(Integer::from(5)));
    assert_eq!(r.prec(), Some(3));
    assert_eq!(r.sign(), Some(false));
    assert_eq!(r.is_negative(), Some(false));
    assert!(r.is_finite() && !r.is_nar() && !r.is_infinite() && r.is_numerical());
    assert_eq!(Fixed::radix(), 2);
    let r = ctx.with_rounding_mode(RoundingMode::NearestTiesToEven).round(&finite(false, -4, 23));
    assert_eq!(r.into_rfloat(), finite(false, -2, 6));
    // exact
    let r = ctx.round(&finite(true, -1, 3));
    assert_eq!(r.clone().into_rfloat(), finite(true, -1, 3));
    assert_eq!(*r.flags(), Exceptions::new());
    // rounded to zero
    let r = ctx.round(&finite(true, -5, 3));
    assert!(r.is_zero());
    assert_eq!(*r.flags(), flags(false, false, true));
    // the ends are in the range
    let r = ctx.round(&finite(false, -2, 31));
    assert_eq!(*r.flags(), Exceptions::new());
    let r = ctx.round(&finite(true, -2, 32));
    assert_eq!(*r.flags(), Exceptions::new());
    assert_eq!(r.into_rfloat(), finite(true, 3, 1));
}

#[test]
fn wrapped_numbers_lie_in_the_range() {
    for &signed in [false, true].iter() {
        let ctx = FixedContext::new(signed, -1, 5);
        let max = ctx.maxval().into_rfloat();
        let min = ctx.minval().into_rfloat();
        for c in 1..400i64 {
            for &sign in [false, true].iter() {
                let v = finite(sign, -1, c);
                let wrapped = ctx.round_wrap(v.clone());
                assert!(min <= wrapped && wrapped <= max, "{:?}", v);
                let r = ctx.round(&v).into_rfloat();
                assert!(min <= r && r <= max, "{:?}", v);
            }
        }
    }
}

#[test]
fn fixed_rounding_is_idempotent() {
    for &signed in [false, true].iter() {
        for overflow in [Overflow::Wrap, Overflow::Saturate] {
            let ctx = FixedContext::new(signed, -2, 5).with_overflow(overflow).with_rounding_mode(
                RoundingMode::NearestTiesToAway,
            );
            for c in 0..500i64 {
                for &sign in [false, true].iter() {
                    let v = finite(sign, -4, c);
                    let once = ctx.round(&v);
                    let twice = ctx.round(&once);
                    assert!(once == twice, "{:?}", v);
                }
            }
        }
    }
}

#[test]
fn fixed_order() {
    let ctx = FixedContext::new(true, -2, 6);
    let a = ctx.round(&finite(false, -2, 5));
    let b = ctx.round(&finite(false, -1, 3));
    assert!(a < b && b > a && a == a.clone() && a != b);
    assert_eq!(a.compare(&b), Some(-1));
    assert_eq!(RFloat::from(a), finite(false, -2, 5));
}
