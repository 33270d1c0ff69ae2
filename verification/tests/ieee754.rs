use mpmfnum::ieee754::{Exceptions, IEEE754Context, IEEE754Val, IEEE754};
use mpmfnum::rfloat::RFloat;
use mpmfnum::{Real, RoundingMode};
use rug::Integer;

fn finite(sign: bool, exp: isize, c: i64) -> RFloat {
    RFloat::Real(sign, exp, Integer::from(c))
}

fn half() -> IEEE754Context {
    IEEE754Context::new(5, 16)
}

/// The value in a form that can be compared.
fn shape(x: &IEEE754) -> (u8, bool, isize, Integer, bool) {
    match x.val() {
        IEEE754Val::PosZero => (0, false, 0, Integer::from(0), false),
        IEEE754Val::NegZero => (0, true, 0, Integer::from(0), false),
        IEEE754Val::Subnormal(s, c) => (1, *s, 0, c.clone(), false),
        IEEE754Val::Normal(s, exp, c) => (2, *s, *exp, c.clone(), false),
        IEEE754Val::PosInfinity => (3, false, 0, Integer::from(0), false),
        IEEE754Val::NegInfinity => (3, true, 0, Integer::from(0), false),
        IEEE754Val::Nan(s, q, p) => (4, *s, 0, p.clone(), *q),
    }
}

fn no_flags() -> Exceptions {
    Exceptions::new()
}

#[test]
fn ieee754_exceptions_start_lowered() {
    let flags = Exceptions::new();
    assert!(!flags.invalid && !flags.divzero && !flags.overflow);
    assert!(!flags.underflow_pre && !flags.underflow_post && !flags.inexact);
    assert!(!flags.carry && !flags.denorm && !flags.tiny_pre && !flags.tiny_post);
    assert_eq!(Exceptions::default(), flags);
}

#[test]
fn parameters_of_half_precision() {
    let ctx = half();
    assert_eq!(ctx.es(), 5);
    assert_eq!(ctx.nbits(), 16);
    assert_eq!(ctx.max_m(), 10);
    assert_eq!(ctx.max_p(), 11);
    assert_eq!(ctx.emax(), 15);
    assert_eq!(ctx.emin(), -14);
    assert_eq!(ctx.expmax(), 5);
    assert_eq!(ctx.expmin(), -24);
    assert_eq!(ctx.rm(), RoundingMode::NearestTiesToEven);
    assert_eq!(ctx.with_rounding_mode(RoundingMode::ToZero).rm(), RoundingMode::ToZero);
}

#[test]
fn parameters_of_double_precision() {
    let ctx = IEEE754Context::new(11, 64);
    assert_eq!(ctx.max_m(), 52);
    assert_eq!(ctx.emax(), 1023);
    assert_eq!(ctx.emin(), -1022);
    assert_eq!(ctx.expmin(), -1074);
}

#[test]
fn half_precision_overflows_to_infinity() {
    let r = half().round(&finite(false, 0, 65520));
    assert_eq!(shape(&r).0, 3);
    assert!(r.is_infinite());
    assert_eq!(r.sign(), Some(false));
    let mut expected = no_flags();
    expected.overflow = true;
    expected.inexact = true;
    assert_eq!(*r.flags(), expected);
    // just below the tie, the largest finite number
    let r = half().round(&finite(false, 0, 65519));
    assert_eq!(shape(&r), (2, false, 5, Integer::from(2047), false));
    let mut expected = no_flags();
    expected.inexact = true;
    assert_eq!(*r.flags(), expected);
}

#[test]
fn half_precision_smallest_subnormal_is_exact() {
    let r = half().round(&finite(false, -24, 1));
    assert_eq!(shape(&r), (1, false, 0, Integer::from(1), false));
    assert!(r.is_subnormal());
    let flags = r.flags();
    assert!(flags.tiny_post);
    assert!(!flags.inexact);
    assert!(!flags.underflow_post);
    assert!(!flags.underflow_pre);
    assert!(!flags.overflow && !flags.invalid && !flags.divzero && !flags.carry && !flags.denorm);
    // the number itself lies below the normal numbers
    assert!(flags.tiny_pre);
}

#[test]
fn overflow_goes_by_the_direction() {
    let big = finite(false, 20, 1);
    let small = finite(true, 20, 1);
    let largest = |sign| (2u8, sign, 5isize, Integer::from(2047), false);
    let infinity = |sign| (3u8, sign, 0isize, Integer::from(0), false);
    let cases = [
        (RoundingMode::NearestTiesToEven, infinity(false), infinity(true)),
        (RoundingMode::NearestTiesToAway, infinity(false), infinity(true)),
        (RoundingMode::NearestTiesToOdd, infinity(false), infinity(true)),
        (RoundingMode::ToZero, largest(false), largest(true)),
        (RoundingMode::AwayZero, infinity(false), infinity(true)),
        (RoundingMode::ToPositive, infinity(false), largest(true)),
        (RoundingMode::ToNegative, largest(false), infinity(true)),
        (RoundingMode::ToEven, largest(false), largest(true)),
        (RoundingMode::ToOdd, largest(false), largest(true)),
    ];
    for (mode, positive, negative) in cases.iter() {
        let ctx = half().with_rounding_mode(*mode);
        let r = ctx.round(&big);
        assert_eq!(shape(&r), *positive, "{:?}", mode);
        assert!(r.flags().overflow && r.flags().inexact);
        let r = ctx.round(&small);
        assert_eq!(shape(&r), *negative, "{:?}", mode);
        assert!(r.flags().overflow && r.flags().inexact);
    }
}

#[test]
fn ieee754_classes_pass_through() {
    let ctx = half();
    let r = ctx.round(&RFloat::zero());
    assert_eq!(shape(&r), (0, false, 0, Integer::from(0), false));
    assert_eq!(*r.flags(), no_flags());
    let r = ctx.round(&RFloat::Real(true, 3, Integer::from(0)));
    assert_eq!(shape(&r), (0, true, 0, Integer::from(0), false));
    let r = ctx.round(&RFloat::PosInfinity);
    assert_eq!(shape(&r), (3, false, 0, Integer::from(0), false));
    assert_eq!(*r.flags(), no_flags());
    let r = ctx.round(&RFloat::NegInfinity);
    assert_eq!(shape(&r), (3, true, 0, Integer::from(0), false));
    let r = ctx.round_signalled(&RFloat::NegInfinity, true);
    let mut expected = no_flags();
    expected.divzero = true;
    assert_eq!(*r.flags(), expected);
    let r = ctx.round(&RFloat::Nan);
    assert_eq!(shape(&r), (4, false, 0, Integer::from(0), true));
    assert!(r.is_nan());
    assert_eq!(r.nan_quiet(), Some(true));
    assert_eq!(r.nan_payload(), Some(Integer::from(0)));
    let mut expected = no_flags();
    expected.invalid = true;
    assert_eq!(*r.flags(), expected);
    // the signal is for infinities only
    let r = ctx.round_signalled(&RFloat::one(), true);
    assert_eq!(*r.flags(), no_flags());
    assert_eq!(r.nan_quiet(), None);
    assert_eq!(r.nan_payload(), None);
}

#[test]
fn normal_numbers_have_full_precision() {
    let ctx = half();
    let r = ctx.round(&RFloat::one());
    assert_eq!(shape(&r), (2, false, -10, Integer::from(1024), false));
    assert!(r.is_normal());
    assert_eq!(*r.flags(), no_flags());
    assert_eq!(r.exp(), Some(-10));
    assert_eq!(r.e(), Some(0));
    assert_eq!(r.n(), Some(-11));
    assert_eq!(r.c(), Some(Integer::from(1024)));
    assert_eq!(r.m(), Some(Integer::from(1024)));
    assert_eq!(r.prec(), Some(11));
    assert_eq!(r.is_negative(), Some(false));
    assert!(r.is_finite() && !r.is_nar() && !r.is_zero() && r.is_numerical());
    let r = ctx.round(&finite(true, -3, 11));
    assert_eq!(shape(&r), (2, true, -10, Integer::from(11 << 7), false));
    assert_eq!(r.m(), Some(Integer::from(-(11 << 7))));
    assert_eq!(r.is_negative(), Some(true));
    assert_eq!(IEEE754::radix(), 2);
}

#[test]
fn rounding_to_eleven_digits() {
    let ctx = half();
    // 2049 needs twelve digits: a tie, to even
    let r = ctx.round(&finite(false, 0, 2049));
    assert_eq!(shape(&r), (2, false, 1, Integer::from(1024), false));
    let mut expected = no_flags();
    expected.inexact = true;
    assert_eq!(*r.flags(), expected);
    // 4095 rounds up to 4096, which carries
    let r = ctx.round(&finite(false, 0, 4095));
    assert_eq!(shape(&r), (2, false, 2, Integer::from(1024), false));
    let mut expected = no_flags();
    expected.inexact = true;
    expected.carry = true;
    assert_eq!(*r.flags(), expected);
    // toward zero it does not
    let r = ctx.with_rounding_mode(RoundingMode::ToZero).round(&finite(false, 0, 4095));
    assert_eq!(shape(&r), (2, false, 1, Integer::from(2047), false));
    let mut expected = no_flags();
    expected.inexact = true;
    assert_eq!(*r.flags(), expected);
}

#[test]
fn subnormal_numbers() {
    let ctx = half();
    // 3 * 2^-25 lies between two subnormal numbers: a tie, to even
    let r = ctx.round(&finite(false, -25, 3));
    assert_eq!(shape(&r), (1, false, 0, Integer::from(2), false));
    let mut expected = no_flags();
    expected.inexact = true;
    expected.tiny_pre = true;
    expected.tiny_post = true;
    expected.underflow_pre = true;
    expected.underflow_post = true;
    assert_eq!(*r.flags(), expected);
    assert_eq!(r.exp(), Some(-24));
    assert_eq!(r.e(), Some(-23));
    assert_eq!(r.c(), Some(Integer::from(2)));
    assert_eq!(r.prec(), Some(2));
    // the largest subnormal number
    let r = ctx.round(&finite(true, -24, 1023));
    assert_eq!(shape(&r), (1, true, 0, Integer::from(1023), false));
    assert!(r.flags().tiny_post && !r.flags().inexact);
    // the smallest normal number
    let r = ctx.round(&finite(false, -14, 1));
    assert_eq!(shape(&r), (2, false, -24, Integer::from(1024), false));
    assert_eq!(*r.flags(), no_flags());
    // far too small: zero with the sign of the number
    let r = ctx.round(&finite(true, -40, 1));
    assert_eq!(shape(&r), (0, true, 0, Integer::from(0), false));
    assert!(r.is_zero());
    assert!(r.flags().inexact && r.flags().tiny_post && r.flags().underflow_post);
    assert_eq!(r.exp(), None);
    assert_eq!(r.c(), None);
    assert_eq!(r.is_negative(), None);
    assert_eq!(r.sign(), Some(true));
    // away from zero it becomes the smallest subnormal number
    let r = ctx.with_rounding_mode(RoundingMode::AwayZero).round(&finite(true, -40, 1));
    assert_eq!(shape(&r), (1, true, 0, Integer::from(1), false));
}

#[test]
fn encodings_of_half_precision() {
    let ctx = half();
    let bits = |v: &RFloat| ctx.round(v).into_bits();
    assert_eq!(bits(&RFloat::zero()), Integer::from(0x0000));
    assert_eq!(bits(&RFloat::Real(true, 0, Integer::from(0))), Integer::from(0x8000));
    assert_eq!(bits(&RFloat::one()), Integer::from(0x3c00));
    assert_eq!(bits(&finite(true, 1, 1)), Integer::from(0xc000));
    assert_eq!(bits(&finite(false, 0, 65504)), Integer::from(0x7bff));
    assert_eq!(bits(&finite(false, -24, 1)), Integer::from(0x0001));
    assert_eq!(bits(&finite(false, -24, 1023)), Integer::from(0x03ff));
    assert_eq!(bits(&finite(false, -14, 1)), Integer::from(0x0400));
    assert_eq!(bits(&finite(true, -2, 1)), Integer::from(0xb400));
    assert_eq!(bits(&RFloat::PosInfinity), Integer::from(0x7c00));
    assert_eq!(bits(&RFloat::NegInfinity), Integer::from(0xfc00));
    assert_eq!(bits(&RFloat::Nan), Integer::from(0x7e00));
}

#[test]
fn decoding_half_precision() {
    let ctx = half();
    let decode = |b: u32| shape(&ctx.bits_to_number(Integer::from(b)));
    assert_eq!(decode(0x0000), (0, false, 0, Integer::from(0), false));
    assert_eq!(decode(0x8000), (0, true, 0, Integer::from(0), false));
    assert_eq!(decode(0x3c00), (2, false, -10, Integer::from(1024), false));
    assert_eq!(decode(0xc000), (2, true, -9, Integer::from(1024), false));
    assert_eq!(decode(0x7bff), (2, false, 5, Integer::from(2047), false));
    assert_eq!(decode(0x0001), (1, false, 0, Integer::from(1), false));
    assert_eq!(decode(0x83ff), (1, true, 0, Integer::from(1023), false));
    assert_eq!(decode(0x7c00), (3, false, 0, Integer::from(0), false));
    assert_eq!(decode(0xfc00), (3, true, 0, Integer::from(0), false));
    assert_eq!(decode(0x7e00), (4, false, 0, Integer::from(0), true));
    assert_eq!(decode(0x7e05), (4, false, 0, Integer::from(5), true));
    assert_eq!(decode(0xfc01), (4, true, 0, Integer::from(1), false));
    assert_eq!(*ctx.bits_to_number(Integer::from(0x7e00)).flags(), no_flags());
}

#[test]
fn every_encoding_of_half_precision_round_trips() {
    let ctx = half();
    for b in 0..(1u32 << 16) {
        let x = ctx.bits_to_number(Integer::from(b));
        assert_eq!(x.into_bits(), Integer::from(b), "{:#06x}", b);
    }
}

#[test]
fn every_encoding_of_the_smallest_format_round_trips() {
    let ctx = IEEE754Context::new(2, 4);
    assert_eq!(ctx.max_m(), 1);
    assert_eq!(ctx.emax(), 1);
    assert_eq!(ctx.expmin(), -1);
    for b in 0..16u32 {
        let x = ctx.bits_to_number(Integer::from(b));
        assert_eq!(x.into_bits(), Integer::from(b));
    }
    // 0 1.1: three halves times two
    let x = ctx.bits_to_number(Integer::from(0b0101));
    assert_eq!(shape(&x), (2, false, 0, Integer::from(3), false));
}

#[test]
fn ieee754_rounding_is_idempotent() {
    let modes = [
        RoundingMode::NearestTiesToEven,
        RoundingMode::ToZero,
        RoundingMode::AwayZero,
        RoundingMode::ToPositive,
        RoundingMode::ToNegative,
        RoundingMode::ToOdd,
    ];
    let ctx = IEEE754Context::new(3, 8);
    for &mode in modes.iter() {
        let ctx = ctx.with_rounding_mode(mode);
        for c in 0..600i64 {
            for exp in [-12isize, -7, -2, 0, 3] {
                for &sign in [false, true].iter() {
                    let v = finite(sign, exp, c);
                    let once = ctx.round(&v);
                    let twice = ctx.round(&once);
                    assert_eq!(shape(&once), shape(&twice), "{:?} {:?}", v, mode);
                }
            }
        }
    }
}

#[test]
fn ieee754_conversion_and_order() {
    let ctx = half();
    let one = ctx.round(&RFloat::one());
    let two = ctx.round(&finite(false, 1, 1));
    let zero = ctx.round(&RFloat::zero());
    let neg_zero = ctx.round(&RFloat::Real(true, 0, Integer::from(0)));
    let nan = ctx.round(&RFloat::Nan);
    let tiny = ctx.round(&finite(false, -24, 3));
    assert!(one < two && two > one && one == one.clone());
    assert!(zero == neg_zero);
    assert!(zero < tiny && tiny < one);
    assert!(nan != nan);
    assert_eq!(one.compare(&two), Some(-1));
    assert_eq!(nan.compare(&one), None);
    assert_eq!(one.to_rfloat(), RFloat::one());
    assert_eq!(RFloat::from(tiny.clone()), finite(false, -24, 3));
    assert!(RFloat::from(neg_zero).is_zero());
    assert!(RFloat::from(nan).is_nar());
    assert!(RFloat::from(ctx.round(&RFloat::NegInfinity)) == RFloat::NegInfinity);
    assert_eq!(*one.ctx(), ctx);
}
