//! Laws of the fixed-point formats.
use crate::fixed::round::{lemma_range, lemma_wrap_in_range, FixedContextView};
use crate::number::ExtReal;
use crate::rfloat::laws::{lemma_round_exact, lemma_rounded_representable};
use crate::value::{lemma_canonical, lemma_canonical_eqv, lemma_compare_at, lesser};
use vstd::prelude::*;

verus! {

/// Numerically equal finite numbers stand in the same order to every
/// finite number.
pub proof fn lemma_order_respects_eqv(a: ExtReal, b: ExtReal, c: ExtReal)
    requires
        a is Real,
        b is Real,
        c is Real,
        a.eqv(b),
    ensures
        a.lt(c) == b.lt(c),
        c.lt(a) == c.lt(b),
        a.eqv(c) == b.eqv(c),
        a.le(c) == b.le(c),
        c.le(a) == c.le(b),
{
    let j = lesser(a.exp(), lesser(b.exp(), c.exp()));
    lemma_compare_at(a, b, j);
    lemma_compare_at(a, c, j);
    lemma_compare_at(b, c, j);
    lemma_compare_at(c, a, j);
    lemma_compare_at(c, b, j);
}

/// A number of the format is rounded to itself, in canonical form.
pub proof fn lemma_round_fixed_point(cv: FixedContextView, y: ExtReal)
    requires
        cv.wf(),
        y is Real,
        y.c() == 0 || (y.exp() >= cv.scale && cv.in_range(y)),
    ensures
        cv.rounded(y) == y.canonical(),
        cv.rounded(y).eqv(y),
{
    lemma_canonical_eqv(y);
    lemma_canonical(y);
    if y.c() != 0 {
        lemma_round_exact(cv.kernel(), y);
        let r = y.canonical();
        lemma_order_respects_eqv(r, y, cv.maxval());
        lemma_order_respects_eqv(r, y, cv.minval());
        lemma_range(cv);
    }
}

/// A rounded number has no digit below `scale` and lies in the range of
/// the format.
pub proof fn lemma_rounded_in_range(cv: FixedContextView, v: ExtReal)
    requires
        cv.wf(),
    ensures
        cv.rounded(v) is Real,
        cv.rounded(v).c() == 0 || cv.rounded(v).exp() >= cv.scale,
        cv.in_range(cv.rounded(v)),
{
    lemma_range(cv);
    match v {
        ExtReal::Real { c, .. } => {
            let r = cv.kernel().rounded(v);
            if c != 0 {
                lemma_canonical(cv.kernel().cut(v).rounded(None, cv.rm));
                if r.c() != 0 {
                    lemma_rounded_representable(cv.kernel(), v);
                    if !cv.in_range(r) {
                        lemma_wrap_in_range(cv, r);
                    }
                }
            }
        },
        _ => {},
    }
}

/// A rounded number other than zero has the sign of the number rounded,
/// unless it was wrapped.
pub proof fn lemma_round_sign(cv: FixedContextView, v: ExtReal)
    requires
        cv.wf(),
        v.is_nonzero(),
        cv.rounded(v).is_nonzero(),
        cv.overflow is Saturate || cv.in_range(cv.kernel().rounded(v)),
    ensures
        cv.rounded(v).sign() == v.sign(),
{
    let r = cv.kernel().rounded(v);
    let e = cv.scale as int;
    lemma_canonical(cv.kernel().cut(v).rounded(None, cv.rm));
    if r.c() != 0 {
        lemma_rounded_representable(cv.kernel(), v);
        if !cv.in_range(r) {
            lemma_range(cv);
            crate::fixed::round::lemma_in_range(cv, r);
            crate::value::lemma_scaled_sign(r, e);
            vstd::arithmetic::power2::lemma_pow2_pos(cv.nbits as nat);
            vstd::arithmetic::power2::lemma_pow2_pos((cv.nbits - 1) as nat);
        }
    }
}

/// Under a mode that rounds to nearest, a rounded number that was not
/// wrapped or clamped is no farther from the number rounded than half the
/// quantum: with both written as multiples of `2^k`, where `k` is the
/// lesser of the exponent of the number and `scale`, twice their distance
/// is at most `2^(scale - k)`.
pub proof fn lemma_nearest_bound(cv: FixedContextView, v: ExtReal)
    requires
        cv.wf(),
        cv.rm.is_nearest(),
        v.is_nonzero(),
        cv.kernel().rounded(v).c() == 0 || cv.in_range(cv.kernel().rounded(v)),
    ensures
        ({
            let k = lesser(v.exp(), cv.scale as int);
            let d = cv.rounded(v).scaled(k) - v.scaled(k);
            -vstd::arithmetic::power2::pow2((cv.scale - k) as nat) <= 2 * d
                <= vstd::arithmetic::power2::pow2((cv.scale - k) as nat)
        }),
{
    crate::rfloat::laws::lemma_nearest_bound(cv.kernel(), v);
}

/// Rounding is idempotent: a rounded number is rounded to a number of the
/// same value.
pub proof fn lemma_round_idempotent(cv: FixedContextView, v: ExtReal)
    requires
        cv.wf(),
    ensures
        cv.rounded(cv.rounded(v)).eqv(cv.rounded(v)),
{
    lemma_rounded_in_range(cv, v);
    lemma_round_fixed_point(cv, cv.rounded(v));
}

} // verus!
