//! Laws of the floating-point formats of fixed precision.
use crate::float::round::FloatContextView;
use crate::number::ExtReal;
use crate::value::lesser;
use vstd::arithmetic::power2::pow2;
use vstd::prelude::*;

verus! {

/// Rounding is idempotent: a rounded number is rounded to itself.
pub proof fn lemma_round_idempotent(cv: FloatContextView, v: ExtReal)
    requires
        cv.prec >= 1,
    ensures
        cv.rounded(cv.rounded(v)) == cv.rounded(v),
{
    crate::rfloat::laws::lemma_round_idempotent(cv.kernel(), v);
}

/// A rounded number is in canonical form, and where it is not zero it has
/// the sign of the number rounded.
pub proof fn lemma_round_canonical(cv: FloatContextView, v: ExtReal)
    ensures
        cv.rounded(v).is_canonical(),
        v.is_nonzero() && cv.rounded(v).is_nonzero() ==> cv.rounded(v).sign() == v.sign(),
{
    crate::rfloat::laws::lemma_round_canonical(cv.kernel(), v);
}

/// Under a mode that rounds to nearest, a rounded number is no farther from
/// the number rounded than half a unit in the last place: with `n` the
/// position `e - prec` of the cut and both numbers written as multiples of
/// `2^k`, where `k` is the lesser of the exponent of the number and
/// `n + 1`, twice their distance is at most `2^(n + 1 - k)`.
pub proof fn lemma_nearest_bound(cv: FloatContextView, v: ExtReal)
    requires
        cv.prec >= 1,
        cv.rm.is_nearest(),
        v.is_nonzero(),
    ensures
        ({
            let n = v.e() - cv.prec;
            let k = lesser(v.exp(), n + 1);
            let d = cv.rounded(v).scaled(k) - v.scaled(k);
            -pow2((n + 1 - k) as nat) <= 2 * d <= pow2((n + 1 - k) as nat)
        }),
{
    crate::rfloat::laws::lemma_nearest_bound(cv.kernel(), v);
}

} // verus!
