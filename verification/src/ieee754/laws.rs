//! Laws of the IEEE 754 formats.
use crate::ieee754::number::IEEE754ValView;
use crate::ieee754::round::{lemma_context_bounds, lemma_decode, IEEE754ContextView};
use crate::math::{
    bitlen, lemma_bitlen_unique, lemma_pow2_zero, lemma_shl_shr, trailing_zeros,
};
use crate::number::ExtReal;
use crate::rfloat::laws::{lemma_round_exact, lemma_rounded_representable};
use crate::value::{lemma_canonical, lesser};
use vstd::arithmetic::power2::{lemma_pow2_pos, lemma_pow2_unfold, pow2};
use vstd::prelude::*;

verus! {

/// Decoding and encoding are inverse on every bit pattern: the value that
/// an encoding stands for is one of the format, and its encoding is the
/// encoding.
pub proof fn lemma_bits_roundtrip(cv: IEEE754ContextView, b: int)
    requires
        cv.wf(),
        0 <= b < pow2(cv.nbits as nat),
    ensures
        cv.decode(b).wf(cv),
        cv.decode(b).bits(cv) == b,
{
    lemma_decode(cv, b);
    lemma_context_bounds(cv);
    let m = cv.max_m() as nat;
    let p = pow2(m) as int;
    let top = pow2((cv.nbits - 1) as nat) as int;
    let rest = b % top;
    let efield = rest / p;
    let mfield = rest % p;
    let val = cv.decode(b);
    lemma_pow2_pos(m);
    lemma_pow2_unfold(m);
    lemma_pow2_pos((m - 1) as nat);
    let half = pow2((m - 1) as nat) as int;
    match val {
        IEEE754ValView::Normal(_, exp, c) => {
            vstd::arithmetic::div_mod::lemma_fundamental_div_mod_converse(c as int, p, 1, mfield);
        },
        IEEE754ValView::Nan(_, quiet, payload) => {
            if quiet {
                vstd::arithmetic::div_mod::lemma_fundamental_div_mod_converse(
                    mfield,
                    half,
                    1,
                    mfield - half,
                );
            } else {
                vstd::arithmetic::div_mod::lemma_small_mod(mfield as nat, half as nat);
            }
        },
        _ => {
            assert(0 * p == 0) by (nonlinear_arith);
        },
    }
    assert(val.magnitude_bits(cv) == rest);
}

/// An odd number with `k` zero digits appended has `k` trailing zeros.
pub proof fn lemma_trailing_zeros_shl(c: nat, k: nat)
    requires
        c % 2 == 1,
    ensures
        trailing_zeros(c * pow2(k)) == k,
        (c * pow2(k)) / pow2(k) == c,
    decreases k,
{
    lemma_shl_shr(c, k);
    if k == 0 {
        lemma_pow2_zero();
        assert(c * 1 == c) by (nonlinear_arith);
    } else {
        let j = (k - 1) as nat;
        lemma_trailing_zeros_shl(c, j);
        lemma_pow2_unfold(k);
        lemma_pow2_pos(j);
        let x = c * pow2(j);
        assert(c * pow2(k) == 2 * x) by (nonlinear_arith)
            requires
                pow2(k) == 2 * pow2(j),
                x == c * pow2(j),
        ;
        assert(x > 0) by (nonlinear_arith)
            requires
                x == c * pow2(j),
                c > 0,
                pow2(j) > 0,
        ;
    }
}

/// A number with as many digits as `2^p - 1` has: `p` ones.
pub proof fn lemma_bitlen_ones(p: nat)
    requires
        p >= 1,
    ensures
        bitlen((pow2(p) - 1) as nat) == p,
        (pow2(p) - 1) % 2 == 1,
{
    lemma_pow2_unfold(p);
    lemma_pow2_pos((p - 1) as nat);
    lemma_bitlen_unique((pow2(p) - 1) as nat, p);
}

/// The parameters of the rounding kernel of a format are those of the
/// format.
pub proof fn lemma_kernel(cv: IEEE754ContextView)
    requires
        cv.wf(),
    ensures
        cv.kernel().wf(),
        cv.kernel().max_p == Some(cv.max_p() as usize),
        cv.kernel().max_p->0 == cv.max_p(),
        cv.kernel().min_n is Some,
        cv.kernel().min_n->0 == cv.expmin() - 1,
        cv.expmin() == cv.emin() - cv.max_p() + 1,
        cv.expmax() == cv.emax() - cv.max_p() + 1,
{
    lemma_context_bounds(cv);
}

/// A number other than zero with no digit below `expmin` and at most the
/// precision of the format is cut by the kernel below its lowest digit, so
/// that it is rounded to its canonical form.
pub proof fn lemma_kernel_exact(cv: IEEE754ContextView, w: ExtReal)
    requires
        cv.wf(),
        w.is_nonzero(),
        w.exp() >= cv.expmin(),
        w.prec() <= cv.max_p(),
    ensures
        cv.kernel().rounded(w) == w.canonical(),
{
    lemma_kernel(cv);
    lemma_round_exact(cv.kernel(), w);
}

/// The largest finite number of a format is rounded to itself.
pub proof fn lemma_largest_fixed(cv: IEEE754ContextView, sign: bool)
    requires
        cv.wf(),
    ensures
        ({
            let largest = IEEE754ValView::Normal(
                sign,
                cv.expmax(),
                (pow2(cv.max_p() as nat) - 1) as nat,
            );
            cv.rounded(largest.value(cv)) == largest
        }),
{
    lemma_kernel(cv);
    let p = cv.max_p() as nat;
    let c = (pow2(p) - 1) as nat;
    let w = ExtReal::Real { sign, exp: cv.expmax(), c };
    lemma_bitlen_ones(p);
    lemma_context_bounds(cv);
    lemma_pow2_pos(p);
    assert(c % 2 == 1);
    assert(w.is_canonical());
    lemma_kernel_exact(cv, w);
    crate::value::lemma_canonical_fixed(w);
    lemma_pow2_zero();
    assert(c * 1 == c) by (nonlinear_arith);
    assert(w.e() == cv.emax());
    assert(cv.encode(w) == IEEE754ValView::Normal(sign, cv.expmax(), c));
}

/// The value that a canonical number of the format is written as is
/// rounded to itself.
pub proof fn lemma_encode_fixed(cv: IEEE754ContextView, r: ExtReal)
    requires
        cv.wf(),
        r.is_nonzero(),
        r.is_canonical(),
        r.prec() <= cv.max_p(),
        r.exp() >= cv.expmin(),
        r.e() <= cv.emax(),
    ensures
        cv.rounded(cv.encode(r).value(cv)) == cv.encode(r),
{
    lemma_kernel(cv);
    let k = if r.e() < cv.emin() {
        (r.exp() - cv.expmin()) as nat
    } else {
        (cv.max_p() - r.prec()) as nat
    };
    let w = cv.encode(r).value(cv);
    lemma_trailing_zeros_shl(r.c(), k);
    crate::math::lemma_bitlen_shl(r.c(), k);
    lemma_pow2_pos(k);
    assert(w.c() == r.c() * pow2(k));
    assert(w.c() > 0) by (nonlinear_arith)
        requires
            w.c() == r.c() * pow2(k),
            r.c() > 0,
            pow2(k) > 0,
    ;
    assert(w.exp() == r.exp() - k);
    assert(w.sign() == r.sign());
    assert(w.canonical() == r);
    lemma_kernel_exact(cv, w);
}

/// A rounded value has the sign of the number rounded, also where it is
/// zero.
pub proof fn lemma_round_sign(cv: IEEE754ContextView, v: ExtReal)
    requires
        cv.wf(),
        v is Real,
    ensures
        cv.rounded(v).sign() == v.sign(),
        cv.rounded(v).value(cv).sign() == v.sign(),
        cv.rounded(v).wf(cv),
{
    lemma_kernel(cv);
    lemma_context_bounds(cv);
    let kernel = cv.kernel();
    let r = kernel.rounded(v);
    if v.is_nonzero() && r.c() != 0 {
        lemma_canonical(kernel.cut(v).rounded(kernel.max_p, kernel.rm));
        lemma_rounded_representable(kernel, v);
        if r.e() <= cv.emax() {
            crate::ieee754::round::lemma_encode(cv, r);
        } else {
            lemma_bitlen_ones(cv.max_p() as nat);
            lemma_pow2_unfold(cv.max_p() as nat);
            lemma_pow2_pos(cv.max_m() as nat);
        }
    }
}

/// Under a mode that rounds to nearest, a rounded value that is finite is
/// no farther from the number rounded than half a unit in the last place
/// that the cut leaves: with `n` the position of the cut and both written
/// as multiples of `2^k`, where `k` is the lesser of the exponent of the
/// number and `n + 1`, twice their distance is at most `2^(n + 1 - k)`.
/// This holds wherever the number is not too large for the format.
pub proof fn lemma_nearest_bound(cv: IEEE754ContextView, v: ExtReal)
    requires
        cv.wf(),
        cv.rm.is_nearest(),
        v.is_nonzero(),
        cv.kernel().rounded(v).is_nonzero() ==> cv.kernel().rounded(v).e() <= cv.emax(),
    ensures
        ({
            let n = cv.kernel().cut_position(v);
            let k = lesser(v.exp(), n + 1);
            let d = cv.rounded(v).value(cv).scaled(k) - v.scaled(k);
            -pow2((n + 1 - k) as nat) <= 2 * d <= pow2((n + 1 - k) as nat)
        }),
{
    lemma_kernel(cv);
    let kernel = cv.kernel();
    let r = kernel.rounded(v);
    let n = kernel.cut_position(v);
    let k = lesser(v.exp(), n + 1);
    let w = cv.rounded(v).value(cv);
    crate::rfloat::laws::lemma_nearest_bound(kernel, v);
    lemma_canonical(kernel.cut(v).rounded(kernel.max_p, kernel.rm));
    if r.c() == 0 {
        crate::value::lemma_scaled_zero(r, k);
        crate::value::lemma_scaled_zero(w, k);
    } else {
        lemma_rounded_representable(kernel, v);
        crate::ieee754::round::lemma_encode(cv, r);
        // the value stands for the rounded number, at any common exponent
        assert(k <= w.exp());
        crate::value::lemma_compare_at(w, r, k);
    }
}

/// Rounding is idempotent: the number that a rounded value stands for is
/// rounded to that value.
pub proof fn lemma_round_idempotent(cv: IEEE754ContextView, v: ExtReal)
    requires
        cv.wf(),
    ensures
        cv.rounded(cv.rounded(v).value(cv)) == cv.rounded(v),
{
    lemma_kernel(cv);
    let kernel = cv.kernel();
    if v.is_nonzero() {
        let r = kernel.rounded(v);
        lemma_canonical(kernel.cut(v).rounded(kernel.max_p, kernel.rm));
        if r.c() != 0 {
            lemma_rounded_representable(kernel, v);
            if r.e() > cv.emax() {
                if !cv.overflows_to_infinity(v.sign()) {
                    lemma_largest_fixed(cv, v.sign());
                }
            } else {
                lemma_encode_fixed(cv, r);
            }
        }
    }
}

} // verus!
