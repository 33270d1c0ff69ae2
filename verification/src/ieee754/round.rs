use crate::ieee754::number::{Exceptions, IEEE754Val, IEEE754ValView, IEEE754};
use crate::integer;
use crate::integer::int_of;
use crate::math::{
    lemma_bit_and_mask, lemma_bit_or_disjoint, lemma_bitlen_bounds, lemma_bitlen_le,
    lemma_bitlen_shl, lemma_pow2_monotone, lemma_pow2_zero,
};
use crate::number::{ExtReal, Real};
use crate::rfloat::laws::{lemma_cut_fits_precision, lemma_rounded_representable};
use crate::rfloat::round::{Context, ContextView};
use crate::rfloat::RFloat;
use crate::round::{RoundingDirection, RoundingMode};
use crate::split::Split;
use crate::util::{bitmask, power_of_two, shl_by, shr_by};
use rug::Integer;
use vstd::arithmetic::power2::{lemma_pow2_pos, lemma_pow2_unfold, pow2};
use vstd::prelude::*;

verus! {

/// What an [`IEEE754Context`] holds, and the parameters derived from it.
pub ghost struct IEEE754ContextView {
    /// The width of the exponent field.
    pub es: usize,
    /// The width of the whole encoding.
    pub nbits: usize,
    /// The rounding mode.
    pub rm: RoundingMode,
}

impl IEEE754ContextView {
    /// Whether the format exists and its exponents fit the machine
    /// integers: at least two exponent bits, at least one bit of trailing
    /// significand, and `2^es + nbits` within `isize`.
    pub open spec fn wf(self) -> bool {
        &&& self.es >= 2
        &&& self.nbits >= self.es + 2
        &&& pow2(self.es as nat) + self.nbits <= isize::MAX
    }

    /// The width of the trailing significand.
    pub open spec fn max_m(self) -> int {
        self.nbits - self.es - 1
    }

    /// The precision: the trailing significand and the implicit digit.
    pub open spec fn max_p(self) -> int {
        self.nbits - self.es
    }

    /// The largest position of a leading digit.
    pub open spec fn emax(self) -> int {
        pow2((self.es - 1) as nat) - 1
    }

    /// The smallest position of the leading digit of a normal number.
    pub open spec fn emin(self) -> int {
        1 - self.emax()
    }

    /// The largest exponent of a significand of full precision.
    pub open spec fn expmax(self) -> int {
        self.emax() - self.max_m()
    }

    /// The smallest exponent of a significand: that of the subnormal
    /// numbers.
    pub open spec fn expmin(self) -> int {
        self.emin() - self.max_m()
    }

    /// The context of the rounding kernel that rounds for this format: the
    /// precision of the format, and no digit below `expmin`.
    pub open spec fn kernel(self) -> ContextView {
        ContextView {
            max_p: Some(self.max_p() as usize),
            min_n: Some((self.expmin() - 1) as isize),
            rm: self.rm,
        }
    }

    /// Whether a number of the given sign that is too large for the format
    /// is rounded to infinity; otherwise it is rounded to the largest
    /// finite number.
    pub open spec fn overflows_to_infinity(self, sign: bool) -> bool {
        self.rm.is_nearest() || self.rm.direction(sign) == RoundingDirection::AwayZero
    }

    /// What a number of the given sign that is too large for the format is
    /// rounded to.
    pub open spec fn overflow(self, sign: bool) -> IEEE754ValView {
        if self.overflows_to_infinity(sign) {
            if sign {
                IEEE754ValView::NegInfinity
            } else {
                IEEE754ValView::PosInfinity
            }
        } else {
            IEEE754ValView::Normal(sign, self.expmax(), (pow2(self.max_p() as nat) - 1) as nat)
        }
    }

    /// A finite number other than zero whose digits fit the format, written
    /// as the format writes it: as a subnormal number where its leading
    /// digit is below `emin`, else with full precision.
    pub open spec fn encode(self, r: ExtReal) -> IEEE754ValView {
        if r.e() < self.emin() {
            IEEE754ValView::Subnormal(r.sign(), r.c() * pow2((r.exp() - self.expmin()) as nat))
        } else {
            IEEE754ValView::Normal(
                r.sign(),
                r.e() - self.max_m(),
                r.c() * pow2((self.max_p() - r.prec()) as nat),
            )
        }
    }

    /// The value that the encoding `b`, a number below `2^nbits`, stands
    /// for: the top digit is the sign, the next `es` digits are the
    /// exponent field, the rest is the trailing significand. An exponent
    /// field of zeros holds a zero or a subnormal number, one of ones an
    /// infinity or what is not a number, any other a normal number, whose
    /// leading digit is left out of the encoding.
    pub open spec fn decode(self, b: int) -> IEEE754ValView {
        let m = self.max_m() as nat;
        let top = pow2((self.nbits - 1) as nat) as int;
        let sign = b >= top;
        let rest = b % top;
        let efield = rest / (pow2(m) as int);
        let mfield = (rest % (pow2(m) as int)) as nat;
        if efield == 0 {
            if mfield == 0 {
                if sign {
                    IEEE754ValView::NegZero
                } else {
                    IEEE754ValView::PosZero
                }
            } else {
                IEEE754ValView::Subnormal(sign, mfield)
            }
        } else if efield == pow2(self.es as nat) - 1 {
            if mfield == 0 {
                if sign {
                    IEEE754ValView::NegInfinity
                } else {
                    IEEE754ValView::PosInfinity
                }
            } else {
                IEEE754ValView::Nan(
                    sign,
                    mfield >= pow2((m - 1) as nat),
                    mfield % pow2((m - 1) as nat),
                )
            }
        } else {
            IEEE754ValView::Normal(sign, efield - self.emax() - self.max_m(), pow2(m) + mfield)
        }
    }

    /// The value that `v` is rounded to.
    pub open spec fn rounded(self, v: ExtReal) -> IEEE754ValView {
        match v {
            ExtReal::Nan => IEEE754ValView::Nan(false, true, 0),
            ExtReal::PosInfinity => IEEE754ValView::PosInfinity,
            ExtReal::NegInfinity => IEEE754ValView::NegInfinity,
            ExtReal::Real { sign, .. } => {
                let r = self.kernel().rounded(v);
                if r.c() == 0 {
                    if sign {
                        IEEE754ValView::NegZero
                    } else {
                        IEEE754ValView::PosZero
                    }
                } else if r.e() > self.emax() {
                    self.overflow(sign)
                } else {
                    self.encode(r)
                }
            },
        }
    }

    /// The flags that rounding `v` raises; `divzero` says whether an
    /// infinite `v` is the quotient of a finite number by zero.
    pub open spec fn flags(self, v: ExtReal, divzero: bool) -> Exceptions {
        match v {
            ExtReal::Nan => Exceptions { invalid: true, ..Exceptions::none() },
            ExtReal::PosInfinity => Exceptions { divzero, ..Exceptions::none() },
            ExtReal::NegInfinity => Exceptions { divzero, ..Exceptions::none() },
            ExtReal::Real { c, .. } => {
                let r = self.kernel().rounded(v);
                let split = self.kernel().cut(v);
                let inexact = !split.is_exact();
                if c == 0 {
                    Exceptions::none()
                } else if r.c() == 0 || r.e() < self.emin() {
                    let tiny_pre = v.e() < self.emin();
                    Exceptions {
                        inexact,
                        tiny_pre,
                        tiny_post: true,
                        underflow_pre: tiny_pre && inexact,
                        underflow_post: inexact,
                        ..Exceptions::none()
                    }
                } else if r.e() > self.emax() {
                    Exceptions { overflow: true, inexact: true, ..Exceptions::none() }
                } else {
                    Exceptions {
                        inexact,
                        carry: split.carries(self.kernel().max_p, self.rm),
                        ..Exceptions::none()
                    }
                }
            },
        }
    }
}

/// Rounding context of [`IEEE754`](crate::ieee754::IEEE754): binary
/// floating-point numbers with `es` bits of exponent in an encoding of
/// `nbits` bits.
///
/// The default rounding mode is [`RoundingMode::NearestTiesToEven`].
#[derive(Clone, Copy, Debug, PartialEq, Eq, Structural)]
pub struct IEEE754Context {
    es: usize,
    nbits: usize,
    rm: RoundingMode,
}

impl View for IEEE754Context {
    type V = IEEE754ContextView;

    closed spec fn view(&self) -> IEEE754ContextView {
        IEEE754ContextView { es: self.es, nbits: self.nbits, rm: self.rm }
    }
}

/// The bounds that a well-formed format puts on its parameters.
pub proof fn lemma_context_bounds(cv: IEEE754ContextView)
    requires
        cv.wf(),
    ensures
        cv.max_m() >= 1,
        cv.max_p() >= 2,
        1 <= cv.emax() < isize::MAX,
        2 * (cv.emax() + 1) == pow2(cv.es as nat),
        cv.emin() <= 0,
        cv.expmin() < cv.emin() <= cv.emax(),
        cv.expmin() <= cv.expmax(),
        isize::MIN < cv.expmin() - 1,
{
    lemma_pow2_unfold(cv.es as nat);
    lemma_pow2_monotone(1, (cv.es - 1) as nat);
    lemma_pow2_zero();
}

impl IEEE754Context {
    /// The format with `es` bits of exponent in `nbits` bits in all. There
    /// must be at least two bits of exponent and one of trailing
    /// significand.
    pub fn new(es: usize, nbits: usize) -> (r: Self)
        requires
            es >= 2,
            nbits >= es + 2,
            pow2(es as nat) + nbits <= isize::MAX,
        ensures
            r@ == (IEEE754ContextView { es, nbits, rm: RoundingMode::NearestTiesToEven }),
            r@.wf(),
    {
        Self { es, nbits, rm: RoundingMode::NearestTiesToEven }
    }

    /// Sets the rounding mode.
    pub fn with_rounding_mode(self, rm: RoundingMode) -> (r: Self)
        ensures
            r@ == (IEEE754ContextView { rm, ..self@ }),
    {
        Self { es: self.es, nbits: self.nbits, rm }
    }

    /// The width of the exponent field.
    pub fn es(&self) -> (r: usize)
        ensures
            r == self@.es,
    {
        self.es
    }

    /// The width of the whole encoding.
    pub fn nbits(&self) -> (r: usize)
        ensures
            r == self@.nbits,
    {
        self.nbits
    }

    /// The rounding mode.
    pub fn rm(&self) -> (r: RoundingMode)
        ensures
            r == self@.rm,
    {
        self.rm
    }

    /// The width of the trailing significand.
    pub fn max_m(&self) -> (r: usize)
        requires
            self@.wf(),
        ensures
            r == self@.max_m(),
    {
        self.nbits - self.es - 1
    }

    /// The precision: the trailing significand and the implicit digit.
    pub fn max_p(&self) -> (r: usize)
        requires
            self@.wf(),
        ensures
            r == self@.max_p(),
    {
        self.nbits - self.es
    }

    /// The largest position of a leading digit: `2^(es-1) - 1`.
    pub fn emax(&self) -> (r: isize)
        requires
            self@.wf(),
        ensures
            r == self@.emax(),
    {
        let mut power: isize = 1;
        let mut i: usize = 0;
        proof {
            lemma_pow2_zero();
        }
        while i < self.es - 1
            invariant
                self@.wf(),
                i <= self.es - 1,
                power == pow2(i as nat),
            decreases self.es - 1 - i,
        {
            proof {
                lemma_pow2_unfold((i + 1) as nat);
                lemma_pow2_monotone((i + 1) as nat, self.es as nat);
            }
            power = power * 2;
            i = i + 1;
        }
        power - 1
    }

    /// The smallest position of the leading digit of a normal number.
    pub fn emin(&self) -> (r: isize)
        requires
            self@.wf(),
        ensures
            r == self@.emin(),
    {
        proof {
            lemma_context_bounds(self@);
        }
        1 - self.emax()
    }

    /// The largest exponent of a significand of full precision.
    pub fn expmax(&self) -> (r: isize)
        requires
            self@.wf(),
        ensures
            r == self@.expmax(),
    {
        proof {
            lemma_context_bounds(self@);
        }
        self.emax() - self.max_m() as isize
    }

    /// The smallest exponent of a significand.
    pub fn expmin(&self) -> (r: isize)
        requires
            self@.wf(),
        ensures
            r == self@.expmin(),
    {
        proof {
            lemma_context_bounds(self@);
        }
        self.emin() - self.max_m() as isize
    }
}

/// The fields of an encoding fit their widths, so that what it stands for
/// is a value of the format.
pub proof fn lemma_decode(cv: IEEE754ContextView, b: int)
    requires
        cv.wf(),
        0 <= b < pow2(cv.nbits as nat),
    ensures
        ({
            let m = cv.max_m() as nat;
            let top = pow2((cv.nbits - 1) as nat) as int;
            let rest = b % top;
            let efield = rest / (pow2(m) as int);
            let mfield = rest % (pow2(m) as int);
            &&& top > 0
            &&& 0 <= rest < top
            &&& b == rest + if b >= top {
                top
            } else {
                0
            }
            &&& 0 <= efield < pow2(cv.es as nat)
            &&& 0 <= mfield < pow2(m)
            &&& rest == efield * pow2(m) + mfield
        }),
        cv.decode(b).wf(cv),
{
    let m = cv.max_m() as nat;
    let es = cv.es as nat;
    let top = pow2((cv.nbits - 1) as nat) as int;
    lemma_context_bounds(cv);
    lemma_pow2_unfold(cv.nbits as nat);
    lemma_pow2_pos((cv.nbits - 1) as nat);
    lemma_pow2_pos(m);
    lemma_pow2_unfold(m);
    lemma_pow2_unfold(m + 1);
    lemma_pow2_pos((m - 1) as nat);
    crate::math::lemma_pow2_split(es, m);
    let rest = b % top;
    if b >= top {
        vstd::arithmetic::div_mod::lemma_fundamental_div_mod_converse(b, top, 1, b - top);
    } else {
        vstd::arithmetic::div_mod::lemma_small_mod(b as nat, top as nat);
    }
    crate::math::lemma_cut(rest as nat, m);
    let p = pow2(m) as int;
    let q = pow2(es) as int;
    let efield = rest / p;
    let mfield = rest % p;
    vstd::arithmetic::div_mod::lemma_div_pos_is_pos(rest, p);
    assert(efield < q) by (nonlinear_arith)
        requires
            rest == efield * p + mfield,
            0 <= mfield,
            rest < q * p,
            p > 0,
    ;
    vstd::arithmetic::div_mod::lemma_mod_bound(mfield, pow2((m - 1) as nat) as int);
    if mfield < pow2((m - 1) as nat) {
        vstd::arithmetic::div_mod::lemma_small_mod(mfield as nat, pow2((m - 1) as nat));
    }
    assert(cv.max_p() as nat == m + 1);
}

/// The value that a number of the format is written as stands for the
/// number, and is one of the format.
pub proof fn lemma_encode(cv: IEEE754ContextView, r: ExtReal)
    requires
        cv.wf(),
        r.is_nonzero(),
        r.prec() <= cv.max_p(),
        r.exp() >= cv.expmin(),
        r.e() <= cv.emax(),
    ensures
        cv.encode(r).wf(cv),
        cv.encode(r).value(cv).eqv(r),
        cv.encode(r).sign() == r.sign(),
{
    lemma_context_bounds(cv);
    let c = r.c();
    let v = cv.encode(r).value(cv);
    let k = if r.e() < cv.emin() {
        (r.exp() - cv.expmin()) as nat
    } else {
        (cv.max_p() - r.prec()) as nat
    };
    lemma_bitlen_shl(c, k);
    lemma_bitlen_bounds(c * pow2(k));
    lemma_bitlen_le(c * pow2(k), cv.max_m() as nat);
    lemma_pow2_pos(k);
    assert(c * pow2(k) > 0) by (nonlinear_arith)
        requires
            c > 0,
            pow2(k) > 0,
    ;
    // both are the same multiple of two to the exponent of the value
    assert(v.exp() == r.exp() - k);
    crate::value::lemma_scaled_magnitude(v, v.exp());
    crate::value::lemma_scaled_magnitude(r, v.exp());
    crate::value::lemma_compare_at(v, r, v.exp());
}

impl IEEE754Context {
    /// The largest finite number of the format, with the given sign.
    fn largest(&self, sign: bool) -> (r: IEEE754Val)
        requires
            self@.wf(),
        ensures
            r@ == IEEE754ValView::Normal(
                sign,
                self@.expmax(),
                (pow2(self@.max_p() as nat) - 1) as nat,
            ),
            r@.wf(self@),
    {
        proof {
            lemma_context_bounds(self@);
            lemma_pow2_unfold(self@.max_p() as nat);
            lemma_pow2_pos(self@.max_m() as nat);
        }
        IEEE754Val::Normal(sign, self.expmax(), bitmask(self.max_p()))
    }

    /// Writes a rounded number, finite and other than zero, as the format
    /// writes it, or as what the format makes of a number too large for it.
    fn finish(&self, sign: bool, rounded: &RFloat) -> (r: IEEE754Val)
        requires
            self@.wf(),
            rounded@.is_nonzero(),
            rounded@.sign() == sign,
            rounded@.positions_fit(),
            rounded@.prec() <= self@.max_p(),
            rounded@.exp() >= self@.expmin(),
        ensures
            r@ == if rounded@.e() > self@.emax() {
                self@.overflow(sign)
            } else {
                self@.encode(rounded@)
            },
            r@.wf(self@),
    {
        proof {
            lemma_context_bounds(self@);
        }
        let e = rounded.e().unwrap();
        let exp = rounded.exp().unwrap();
        if e > self.emax() {
            let (nearest, direction) = self.rm.to_direction(sign);
            let to_infinity = nearest || match direction {
                RoundingDirection::AwayZero => true,
                _ => false,
            };
            if to_infinity {
                if sign {
                    IEEE754Val::NegInfinity
                } else {
                    IEEE754Val::PosInfinity
                }
            } else {
                self.largest(sign)
            }
        } else {
            proof {
                lemma_encode(self@, rounded@);
            }
            let c = rounded.c().unwrap();
            if e < self.emin() {
                let shift = exp as i128 - self.expmin() as i128;
                IEEE754Val::Subnormal(sign, shl_by(c, shift as u64))
            } else {
                let prec = rounded.prec().unwrap();
                let shift = self.max_p() - prec;
                IEEE754Val::Normal(sign, e - self.max_m() as isize, shl_by(c, shift as u64))
            }
        }
    }

    /// The number that an encoding stands for: the inverse of
    /// [`IEEE754::into_bits`]. The encoding is a number below `2^nbits`.
    pub fn bits_to_number(&self, b: Integer) -> (r: IEEE754)
        requires
            self@.wf(),
            0 <= int_of(b) < pow2(self@.nbits as nat),
        ensures
            r@.num == self@.decode(int_of(b)),
            r@.flags == Exceptions::none(),
            r@.ctx == *self,
            r@.wf(),
    {
        let ghost cv = self@;
        let ghost n = int_of(b);
        let es = self.es;
        let m = self.max_m();
        proof {
            lemma_decode(cv, n);
            lemma_context_bounds(cv);
            lemma_bit_and_mask(n as nat, (self.nbits - 1) as nat);
            lemma_pow2_pos((self.nbits - 1) as nat);
            lemma_pow2_pos(m as nat);
            lemma_pow2_pos((m - 1) as nat);
        }
        let top = power_of_two((self.nbits - 1) as u64);
        let sign = !integer::less(&b, &top);
        let rest = integer::bitand(b, bitmask(self.nbits - 1));
        let ghost rest_n = int_of(rest) as nat;
        proof {
            lemma_bit_and_mask(rest_n, m as nat);
            vstd::arithmetic::div_mod::lemma_div_pos_is_pos(rest_n as int, pow2(m as nat) as int);
        }
        let efield = shr_by(integer::copy(&rest), m as u64);
        let mfield = integer::bitand(rest, bitmask(m));
        let num = if integer::is_zero(&efield) {
            if integer::is_zero(&mfield) {
                if sign {
                    IEEE754Val::NegZero
                } else {
                    IEEE754Val::PosZero
                }
            } else {
                IEEE754Val::Subnormal(sign, mfield)
            }
        } else if integer::equal(&efield, &bitmask(es)) {
            if integer::is_zero(&mfield) {
                if sign {
                    IEEE754Val::NegInfinity
                } else {
                    IEEE754Val::PosInfinity
                }
            } else {
                let half = power_of_two((m - 1) as u64);
                let quiet = !integer::less(&mfield, &half);
                proof {
                    lemma_bit_and_mask(int_of(mfield) as nat, (m - 1) as nat);
                }
                let payload = integer::bitand(mfield, bitmask(m - 1));
                IEEE754Val::Nan(sign, quiet, payload)
            }
        } else {
            let biased = integer::to_isize(&efield).unwrap();
            let exp = biased - self.emax() - m as isize;
            let hidden = power_of_two(m as u64);
            proof {
                vstd::arithmetic::div_mod::lemma_mod_self_0(int_of(hidden));
                lemma_bit_or_disjoint(int_of(mfield) as nat, int_of(hidden) as nat, m as nat);
            }
            IEEE754Val::Normal(sign, exp, integer::bitor(mfield, hidden))
        };
        IEEE754::new(num, Exceptions::new(), *self)
    }

    /// Rounds a number to this format.
    pub fn round<T: Real>(&self, val: &T) -> (r: IEEE754)
        requires
            self@.wf(),
            self@.kernel().fits(val.value()),
        ensures
            r@.num == self@.rounded(val.value()),
            r@.flags == self@.flags(val.value(), false),
            r@.ctx == *self,
            r@.wf(),
    {
        self.round_signalled(val, false)
    }

    /// Rounds a number to this format. `divzero` reports that a number that
    /// is infinite is the quotient of a finite number by zero, which raises
    /// the flag of that name.
    pub fn round_signalled<T: Real>(&self, val: &T, divzero: bool) -> (r: IEEE754)
        requires
            self@.wf(),
            self@.kernel().fits(val.value()),
        ensures
            r@.num == self@.rounded(val.value()),
            r@.flags == self@.flags(val.value(), divzero),
            r@.ctx == *self,
            r@.wf(),
    {
        proof {
            lemma_context_bounds(self@);
            lemma_pow2_pos((self@.max_m() - 1) as nat);
        }
        if val.is_zero() {
            let num = match val.sign() {
                Some(true) => IEEE754Val::NegZero,
                _ => IEEE754Val::PosZero,
            };
            IEEE754::new(num, Exceptions::new(), *self)
        } else if val.is_infinite() {
            let num = if val.is_negative().unwrap() {
                IEEE754Val::NegInfinity
            } else {
                IEEE754Val::PosInfinity
            };
            let mut flags = Exceptions::new();
            flags.divzero = divzero;
            IEEE754::new(num, flags, *self)
        } else if val.is_nar() {
            let mut flags = Exceptions::new();
            flags.invalid = true;
            IEEE754::new(IEEE754Val::Nan(false, true, integer::zero()), flags, *self)
        } else {
            let ghost v = val.value();
            let sign = val.sign().unwrap();
            let tiny_pre = val.e().unwrap() < self.emin();

            // step 1: rounding parameters of a float with subnormal numbers
            let kernel = Context::new().with_max_precision(self.max_p()).with_min_n(
                self.expmin() - 1,
            ).with_rounding_mode(self.rm);
            let (p, n) = kernel.round_params(val);

            // step 2: split the significand at binary digit `n`
            proof {
                lemma_cut_fits_precision(self@.kernel(), v);
            }
            let split = Split::new(val, p, n);

            // step 3: the flags of the kernel, then the rounded number
            let inexact = !split.is_exact();
            let carry = Context::round_carry(&split, p, self.rm);
            let rounded = Context::round_finalize(split, p, self.rm);

            // step 4: tiny, too large, or a number of the format
            let mut flags = Exceptions::new();
            flags.inexact = inexact;
            if rounded.is_zero() {
                flags.tiny_pre = tiny_pre;
                flags.tiny_post = true;
                flags.underflow_pre = tiny_pre && inexact;
                flags.underflow_post = inexact;
                let num = if sign {
                    IEEE754Val::NegZero
                } else {
                    IEEE754Val::PosZero
                };
                IEEE754::new(num, flags, *self)
            } else {
                proof {
                    lemma_rounded_representable(self@.kernel(), v);
                }
                let e = rounded.e().unwrap();
                let num = self.finish(sign, &rounded);
                if e > self.emax() {
                    flags.overflow = true;
                    flags.inexact = true;
                } else if e < self.emin() {
                    flags.tiny_pre = tiny_pre;
                    flags.tiny_post = true;
                    flags.underflow_pre = tiny_pre && inexact;
                    flags.underflow_post = inexact;
                } else {
                    flags.carry = carry;
                }
                IEEE754::new(num, flags, *self)
            }
        }
    }
}

} // verus!
