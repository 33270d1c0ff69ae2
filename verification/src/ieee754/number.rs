use crate::ieee754::round::{lemma_context_bounds, IEEE754Context, IEEE754ContextView};
use crate::integer;
use crate::integer::int_of;
use crate::math::{lemma_bit_and_mask, lemma_bit_or_disjoint, lemma_pow2_split, lemma_shl_shr};
use crate::number::{ExtReal, Real};
use crate::rfloat::RFloat;
use crate::util::{bitmask, power_of_two, shl_by};
use rug::Integer;
use vstd::arithmetic::power2::{lemma_pow2_pos, lemma_pow2_unfold, pow2};
use vstd::math::abs;
use vstd::prelude::*;

verus! {

/// Exception flags that signal properties of a rounded result.
///
/// The five exceptions of the IEEE 754 standard:
///
/// - _invalid operation_: no useful definable result;
/// - _division by zero_: an infinite result for finite arguments;
/// - _overflow_: the result exceeded in magnitude what would have been the
///   rounded result had the exponent range been unbounded;
/// - _underflow_: a tiny result that is also inexact, with tininess
///   detected before rounding (`underflow_pre`) or after rounding
///   (`underflow_post`);
/// - _inexact_: the result would be different had both the exponent range
///   and the precision been unbounded.
///
/// And four more:
///
/// - _carry_: the exponent of the rounded result, in the form
///   `(-1)^s * c * 2^exp`, is one more than that of the truncated result;
///   not raised where the result is subnormal;
/// - _denorm_: an argument of an operation was subnormal;
/// - _tiny_pre_, _tiny_post_: as the two underflow flags, but raised
///   whether or not the result is inexact.
#[derive(Clone, Copy, Debug, PartialEq, Eq, Structural)]
pub struct Exceptions {
    // defined in the IEEE 754 standard
    pub invalid: bool,
    pub divzero: bool,
    pub overflow: bool,
    pub underflow_pre: bool,
    pub underflow_post: bool,
    pub inexact: bool,
    // non-standard flags
    pub carry: bool,
    pub denorm: bool,
    pub tiny_pre: bool,
    pub tiny_post: bool,
}

impl Exceptions {
    /// The set of flags with none raised.
    pub open spec fn none() -> Exceptions {
        Exceptions {
            invalid: false,
            divzero: false,
            overflow: false,
            underflow_pre: false,
            underflow_post: false,
            inexact: false,
            carry: false,
            denorm: false,
            tiny_pre: false,
            tiny_post: false,
        }
    }

    /// A set of flags, none of them raised.
    pub fn new() -> (r: Self)
        ensures
            r == Exceptions::none(),
    {
        Self {
            invalid: false,
            divzero: false,
            overflow: false,
            underflow_pre: false,
            underflow_post: false,
            inexact: false,
            carry: false,
            denorm: false,
            tiny_pre: false,
            tiny_post: false,
        }
    }
}

impl Default for Exceptions {
    fn default() -> (r: Self)
        ensures
            r == Exceptions::none(),
    {
        Self::new()
    }
}

/// What an IEEE 754 encoding holds, seen as an enumeration.
#[derive(Debug)]
pub enum IEEE754Val {
    /// Positive zero.
    PosZero,
    /// Negative zero.
    NegZero,
    /// A subnormal number: `Subnormal(s, c)` is `(-1)^s * c * 2^expmin`,
    /// where `c` has at most `nbits - es - 1` digits.
    Subnormal(bool, Integer),
    /// A normal number: `Normal(s, exp, c)` is `(-1)^s * c * 2^exp`, where
    /// `exp` is between `expmin` and `expmax` and `c` has exactly
    /// `nbits - es` digits.
    Normal(bool, isize, Integer),
    /// Positive infinity.
    PosInfinity,
    /// Negative infinity.
    NegInfinity,
    /// Not a number: `Nan(s, quiet, payload)` with sign bit, quiet bit and
    /// payload. Either `quiet` is set or `payload` is not zero.
    Nan(bool, bool, Integer),
}

/// What an [`IEEE754Val`] holds, as mathematics sees it.
pub ghost enum IEEE754ValView {
    PosZero,
    NegZero,
    Subnormal(bool, nat),
    Normal(bool, int, nat),
    PosInfinity,
    NegInfinity,
    Nan(bool, bool, nat),
}

impl View for IEEE754Val {
    type V = IEEE754ValView;

    open spec fn view(&self) -> IEEE754ValView {
        match *self {
            IEEE754Val::PosZero => IEEE754ValView::PosZero,
            IEEE754Val::NegZero => IEEE754ValView::NegZero,
            IEEE754Val::Subnormal(s, c) => IEEE754ValView::Subnormal(s, abs(int_of(c))),
            IEEE754Val::Normal(s, exp, c) => IEEE754ValView::Normal(s, exp as int, abs(int_of(c))),
            IEEE754Val::PosInfinity => IEEE754ValView::PosInfinity,
            IEEE754Val::NegInfinity => IEEE754ValView::NegInfinity,
            IEEE754Val::Nan(s, q, payload) => IEEE754ValView::Nan(s, q, abs(int_of(payload))),
        }
    }
}

impl Clone for IEEE754Val {
    fn clone(&self) -> (r: Self)
        ensures
            r@ == self@,
    {
        match self {
            IEEE754Val::PosZero => IEEE754Val::PosZero,
            IEEE754Val::NegZero => IEEE754Val::NegZero,
            IEEE754Val::Subnormal(s, c) => IEEE754Val::Subnormal(*s, integer::copy(c)),
            IEEE754Val::Normal(s, exp, c) => IEEE754Val::Normal(*s, *exp, integer::copy(c)),
            IEEE754Val::PosInfinity => IEEE754Val::PosInfinity,
            IEEE754Val::NegInfinity => IEEE754Val::NegInfinity,
            IEEE754Val::Nan(s, q, payload) => IEEE754Val::Nan(*s, *q, integer::copy(payload)),
        }
    }
}

impl IEEE754ValView {
    /// The sign bit.
    pub open spec fn sign(self) -> bool {
        match self {
            IEEE754ValView::PosZero => false,
            IEEE754ValView::NegZero => true,
            IEEE754ValView::Subnormal(s, _) => s,
            IEEE754ValView::Normal(s, _, _) => s,
            IEEE754ValView::PosInfinity => false,
            IEEE754ValView::NegInfinity => true,
            IEEE754ValView::Nan(s, _, _) => s,
        }
    }

    /// Whether the value is one of the format `cv`: a subnormal
    /// significand is not zero and fits the trailing significand, a normal
    /// significand has exactly the precision of the format and its exponent
    /// lies in the range of the format, the payload of what is not a number
    /// fits below the quiet bit, and one of the two is set.
    pub open spec fn wf(self, cv: IEEE754ContextView) -> bool {
        match self {
            IEEE754ValView::Subnormal(_, c) => 0 < c < pow2(cv.max_m() as nat),
            IEEE754ValView::Normal(_, exp, c) => {
                &&& cv.expmin() <= exp <= cv.expmax()
                &&& pow2(cv.max_m() as nat) <= c < pow2(cv.max_p() as nat)
            },
            IEEE754ValView::Nan(_, quiet, payload) => {
                &&& payload < pow2((cv.max_m() - 1) as nat)
                &&& quiet || payload != 0
            },
            _ => true,
        }
    }

    /// The extended real that the value stands for in the format `cv`. A
    /// zero keeps its sign.
    pub open spec fn value(self, cv: IEEE754ContextView) -> ExtReal {
        match self {
            IEEE754ValView::PosZero => ExtReal::Real { sign: false, exp: 0, c: 0 },
            IEEE754ValView::NegZero => ExtReal::Real { sign: true, exp: 0, c: 0 },
            IEEE754ValView::Subnormal(s, c) => ExtReal::Real { sign: s, exp: cv.expmin(), c },
            IEEE754ValView::Normal(s, exp, c) => ExtReal::Real { sign: s, exp, c },
            IEEE754ValView::PosInfinity => ExtReal::PosInfinity,
            IEEE754ValView::NegInfinity => ExtReal::NegInfinity,
            IEEE754ValView::Nan(_, _, _) => ExtReal::Nan,
        }
    }

    /// The exponent field and the trailing significand of the encoding,
    /// as one number: everything but the sign bit.
    pub open spec fn magnitude_bits(self, cv: IEEE754ContextView) -> int {
        let m = cv.max_m() as nat;
        let ones = pow2(cv.es as nat) - 1;
        match self {
            IEEE754ValView::PosZero => 0,
            IEEE754ValView::NegZero => 0,
            IEEE754ValView::Subnormal(_, c) => c as int,
            IEEE754ValView::Normal(_, exp, c) => (exp + cv.max_m() + cv.emax()) * pow2(m) + c
                % pow2(m),
            IEEE754ValView::PosInfinity => ones * pow2(m),
            IEEE754ValView::NegInfinity => ones * pow2(m),
            IEEE754ValView::Nan(_, quiet, payload) => ones * pow2(m) + payload + if quiet {
                pow2((m - 1) as nat)
            } else {
                0nat
            },
        }
    }

    /// The encoding of the value in the format `cv`, as a number below
    /// `2^nbits`: sign bit, exponent field, trailing significand.
    pub open spec fn bits(self, cv: IEEE754ContextView) -> int {
        self.magnitude_bits(cv) + if self.sign() {
            pow2((cv.nbits - 1) as nat)
        } else {
            0nat
        }
    }
}

/// What an [`IEEE754`] holds.
pub ghost struct IEEE754View {
    /// The value.
    pub num: IEEE754ValView,
    /// The flags raised when the value was made.
    pub flags: Exceptions,
    /// The context under which the value was made.
    pub ctx: IEEE754Context,
}

impl IEEE754View {
    /// Whether the context is a format and the value is one of it.
    pub open spec fn wf(self) -> bool {
        self.ctx@.wf() && self.num.wf(self.ctx@)
    }

    /// The extended real that the value stands for.
    pub open spec fn value(self) -> ExtReal {
        self.num.value(self.ctx@)
    }

    /// The encoding of the value.
    pub open spec fn bits(self) -> int {
        self.num.bits(self.ctx@)
    }
}

/// A floating-point number of an IEEE 754 format, as [`IEEE754Context`]
/// rounds it, with the [`Exceptions`] raised in making it.
#[derive(Debug)]
pub struct IEEE754 {
    pub(crate) num: IEEE754Val,
    pub(crate) flags: Exceptions,
    pub(crate) ctx: IEEE754Context,
}

impl View for IEEE754 {
    type V = IEEE754View;

    closed spec fn view(&self) -> IEEE754View {
        IEEE754View { num: self.num@, flags: self.flags, ctx: self.ctx }
    }
}

impl Clone for IEEE754 {
    fn clone(&self) -> (r: Self)
        ensures
            r@ == self@,
    {
        proof {
            use_type_invariant(self);
        }
        IEEE754 { num: self.num.clone(), flags: self.flags, ctx: self.ctx }
    }
}

/// An exponent field `ef` and a trailing significand `mf` that fit their
/// widths make a number that fits both widths together.
pub proof fn lemma_fields_fit(ef: int, mf: int, es: nat, m: nat)
    requires
        0 <= ef < pow2(es),
        0 <= mf < pow2(m),
    ensures
        0 <= ef * pow2(m) + mf < pow2(es + m),
        (ef * pow2(m)) % (pow2(m) as int) == 0,
{
    lemma_pow2_split(es, m);
    let p = pow2(m) as int;
    let q = pow2(es) as int;
    assert(ef * p + mf < q * p && ef * p >= 0) by (nonlinear_arith)
        requires
            0 <= ef < q,
            0 <= mf < p,
    ;
    lemma_shl_shr(ef as nat, m);
}

impl IEEE754 {
    /// Every value is one of the format of its context.
    #[verifier::type_invariant]
    spec fn well_formed(self) -> bool {
        self.ctx@.wf() && self.num@.wf(self.ctx@)
    }

    /// A value of the format `ctx`, with its flags.
    pub(crate) fn new(num: IEEE754Val, flags: Exceptions, ctx: IEEE754Context) -> (r: IEEE754)
        requires
            ctx@.wf(),
            num@.wf(ctx@),
        ensures
            r@ == (IEEE754View { num: num@, flags, ctx }),
    {
        IEEE754 { num, flags, ctx }
    }


    /// The flags raised when this number was made.
    pub fn flags(&self) -> (r: &Exceptions)
        ensures
            *r == self@.flags,
    {
        &self.flags
    }

    /// The rounding context under which this number was made.
    pub fn ctx(&self) -> (r: &IEEE754Context)
        ensures
            *r == self@.ctx,
    {
        &self.ctx
    }

    /// The value as an enumeration.
    pub fn val(&self) -> (r: &IEEE754Val)
        ensures
            r@ == self@.num,
    {
        &self.num
    }

    /// Whether this is a subnormal number.
    pub fn is_subnormal(&self) -> (r: bool)
        ensures
            r == (self@.num is Subnormal),
    {
        match &self.num {
            IEEE754Val::Subnormal(_, _) => true,
            _ => false,
        }
    }

    /// Whether this is a normal number.
    pub fn is_normal(&self) -> (r: bool)
        ensures
            r == (self@.num is Normal),
    {
        match &self.num {
            IEEE754Val::Normal(_, _, _) => true,
            _ => false,
        }
    }

    /// Whether this is not a number.
    pub fn is_nan(&self) -> (r: bool)
        ensures
            r == (self@.num is Nan),
    {
        match &self.num {
            IEEE754Val::Nan(_, _, _) => true,
            _ => false,
        }
    }

    /// The quiet bit of what is not a number; `None` for a number.
    pub fn nan_quiet(&self) -> (r: Option<bool>)
        ensures
            r == match self@.num {
                IEEE754ValView::Nan(_, q, _) => Some(q),
                _ => None,
            },
    {
        match &self.num {
            IEEE754Val::Nan(_, q, _) => Some(*q),
            _ => None,
        }
    }

    /// The payload of what is not a number; `None` for a number.
    pub fn nan_payload(&self) -> (r: Option<Integer>)
        ensures
            r is Some <==> self@.num is Nan,
            r is Some ==> (self@.num matches IEEE754ValView::Nan(_, _, p) && int_of(r->0) == p),
    {
        match &self.num {
            IEEE754Val::Nan(_, _, payload) => Some(integer::abs(integer::copy(payload))),
            _ => None,
        }
    }

    /// The encoding of this number: an integer below `2^nbits` whose binary
    /// digits are, from the top, the sign bit, the exponent field of `es`
    /// bits and the trailing significand.
    pub fn into_bits(self) -> (r: Integer)
        ensures
            int_of(r) == self@.bits(),
            0 <= int_of(r) < pow2(self@.ctx@.nbits as nat),
    {
        let ghost cv = self.ctx@;
        let ghost view = self.num@;
        proof {
            use_type_invariant(&self);
        }
        let nbits = self.ctx.nbits();
        let es = self.ctx.es();
        let m = self.ctx.max_m();
        proof {
            lemma_context_bounds(cv);
            lemma_pow2_split(es as nat, m as nat);
            lemma_pow2_pos(m as nat);
            lemma_pow2_pos(es as nat);
            lemma_pow2_unfold(nbits as nat);
            lemma_pow2_unfold(m as nat);
            lemma_pow2_pos((m - 1) as nat);
        }
        let (s, unsigned) = match self.num {
            IEEE754Val::PosZero => (false, integer::zero()),
            IEEE754Val::NegZero => (true, integer::zero()),
            IEEE754Val::Subnormal(s, c) => {
                proof {
                    lemma_fields_fit(0, view->Subnormal_1 as int, es as nat, m as nat);
                }
                (s, integer::abs(c))
            },
            IEEE754Val::Normal(s, exp, c) => {
                let emax = self.ctx.emax();
                let biased = (exp + m as isize) + emax;
                let efield = shl_by(integer::from_isize(biased), m as u64);
                let mask = bitmask(m);
                let c = integer::abs(c);
                proof {
                    lemma_bit_and_mask(int_of(c) as nat, m as nat);
                    lemma_fields_fit(
                        biased as int,
                        (int_of(c) as nat % pow2(m as nat)) as int,
                        es as nat,
                        m as nat,
                    );
                    lemma_bit_or_disjoint(
                        int_of(c) as nat % pow2(m as nat),
                        int_of(efield) as nat,
                        m as nat,
                    );
                }
                let mfield = integer::bitand(c, mask);
                (s, integer::bitor(mfield, efield))
            },
            IEEE754Val::PosInfinity => {
                let efield = shl_by(bitmask(es), m as u64);
                proof {
                    lemma_fields_fit(pow2(es as nat) - 1, 0, es as nat, m as nat);
                }
                (false, efield)
            },
            IEEE754Val::NegInfinity => {
                let efield = shl_by(bitmask(es), m as u64);
                proof {
                    lemma_fields_fit(pow2(es as nat) - 1, 0, es as nat, m as nat);
                }
                (true, efield)
            },
            IEEE754Val::Nan(s, q, payload) => {
                let efield = shl_by(bitmask(es), m as u64);
                let qfield = if q {
                    power_of_two((m - 1) as u64)
                } else {
                    integer::zero()
                };
                let payload = integer::abs(payload);
                proof {
                    let half = pow2((m - 1) as nat);
                    let lower = (int_of(payload) + int_of(qfield)) as nat;
                    vstd::arithmetic::div_mod::lemma_mod_self_0(half as int);
                    vstd::arithmetic::div_mod::lemma_small_mod(0, half);
                    lemma_bit_or_disjoint(int_of(payload) as nat, int_of(qfield) as nat, (m - 1) as nat);
                    lemma_fields_fit(pow2(es as nat) - 1, lower as int, es as nat, m as nat);
                    lemma_bit_or_disjoint(lower, int_of(efield) as nat, m as nat);
                }
                (s, integer::bitor(integer::bitor(payload, qfield), efield))
            },
        };
        assert(int_of(unsigned) == view.magnitude_bits(cv));
        assert(0 <= int_of(unsigned) < pow2((nbits - 1) as nat));
        if s {
            let sfield = power_of_two((nbits - 1) as u64);
            proof {
                vstd::arithmetic::div_mod::lemma_mod_self_0(int_of(sfield));
                lemma_bit_or_disjoint(
                    int_of(unsigned) as nat,
                    int_of(sfield) as nat,
                    (nbits - 1) as nat,
                );
            }
            integer::bitor(unsigned, sfield)
        } else {
            unsigned
        }
    }
}

impl IEEE754 {
    /// The number as an [`RFloat`]: the same numerical value, a zero
    /// without its sign, what is not a number without sign and payload.
    pub fn to_rfloat(&self) -> (r: RFloat)
        ensures
            self@.value().is_zero() ==> r@ == ExtReal::zero(),
            !self@.value().is_zero() ==> r@ == self@.value(),
            r@.positions_fit(),
    {
        proof {
            use_type_invariant(self);
            lemma_context_bounds(self.ctx@);
        }
        match &self.num {
            IEEE754Val::PosZero => RFloat::zero(),
            IEEE754Val::NegZero => RFloat::zero(),
            IEEE754Val::Subnormal(s, c) => {
                let c = integer::abs(integer::copy(c));
                proof {
                    lemma_value_positions(self@);
                }
                RFloat::Real(*s, self.ctx.expmin(), c)
            },
            IEEE754Val::Normal(s, exp, c) => {
                let c = integer::abs(integer::copy(c));
                proof {
                    lemma_value_positions(self@);
                }
                RFloat::Real(*s, *exp, c)
            },
            IEEE754Val::PosInfinity => RFloat::PosInfinity,
            IEEE754Val::NegInfinity => RFloat::NegInfinity,
            IEEE754Val::Nan(_, _, _) => RFloat::Nan,
        }
    }
}

impl IEEE754 {
    /// Compares two numbers by their numerical value, so that the two
    /// zeros are equal: `None` where either is not a number, otherwise a
    /// negative number where `self` is below `other`, zero where they are
    /// equal, a positive number where `self` is above.
    pub fn compare(&self, other: &IEEE754) -> (r: Option<i8>)
        ensures
            r is None <==> (self@.value() is Nan || other@.value() is Nan),
            r is Some ==> -1 <= r->0 <= 1,
            (r is Some && r->0 < 0) <==> self@.value().lt(other@.value()),
            (r is Some && r->0 == 0) <==> self@.value().eqv(other@.value()),
            (r is Some && r->0 > 0) <==> other@.value().lt(self@.value()),
    {
        let a = self.to_rfloat();
        let b = other.to_rfloat();
        proof {
            lemma_unsigned_zero(self@.value(), a@, other@.value(), b@);
        }
        a.compare(&b)
    }
}

/// Numbers compare alike with and without the signs of their zeros.
pub proof fn lemma_unsigned_zero(a: ExtReal, a0: ExtReal, b: ExtReal, b0: ExtReal)
    requires
        a0 == if a.is_zero() {
            ExtReal::zero()
        } else {
            a
        },
        b0 == if b.is_zero() {
            ExtReal::zero()
        } else {
            b
        },
    ensures
        a0.lt(b0) == a.lt(b),
        b0.lt(a0) == b.lt(a),
        a0.eqv(b0) == a.eqv(b),
{
    if a is Real && b is Real {
        let j = crate::value::lesser(
            crate::value::lesser(a.exp(), a0.exp()),
            crate::value::lesser(b.exp(), b0.exp()),
        );
        crate::value::lemma_scaled_zero(ExtReal::zero(), j);
        if a.c() == 0 {
            crate::value::lemma_scaled_zero(a, j);
        }
        if b.c() == 0 {
            crate::value::lemma_scaled_zero(b, j);
        }
        crate::value::lemma_compare_at(a, b, j);
        crate::value::lemma_compare_at(b, a, j);
        crate::value::lemma_compare_at(a0, b0, j);
        crate::value::lemma_compare_at(b0, a0, j);
    }
}

/// The positions of a number of an IEEE 754 format fit the machine
/// integers: its leading digit is at most at `emax` and its lowest at least
/// at `expmin`.
pub proof fn lemma_value_positions(v: IEEE754View)
    requires
        v.wf(),
    ensures
        v.value().positions_fit(),
        v.value().is_nonzero() ==> v.ctx@.expmin() <= v.value().exp(),
        v.value().is_nonzero() ==> v.value().e() <= v.ctx@.emax(),
        v.value().is_nonzero() ==> v.value().prec() <= v.ctx@.max_p(),
        v.num is Normal ==> v.value().prec() == v.ctx@.max_p(),
        v.num is Normal ==> v.value().e() >= v.ctx@.emin(),
        v.num is Subnormal ==> v.value().e() < v.ctx@.emin(),
        v.value().is_nonzero() <==> (v.num is Normal || v.num is Subnormal),
{
    let cv = v.ctx@;
    lemma_context_bounds(cv);
    lemma_pow2_pos(cv.max_m() as nat);
    match v.num {
        IEEE754ValView::Subnormal(_, c) => {
            crate::math::lemma_bitlen_le(c, cv.max_m() as nat);
            crate::math::lemma_bitlen_bounds(c);
        },
        IEEE754ValView::Normal(_, _, c) => {
            crate::math::lemma_bitlen_unique(c, cv.max_p() as nat);
        },
        _ => {},
    }
}

impl Real for IEEE754 {
    open spec fn value(&self) -> ExtReal {
        self@.value()
    }

    fn radix() -> (r: usize) {
        2
    }

    /// The sign bit, which every value has.
    fn sign(&self) -> (r: Option<bool>)
        ensures
            r == Some(self@.num.sign()),
    {
        match &self.num {
            IEEE754Val::PosZero => Some(false),
            IEEE754Val::NegZero => Some(true),
            IEEE754Val::Subnormal(s, _) => Some(*s),
            IEEE754Val::Normal(s, _, _) => Some(*s),
            IEEE754Val::PosInfinity => Some(false),
            IEEE754Val::NegInfinity => Some(true),
            IEEE754Val::Nan(s, _, _) => Some(*s),
        }
    }

    fn exp(&self) -> (r: Option<isize>) {
        proof {
            use_type_invariant(self);
            lemma_value_positions(self@);
        }
        match &self.num {
            IEEE754Val::Subnormal(_, _) => Some(self.ctx.expmin()),
            IEEE754Val::Normal(_, exp, _) => Some(*exp),
            _ => None,
        }
    }

    fn e(&self) -> (r: Option<isize>) {
        proof {
            use_type_invariant(self);
            lemma_value_positions(self@);
        }
        match &self.num {
            IEEE754Val::Subnormal(_, c) => {
                let n: i128 = self.ctx.expmin() as i128 - 1;
                let bits: u64 = integer::significant_bits(c);
                Some((n + bits as i128) as isize)
            },
            IEEE754Val::Normal(_, exp, c) => {
                let bits: u64 = integer::significant_bits(c);
                Some(((*exp as i128 - 1) + bits as i128) as isize)
            },
            _ => None,
        }
    }

    fn n(&self) -> (r: Option<isize>) {
        proof {
            use_type_invariant(self);
            lemma_value_positions(self@);
        }
        match &self.num {
            IEEE754Val::Subnormal(_, _) => Some(self.ctx.expmin() - 1),
            IEEE754Val::Normal(_, exp, _) => Some(*exp - 1),
            _ => None,
        }
    }

    /// The significand of a number other than zero.
    fn c(&self) -> (r: Option<Integer>)
        ensures
            r is Some <==> self@.value().is_nonzero(),
    {
        proof {
            use_type_invariant(self);
            lemma_value_positions(self@);
        }
        match &self.num {
            IEEE754Val::Subnormal(_, c) => Some(integer::abs(integer::copy(c))),
            IEEE754Val::Normal(_, _, c) => Some(integer::abs(integer::copy(c))),
            _ => None,
        }
    }

    /// The signed significand of a number other than zero.
    fn m(&self) -> (r: Option<Integer>)
        ensures
            r is Some <==> self@.value().is_nonzero(),
    {
        proof {
            use_type_invariant(self);
            lemma_value_positions(self@);
        }
        match &self.num {
            IEEE754Val::Subnormal(s, c) => {
                let c = integer::abs(integer::copy(c));
                if *s {
                    Some(integer::negate(c))
                } else {
                    Some(c)
                }
            },
            IEEE754Val::Normal(s, _, c) => {
                let c = integer::abs(integer::copy(c));
                if *s {
                    Some(integer::negate(c))
                } else {
                    Some(c)
                }
            },
            _ => None,
        }
    }

    /// The number of digits of the significand of a number other than
    /// zero.
    fn prec(&self) -> (r: Option<usize>)
        ensures
            r is Some <==> self@.value().is_nonzero(),
    {
        proof {
            use_type_invariant(self);
            lemma_value_positions(self@);
        }
        match &self.num {
            IEEE754Val::Subnormal(_, c) => Some(integer::significant_bits(c) as usize),
            IEEE754Val::Normal(_, _, c) => Some(integer::significant_bits(c) as usize),
            _ => None,
        }
    }

    fn is_nar(&self) -> (r: bool) {
        match &self.num {
            IEEE754Val::PosInfinity => true,
            IEEE754Val::NegInfinity => true,
            IEEE754Val::Nan(_, _, _) => true,
            _ => false,
        }
    }

    fn is_finite(&self) -> (r: bool) {
        match &self.num {
            IEEE754Val::PosZero => true,
            IEEE754Val::NegZero => true,
            IEEE754Val::Subnormal(_, _) => true,
            IEEE754Val::Normal(_, _, _) => true,
            _ => false,
        }
    }

    fn is_infinite(&self) -> (r: bool) {
        match &self.num {
            IEEE754Val::PosInfinity => true,
            IEEE754Val::NegInfinity => true,
            _ => false,
        }
    }

    fn is_zero(&self) -> (r: bool) {
        proof {
            use_type_invariant(self);
            lemma_value_positions(self@);
        }
        match &self.num {
            IEEE754Val::PosZero => true,
            IEEE754Val::NegZero => true,
            _ => false,
        }
    }

    fn is_negative(&self) -> (r: Option<bool>) {
        proof {
            use_type_invariant(self);
            lemma_value_positions(self@);
        }
        match &self.num {
            IEEE754Val::PosZero => None,
            IEEE754Val::NegZero => None,
            IEEE754Val::Subnormal(s, _) => Some(*s),
            IEEE754Val::Normal(s, _, _) => Some(*s),
            IEEE754Val::PosInfinity => Some(false),
            IEEE754Val::NegInfinity => Some(true),
            IEEE754Val::Nan(_, _, _) => None,
        }
    }

    fn is_numerical(&self) -> (r: bool) {
        match &self.num {
            IEEE754Val::Nan(_, _, _) => false,
            _ => true,
        }
    }
}

impl From<IEEE754> for RFloat {
    /// The number as an [`RFloat`]: the same numerical value, a zero
    /// without its sign, what is not a number without sign and payload.
    fn from(val: IEEE754) -> (r: RFloat)
        ensures
            val@.value().is_zero() ==> r@ == ExtReal::zero(),
            !val@.value().is_zero() ==> r@ == val@.value(),
    {
        val.to_rfloat()
    }
}

/// The result is stated by the contract of `from`, over the number that
/// the value stands for, so `from_spec` goes unused.
impl vstd::std_specs::convert::FromSpecImpl<IEEE754> for RFloat {
    open spec fn obeys_from_spec() -> bool {
        false
    }

    open spec fn from_spec(val: IEEE754) -> RFloat {
        RFloat::Nan
    }
}

} // verus!
