use crate::float::round::FloatContext;
use crate::number::{ExtReal, Real};
use crate::rfloat::RFloat;
use rug::Integer;
use vstd::prelude::*;

verus! {

/// Exception flags that signal properties of a rounded result.
///
/// As in IEEE 754, but with no bound on the exponent there are only four:
///
/// - _invalid operation_: no useful definable result;
/// - _division by zero_: an infinite result for finite arguments;
/// - _inexact_: the result would be different had the precision been
///   unbounded;
/// - _carry_: the exponent of the rounded result, in the form
///   `(-1)^s * c * 2^exp`, is one more than that of the truncated result.
#[derive(Clone, Copy, Debug, PartialEq, Eq, Structural)]
pub struct Exceptions {
    pub invalid: bool,
    pub divzero: bool,
    pub inexact: bool,
    pub carry: bool,
}

impl Exceptions {
    /// A set of flags, none of them raised.
    pub fn new() -> (r: Self)
        ensures
            r == (Exceptions { invalid: false, divzero: false, inexact: false, carry: false }),
    {
        Self { invalid: false, divzero: false, inexact: false, carry: false }
    }
}

impl Default for Exceptions {
    fn default() -> (r: Self)
        ensures
            r == (Exceptions { invalid: false, divzero: false, inexact: false, carry: false }),
    {
        Self::new()
    }
}

/// What a [`Float`] holds.
pub ghost struct FloatView {
    /// The number.
    pub num: ExtReal,
    /// The flags raised when the number was made.
    pub flags: Exceptions,
    /// The context under which the number was made.
    pub ctx: FloatContext,
}

/// A fixed-precision floating-point number with unbounded exponent, as
/// [`FloatContext`] rounds it, with the [`Exceptions`] raised in making it.
#[derive(Debug)]
pub struct Float {
    pub(crate) num: RFloat,
    pub(crate) flags: Exceptions,
    pub(crate) ctx: FloatContext,
}

impl View for Float {
    type V = FloatView;

    closed spec fn view(&self) -> FloatView {
        FloatView { num: self.num@, flags: self.flags, ctx: self.ctx }
    }
}

impl Clone for Float {
    fn clone(&self) -> (r: Self)
        ensures
            r@ == self@,
    {
        Float { num: self.num.clone(), flags: self.flags, ctx: self.ctx }
    }
}

impl Float {
    /// A number with its flags and context.
    pub(crate) fn new(num: RFloat, flags: Exceptions, ctx: FloatContext) -> (r: Float)
        ensures
            r@ == (FloatView { num: num@, flags, ctx }),
    {
        Float { num, flags, ctx }
    }

    /// The flags raised when this number was made.
    pub fn flags(&self) -> (r: &Exceptions)
        ensures
            *r == self@.flags,
    {
        &self.flags
    }

    /// The rounding context under which this number was made.
    pub fn ctx(&self) -> (r: &FloatContext)
        ensures
            *r == self@.ctx,
    {
        &self.ctx
    }

    /// The number, without its flags and context.
    pub fn into_rfloat(self) -> (r: RFloat)
        ensures
            r@ == self@.num,
    {
        self.num
    }

    /// Compares two numbers by their numerical value, as
    /// [`RFloat::compare`] does.
    pub fn compare(&self, other: &Float) -> (r: Option<i8>)
        ensures
            r is None <==> (self@.num is Nan || other@.num is Nan),
            r is Some ==> -1 <= r->0 <= 1,
            (r is Some && r->0 < 0) <==> self@.num.lt(other@.num),
            (r is Some && r->0 == 0) <==> self@.num.eqv(other@.num),
            (r is Some && r->0 > 0) <==> other@.num.lt(self@.num),
    {
        self.num.compare(&other.num)
    }
}

impl Real for Float {
    open spec fn value(&self) -> ExtReal {
        self@.num
    }

    fn radix() -> (r: usize) {
        2
    }

    fn sign(&self) -> (r: Option<bool>) {
        self.num.sign()
    }

    fn exp(&self) -> (r: Option<isize>) {
        self.num.exp()
    }

    fn e(&self) -> (r: Option<isize>) {
        self.num.e()
    }

    fn n(&self) -> (r: Option<isize>) {
        self.num.n()
    }

    fn c(&self) -> (r: Option<Integer>) {
        self.num.c()
    }

    fn m(&self) -> (r: Option<Integer>) {
        self.num.m()
    }

    fn prec(&self) -> (r: Option<usize>) {
        self.num.prec()
    }

    fn is_nar(&self) -> (r: bool) {
        self.num.is_nar()
    }

    fn is_finite(&self) -> (r: bool) {
        self.num.is_finite()
    }

    fn is_infinite(&self) -> (r: bool) {
        self.num.is_infinite()
    }

    fn is_zero(&self) -> (r: bool) {
        self.num.is_zero()
    }

    fn is_negative(&self) -> (r: Option<bool>) {
        self.num.is_negative()
    }

    fn is_numerical(&self) -> (r: bool) {
        self.num.is_numerical()
    }
}

impl From<Float> for RFloat {
    /// The number, without its flags and context.
    fn from(value: Float) -> (r: RFloat)
        ensures
            r@ == value@.num,
    {
        value.num
    }
}

/// The result is stated by the contract of `from`, over the number that
/// the value stands for, so `from_spec` goes unused.
impl vstd::std_specs::convert::FromSpecImpl<Float> for RFloat {
    open spec fn obeys_from_spec() -> bool {
        false
    }

    open spec fn from_spec(value: Float) -> RFloat {
        RFloat::Nan
    }
}

} // verus!
