use crate::fixed::round::FixedContext;
use crate::number::{ExtReal, Real};
use crate::rfloat::RFloat;
use rug::Integer;
use vstd::prelude::*;

verus! {

/// Exception flags that signal properties of a rounded result.
///
/// - _invalid operation_: no useful definable result;
/// - _overflow_: the rounded number lay outside the range of the format;
/// - _underflow_: never raised, since a fixed-point format has no
///   subnormal numbers;
/// - _inexact_: the result would be different had the format been
///   unbounded in range and precision.
#[derive(Clone, Copy, Debug, PartialEq, Eq, Structural)]
pub struct Exceptions {
    pub invalid: bool,
    pub overflow: bool,
    pub underflow: bool,
    pub inexact: bool,
}

impl Exceptions {
    /// The set of flags with none raised.
    pub open spec fn none() -> Exceptions {
        Exceptions { invalid: false, overflow: false, underflow: false, inexact: false }
    }

    /// A set of flags, none of them raised.
    pub fn new() -> (r: Self)
        ensures
            r == Exceptions::none(),
    {
        Self { invalid: false, overflow: false, underflow: false, inexact: false }
    }
}

impl Default for Exceptions {
    fn default() -> (r: Self)
        ensures
            r == Exceptions::none(),
    {
        Self::new()
    }
}

/// What a [`Fixed`] holds.
pub ghost struct FixedView {
    /// The number.
    pub num: ExtReal,
    /// The flags raised when the number was made.
    pub flags: Exceptions,
    /// The context under which the number was made.
    pub ctx: FixedContext,
}

/// A fixed-point number, as [`FixedContext`] rounds it, with the
/// [`Exceptions`] raised in making it.
#[derive(Debug)]
pub struct Fixed {
    pub(crate) num: RFloat,
    pub(crate) flags: Exceptions,
    pub(crate) ctx: FixedContext,
}

impl View for Fixed {
    type V = FixedView;

    closed spec fn view(&self) -> FixedView {
        FixedView { num: self.num@, flags: self.flags, ctx: self.ctx }
    }
}

impl Clone for Fixed {
    fn clone(&self) -> (r: Self)
        ensures
            r@ == self@,
    {
        Fixed { num: self.num.clone(), flags: self.flags, ctx: self.ctx }
    }
}

impl Fixed {
    /// A number with its flags and context.
    pub(crate) fn new(num: RFloat, flags: Exceptions, ctx: FixedContext) -> (r: Fixed)
        ensures
            r@ == (FixedView { num: num@, flags, ctx }),
    {
        Fixed { num, flags, ctx }
    }

    /// The flags raised when this number was made.
    pub fn flags(&self) -> (r: &Exceptions)
        ensures
            *r == self@.flags,
    {
        &self.flags
    }

    /// The rounding context under which this number was made.
    pub fn ctx(&self) -> (r: &FixedContext)
        ensures
            *r == self@.ctx,
    {
        &self.ctx
    }

    /// The number, without its flags and context.
    pub fn into_rfloat(self) -> (r: RFloat)
        ensures
            r@ == self@.num,
    {
        self.num
    }

    /// Compares two numbers by their numerical value, as
    /// [`RFloat::compare`] does.
    pub fn compare(&self, other: &Fixed) -> (r: Option<i8>)
        ensures
            r is None <==> (self@.num is Nan || other@.num is Nan),
            r is Some ==> -1 <= r->0 <= 1,
            (r is Some && r->0 < 0) <==> self@.num.lt(other@.num),
            (r is Some && r->0 == 0) <==> self@.num.eqv(other@.num),
            (r is Some && r->0 > 0) <==> other@.num.lt(self@.num),
    {
        self.num.compare(&other.num)
    }
}

impl Real for Fixed {
    open spec fn value(&self) -> ExtReal {
        self@.num
    }

    fn radix() -> (r: usize) {
        2
    }

    fn sign(&self) -> (r: Option<bool>) {
        self.num.sign()
    }

    fn exp(&self) -> (r: Option<isize>) {
        self.num.exp()
    }

    fn e(&self) -> (r: Option<isize>) {
        self.num.e()
    }

    fn n(&self) -> (r: Option<isize>) {
        self.num.n()
    }

    fn c(&self) -> (r: Option<Integer>) {
        self.num.c()
    }

    fn m(&self) -> (r: Option<Integer>) {
        self.num.m()
    }

    fn prec(&self) -> (r: Option<usize>) {
        self.num.prec()
    }

    fn is_nar(&self) -> (r: bool) {
        self.num.is_nar()
    }

    fn is_finite(&self) -> (r: bool) {
        self.num.is_finite()
    }

    fn is_infinite(&self) -> (r: bool) {
        self.num.is_infinite()
    }

    fn is_zero(&self) -> (r: bool) {
        self.num.is_zero()
    }

    fn is_negative(&self) -> (r: Option<bool>) {
        self.num.is_negative()
    }

    fn is_numerical(&self) -> (r: bool) {
        self.num.is_numerical()
    }
}

impl From<Fixed> for RFloat {
    /// The number, without its flags and context.
    fn from(value: Fixed) -> (r: RFloat)
        ensures
            r@ == value@.num,
    {
        value.num
    }
}

/// The result is stated by the contract of `from`, over the number that
/// the value stands for, so `from_spec` goes unused.
impl vstd::std_specs::convert::FromSpecImpl<Fixed> for RFloat {
    open spec fn obeys_from_spec() -> bool {
        false
    }

    open spec fn from_spec(value: Fixed) -> RFloat {
        RFloat::Nan
    }
}

} // verus!
