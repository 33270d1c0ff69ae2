use crate::ieee754::number::IEEE754;
use std::cmp::Ordering;
use vstd::prelude::*;

verus! {

impl PartialEq for IEEE754 {
    /// Numerical equality of the numbers, whatever their flags and
    /// contexts: what is not a number equals nothing, itself included.
    fn eq(&self, other: &Self) -> (r: bool) {
        match self.compare(other) {
            Some(o) => o == 0,
            None => false,
        }
    }
}

impl vstd::std_specs::cmp::PartialEqSpecImpl for IEEE754 {
    open spec fn obeys_eq_spec() -> bool {
        true
    }

    open spec fn eq_spec(&self, other: &Self) -> bool {
        self@.value().eqv(other@.value())
    }
}

impl PartialOrd for IEEE754 {
    /// The order of the numbers, whatever their flags and contexts; `None`
    /// where either is not a number.
    fn partial_cmp(&self, other: &Self) -> (r: Option<Ordering>) {
        match self.compare(other) {
            Some(o) => if o < 0 {
                Some(Ordering::Less)
            } else if o == 0 {
                Some(Ordering::Equal)
            } else {
                Some(Ordering::Greater)
            },
            None => None,
        }
    }
}

impl vstd::std_specs::cmp::PartialOrdSpecImpl for IEEE754 {
    open spec fn obeys_partial_cmp_spec() -> bool {
        true
    }

    open spec fn partial_cmp_spec(&self, other: &Self) -> Option<Ordering> {
        if self@.value() is Nan || other@.value() is Nan {
            None
        } else if self@.value().lt(other@.value()) {
            Some(Ordering::Less)
        } else if self@.value().eqv(other@.value()) {
            Some(Ordering::Equal)
        } else {
            Some(Ordering::Greater)
        }
    }
}

} // verus!
