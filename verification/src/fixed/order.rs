use crate::fixed::number::Fixed;
use std::cmp::Ordering;
use vstd::prelude::*;

verus! {

impl PartialEq for Fixed {
    /// Numerical equality of the numbers, whatever their flags and
    /// contexts: what is not a number equals nothing, itself included.
    fn eq(&self, other: &Self) -> (r: bool) {
        match self.compare(other) {
            Some(o) => o == 0,
            None => false,
        }
    }
}

impl vstd::std_specs::cmp::PartialEqSpecImpl for Fixed {
    open spec fn obeys_eq_spec() -> bool {
        true
    }

    open spec fn eq_spec(&self, other: &Self) -> bool {
        self@.num.eqv(other@.num)
    }
}

impl PartialOrd for Fixed {
    /// The order of the numbers, whatever their flags and contexts; `None`
    /// where either is not a number.
    fn partial_cmp(&self, other: &Self) -> (r: Option<Ordering>) {
        match self.compare(other) {
            Some(o) => if o < 0 {
                Some(Ordering::Less)
            } else if o == 0 {
                Some(Ordering::Equal)
            } else {
                Some(Ordering::Greater)
            },
            None => None,
        }
    }
}

impl vstd::std_specs::cmp::PartialOrdSpecImpl for Fixed {
    open spec fn obeys_partial_cmp_spec() -> bool {
        true
    }

    open spec fn partial_cmp_spec(&self, other: &Self) -> Option<Ordering> {
        if self@.num is Nan || other@.num is Nan {
            None
        } else if self@.num.lt(other@.num) {
            Some(Ordering::Less)
        } else if self@.num.eqv(other@.num) {
            Some(Ordering::Equal)
        } else {
            Some(Ordering::Greater)
        }
    }
}

} // verus!
