use crate::rfloat::RFloat;
use std::cmp::Ordering;
use vstd::prelude::*;

verus! {

impl PartialEq for RFloat {
    /// Numerical equality: what is not a number equals nothing, itself
    /// included, and a number equals every other way of writing it.
    fn eq(&self, other: &Self) -> (r: bool) {
        match self.compare(other) {
            Some(o) => o == 0,
            None => false,
        }
    }
}

impl vstd::std_specs::cmp::PartialEqSpecImpl for RFloat {
    open spec fn obeys_eq_spec() -> bool {
        true
    }

    open spec fn eq_spec(&self, other: &Self) -> bool {
        self@.eqv(other@)
    }
}

impl PartialOrd for RFloat {
    /// The order of the extended reals; `None` where either operand is not
    /// a number.
    fn partial_cmp(&self, other: &Self) -> (r: Option<Ordering>) {
        match self.compare(other) {
            Some(o) => if o < 0 {
                Some(Ordering::Less)
            } else if o == 0 {
                Some(Ordering::Equal)
            } else {
                Some(Ordering::Greater)
            },
            None => None,
        }
    }
}

impl vstd::std_specs::cmp::PartialOrdSpecImpl for RFloat {
    open spec fn obeys_partial_cmp_spec() -> bool {
        true
    }

    open spec fn partial_cmp_spec(&self, other: &Self) -> Option<Ordering> {
        if self@ is Nan || other@ is Nan {
            None
        } else if self@.lt(other@) {
            Some(Ordering::Less)
        } else if self@.eqv(other@) {
            Some(Ordering::Equal)
        } else {
            Some(Ordering::Greater)
        }
    }
}

} // verus!
