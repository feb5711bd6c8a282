//! The order of decimals: that of their magnitudes.

use vstd::prelude::*;
use vstd::std_specs::cmp::PartialOrdSpecImpl;
use core::cmp::Ordering;
use crate::decimal::SafeDecimal;

verus! {

impl PartialOrdSpecImpl for SafeDecimal {
    open spec fn obeys_partial_cmp_spec() -> bool {
        true
    }

    open spec fn partial_cmp_spec(&self, other: &SafeDecimal) -> Option<Ordering> {
        if self@ < other@ {
            Some(Ordering::Less)
        } else if self@ == other@ {
            Some(Ordering::Equal)
        } else {
            Some(Ordering::Greater)
        }
    }
}

impl PartialOrd for SafeDecimal {
    /// Compares two decimals by their magnitudes; any two can be compared.
    fn partial_cmp(&self, other: &SafeDecimal) -> (r: Option<Ordering>) {
        let left = self.magnitude();
        let right = other.magnitude();
        if left < right {
            Some(Ordering::Less)
        } else if left == right {
            Some(Ordering::Equal)
        } else {
            Some(Ordering::Greater)
        }
    }
}

} // verus!
