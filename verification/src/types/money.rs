//! An amount of money, stored as whole cents.

use vstd::prelude::*;

verus! {

/// An amount of money in cents.
#[derive(Debug, PartialEq, Eq, Structural, PartialOrd, Ord, Clone, Copy)]
pub struct Money {
    pub value: u32,
}

impl Money {
    /// Wraps an amount already counted in cents.
    pub fn new(value_in_cents: u32) -> (r: Money)
        ensures
            r.value == value_in_cents,
    {
        Money { value: value_in_cents }
    }

    /// Builds an amount from whole units and cents.
    pub fn new_cents(value: u32, cents: u8) -> (r: Money)
        requires
            value * 100 + cents <= u32::MAX,
        ensures
            r.value == value * 100 + cents,
    {
        Money { value: value * 100 + cents as u32 }
    }

    /// The amount in cents.
    pub fn cents(&self) -> (r: u32)
        ensures
            r == self.value,
    {
        self.value
    }
}

impl From<u32> for Money {
    fn from(value: u32) -> (r: Money) {
        Money { value }
    }
}

impl vstd::std_specs::convert::FromSpecImpl<u32> for Money {
    open spec fn obeys_from_spec() -> bool {
        true
    }

    open spec fn from_spec(value: u32) -> Money {
        Money { value }
    }
}

} // verus!
