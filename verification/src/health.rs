//! Health, and what lowers it.

use vstd::prelude::*;
use crate::fixed::{clamp_i32, saturate};

verus! {

/// How much damage an entity can still take, in thousandths. An entity
/// whose health is not above zero is due for removal.
#[derive(Copy, Clone, Debug, PartialEq, Eq, Structural)]
pub struct Health {
    pub value: i32,
}

impl Health {
    pub fn new(value: i32) -> (h: Health)
        ensures
            h.value == value,
    {
        Health { value }
    }

    /// The health after `amount` of damage: lower by `amount`, clamped to
    /// the range of stored values.
    pub open spec fn damaged(self, amount: i32) -> Health {
        Health { value: clamp_i32(self.value - amount) as i32 }
    }

    /// Whether the health is used up.
    pub open spec fn spec_is_dead(&self) -> bool {
        self.value <= 0
    }

    /// Takes `amount` of damage.
    pub fn damage(&mut self, amount: i32)
        ensures
            *final(self) == old(self).damaged(amount),
    {
        self.value = saturate(self.value as i128 - amount as i128);
    }

    /// Whether the health is used up.
    #[verifier::when_used_as_spec(spec_is_dead)]
    pub fn is_dead(&self) -> (b: bool)
        ensures
            b == self.spec_is_dead(),
    {
        self.value <= 0
    }
}

} // verus!
