//! The pool of mana that structures are paid from and harvesters fill.

use vstd::prelude::*;
use crate::fixed::{clamp_i32, saturate};

verus! {

/// The one pool of mana of the game, in thousandths.
#[derive(Copy, Clone, Debug, PartialEq, Eq, Structural)]
pub struct Mana(pub i32);

impl Mana {
    pub fn new(amount: i32) -> (m: Mana)
        ensures
            m.0 == amount,
    {
        Mana(amount)
    }

    /// Whether the pool holds at least `cost`.
    pub open spec fn affords(self, cost: i32) -> bool {
        self.0 >= cost
    }

    /// The pool with `amount` added, clamped to the range of stored values.
    pub open spec fn plus(self, amount: int) -> Mana {
        Mana(clamp_i32(self.0 + amount) as i32)
    }

    /// Pays `cost` if the pool holds that much. A pool that holds less is
    /// left as it is, and nothing is paid: that is no error.
    pub fn spend(&mut self, cost: i32) -> (paid: bool)
        ensures
            paid == old(self).affords(cost),
            *final(self) == if paid {
                old(self).plus(-cost)
            } else {
                *old(self)
            },
    {
        if self.0 >= cost {
            self.0 = saturate(self.0 as i128 - cost as i128);
            true
        } else {
            false
        }
    }

    /// Adds `amount` to the pool.
    pub fn earn(&mut self, amount: i32)
        ensures
            *final(self) == old(self).plus(amount as int),
    {
        self.0 = saturate(self.0 as i128 + amount as i128);
    }
}

} // verus!
