//! Potions: bought from the pool, sold back at a gain once they have
//! matured.

use vstd::prelude::*;
use crate::entity::{Entity, Row};
use crate::mana::Mana;
use crate::timer::{Timer, TimerMode};
use crate::vector::Vec3;

verus! {

/// What a potion costs.
pub const POTION_COST: i32 = 10_000;

/// What a matured potion sells for.
pub const POTION_PRICE: i32 = 15_000;

/// The time that a potion takes to mature, in nanoseconds.
pub const POTION_LIFETIME: u64 = 2_000_000_000;

/// Marks the entity that holds all potions as its children.
#[derive(Copy, Clone, Debug, PartialEq, Eq, Structural)]
pub struct PotionParent;

/// A potion, and the timer that matures it.
#[derive(Copy, Clone, Debug, PartialEq, Eq, Structural)]
pub struct Potion {
    pub lifetime: Timer,
}

/// The components that every potion starts with.
#[derive(Copy, Clone, Debug, PartialEq, Eq, Structural)]
pub struct PotionBundle {
    pub translation: Vec3,
    pub potion: Potion,
}

/// A potion as it is put down at `player`, with a timer that has not run.
pub open spec fn new_potion(player: Vec3) -> PotionBundle {
    PotionBundle {
        translation: player,
        potion: Potion {
            lifetime: Timer {
                duration: POTION_LIFETIME,
                elapsed: 0,
                mode: TimerMode::Once,
                finished: false,
                times_finished_this_tick: 0,
            },
        },
    }
}

/// Puts down a potion where the player stands, if the player asks for one
/// and can pay for it.
///
/// `pressed` says whether the key for it has just gone down. A potion is
/// made, and its cost taken from the pool, only if the key went down and
/// the pool holds the cost. Otherwise nothing is made and the pool stays
/// as it is.
pub fn spawn_potion(pressed: bool, player: Vec3, money: &mut Mana) -> (made: Option<PotionBundle>)
    ensures
        made == if pressed && old(money).affords(POTION_COST) {
            Some(new_potion(player))
        } else {
            None
        },
        *final(money) == if made is Some {
            old(money).plus(-POTION_COST)
        } else {
            *old(money)
        },
{
    if !pressed {
        return None;
    }
    if !money.spend(POTION_COST) {
        return None;
    }
    Some(
        PotionBundle {
            translation: player,
            potion: Potion { lifetime: Timer::new(POTION_LIFETIME, TimerMode::Once) },
        },
    )
}

/// Picks the entity of each potion that has matured after a tick of
/// `delta`.
pub open spec fn matured(delta: u64) -> spec_fn(Row<Potion>) -> Option<Entity> {
    |row: Row<Potion>|
        if row.item.lifetime.ticked(delta).finished {
            Some(row.entity)
        } else {
            None
        }
}

/// The pool after the sale of `sold` potions, one after the other.
pub open spec fn proceeds(pool: Mana, sold: int) -> Mana
    decreases sold,
{
    if sold <= 0 {
        pool
    } else {
        proceeds(pool, sold - 1).plus(POTION_PRICE as int)
    }
}

/// Ticks the potions and sells those that have matured.
///
/// Every potion's timer advances by `delta`. Each potion whose timer is
/// finished is sold: its price goes into the pool, and it comes back for
/// the engine to take from its parent and remove.
pub fn potion_lifetime(potions: &mut Vec<Row<Potion>>, delta: u64, money: &mut Mana) -> (sold: Vec<
    Entity,
>)
    ensures
        final(potions).len() == old(potions).len(),
        forall|k: int|
            0 <= k < old(potions).len() ==> {
                let before = #[trigger] old(potions)[k];
                let after = final(potions)[k];
                &&& after.entity == before.entity
                &&& after.item.lifetime == before.item.lifetime.ticked(delta)
            },
        sold@ == old(potions)@.filter_map(matured(delta)),
        *final(money) == proceeds(*old(money), sold.len() as int),
{
    let ghost rows = potions@;
    let ghost pool = *money;
    let mut sold: Vec<Entity> = Vec::new();
    let mut i: usize = 0;
    assert(rows.take(0) =~= Seq::<Row<Potion>>::empty());
    while i < potions.len()
        invariant
            i <= potions.len(),
            potions.len() == rows.len(),
            forall|k: int| i <= k < rows.len() ==> potions[k] == rows[k],
            forall|k: int|
                0 <= k < i ==> {
                    let before = #[trigger] rows[k];
                    let after = potions[k];
                    &&& after.entity == before.entity
                    &&& after.item.lifetime == before.item.lifetime.ticked(delta)
                },
            sold@ == rows.take(i as int).filter_map(matured(delta)),
            *money == proceeds(pool, sold.len() as int),
        decreases potions.len() - i,
    {
        proof {
            rows.lemma_filter_map_take_succ(matured(delta), i as int);
        }
        potions[i].item.lifetime.tick(delta);
        if potions[i].item.lifetime.finished() {
            money.earn(POTION_PRICE);
            sold.push(potions[i].entity);
        }
        assert(sold@ =~= rows.take(i + 1).filter_map(matured(delta)));
        i += 1;
    }
    assert(rows.take(rows.len() as int) =~= rows);
    sold
}

} // verus!
