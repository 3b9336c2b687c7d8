//! The sweep that removes what has died.

use vstd::prelude::*;
use crate::entity::{Entity, Row};
use crate::health::Health;

verus! {

/// Picks the entity of each row whose health is used up.
pub open spec fn dead() -> spec_fn(Row<Health>) -> Option<Entity> {
    |row: Row<Health>|
        if row.item.spec_is_dead() {
            Some(row.entity)
        } else {
            None
        }
}

/// The entities whose health is zero or below, in the order of the rows.
/// The engine removes each of them together with its children.
pub fn despawn_dead_entities(rows: &Vec<Row<Health>>) -> (gone: Vec<Entity>)
    ensures
        gone@ == rows@.filter_map(dead()),
{
    let mut gone: Vec<Entity> = Vec::new();
    let mut i: usize = 0;
    assert(rows@.take(0) =~= Seq::<Row<Health>>::empty());
    while i < rows.len()
        invariant
            i <= rows.len(),
            gone@ == rows@.take(i as int).filter_map(dead()),
        decreases rows.len() - i,
    {
        proof {
            rows@.lemma_filter_map_take_succ(dead(), i as int);
        }
        if rows[i].item.is_dead() {
            gone.push(rows[i].entity);
        }
        assert(gone@ =~= rows@.take(i + 1).filter_map(dead()));
        i += 1;
    }
    assert(rows@.take(rows.len() as int) =~= rows@);
    gone
}

} // verus!
