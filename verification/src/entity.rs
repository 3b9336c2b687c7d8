//! Entity identifiers and the rows that a system reads.
//!
//! The engine owns the entities and their components. A system of this
//! library sees them as rows: an identifier and the components it asked
//! for, in the order in which the engine handed them over.

use vstd::prelude::*;

verus! {

/// An opaque identifier of an entity in the engine's storage.
#[derive(Copy, Clone, Debug, PartialEq, Eq, Hash, Structural)]
pub struct Entity {
    pub bits: u64,
}

impl Entity {
    pub fn from_bits(bits: u64) -> (e: Entity)
        ensures
            e.bits == bits,
    {
        Entity { bits }
    }

    pub fn to_bits(&self) -> (bits: u64)
        ensures
            bits == self.bits,
    {
        self.bits
    }
}

/// One entity as a system sees it: its identifier and the components that
/// the system reads or writes.
#[derive(Debug)]
pub struct Row<T> {
    pub entity: Entity,
    pub item: T,
}

/// Whether row `i` is the first row of `rows` that belongs to `entity`.
pub open spec fn first_at<T>(rows: Seq<Row<T>>, entity: Entity, i: int) -> bool {
    &&& 0 <= i < rows.len()
    &&& rows[i].entity == entity
    &&& forall|k: int| 0 <= k < i ==> rows[k].entity != entity
}

/// The index of the first row that belongs to `entity`, if there is one.
/// A lookup that finds no row is no error: the entity has gone, or never
/// had the components asked for, and the caller skips it.
pub open spec fn find<T>(rows: Seq<Row<T>>, entity: Entity) -> Option<int> {
    if exists|i: int| first_at(rows, entity, i) {
        Some(choose|i: int| first_at(rows, entity, i))
    } else {
        None
    }
}

/// Whether no two rows belong to the same entity.
pub open spec fn distinct<T>(rows: Seq<Row<T>>) -> bool {
    forall|i: int, j: int|
        0 <= i < rows.len() && 0 <= j < rows.len() && i != j ==> rows[i].entity != rows[j].entity
}

/// `find` gives the first matching row, and `None` exactly when no row
/// matches.
pub proof fn lemma_find<T>(rows: Seq<Row<T>>, entity: Entity)
    ensures
        match find(rows, entity) {
            Some(i) => first_at(rows, entity, i),
            None => forall|k: int| 0 <= k < rows.len() ==> rows[k].entity != entity,
        },
        forall|i: int| first_at(rows, entity, i) ==> find(rows, entity) == Some(i),
{
    if exists|i: int| first_at(rows, entity, i) {
        let c = choose|i: int| first_at(rows, entity, i);
        assert forall|i: int| first_at(rows, entity, i) implies i == c by {
            if i < c {
                assert(rows[i].entity != entity);
            }
            if c < i {
                assert(rows[c].entity != entity);
            }
        }
    } else {
        assert forall|k: int| 0 <= k < rows.len() implies rows[k].entity != entity by {
            if rows[k].entity == entity {
                lemma_first_exists(rows, entity, k);
            }
        }
    }
}

/// A row that belongs to `entity` has a first such row at or before it.
proof fn lemma_first_exists<T>(rows: Seq<Row<T>>, entity: Entity, k: int)
    requires
        0 <= k < rows.len(),
        rows[k].entity == entity,
    ensures
        exists|i: int| first_at(rows, entity, i),
    decreases k,
{
    if forall|j: int| 0 <= j < k ==> rows[j].entity != entity {
        assert(first_at(rows, entity, k));
    } else {
        let j = choose|j: int| 0 <= j < k && rows[j].entity == entity;
        lemma_first_exists(rows, entity, j);
    }
}

/// Which row comes first for an entity depends on the entities of the rows
/// alone.
pub proof fn lemma_same_entities_same_first<S, T>(
    a: Seq<Row<S>>,
    b: Seq<Row<T>>,
    entity: Entity,
    i: int,
)
    requires
        a.len() == b.len(),
        forall|k: int| 0 <= k < a.len() ==> (#[trigger] a[k]).entity == b[k].entity,
    ensures
        first_at(a, entity, i) == first_at(b, entity, i),
{
    if first_at(a, entity, i) {
        assert forall|k: int| 0 <= k < i implies b[k].entity != entity by {
            assert(a[k].entity != entity);
        }
    }
    if first_at(b, entity, i) {
        assert(a[i].entity == entity);
        assert forall|k: int| 0 <= k < i implies a[k].entity != entity by {
            assert(b[k].entity != entity);
        }
    }
}

/// Two lists of rows with the same entities, row by row, find every entity
/// at the same place.
pub proof fn lemma_find_same_entities<S, T>(a: Seq<Row<S>>, b: Seq<Row<T>>, entity: Entity)
    requires
        a.len() == b.len(),
        forall|k: int| 0 <= k < a.len() ==> (#[trigger] a[k]).entity == b[k].entity,
    ensures
        find(a, entity) == find(b, entity),
{
    lemma_find(a, entity);
    lemma_find(b, entity);
    match find(a, entity) {
        Some(i) => {
            lemma_same_entities_same_first(a, b, entity, i);
        },
        None => {
            match find(b, entity) {
                Some(i) => {
                    lemma_same_entities_same_first(a, b, entity, i);
                },
                None => {},
            }
        },
    }
}

/// Looks an entity up in a list of rows.
pub fn lookup<T>(rows: &Vec<Row<T>>, entity: Entity) -> (r: Option<usize>)
    ensures
        r matches Some(i) ==> find(rows@, entity) == Some(i as int) && first_at(
            rows@,
            entity,
            i as int,
        ),
        r is None ==> find(rows@, entity) is None && forall|k: int|
            0 <= k < rows.len() ==> rows[k].entity != entity,
{
    let mut i: usize = 0;
    while i < rows.len()
        invariant
            i <= rows.len(),
            forall|k: int| 0 <= k < i ==> rows[k].entity != entity,
        decreases rows.len() - i,
    {
        if rows[i].entity == entity {
            proof {
                assert(first_at(rows@, entity, i as int));
                lemma_find(rows@, entity);
            }
            return Some(i);
        }
        i += 1;
    }
    proof {
        lemma_find(rows@, entity);
    }
    None
}

/// Tells whether no two rows belong to the same entity.
pub fn all_distinct<T>(rows: &Vec<Row<T>>) -> (r: bool)
    ensures
        r == distinct(rows@),
{
    let mut i: usize = 0;
    while i < rows.len()
        invariant
            i <= rows.len(),
            forall|a: int, b: int|
                0 <= a < i && 0 <= b < rows.len() && a != b ==> rows[a].entity != rows[b].entity,
        decreases rows.len() - i,
    {
        let mut j: usize = i + 1;
        while j < rows.len()
            invariant
                i < j <= rows.len(),
                forall|a: int, b: int|
                    0 <= a < i && 0 <= b < rows.len() && a != b ==> rows[a].entity
                        != rows[b].entity,
                forall|b: int| i < b < j ==> rows[i as int].entity != rows[b].entity,
            decreases rows.len() - j,
        {
            if rows[i].entity == rows[j].entity {
                return false;
            }
            j += 1;
        }
        i += 1;
    }
    true
}

} // verus!
