//! The collider registry: which bodies overlap which, tick by tick.

use vstd::prelude::*;
use bevy_utils::hashbrown::HashMap;
use crate::entity::{distinct, Entity, Row};
use crate::group::Group;
use crate::vector::{is_within, within, Vec3};

verus! {

/// How far beyond touching a separated body is placed, in thousandths.
pub const COLLISION_BUFFER: u32 = 2000;

/// A circular shape around an entity's position, and the entities found
/// overlapping it on the last detection pass.
#[derive(Debug)]
pub struct Collider {
    pub radius: u32,
    /// Rebuilt on every detection pass; never carried from tick to tick.
    pub colliding_entities: Vec<Entity>,
}

impl Collider {
    /// Whether this is a collider of the given radius that has not been
    /// through a detection pass yet.
    pub open spec fn is_new(&self, radius: u32) -> bool {
        self.radius == radius && self.colliding_entities@.len() == 0
    }

    pub fn new(radius: u32) -> (c: Collider)
        ensures
            c.is_new(radius),
    {
        Collider { radius, colliding_entities: Vec::new() }
    }
}

/// The damage an entity deals on contact.
#[derive(Copy, Clone, Debug, PartialEq, Eq, Structural)]
pub struct CollisionDamage {
    pub amount: i32,
}

impl CollisionDamage {
    pub fn new(amount: i32) -> (d: CollisionDamage)
        ensures
            d.amount == amount,
    {
        CollisionDamage { amount }
    }
}

/// Marks an entity that bounces off what it hits. The value is the
/// restitution: the thousandths of its speed along the line of contact
/// that it keeps, turned around. An entity without it is pushed out of the
/// contact and keeps its velocity.
#[derive(Copy, Clone, Debug, PartialEq, Eq, Structural)]
pub struct Bounce {
    pub value: u16,
}

impl Bounce {
    pub fn new(value: u16) -> (b: Bounce)
        ensures
            b.value == value,
    {
        Bounce { value }
    }
}

/// One contact, as seen from `entity`: `colliding_entity` overlaps it.
#[derive(Copy, Clone, Debug, PartialEq, Eq, Structural)]
pub struct CollisionEvent {
    pub entity: Entity,
    pub colliding_entity: Entity,
}

impl CollisionEvent {
    pub fn new(entity: Entity, colliding_entity: Entity) -> (e: CollisionEvent)
        ensures
            e == (CollisionEvent { entity, colliding_entity }),
    {
        CollisionEvent { entity, colliding_entity }
    }
}

/// Pairwise collision filtering using bit masks.
///
/// `a` is recorded as colliding with `b` only if the memberships of `a`
/// have a group in common with the filters of `b`. The test is made in this
/// one direction; a pair collides both ways only if each side's memberships
/// meet the other side's filters.
#[derive(Copy, Clone, Debug, PartialEq, Eq, Hash, Structural)]
pub struct CollisionGroups {
    /// Groups memberships.
    pub memberships: Group,
    /// Groups filter.
    pub filters: Group,
}

impl CollisionGroups {
    /// Creates a new collision-groups with the given membership masks and filter masks.
    pub fn new(memberships: Group, filters: Group) -> (g: CollisionGroups)
        ensures
            g == (CollisionGroups { memberships, filters }),
    {
        CollisionGroups { memberships, filters }
    }

    /// Whether an entity with these groups may be recorded as colliding
    /// with one that has the groups `other`.
    pub open spec fn reaches(self, other: CollisionGroups) -> bool {
        self.memberships.intersects(other.filters)
    }
}

impl Default for CollisionGroups {
    /// Member of every group, and looking for every group.
    fn default() -> (g: CollisionGroups)
        ensures
            g.memberships@ == 0xffff_ffffu32,
            g.filters@ == 0xffff_ffffu32,
    {
        CollisionGroups { memberships: Group::all(), filters: Group::all() }
    }
}

/// What the detection pass reads of one entity and where it writes.
#[derive(Debug)]
pub struct CollisionBody {
    pub groups: CollisionGroups,
    /// The position in the world.
    pub position: Vec3,
    pub collider: Collider,
}

/// Whether `b` is recorded as colliding with `a`: they are two entities,
/// the masks let `a` reach `b`, and their positions are apart by more than
/// nothing and by less than the sum of their radii.
pub open spec fn overlaps(a: Row<CollisionBody>, b: Row<CollisionBody>) -> bool {
    &&& a.entity != b.entity
    &&& a.item.groups.reaches(b.item.groups)
    &&& within(a.item.position, b.item.position, a.item.collider.radius + b.item.collider.radius)
}

/// Picks the entity of each body that overlaps `a`.
pub open spec fn partner_of(a: Row<CollisionBody>) -> spec_fn(Row<CollisionBody>) -> Option<
    Entity,
> {
    |b: Row<CollisionBody>|
        if overlaps(a, b) {
            Some(b.entity)
        } else {
            None
        }
}

/// The entities among `rows` that overlap `a`, in the order of `rows`.
pub open spec fn partners(a: Row<CollisionBody>, rows: Seq<Row<CollisionBody>>) -> Seq<Entity> {
    rows.filter_map(partner_of(a))
}

/// The key under which the ordered pair of `a` and `b` is recorded.
pub open spec fn pair_key(a: Entity, b: Entity) -> (u64, u64) {
    (a.bits, b.bits)
}

/// Whether `key` stands for an ordered pair of `rows` that overlaps, and
/// that a pass over the pairs has reached: the pass goes through the first
/// entities in order and, for each, through the second ones in order, and
/// has come to the pair of rows `i` and `j`.
pub open spec fn overlap_seen(
    rows: Seq<Row<CollisionBody>>,
    key: (u64, u64),
    i: int,
    j: int,
) -> bool {
    exists|a: int, b: int|
        0 <= a < rows.len() && 0 <= b < rows.len() && (a < i || (a == i && b < j))
            && #[trigger] overlaps(rows[a], rows[b]) && key == pair_key(
            rows[a].entity,
            rows[b].entity,
        )
}

/// Whether `key` stands for an ordered pair of `rows` that overlaps.
pub open spec fn overlap_key(rows: Seq<Row<CollisionBody>>, key: (u64, u64)) -> bool {
    overlap_seen(rows, key, rows.len() as int, 0)
}

/// The collision records after a detection pass over `rows`: there is a
/// record for each ordered pair that overlaps now and for nothing else, and
/// it says whether the pair is new, that is, had no record before the pass.
pub open spec fn latched(before: Map<(u64, u64), bool>, rows: Seq<Row<CollisionBody>>) -> Map<
    (u64, u64),
    bool,
> {
    Map::new(|key: (u64, u64)| overlap_key(rows, key), |key: (u64, u64)| !before.contains_key(key))
}

/// The records of a pass that has come to the pair of rows `i` and `j`.
pub open spec fn latched_upto(
    before: Map<(u64, u64), bool>,
    rows: Seq<Row<CollisionBody>>,
    i: int,
    j: int,
) -> Map<(u64, u64), bool> {
    Map::new(
        |key: (u64, u64)| overlap_seen(rows, key, i, j),
        |key: (u64, u64)| !before.contains_key(key),
    )
}

/// The ordered pairs of entities that a detection pass has found
/// overlapping, each with a flag that tells a contact that has just begun
/// from one that was there on the pass before. A pair leaves the records
/// on the first pass that no longer finds it overlapping.
///
/// The pairs are kept in a `hashbrown::HashMap`, which is taken on trust:
/// `record_entries` names what it holds, and the functions below say what
/// the map's own methods do to that.
#[verifier::external_body]
pub struct CollisionRecords {
    value: HashMap<(u64, u64), bool>,
}

/// What the records hold: for each recorded pair of entity bits, whether
/// the contact is new.
pub uninterp spec fn record_entries(records: CollisionRecords) -> Map<(u64, u64), bool>;

/// Calls `hashbrown::HashMap::new`: a map that holds nothing.
#[verifier::external_body]
fn records_new() -> (records: CollisionRecords)
    ensures
        forall|key: (u64, u64)| !record_entries(records).contains_key(key),
{
    CollisionRecords { value: HashMap::new() }
}

/// Calls `hashbrown::HashMap::get`: the value under the key, if the map
/// holds the key.
#[verifier::external_body]
fn records_get(records: &CollisionRecords, a: u64, b: u64) -> (r: Option<bool>)
    ensures
        r == (if record_entries(*records).contains_key((a, b)) {
            Some(record_entries(*records)[(a, b)])
        } else {
            None
        }),
{
    records.value.get(&(a, b)).copied()
}

/// Calls `hashbrown::HashMap::insert`: afterwards the map holds the value
/// under the key, and is unchanged under every other key.
#[verifier::external_body]
fn records_insert(records: &mut CollisionRecords, a: u64, b: u64, fresh: bool)
    ensures
        record_entries(*final(records)) == record_entries(*old(records)).insert((a, b), fresh),
{
    records.value.insert((a, b), fresh);
}

impl CollisionRecords {
    /// Records that hold no pair.
    pub fn new() -> (records: CollisionRecords)
        ensures
            record_entries(records) == Map::<(u64, u64), bool>::empty(),
    {
        let records = records_new();
        assert(record_entries(records) =~= Map::<(u64, u64), bool>::empty());
        records
    }

    /// Whether `b` was found overlapping `a` on the last pass.
    pub fn contains(&self, a: Entity, b: Entity) -> (r: bool)
        ensures
            r == record_entries(*self).contains_key(pair_key(a, b)),
    {
        records_get(self, a.bits, b.bits).is_some()
    }

    /// Whether the contact of `b` with `a` began on the last pass (`true`)
    /// or was there before it (`false`); `None` if there is no such contact.
    pub fn get(&self, a: Entity, b: Entity) -> (r: Option<bool>)
        ensures
            r == (if record_entries(*self).contains_key(pair_key(a, b)) {
                Some(record_entries(*self)[pair_key(a, b)])
            } else {
                None
            }),
    {
        records_get(self, a.bits, b.bits)
    }
}

/// The lists of partners that a detection pass gathers, keyed by the bits
/// of the entity that each list belongs to.
///
/// The lists are kept in a `hashbrown::HashMap`, which is taken on trust:
/// `scratch_lists` names what it holds, and the functions below say what
/// the map's own methods do to that.
#[verifier::external_body]
pub struct Scratch {
    lists: HashMap<u64, Vec<Entity>>,
}

/// What the scratch mapping holds: a list of entities under each key.
pub uninterp spec fn scratch_lists(scratch: Scratch) -> Map<u64, Seq<Entity>>;

/// Calls `hashbrown::HashMap::new`: a map that holds nothing.
#[verifier::external_body]
fn scratch_new() -> (scratch: Scratch)
    ensures
        forall|key: u64| !scratch_lists(scratch).contains_key(key),
{
    Scratch { lists: HashMap::new() }
}

/// Calls `hashbrown::HashMap::remove`: takes the list under the key out of
/// the map and returns it, or returns `None` if the map does not hold the
/// key; the map is unchanged under every other key.
#[verifier::external_body]
fn scratch_take(scratch: &mut Scratch, key: u64) -> (r: Option<Vec<Entity>>)
    ensures
        scratch_lists(*final(scratch)) == scratch_lists(*old(scratch)).remove(key),
        r is Some == scratch_lists(*old(scratch)).contains_key(key),
        r matches Some(list) ==> list@ == scratch_lists(*old(scratch))[key],
{
    scratch.lists.remove(&key)
}

/// Calls `hashbrown::HashMap::insert`: afterwards the map holds the list
/// under the key, and is unchanged under every other key.
#[verifier::external_body]
fn scratch_put(scratch: &mut Scratch, key: u64, list: Vec<Entity>)
    ensures
        scratch_lists(*final(scratch)) == scratch_lists(*old(scratch)).insert(key, list@),
{
    scratch.lists.insert(key, list);
}

/// Whether `b` is recorded as colliding with `a`. The masks are tested
/// before the distance.
pub fn touching(a: &Row<CollisionBody>, b: &Row<CollisionBody>) -> (r: bool)
    ensures
        r == overlaps(*a, *b),
{
    if a.entity == b.entity {
        return false;
    }
    if !a.item.groups.memberships.intersects(b.item.groups.filters) {
        return false;
    }
    is_within(
        &a.item.position,
        &b.item.position,
        a.item.collider.radius as u64 + b.item.collider.radius as u64,
    )
}

/// Going one body further along `rows` adds that body's entity to the
/// partners of `a` if it overlaps `a`, and nothing otherwise.
pub proof fn lemma_partners_step(a: Row<CollisionBody>, rows: Seq<Row<CollisionBody>>, j: int)
    requires
        0 <= j < rows.len(),
    ensures
        partners(a, rows.take(j + 1)) == if overlaps(a, rows[j]) {
            partners(a, rows.take(j)).push(rows[j].entity)
        } else {
            partners(a, rows.take(j))
        },
{
    rows.lemma_filter_map_take_succ(partner_of(a), j);
    let so_far = partners(a, rows.take(j));
    if overlaps(a, rows[j]) {
        assert(so_far + seq![rows[j].entity] =~= so_far.push(rows[j].entity));
    } else {
        assert(so_far + Seq::<Entity>::empty() =~= so_far);
    }
}

/// An entity is among the partners of `a` exactly if it is the entity of a
/// body that overlaps `a`: of another entity, reached through the masks,
/// and apart from `a` by more than nothing and by less than the two radii
/// together.
pub proof fn lemma_partner_iff_overlapping(
    a: Row<CollisionBody>,
    rows: Seq<Row<CollisionBody>>,
    entity: Entity,
)
    ensures
        partners(a, rows).contains(entity) <==> exists|j: int|
            0 <= j < rows.len() && #[trigger] overlaps(a, rows[j]) && rows[j].entity == entity,
    decreases rows.len(),
{
    if rows.len() > 0 {
        let last = rows.len() - 1;
        let front = rows.take(last);
        lemma_partner_iff_overlapping(a, front, entity);
        lemma_partners_step(a, rows, last);
        assert(rows.take(last + 1) =~= rows);
        let found = partners(a, front);
        if partners(a, rows).contains(entity) {
            let at = choose|at: int| 0 <= at < partners(a, rows).len() && partners(a, rows)[at] == entity;
            if at < found.len() {
                assert(found[at] == entity);
                assert(found.contains(entity));
                let j = choose|j: int|
                    0 <= j < front.len() && #[trigger] overlaps(a, front[j]) && front[j].entity
                        == entity;
                assert(overlaps(a, rows[j]) && rows[j].entity == entity);
            } else {
                assert(overlaps(a, rows[last]) && rows[last].entity == entity);
            }
        }
        if exists|j: int|
            0 <= j < rows.len() && #[trigger] overlaps(a, rows[j]) && rows[j].entity == entity {
            let j = choose|j: int|
                0 <= j < rows.len() && #[trigger] overlaps(a, rows[j]) && rows[j].entity == entity;
            if j < last {
                assert(overlaps(a, front[j]) && front[j].entity == entity);
                let at = choose|at: int| 0 <= at < found.len() && found[at] == entity;
                assert(partners(a, rows)[at] == entity);
            } else {
                assert(partners(a, rows)[found.len() as int] == entity);
            }
        }
    }
}

/// Overlap is mutual where the masks are: if each of two bodies reaches the
/// other through the masks, or neither does, then the first overlaps the
/// second exactly if the second overlaps the first. The sum of the radii
/// and the distance do not depend on the side they are taken from.
pub proof fn lemma_overlap_symmetric(a: Row<CollisionBody>, b: Row<CollisionBody>)
    requires
        a.item.groups.reaches(b.item.groups) == b.item.groups.reaches(a.item.groups),
    ensures
        overlaps(a, b) == overlaps(b, a),
{
    crate::vector::lemma_dist_sq_symmetric(a.item.position, b.item.position);
}

/// Whether the scratch mapping holds `list` for `key`: under the key if the
/// list has an entity, and by holding nothing under the key if it has none.
spec fn holds_list(lists: Map<u64, Seq<Entity>>, key: u64, list: Seq<Entity>) -> bool {
    if list.len() > 0 {
        lists.contains_key(key) && lists[key] == list
    } else {
        !lists.contains_key(key)
    }
}

/// The detection pass.
///
/// For every ordered pair of bodies it decides whether the second overlaps
/// the first, gathers the partners of each body in a scratch mapping, and
/// at the end replaces each body's list of colliding entities by what was
/// gathered for it: the entities that overlap it now, in the order of the
/// rows. Nothing else of a body changes.
///
/// The records are brought up to date: afterwards they hold the ordered
/// pairs that overlap now, each marked new if it had no record before.
pub fn collision_detection(bodies: &mut Vec<Row<CollisionBody>>, records: &mut CollisionRecords)
    requires
        distinct(old(bodies)@),
    ensures
        final(bodies).len() == old(bodies).len(),
        forall|k: int|
            0 <= k < old(bodies).len() ==> {
                let before = #[trigger] old(bodies)[k];
                let after = final(bodies)[k];
                &&& after.entity == before.entity
                &&& after.item.groups == before.item.groups
                &&& after.item.position == before.item.position
                &&& after.item.collider.radius == before.item.collider.radius
                &&& after.item.collider.colliding_entities@ == partners(before, old(bodies)@)
            },
        record_entries(*final(records)) == latched(record_entries(*old(records)), old(bodies)@),
{
    let ghost rows = bodies@;
    let ghost before = record_entries(*records);
    let n = bodies.len();
    let mut scratch = scratch_new();
    let mut fresh = records_new();
    assert(record_entries(fresh) =~= latched_upto(before, rows, 0, 0));
    let mut i: usize = 0;
    while i < n
        invariant
            i <= n,
            n == rows.len(),
            bodies@ == rows,
            distinct(rows),
            before == record_entries(*records),
            record_entries(fresh) == latched_upto(before, rows, i as int, 0),
            forall|k: int|
                0 <= k < i ==> holds_list(
                    scratch_lists(scratch),
                    (#[trigger] rows[k]).entity.bits,
                    partners(rows[k], rows),
                ),
            forall|k: int|
                i <= k < n ==> !scratch_lists(scratch).contains_key(
                    (#[trigger] rows[k]).entity.bits,
                ),
        decreases n - i,
    {
        let mut j: usize = 0;
        assert(partners(rows[i as int], rows.take(0)) =~= Seq::<Entity>::empty());
        while j < n
            invariant
                i < n,
                j <= n,
                n == rows.len(),
                bodies@ == rows,
                distinct(rows),
                before == record_entries(*records),
                record_entries(fresh) == latched_upto(before, rows, i as int, j as int),
                forall|k: int|
                    0 <= k < i ==> holds_list(
                        scratch_lists(scratch),
                        (#[trigger] rows[k]).entity.bits,
                        partners(rows[k], rows),
                    ),
                holds_list(
                    scratch_lists(scratch),
                    rows[i as int].entity.bits,
                    partners(rows[i as int], rows.take(j as int)),
                ),
                forall|k: int|
                    i < k < n ==> !scratch_lists(scratch).contains_key(
                        (#[trigger] rows[k]).entity.bits,
                    ),
            decreases n - j,
        {
            let ghost lists = scratch_lists(scratch);
            let ghost held = record_entries(fresh);
            proof {
                lemma_partners_step(rows[i as int], rows, j as int);
            }
            if touching(&bodies[i], &bodies[j]) {
                let a = bodies[i].entity;
                let b = bodies[j].entity;
                let seen = records_get(records, a.bits, b.bits).is_some();
                records_insert(&mut fresh, a.bits, b.bits, !seen);
                let mut list = match scratch_take(&mut scratch, a.bits) {
                    Some(list) => list,
                    None => Vec::new(),
                };
                assert(list@ =~= partners(rows[i as int], rows.take(j as int)));
                list.push(b);
                scratch_put(&mut scratch, a.bits, list);
                proof {
                    assert forall|k: int| 0 <= k < i implies holds_list(
                        scratch_lists(scratch),
                        (#[trigger] rows[k]).entity.bits,
                        partners(rows[k], rows),
                    ) by {
                        assert(rows[k].entity != rows[i as int].entity);
                        assert(holds_list(lists, rows[k].entity.bits, partners(rows[k], rows)));
                    }
                    assert forall|k: int| i < k < n implies !scratch_lists(scratch).contains_key(
                        (#[trigger] rows[k]).entity.bits,
                    ) by {
                        assert(rows[k].entity != rows[i as int].entity);
                    }
                    let key = pair_key(a, b);
                    assert forall|other: (u64, u64)|
                        overlap_seen(rows, other, i as int, j + 1) == (overlap_seen(
                            rows,
                            other,
                            i as int,
                            j as int,
                        ) || other == key) by {
                        assert(overlaps(rows[i as int], rows[j as int]));
                    }
                    assert(record_entries(fresh) =~= latched_upto(before, rows, i as int, j + 1));
                }
            } else {
                proof {
                    assert forall|other: (u64, u64)|
                        overlap_seen(rows, other, i as int, j + 1) == overlap_seen(
                            rows,
                            other,
                            i as int,
                            j as int,
                        ) by {}
                    assert(held =~= latched_upto(before, rows, i as int, j + 1));
                }
            }
            j += 1;
        }
        proof {
            assert(rows.take(n as int) =~= rows);
            assert forall|other: (u64, u64)|
                overlap_seen(rows, other, i + 1, 0) == overlap_seen(rows, other, i as int, n as int) by {}
            assert(record_entries(fresh) =~= latched_upto(before, rows, i + 1, 0));
        }
        i += 1;
    }
    *records = fresh;
    assert(record_entries(*records) =~= latched(before, rows));

    let mut i: usize = 0;
    while i < n
        invariant
            i <= n,
            n == rows.len(),
            bodies.len() == n,
            distinct(rows),
            forall|k: int|
                0 <= k < n ==> {
                    let before = #[trigger] rows[k];
                    let after = bodies[k];
                    &&& after.entity == before.entity
                    &&& after.item.groups == before.item.groups
                    &&& after.item.position == before.item.position
                    &&& after.item.collider.radius == before.item.collider.radius
                },
            forall|k: int|
                0 <= k < i ==> bodies[k].item.collider.colliding_entities@ == partners(
                    #[trigger] rows[k],
                    rows,
                ),
            forall|k: int|
                i <= k < n ==> holds_list(
                    scratch_lists(scratch),
                    (#[trigger] rows[k]).entity.bits,
                    partners(rows[k], rows),
                ),
        decreases n - i,
    {
        let ghost lists = scratch_lists(scratch);
        let ghost held = bodies@;
        assert(holds_list(lists, rows[i as int].entity.bits, partners(rows[i as int], rows)));
        let mut list = match scratch_take(&mut scratch, bodies[i].entity.bits) {
            Some(list) => list,
            None => Vec::new(),
        };
        assert(list@ =~= partners(rows[i as int], rows));
        bodies[i].item.collider.colliding_entities.clear();
        bodies[i].item.collider.colliding_entities.append(&mut list);
        proof {
            assert forall|k: int| i < k < n implies holds_list(
                scratch_lists(scratch),
                (#[trigger] rows[k]).entity.bits,
                partners(rows[k], rows),
            ) by {
                assert(rows[k].entity != rows[i as int].entity);
                assert(holds_list(lists, rows[k].entity.bits, partners(rows[k], rows)));
            }
            assert forall|k: int| 0 <= k < n && k != i implies bodies[k] == held[k] by {}
        }
        i += 1;
    }
}

} // verus!
