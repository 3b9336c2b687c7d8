//! Detection: which trackers see which targets, and which of them come
//! close enough to fight.

use vstd::prelude::*;
use crate::attack::AttackOccurance;
use crate::entity::{Entity, Row};
use crate::group::Group;
use crate::vector::{is_within, within, Vec3};

verus! {

/// The distance below which a tracker engages a target, in thousandths.
pub const ATTACK_RANGE: u32 = 40_000;

/// How far an entity sees.
#[derive(Copy, Clone, Debug, PartialEq, Eq, Structural)]
pub struct Tracker {
    pub vision: u32,
}

impl Tracker {
    pub fn new(vision: u32) -> (t: Tracker)
        ensures
            t.vision == vision,
    {
        Tracker { vision }
    }
}

/// Marks an entity that a scan can see. An entity without it is invisible
/// to every tracker, whatever its groups.
#[derive(Copy, Clone, Debug, PartialEq, Eq, Structural)]
pub struct Target;

/// Says that a tracker sees a target that is out of its attack range.
#[derive(Copy, Clone, Debug, PartialEq, Eq, Structural)]
pub struct DetectionEvent {
    pub tracker_entity: Entity,
    pub target_entity: Entity,
}

impl DetectionEvent {
    pub fn new(tracker_entity: Entity, target_entity: Entity) -> (e: DetectionEvent)
        ensures
            e == (DetectionEvent { tracker_entity, target_entity }),
    {
        DetectionEvent { tracker_entity, target_entity }
    }
}

/// Pairwise filtering of detection using bit masks: a tracker looks for
/// the groups in its filters, and a target is found by the groups in its
/// memberships.
#[derive(Copy, Clone, Debug, PartialEq, Eq, Hash, Structural)]
pub struct DetectionGroups {
    /// Groups memberships.
    pub memberships: Group,
    /// Groups filter.
    pub filters: Group,
}

impl DetectionGroups {
    /// Creates new detection groups with the given membership masks and filter masks.
    pub fn new(memberships: Group, filters: Group) -> (g: DetectionGroups)
        ensures
            g == (DetectionGroups { memberships, filters }),
    {
        DetectionGroups { memberships, filters }
    }

    /// Whether a tracker with these groups looks for a target that has the
    /// groups `other`.
    pub open spec fn seeks(self, other: DetectionGroups) -> bool {
        self.filters.intersects(other.memberships)
    }
}

impl Default for DetectionGroups {
    /// Member of every group, and looking for every group.
    fn default() -> (g: DetectionGroups)
        ensures
            g.memberships@ == 0xffff_ffffu32,
            g.filters@ == 0xffff_ffffu32,
    {
        DetectionGroups { memberships: Group::all(), filters: Group::all() }
    }
}

/// What a scan reads of a tracker.
#[derive(Copy, Clone, Debug, PartialEq, Eq, Structural)]
pub struct Watcher {
    pub groups: DetectionGroups,
    pub tracker: Tracker,
    /// The position in the world.
    pub position: Vec3,
    /// The engagement that the tracker holds, if it is fighting.
    pub engaged: Option<AttackOccurance>,
}

/// What a scan reads of an entity that may be a target.
#[derive(Copy, Clone, Debug, PartialEq, Eq, Structural)]
pub struct Sighted {
    pub groups: DetectionGroups,
    /// The position in the world.
    pub position: Vec3,
    /// The marker that makes the entity visible.
    pub target: Option<Target>,
}

/// Whether `target` counts for `tracker` at all: it is another entity, it
/// is marked as a target, and the tracker looks for one of its groups.
pub open spec fn eligible(tracker: Row<Watcher>, target: Row<Sighted>) -> bool {
    &&& tracker.entity != target.entity
    &&& target.item.target is Some
    &&& tracker.item.groups.seeks(target.item.groups)
}

/// Whether `tracker` engages `target`: it counts, and it is apart from the
/// tracker by more than nothing and by less than the attack range.
pub open spec fn engages(tracker: Row<Watcher>, target: Row<Sighted>) -> bool {
    eligible(tracker, target) && within(
        tracker.item.position,
        target.item.position,
        ATTACK_RANGE as int,
    )
}

/// Whether `tracker` tracks `target`: it counts, it is apart from the
/// tracker and out of the attack range, and closer than the tracker sees.
pub open spec fn tracks(tracker: Row<Watcher>, target: Row<Sighted>) -> bool {
    &&& eligible(tracker, target)
    &&& !within(tracker.item.position, target.item.position, ATTACK_RANGE as int)
    &&& within(tracker.item.position, target.item.position, tracker.item.tracker.vision as int)
}

/// Picks the engagement of `tracker` with each target that it engages.
pub open spec fn engagement_with(tracker: Row<Watcher>) -> spec_fn(Row<Sighted>) -> Option<
    AttackOccurance,
> {
    |target: Row<Sighted>|
        if engages(tracker, target) {
            Some(AttackOccurance { attacker: tracker.entity, target: target.entity })
        } else {
            None
        }
}

/// Picks the detection event of `tracker` for each target that it tracks.
pub open spec fn sighting_of(tracker: Row<Watcher>) -> spec_fn(Row<Sighted>) -> Option<
    DetectionEvent,
> {
    |target: Row<Sighted>|
        if tracks(tracker, target) {
            Some(DetectionEvent { tracker_entity: tracker.entity, target_entity: target.entity })
        } else {
            None
        }
}

/// The engagements that a scan installs, tracker after tracker and, for
/// each, in the order of the targets. A tracker that is fighting is left
/// out of the scan.
pub open spec fn engagements(trackers: Seq<Row<Watcher>>, targets: Seq<Row<Sighted>>) -> Seq<
    AttackOccurance,
>
    decreases trackers.len(),
{
    if trackers.len() == 0 {
        Seq::empty()
    } else if trackers.last().item.engaged is Some {
        engagements(trackers.drop_last(), targets)
    } else {
        engagements(trackers.drop_last(), targets) + targets.filter_map(
            engagement_with(trackers.last()),
        )
    }
}

/// The detection events that a scan publishes, in the same order.
pub open spec fn sightings(trackers: Seq<Row<Watcher>>, targets: Seq<Row<Sighted>>) -> Seq<
    DetectionEvent,
>
    decreases trackers.len(),
{
    if trackers.len() == 0 {
        Seq::empty()
    } else if trackers.last().item.engaged is Some {
        sightings(trackers.drop_last(), targets)
    } else {
        sightings(trackers.drop_last(), targets) + targets.filter_map(
            sighting_of(trackers.last()),
        )
    }
}

/// What a scan found.
#[derive(Debug)]
pub struct Detections {
    /// The engagements to install on their attackers, in order; where one
    /// attacker has several, the last one stays.
    pub engagements: Vec<AttackOccurance>,
    /// The detection events to publish.
    pub events: Vec<DetectionEvent>,
}

/// How a tracker stands to a target.
#[derive(Copy, Clone, Debug, PartialEq, Eq, Structural)]
pub enum Contact {
    /// The target does not count, or is out of sight.
    Hidden,
    /// The target is seen, out of the attack range.
    Seen,
    /// The target is within the attack range.
    Engaged,
}

/// Classifies one target for one tracker. The masks are tested before the
/// distance, and the attack range before the vision.
pub fn classify(tracker: &Row<Watcher>, target: &Row<Sighted>) -> (c: Contact)
    ensures
        c == Contact::Engaged <==> engages(*tracker, *target),
        c == Contact::Seen <==> tracks(*tracker, *target),
{
    if tracker.entity == target.entity {
        return Contact::Hidden;
    }
    if target.item.target.is_none() {
        return Contact::Hidden;
    }
    if !tracker.item.groups.filters.intersects(target.item.groups.memberships) {
        return Contact::Hidden;
    }
    if is_within(&tracker.item.position, &target.item.position, ATTACK_RANGE as u64) {
        Contact::Engaged
    } else if is_within(
        &tracker.item.position,
        &target.item.position,
        tracker.item.tracker.vision as u64,
    ) {
        Contact::Seen
    } else {
        Contact::Hidden
    }
}

/// The detection scan of one kind of tracker against one kind of target.
///
/// `trackers` holds the trackers of the kind and `targets` the entities of
/// the other kind. A tracker that is fighting is passed over. For every
/// other tracker, each target that counts and is within the attack range
/// gives an engagement, and each that is beyond it but within the
/// tracker's vision gives a detection event.
pub fn detect(trackers: &Vec<Row<Watcher>>, targets: &Vec<Row<Sighted>>) -> (found: Detections)
    ensures
        found.engagements@ == engagements(trackers@, targets@),
        found.events@ == sightings(trackers@, targets@),
{
    let mut installed: Vec<AttackOccurance> = Vec::new();
    let mut events: Vec<DetectionEvent> = Vec::new();
    let mut i: usize = 0;
    assert(trackers@.take(0) =~= Seq::<Row<Watcher>>::empty());
    while i < trackers.len()
        invariant
            i <= trackers.len(),
            installed@ == engagements(trackers@.take(i as int), targets@),
            events@ == sightings(trackers@.take(i as int), targets@),
        decreases trackers.len() - i,
    {
        let tracker = &trackers[i];
        let ghost installed_before = installed@;
        let ghost events_before = events@;
        proof {
            assert(trackers@.take(i + 1).drop_last() =~= trackers@.take(i as int));
            assert(trackers@.take(i + 1).last() == trackers@[i as int]);
        }
        if tracker.item.engaged.is_none() {
            let mut j: usize = 0;
            assert(targets@.take(0) =~= Seq::<Row<Sighted>>::empty());
            while j < targets.len()
                invariant
                    j <= targets.len(),
                    installed@ == installed_before + targets@.take(j as int).filter_map(
                        engagement_with(*tracker),
                    ),
                    events@ == events_before + targets@.take(j as int).filter_map(
                        sighting_of(*tracker),
                    ),
                decreases targets.len() - j,
            {
                let target = &targets[j];
                proof {
                    targets@.lemma_filter_map_take_succ(engagement_with(*tracker), j as int);
                    targets@.lemma_filter_map_take_succ(sighting_of(*tracker), j as int);
                }
                match classify(tracker, target) {
                    Contact::Engaged => {
                        installed.push(AttackOccurance::new(tracker.entity, target.entity));
                    },
                    Contact::Seen => {
                        events.push(DetectionEvent::new(tracker.entity, target.entity));
                    },
                    Contact::Hidden => {},
                }
                assert(installed@ =~= installed_before + targets@.take(j + 1).filter_map(
                    engagement_with(*tracker),
                ));
                assert(events@ =~= events_before + targets@.take(j + 1).filter_map(
                    sighting_of(*tracker),
                ));
                j += 1;
            }
            assert(targets@.take(targets.len() as int) =~= targets@);
        }
        i += 1;
    }
    assert(trackers@.take(trackers.len() as int) =~= trackers@);
    Detections { engagements: installed, events }
}

/// Fighting and chasing exclude each other: a target is never both engaged
/// and tracked by one tracker, and a target that is engaged or tracked
/// counts and is apart from the tracker.
pub proof fn lemma_engaged_or_tracked(tracker: Row<Watcher>, target: Row<Sighted>)
    ensures
        !(engages(tracker, target) && tracks(tracker, target)),
        engages(tracker, target) || tracks(tracker, target) ==> eligible(tracker, target)
            && tracker.item.position.dist_sq(target.item.position) > 0,
{
}

/// A tracker that is fighting is out of the scan: with it or without it,
/// the scan finds the same.
pub proof fn lemma_fighting_tracker_skipped(
    trackers: Seq<Row<Watcher>>,
    targets: Seq<Row<Sighted>>,
    tracker: Row<Watcher>,
)
    requires
        tracker.item.engaged is Some,
    ensures
        engagements(trackers.push(tracker), targets) == engagements(trackers, targets),
        sightings(trackers.push(tracker), targets) == sightings(trackers, targets),
{
    assert(trackers.push(tracker).drop_last() =~= trackers);
}

} // verus!
