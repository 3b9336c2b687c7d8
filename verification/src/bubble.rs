//! Bubbles: the player's homing projectiles, and the spawners that blow
//! them.

use vstd::prelude::*;
use crate::collisions::{Collider, CollisionDamage, CollisionGroups};
use crate::detection::{DetectionEvent, DetectionGroups, Target, Tracker};
use crate::entity::{find, first_at, lemma_same_entities_same_first, lookup, Entity, Row};
use crate::fixed::{clamp_i32, div_toward_zero, saturate, trunc_div};
use crate::group::Group;
use crate::health::Health;
use crate::mana::Mana;
use crate::movement::{Acceleration, KinematicBundle, Velocity};
use crate::timer::{Timer, TimerMode};
use crate::vector::{lemma_square_bound, Vec3};

verus! {

/// How far above the player a spawner is put.
pub const SPAWNER_SPAWN_OFFSET: i32 = 32_000;

pub const SPAWNER_SPRITE_LAYER: i32 = -1_000;

/// The time between two bubbles of one spawner, in nanoseconds.
pub const SPAWNER_SPAWN_RATE: u64 = 2_000_000_000;

pub const SPAWNER_HEALTH: i32 = 80_000;

pub const SPAWNER_COLLIDER_RADIUS: u32 = 16_000;

/// The mana that a spawner costs.
pub const SPAWNER_COST: i32 = 20_000;

/// How far above its spawner a bubble appears.
pub const BUBBLE_SPAWN_OFFSET: i32 = 6_000;

pub const BUBBLE_SPRITE_LAYER: i32 = 1_000;

/// The time after which a bubble bursts, in nanoseconds.
pub const BUBBLE_LIFETIME: u64 = 6_000_000_000;

/// The pull of a bubble toward its target: the acceleration at the
/// distance of one thousandth, in thousandths per second squared. It is
/// 1800 at the distance of one world unit.
pub const BUBBLE_ACCELERATION_RATE: i64 = 1_800_000_000;

pub const BUBBLE_COLLIDER_RADIUS: u32 = 8_000;

pub const BUBBLE_HEALTH: i32 = 1_000;

pub const BUBBLE_COLLISION_DAMAGE: i32 = 3_000;

pub const BUBBLE_DETECTION_RADIUS: u32 = 420_000;

/// A structure that blows a bubble each time its timer completes.
#[derive(Copy, Clone, Debug, PartialEq, Eq, Structural)]
pub struct BubbleSpawner {
    pub spawn_rate: Timer,
}

/// A bubble, and the timer that ends it.
#[derive(Copy, Clone, Debug, PartialEq, Eq, Structural)]
pub struct Bubble {
    pub lifetime: Timer,
}

/// The components that every bubble spawner starts with.
#[derive(Debug)]
pub struct BubbleSpawnerBundle {
    pub translation: Vec3,
    pub collider: Collider,
    pub collision_groups: CollisionGroups,
    pub detection_groups: DetectionGroups,
    pub target: Target,
    pub health: Health,
    pub spawner: BubbleSpawner,
}

/// The components that every bubble starts with.
#[derive(Debug)]
pub struct BubbleBundle {
    pub translation: Vec3,
    pub kinematics: KinematicBundle,
    pub collider: Collider,
    pub collision_groups: CollisionGroups,
    pub health: Health,
    pub collision_damage: CollisionDamage,
    pub detection_groups: DetectionGroups,
    pub tracker: Tracker,
    pub bubble: Bubble,
}

impl BubbleSpawnerBundle {
    /// Whether this is a spawner as it is built by a player at `player`:
    /// above the player on the layer of the structures, an ally that looks
    /// for nothing, visible as a target, with full health and a timer that
    /// has not run.
    pub open spec fn is_new_at(&self, player: Vec3) -> bool {
        &&& self.translation == (Vec3 {
            x: player.x,
            y: clamp_i32(player.y + SPAWNER_SPAWN_OFFSET) as i32,
            z: SPAWNER_SPRITE_LAYER,
        })
        &&& self.collider.is_new(SPAWNER_COLLIDER_RADIUS)
        &&& self.collision_groups.memberships@ == 0x02
        &&& self.collision_groups.filters@ == 0
        &&& self.detection_groups.memberships@ == 0x02
        &&& self.detection_groups.filters@ == 0
        &&& self.health.value == SPAWNER_HEALTH
        &&& self.spawner.spawn_rate == (Timer {
            duration: SPAWNER_SPAWN_RATE,
            elapsed: 0,
            mode: TimerMode::Repeating,
            finished: false,
            times_finished_this_tick: 0,
        })
    }
}

impl BubbleBundle {
    /// Whether this is a bubble as it leaves a spawner at `spawner`: above
    /// the spawner on the layer of the bubbles, at rest, an ally that looks
    /// for enemies, with a one-shot timer for its lifetime that has not
    /// run.
    pub open spec fn is_new_at(&self, spawner: Vec3) -> bool {
        &&& self.translation == (Vec3 {
            x: spawner.x,
            y: clamp_i32(spawner.y + BUBBLE_SPAWN_OFFSET) as i32,
            z: BUBBLE_SPRITE_LAYER,
        })
        &&& self.kinematics.velocity.value == (Vec3 { x: 0, y: 0, z: 0 })
        &&& self.kinematics.acceleration.value == (Vec3 { x: 0, y: 0, z: 0 })
        &&& self.collider.is_new(BUBBLE_COLLIDER_RADIUS)
        &&& self.collision_groups.memberships@ == 0x02
        &&& self.collision_groups.filters@ == 0x08
        &&& self.health.value == BUBBLE_HEALTH
        &&& self.collision_damage.amount == BUBBLE_COLLISION_DAMAGE
        &&& self.detection_groups.memberships@ == 0x02
        &&& self.detection_groups.filters@ == 0x08
        &&& self.tracker.vision == BUBBLE_DETECTION_RADIUS
        &&& self.bubble.lifetime == (Timer {
            duration: BUBBLE_LIFETIME,
            elapsed: 0,
            mode: TimerMode::Once,
            finished: false,
            times_finished_this_tick: 0,
        })
    }
}

/// Builds a bubble spawner for the player, if the player asks for one and
/// can pay for it.
///
/// `pressed` says whether the key for it has just gone down, and `player`
/// holds the position of the player if there is exactly one. A spawner is
/// built, and its cost taken from the pool, only if the key went down,
/// there is a player and the pool holds the cost. Otherwise nothing is
/// built and the pool stays as it is.
pub fn spawn_bubble_spawner(pressed: bool, player: Option<Vec3>, mana: &mut Mana) -> (built: Option<
    BubbleSpawnerBundle,
>)
    ensures
        built is Some <==> pressed && player is Some && old(mana).affords(SPAWNER_COST),
        built matches Some(bundle) ==> bundle.is_new_at(player->0),
        *final(mana) == if built is Some {
            old(mana).plus(-SPAWNER_COST)
        } else {
            *old(mana)
        },
{
    if !pressed {
        return None;
    }
    let place = match player {
        Some(place) => place,
        None => {
            return None;
        },
    };
    if !mana.spend(SPAWNER_COST) {
        return None;
    }
    Some(
        BubbleSpawnerBundle {
            translation: Vec3::new(
                place.x,
                saturate(place.y as i128 + SPAWNER_SPAWN_OFFSET as i128),
                SPAWNER_SPRITE_LAYER,
            ),
            collider: Collider::new(SPAWNER_COLLIDER_RADIUS),
            collision_groups: CollisionGroups::new(Group::ally(), Group::none()),
            detection_groups: DetectionGroups::new(Group::ally(), Group::none()),
            target: Target,
            health: Health::new(SPAWNER_HEALTH),
            spawner: BubbleSpawner {
                spawn_rate: Timer::new(SPAWNER_SPAWN_RATE, TimerMode::Repeating),
            },
        },
    )
}

/// A bubble spawner and where it stands.
#[derive(Copy, Clone, Debug, PartialEq, Eq, Structural)]
pub struct Blower {
    pub spawner: BubbleSpawner,
    pub translation: Vec3,
}

/// Picks the position of each spawner whose timer completes on a tick of
/// `delta`.
pub open spec fn blowing(delta: u64) -> spec_fn(Blower) -> Option<Vec3> {
    |blower: Blower|
        if blower.spawner.spawn_rate.ticked(delta).spec_just_finished() {
            Some(blower.translation)
        } else {
            None
        }
}

/// The components of a new bubble above a spawner at `spawner`.
pub fn new_bubble(spawner: Vec3) -> (bubble: BubbleBundle)
    ensures
        bubble.is_new_at(spawner),
{
    BubbleBundle {
        translation: Vec3::new(
            spawner.x,
            saturate(spawner.y as i128 + BUBBLE_SPAWN_OFFSET as i128),
            BUBBLE_SPRITE_LAYER,
        ),
        kinematics: KinematicBundle {
            velocity: Velocity::new(Vec3::zero()),
            acceleration: Acceleration::new(Vec3::zero()),
        },
        collider: Collider::new(BUBBLE_COLLIDER_RADIUS),
        collision_groups: CollisionGroups::new(Group::ally(), Group::enemy()),
        health: Health::new(BUBBLE_HEALTH),
        collision_damage: CollisionDamage::new(BUBBLE_COLLISION_DAMAGE),
        detection_groups: DetectionGroups::new(Group::ally(), Group::enemy()),
        tracker: Tracker::new(BUBBLE_DETECTION_RADIUS),
        bubble: Bubble { lifetime: Timer::new(BUBBLE_LIFETIME, TimerMode::Once) },
    }
}

/// Ticks the spawners and blows a bubble from each whose timer completes.
///
/// Every spawner's timer advances by `delta`. Each spawner whose timer has
/// just finished gives one new bubble, however many periods the tick
/// covered; the bubbles come in the order of the spawners.
pub fn spawn_bubble(spawners: &mut Vec<Blower>, delta: u64) -> (bubbles: Vec<BubbleBundle>)
    ensures
        final(spawners).len() == old(spawners).len(),
        forall|k: int|
            0 <= k < old(spawners).len() ==> {
                let before = #[trigger] old(spawners)[k];
                let after = final(spawners)[k];
                &&& after.translation == before.translation
                &&& after.spawner.spawn_rate == before.spawner.spawn_rate.ticked(delta)
            },
        bubbles.len() == old(spawners)@.filter_map(blowing(delta)).len(),
        forall|i: int|
            0 <= i < bubbles.len() ==> (#[trigger] bubbles[i]).is_new_at(
                old(spawners)@.filter_map(blowing(delta))[i],
            ),
{
    let ghost rows = spawners@;
    let mut bubbles: Vec<BubbleBundle> = Vec::new();
    let mut i: usize = 0;
    assert(rows.take(0) =~= Seq::<Blower>::empty());
    while i < spawners.len()
        invariant
            i <= spawners.len(),
            spawners.len() == rows.len(),
            forall|k: int| i <= k < rows.len() ==> spawners[k] == rows[k],
            forall|k: int|
                0 <= k < i ==> {
                    let before = #[trigger] rows[k];
                    let after = spawners[k];
                    &&& after.translation == before.translation
                    &&& after.spawner.spawn_rate == before.spawner.spawn_rate.ticked(delta)
                },
            bubbles.len() == rows.take(i as int).filter_map(blowing(delta)).len(),
            forall|j: int|
                0 <= j < bubbles.len() ==> (#[trigger] bubbles[j]).is_new_at(
                    rows.take(i as int).filter_map(blowing(delta))[j],
                ),
        decreases spawners.len() - i,
    {
        proof {
            rows.lemma_filter_map_take_succ(blowing(delta), i as int);
        }
        spawners[i].spawner.spawn_rate.tick(delta);
        if spawners[i].spawner.spawn_rate.just_finished() {
            bubbles.push(new_bubble(spawners[i].translation));
        }
        i += 1;
    }
    assert(rows.take(rows.len() as int) =~= rows);
    bubbles
}

/// Picks the entity of each bubble whose lifetime is over after a tick of
/// `delta`.
pub open spec fn bursting(delta: u64) -> spec_fn(Row<Bubble>) -> Option<Entity> {
    |row: Row<Bubble>|
        if row.item.lifetime.ticked(delta).finished {
            Some(row.entity)
        } else {
            None
        }
}

/// Ticks the lifetime of the bubbles and names those that burst.
///
/// Every bubble's timer advances by `delta`. The bubbles whose timer is
/// finished come back in the order of the rows, for the engine to remove
/// with their children, whatever their health.
pub fn bubble_lifetime(bubbles: &mut Vec<Row<Bubble>>, delta: u64) -> (burst: Vec<Entity>)
    ensures
        final(bubbles).len() == old(bubbles).len(),
        forall|k: int|
            0 <= k < old(bubbles).len() ==> {
                let before = #[trigger] old(bubbles)[k];
                let after = final(bubbles)[k];
                &&& after.entity == before.entity
                &&& after.item.lifetime == before.item.lifetime.ticked(delta)
            },
        burst@ == old(bubbles)@.filter_map(bursting(delta)),
{
    let ghost rows = bubbles@;
    let mut burst: Vec<Entity> = Vec::new();
    let mut i: usize = 0;
    assert(rows.take(0) =~= Seq::<Row<Bubble>>::empty());
    while i < bubbles.len()
        invariant
            i <= bubbles.len(),
            bubbles.len() == rows.len(),
            forall|k: int| i <= k < rows.len() ==> bubbles[k] == rows[k],
            forall|k: int|
                0 <= k < i ==> {
                    let before = #[trigger] rows[k];
                    let after = bubbles[k];
                    &&& after.entity == before.entity
                    &&& after.item.lifetime == before.item.lifetime.ticked(delta)
                },
            burst@ == rows.take(i as int).filter_map(bursting(delta)),
        decreases bubbles.len() - i,
    {
        proof {
            rows.lemma_filter_map_take_succ(bursting(delta), i as int);
        }
        bubbles[i].item.lifetime.tick(delta);
        if bubbles[i].item.lifetime.finished() {
            burst.push(bubbles[i].entity);
        }
        assert(burst@ =~= rows.take(i + 1).filter_map(bursting(delta)));
        i += 1;
    }
    assert(rows.take(rows.len() as int) =~= rows);
    burst
}

/// What the homing reads and writes of a bubble.
#[derive(Copy, Clone, Debug, PartialEq, Eq, Structural)]
pub struct Homing {
    /// The position in the world.
    pub position: Vec3,
    pub acceleration: Acceleration,
}

/// The acceleration of a bubble at `tracker` that homes in on `target`.
///
/// The target is put on the render layer of the bubble. The acceleration
/// points at it and is the pull divided by the distance, so that it
/// weakens with the distance: each planar coordinate of the way to the
/// target is multiplied by the pull and divided by the square of the
/// distance, rounding toward zero. Where the two coincide on that layer
/// there is no way to go, and the acceleration is zero.
pub open spec fn homing(tracker: Vec3, target: Vec3) -> Vec3 {
    let dx = target.x - tracker.x;
    let dy = target.y - tracker.y;
    let s = dx * dx + dy * dy;
    if dx == 0 && dy == 0 {
        Vec3 { x: 0, y: 0, z: 0 }
    } else {
        Vec3 {
            x: clamp_i32(trunc_div(dx * BUBBLE_ACCELERATION_RATE, s)) as i32,
            y: clamp_i32(trunc_div(dy * BUBBLE_ACCELERATION_RATE, s)) as i32,
            z: 0,
        }
    }
}

/// Computes the acceleration of a bubble at `tracker` that homes in on
/// `target`.
pub fn home_in(tracker: &Vec3, target: &Vec3) -> (a: Vec3)
    ensures
        a == homing(*tracker, *target),
{
    let dx: i128 = target.x as i128 - tracker.x as i128;
    let dy: i128 = target.y as i128 - tracker.y as i128;
    if dx == 0 && dy == 0 {
        return Vec3::zero();
    }
    proof {
        lemma_square_bound(dx as int);
        lemma_square_bound(dy as int);
        assert(dx * dx + dy * dy > 0) by (nonlinear_arith)
            requires
                dx != 0 || dy != 0,
        ;
    }
    let s: i128 = dx * dx + dy * dy;
    let pull: i128 = BUBBLE_ACCELERATION_RATE as i128;
    assert(-0x8000_0000_0000_0000 < dx * pull < 0x8000_0000_0000_0000 && -0x8000_0000_0000_0000
        < dy * pull < 0x8000_0000_0000_0000) by (nonlinear_arith)
        requires
            -0x1_0000_0000 < dx < 0x1_0000_0000,
            -0x1_0000_0000 < dy < 0x1_0000_0000,
            pull == 1_800_000_000,
    ;
    Vec3 {
        x: saturate(div_toward_zero(dx * pull, s)),
        y: saturate(div_toward_zero(dy * pull, s)),
        z: 0,
    }
}

/// The acceleration of `tracker` after one detection event: set toward the
/// target if the event is about `tracker` and the target can be found,
/// unchanged otherwise.
pub open spec fn steered(
    acceleration: Vec3,
    tracker: Row<Homing>,
    event: DetectionEvent,
    targets: Seq<Row<Vec3>>,
) -> Vec3 {
    if event.tracker_entity == tracker.entity {
        match find(targets, event.target_entity) {
            Some(k) => homing(tracker.item.position, targets[k].item),
            None => acceleration,
        }
    } else {
        acceleration
    }
}

/// The acceleration of `tracker` after the detection events, taken in
/// order.
pub open spec fn acceleration_after(
    tracker: Row<Homing>,
    events: Seq<DetectionEvent>,
    targets: Seq<Row<Vec3>>,
) -> Vec3
    decreases events.len(),
{
    if events.len() == 0 {
        tracker.item.acceleration.value
    } else {
        steered(
            acceleration_after(tracker, events.drop_last(), targets),
            tracker,
            events.last(),
            targets,
        )
    }
}

/// Steers the bubbles toward what they have detected.
///
/// `trackers` holds the bubbles and `targets` the positions of the
/// entities of the kind that is chased. An event whose tracker is no
/// bubble, or whose target is not of that kind or has gone, is passed
/// over. An entity is looked up by its first row; a row that repeats an
/// entity is left alone.
pub fn tracking(
    events: &Vec<DetectionEvent>,
    trackers: &mut Vec<Row<Homing>>,
    targets: &Vec<Row<Vec3>>,
)
    ensures
        final(trackers).len() == old(trackers).len(),
        forall|k: int|
            0 <= k < old(trackers).len() ==> {
                let before = #[trigger] old(trackers)[k];
                let after = final(trackers)[k];
                &&& after.entity == before.entity
                &&& after.item.position == before.item.position
                &&& after.item.acceleration.value == if first_at(
                    old(trackers)@,
                    before.entity,
                    k,
                ) {
                    acceleration_after(before, events@, targets@)
                } else {
                    before.item.acceleration.value
                }
            },
{
    let ghost rows = trackers@;
    let mut m: usize = 0;
    assert(events@.take(0) =~= Seq::<DetectionEvent>::empty());
    while m < events.len()
        invariant
            m <= events.len(),
            trackers.len() == rows.len(),
            forall|k: int|
                0 <= k < rows.len() ==> {
                    let before = #[trigger] rows[k];
                    let after = trackers[k];
                    &&& after.entity == before.entity
                    &&& after.item.position == before.item.position
                    &&& after.item.acceleration.value == if first_at(rows, before.entity, k) {
                        acceleration_after(before, events@.take(m as int), targets@)
                    } else {
                        before.item.acceleration.value
                    }
                },
        decreases events.len() - m,
    {
        let event = events[m];
        let ghost held = trackers@;
        proof {
            assert(events@.take(m + 1).drop_last() =~= events@.take(m as int));
            assert forall|i: int| first_at(held, event.tracker_entity, i) == first_at(
                rows,
                event.tracker_entity,
                i,
            ) by {
                lemma_same_entities_same_first(held, rows, event.tracker_entity, i);
            }
        }
        if let Some(by) = lookup(trackers, event.tracker_entity) {
            if let Some(at) = lookup(targets, event.target_entity) {
                let position = trackers[by].item.position;
                trackers[by].item.acceleration.value = home_in(&position, &targets[at].item);
            }
        }
        m += 1;
    }
    assert(events@.take(events.len() as int) =~= events@);
}

} // verus!
