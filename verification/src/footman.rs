//! Footmen: the enemy's foot soldiers, and how they chase what they see.

use vstd::prelude::*;
use crate::attack::Attack;
use crate::collisions::{Collider, CollisionDamage, CollisionGroups};
use crate::detection::{DetectionEvent, DetectionGroups, Target, Tracker};
use crate::entity::{find, first_at, lemma_same_entities_same_first, lookup, Row};
use crate::fixed::{clamp_i32, div_toward_zero, floor_sqrt, is_floor_sqrt, isqrt, saturate, trunc_div};
use crate::group::Group;
use crate::health::Health;
use crate::movement::{Acceleration, KinematicBundle, Velocity};
use crate::timer::{Timer, TimerMode};
use crate::vector::{lemma_square_bound, Vec3};

verus! {

/// The render layer of a footman.
pub const Z_LAYER: i32 = 0;

pub const HEALTH: i32 = 10_000;

pub const COLLIDER_RADIUS: u32 = 16_000;

pub const DETECTION_RADIUS: u32 = 600_000;

/// The damage of a footman, on contact and by a hit of its spear.
pub const DAMAGE: i32 = 5_000;

/// The time between two hits, in nanoseconds.
pub const ATTACK_RATE: u64 = 1_200_000_000;

/// The speed of a footman that chases, in thousandths per second.
pub const VELOCITY_RATE: i32 = 80_000;

/// Where the spear hangs at rest, seen from its footman.
pub const SPEAR_REST_X: i32 = -16_000;

pub const SPEAR_REST_Y: i32 = -16_000;

/// Marks a footman.
#[derive(Copy, Clone, Debug, PartialEq, Eq, Structural)]
pub struct Footman;

/// Marks the spear that a footman carries.
#[derive(Copy, Clone, Debug, PartialEq, Eq, Structural)]
pub struct Spear;

/// The components of a spear, a child of its footman.
#[derive(Copy, Clone, Debug, PartialEq, Eq, Structural)]
pub struct SpearBundle {
    /// The position as seen from the footman.
    pub translation: Vec3,
    pub spear: Spear,
}

/// The components that every footman starts with.
#[derive(Debug)]
pub struct FootmanBundle {
    pub translation: Vec3,
    pub kinematics: KinematicBundle,
    pub collider: Collider,
    pub collision_groups: CollisionGroups,
    pub collision_damage: CollisionDamage,
    pub detection_groups: DetectionGroups,
    pub tracker: Tracker,
    pub target: Target,
    pub attack: Attack,
    pub health: Health,
    pub footman: Footman,
    pub spear: SpearBundle,
}

impl FootmanBundle {
    /// Whether this is a footman as it is spawned at `location`: on its
    /// render layer, at rest, an enemy that looks for allies and the
    /// player, with full health and a spear whose timer has not run.
    pub open spec fn is_new_at(&self, location: Vec3) -> bool {
        &&& self.translation == (Vec3 { x: location.x, y: location.y, z: Z_LAYER })
        &&& self.kinematics.velocity.value == (Vec3 { x: 0, y: 0, z: 0 })
        &&& self.kinematics.acceleration.value == (Vec3 { x: 0, y: 0, z: 0 })
        &&& self.collider.is_new(COLLIDER_RADIUS)
        &&& self.collision_groups.memberships@ == 0x08
        &&& self.collision_groups.filters@ == 0x03
        &&& self.collision_damage.amount == DAMAGE
        &&& self.detection_groups.memberships@ == 0x08
        &&& self.detection_groups.filters@ == 0x03
        &&& self.tracker.vision == DETECTION_RADIUS
        &&& self.attack.amount == DAMAGE
        &&& self.attack.rate == (Timer {
            duration: ATTACK_RATE,
            elapsed: 0,
            mode: TimerMode::Repeating,
            finished: false,
            times_finished_this_tick: 0,
        })
        &&& self.health.value == HEALTH
        &&& self.spear.translation == (Vec3 { x: SPEAR_REST_X, y: SPEAR_REST_Y, z: Z_LAYER })
    }
}

/// The components of a new footman at `location`. The footman stands on its
/// own render layer, whatever the layer of `location`.
pub fn spawn_footman(location: Vec3) -> (footman: FootmanBundle)
    ensures
        footman.is_new_at(location),
{
    let seeks = Group::ally() | Group::player();
    assert(0x02u32 | 0x01u32 == 0x03u32) by (bit_vector);
    FootmanBundle {
        translation: Vec3::new(location.x, location.y, Z_LAYER),
        kinematics: KinematicBundle {
            velocity: Velocity::new(Vec3::zero()),
            acceleration: Acceleration::new(Vec3::zero()),
        },
        collider: Collider::new(COLLIDER_RADIUS),
        collision_groups: CollisionGroups::new(Group::enemy(), seeks),
        collision_damage: CollisionDamage::new(DAMAGE),
        detection_groups: DetectionGroups::new(Group::enemy(), seeks),
        tracker: Tracker::new(DETECTION_RADIUS),
        target: Target,
        attack: Attack::new(DAMAGE, Timer::new(ATTACK_RATE, TimerMode::Repeating)),
        health: Health::new(HEALTH),
        footman: Footman,
        spear: SpearBundle {
            translation: Vec3::new(SPEAR_REST_X, SPEAR_REST_Y, Z_LAYER),
            spear: Spear,
        },
    }
}

/// What the chase reads and writes of a footman.
#[derive(Copy, Clone, Debug, PartialEq, Eq, Structural)]
pub struct Chaser {
    /// The position in the world.
    pub position: Vec3,
    pub velocity: Velocity,
}

/// The velocity of a footman at `tracker` that chases `target`.
///
/// The target is put on the render layer of the footman. The velocity
/// points at it and has the speed of a footman: with `d` the distance
/// rounded down, each planar coordinate of the way to the target is
/// multiplied by the speed and divided by `d`, rounding toward zero. Where
/// the two coincide on that layer there is no way to go, and the velocity
/// is zero.
pub open spec fn pursuit(tracker: Vec3, target: Vec3) -> Vec3 {
    let dx = target.x - tracker.x;
    let dy = target.y - tracker.y;
    let d = floor_sqrt(dx * dx + dy * dy);
    if dx == 0 && dy == 0 {
        Vec3 { x: 0, y: 0, z: 0 }
    } else {
        Vec3 {
            x: clamp_i32(trunc_div(dx * VELOCITY_RATE, d)) as i32,
            y: clamp_i32(trunc_div(dy * VELOCITY_RATE, d)) as i32,
            z: 0,
        }
    }
}

/// Computes the velocity of a footman at `tracker` that chases `target`.
pub fn pursue(tracker: &Vec3, target: &Vec3) -> (v: Vec3)
    ensures
        v == pursuit(*tracker, *target),
{
    let dx: i128 = target.x as i128 - tracker.x as i128;
    let dy: i128 = target.y as i128 - tracker.y as i128;
    if dx == 0 && dy == 0 {
        return Vec3::zero();
    }
    proof {
        lemma_square_bound(dx as int);
        lemma_square_bound(dy as int);
    }
    let d: i128 = isqrt((dx * dx + dy * dy) as u128) as i128;
    proof {
        let s = dx * dx + dy * dy;
        assert(s > 0) by (nonlinear_arith)
            requires
                s == dx * dx + dy * dy,
                dx != 0 || dy != 0,
        ;
        assert(d > 0) by (nonlinear_arith)
            requires
                is_floor_sqrt(d as int, s as int),
                0 < s,
        ;
    }
    let speed: i128 = VELOCITY_RATE as i128;
    assert(-0x2_0000_0000_0000 < dx * speed < 0x2_0000_0000_0000 && -0x2_0000_0000_0000 < dy
        * speed < 0x2_0000_0000_0000) by (nonlinear_arith)
        requires
            -0x1_0000_0000 < dx < 0x1_0000_0000,
            -0x1_0000_0000 < dy < 0x1_0000_0000,
            speed == 80_000,
    ;
    Vec3 {
        x: saturate(div_toward_zero(dx * speed, d)),
        y: saturate(div_toward_zero(dy * speed, d)),
        z: 0,
    }
}

/// The velocity of `tracker` after one detection event: set toward the
/// target if the event is about `tracker` and the target can be found,
/// unchanged otherwise.
pub open spec fn turned(
    velocity: Vec3,
    tracker: Row<Chaser>,
    event: DetectionEvent,
    targets: Seq<Row<Vec3>>,
) -> Vec3 {
    if event.tracker_entity == tracker.entity {
        match find(targets, event.target_entity) {
            Some(k) => pursuit(tracker.item.position, targets[k].item),
            None => velocity,
        }
    } else {
        velocity
    }
}

/// The velocity of `tracker` after the detection events, taken in order.
pub open spec fn velocity_after(
    tracker: Row<Chaser>,
    events: Seq<DetectionEvent>,
    targets: Seq<Row<Vec3>>,
) -> Vec3
    decreases events.len(),
{
    if events.len() == 0 {
        tracker.item.velocity.value
    } else {
        turned(
            velocity_after(tracker, events.drop_last(), targets),
            tracker,
            events.last(),
            targets,
        )
    }
}

/// Turns the footmen toward what they have detected.
///
/// `trackers` holds the footmen and `targets` the positions of the
/// entities of the kind that is chased. An event whose tracker is no
/// footman, or whose target is not of that kind or has gone, is passed
/// over. An entity is looked up by its first row; a row that repeats an
/// entity is left alone.
pub fn tracking(
    events: &Vec<DetectionEvent>,
    trackers: &mut Vec<Row<Chaser>>,
    targets: &Vec<Row<Vec3>>,
)
    ensures
        final(trackers).len() == old(trackers).len(),
        forall|k: int|
            0 <= k < old(trackers).len() ==> {
                let before = #[trigger] old(trackers)[k];
                let after = final(trackers)[k];
                &&& after.entity == before.entity
                &&& after.item.position == before.item.position
                &&& after.item.velocity.value == if first_at(old(trackers)@, before.entity, k) {
                    velocity_after(before, events@, targets@)
                } else {
                    before.item.velocity.value
                }
            },
{
    let ghost rows = trackers@;
    let mut m: usize = 0;
    assert(events@.take(0) =~= Seq::<DetectionEvent>::empty());
    while m < events.len()
        invariant
            m <= events.len(),
            trackers.len() == rows.len(),
            forall|k: int|
                0 <= k < rows.len() ==> {
                    let before = #[trigger] rows[k];
                    let after = trackers[k];
                    &&& after.entity == before.entity
                    &&& after.item.position == before.item.position
                    &&& after.item.velocity.value == if first_at(rows, before.entity, k) {
                        velocity_after(before, events@.take(m as int), targets@)
                    } else {
                        before.item.velocity.value
                    }
                },
        decreases events.len() - m,
    {
        let event = events[m];
        let ghost held = trackers@;
        proof {
            assert(events@.take(m + 1).drop_last() =~= events@.take(m as int));
            assert forall|i: int| first_at(held, event.tracker_entity, i) == first_at(
                rows,
                event.tracker_entity,
                i,
            ) by {
                lemma_same_entities_same_first(held, rows, event.tracker_entity, i);
            }
        }
        if let Some(by) = lookup(trackers, event.tracker_entity) {
            if let Some(at) = lookup(targets, event.target_entity) {
                let position = trackers[by].item.position;
                trackers[by].item.velocity.value = pursue(&position, &targets[at].item);
            }
        }
        m += 1;
    }
    assert(events@.take(events.len() as int) =~= events@);
}

} // verus!
