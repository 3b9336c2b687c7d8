//! The enemy's tower, which sends out footmen.

use vstd::prelude::*;
use crate::collisions::{Collider, CollisionGroups};
use crate::detection::{DetectionGroups, Target};
use crate::footman::{spawn_footman, FootmanBundle};
use crate::group::Group;
use crate::health::Health;
use crate::timer::{Timer, TimerMode};
use crate::vector::Vec3;

verus! {

pub const SPRITE_LAYER: i32 = -1_000;

pub const COLLIDER_RADIUS: u32 = 60_000;

pub const HEALTH: i32 = 500_000;

/// The time between two footmen of one tower, in nanoseconds.
pub const SPAWN_RATE: u64 = 10_000_000_000;

/// Where a footman appears, seen from its tower.
pub const SPAWN_OFFSET_X: i32 = 0;

pub const SPAWN_OFFSET_Y: i32 = -40_000;

pub const SPAWN_OFFSET_Z: i32 = 0;

/// Where the tower stands.
pub const TOWER_X: i32 = 400_000;

pub const TOWER_Y: i32 = 0;

/// A tower, and the timer that sets the pace of its footmen.
#[derive(Copy, Clone, Debug, PartialEq, Eq, Structural)]
pub struct Tower {
    pub spawn_rate: Timer,
}

/// The components that the tower starts with.
#[derive(Debug)]
pub struct TowerBundle {
    pub translation: Vec3,
    pub collider: Collider,
    pub collision_groups: CollisionGroups,
    pub detection_groups: DetectionGroups,
    pub target: Target,
    pub health: Health,
    pub tower: Tower,
}

impl TowerBundle {
    /// Whether this is the tower as the game starts with it: at its place
    /// on the layer of the structures, an enemy structure that looks for
    /// nothing, visible as a target, with full health and a timer that has
    /// not run.
    pub open spec fn is_new(&self) -> bool {
        &&& self.translation == (Vec3 { x: TOWER_X, y: TOWER_Y, z: SPRITE_LAYER })
        &&& self.collider.is_new(COLLIDER_RADIUS)
        &&& self.collision_groups.memberships@ == 0x48
        &&& self.collision_groups.filters@ == 0
        &&& self.detection_groups.memberships@ == 0x48
        &&& self.detection_groups.filters@ == 0
        &&& self.health.value == HEALTH
        &&& self.tower.spawn_rate == (Timer {
            duration: SPAWN_RATE,
            elapsed: 0,
            mode: TimerMode::Repeating,
            finished: false,
            times_finished_this_tick: 0,
        })
    }
}

/// The components of the tower that the game starts with.
pub fn spawn_tower() -> (tower: TowerBundle)
    ensures
        tower.is_new(),
{
    let member = Group::enemy() | Group::structure();
    assert(0x08u32 | 0x40u32 == 0x48u32) by (bit_vector);
    TowerBundle {
        translation: Vec3::new(TOWER_X, TOWER_Y, SPRITE_LAYER),
        collider: Collider::new(COLLIDER_RADIUS),
        collision_groups: CollisionGroups::new(member, Group::none()),
        detection_groups: DetectionGroups::new(member, Group::none()),
        target: Target,
        health: Health::new(HEALTH),
        tower: Tower { spawn_rate: Timer::new(SPAWN_RATE, TimerMode::Repeating) },
    }
}

/// A tower and where it stands.
#[derive(Copy, Clone, Debug, PartialEq, Eq, Structural)]
pub struct Garrison {
    pub tower: Tower,
    pub translation: Vec3,
}

/// Where the footman of a tower at `tower` appears.
pub open spec fn sally_port(tower: Vec3) -> Vec3 {
    tower.moved(SPAWN_OFFSET_X as int, SPAWN_OFFSET_Y as int, SPAWN_OFFSET_Z as int)
}

/// Picks the place in front of each tower whose timer completes on a tick of `delta`.
pub open spec fn sending(delta: u64) -> spec_fn(Garrison) -> Option<Vec3> {
    |garrison: Garrison|
        if garrison.tower.spawn_rate.ticked(delta).spec_just_finished() {
            Some(sally_port(garrison.translation))
        } else {
            None
        }
}

/// Ticks the towers and sends a footman out of each whose timer completes.
///
/// Every tower's timer advances by `delta`. Each tower whose timer has just
/// finished gives one new footman in front of it, however many periods the
/// tick covered; the footmen come in the order of the towers.
pub fn spawn_enemy(towers: &mut Vec<Garrison>, delta: u64) -> (footmen: Vec<FootmanBundle>)
    ensures
        final(towers).len() == old(towers).len(),
        forall|k: int|
            0 <= k < old(towers).len() ==> {
                let before = #[trigger] old(towers)[k];
                let after = final(towers)[k];
                &&& after.translation == before.translation
                &&& after.tower.spawn_rate == before.tower.spawn_rate.ticked(delta)
            },
        footmen.len() == old(towers)@.filter_map(sending(delta)).len(),
        forall|i: int|
            0 <= i < footmen.len() ==> (#[trigger] footmen[i]).is_new_at(
                old(towers)@.filter_map(sending(delta))[i],
            ),
{
    let ghost rows = towers@;
    let mut footmen: Vec<FootmanBundle> = Vec::new();
    let mut i: usize = 0;
    assert(rows.take(0) =~= Seq::<Garrison>::empty());
    while i < towers.len()
        invariant
            i <= towers.len(),
            towers.len() == rows.len(),
            forall|k: int| i <= k < rows.len() ==> towers[k] == rows[k],
            forall|k: int|
                0 <= k < i ==> {
                    let before = #[trigger] rows[k];
                    let after = towers[k];
                    &&& after.translation == before.translation
                    &&& after.tower.spawn_rate == before.tower.spawn_rate.ticked(delta)
                },
            footmen.len() == rows.take(i as int).filter_map(sending(delta)).len(),
            forall|j: int|
                0 <= j < footmen.len() ==> (#[trigger] footmen[j]).is_new_at(
                    rows.take(i as int).filter_map(sending(delta))[j],
                ),
        decreases towers.len() - i,
    {
        proof {
            rows.lemma_filter_map_take_succ(sending(delta), i as int);
        }
        towers[i].tower.spawn_rate.tick(delta);
        if towers[i].tower.spawn_rate.just_finished() {
            let at = towers[i].translation.translate(
                SPAWN_OFFSET_X as i128,
                SPAWN_OFFSET_Y as i128,
                SPAWN_OFFSET_Z as i128,
            );
            footmen.push(spawn_footman(at));
        }
        i += 1;
    }
    assert(rows.take(rows.len() as int) =~= rows);
    footmen
}

} // verus!
