//! Harvesters: structures that gather mana for the player to collect.

use vstd::prelude::*;
use crate::collisions::{Collider, CollisionGroups};
use crate::detection::{DetectionGroups, Target};
use crate::fixed::{clamp_i32, saturate};
use crate::group::Group;
use crate::health::Health;
use crate::mana::Mana;
use crate::movement::{accrue, accrued};
use crate::vector::Vec3;

verus! {

/// The mana that a harvester costs.
pub const COST: i32 = 100_000;

pub const HEALTH: i32 = 200_000;

pub const COLLIDER_RADIUS: u32 = 48_000;

/// The mana that a new harvester gathers per second.
pub const BASE_GENERATION_RATE: i32 = 4_000;

/// The mana that a harvester can hold.
pub const MAX_MANA: i32 = 100_000;

/// The distance below which the player drains a harvester.
pub const DRAIN_RADIUS: u32 = 140_000;

/// The mana that the player drains from a harvester per second.
pub const DRAIN_RATE: i32 = 60_000;

/// The mana that a harvester holds and the rate at which it gathers more.
#[derive(Copy, Clone, Debug, PartialEq, Eq, Structural)]
pub struct Harvester {
    pub mana: i32,
    pub generation_rate: i32,
}

impl Harvester {
    pub fn new(mana: i32, generation_rate: i32) -> (h: Harvester)
        ensures
            h == (Harvester { mana, generation_rate }),
    {
        Harvester { mana, generation_rate }
    }

    /// The harvester after gathering for `delta` nanoseconds: one that holds
    /// less than it can has gathered at its rate, up to what it can hold;
    /// a full one stays as it is.
    pub open spec fn gathered(self, delta: u64) -> Harvester {
        if self.mana < MAX_MANA {
            let held = clamp_i32(self.mana + accrued(self.generation_rate as int, delta));
            Harvester {
                mana: if held > MAX_MANA {
                    MAX_MANA
                } else {
                    held as i32
                },
                generation_rate: self.generation_rate,
            }
        } else {
            self
        }
    }

    /// What a drain of `delta` nanoseconds takes out of the harvester: all
    /// that it holds if that is less than the drain rate allows, and what
    /// the rate allows otherwise.
    pub open spec fn yielded(self, delta: u64) -> int {
        let drainable = accrued(DRAIN_RATE as int, delta);
        if self.mana < drainable {
            self.mana as int
        } else {
            drainable
        }
    }

    /// The harvester after a drain of `delta` nanoseconds.
    pub open spec fn drained(self, delta: u64) -> Harvester {
        let drainable = accrued(DRAIN_RATE as int, delta);
        Harvester {
            mana: if self.mana < drainable {
                0
            } else {
                clamp_i32(self.mana - drainable) as i32
            },
            generation_rate: self.generation_rate,
        }
    }
}

/// The components that every harvester starts with.
#[derive(Debug)]
pub struct HarvesterBundle {
    pub collider: Collider,
    pub collision_groups: CollisionGroups,
    pub detection_groups: DetectionGroups,
    pub target: Target,
    pub health: Health,
    pub harvester: Harvester,
}

impl HarvesterBundle {
    /// Whether this is a harvester as it is built: an ally that looks for
    /// nothing, visible as a target, with full health, empty, and
    /// gathering at the base rate.
    pub open spec fn is_new(&self) -> bool {
        &&& self.collider.is_new(COLLIDER_RADIUS)
        &&& self.collision_groups.memberships@ == 0x02
        &&& self.collision_groups.filters@ == 0
        &&& self.detection_groups.memberships@ == 0x02
        &&& self.detection_groups.filters@ == 0
        &&& self.health.value == HEALTH
        &&& self.harvester == (Harvester { mana: 0, generation_rate: BASE_GENERATION_RATE })
    }
}

/// Builds a harvester for the player, if the player asks for one and can
/// pay for it.
///
/// `pressed` says whether the key for it has just gone down. A harvester
/// is built, and its cost taken from the pool, only if the key went down
/// and the pool holds the cost. Otherwise nothing is built and the pool
/// stays as it is.
pub fn spawn_harvester(pressed: bool, mana: &mut Mana) -> (built: Option<HarvesterBundle>)
    ensures
        built is Some <==> pressed && old(mana).affords(COST),
        built matches Some(bundle) ==> bundle.is_new(),
        *final(mana) == if built is Some {
            old(mana).plus(-COST)
        } else {
            *old(mana)
        },
{
    if !pressed {
        return None;
    }
    if !mana.spend(COST) {
        return None;
    }
    Some(
        HarvesterBundle {
            collider: Collider::new(COLLIDER_RADIUS),
            collision_groups: CollisionGroups::new(Group::ally(), Group::none()),
            detection_groups: DetectionGroups::new(Group::ally(), Group::none()),
            target: Target,
            health: Health::new(HEALTH),
            harvester: Harvester::new(0, BASE_GENERATION_RATE),
        },
    )
}

/// Lets every harvester gather for `delta` nanoseconds.
pub fn generate_mana(harvesters: &mut Vec<Harvester>, delta: u64)
    ensures
        final(harvesters).len() == old(harvesters).len(),
        forall|k: int|
            0 <= k < old(harvesters).len() ==> final(harvesters)[k] == (
            #[trigger] old(harvesters)[k]).gathered(delta),
{
    let n = harvesters.len();
    let mut i: usize = 0;
    while i < n
        invariant
            i <= n,
            harvesters.len() == n,
            n == old(harvesters).len(),
            forall|k: int| i <= k < n ==> harvesters[k] == old(harvesters)[k],
            forall|k: int|
                0 <= k < i ==> harvesters[k] == (#[trigger] old(harvesters)[k]).gathered(delta),
        decreases n - i,
    {
        let harvester = harvesters[i];
        if harvester.mana < MAX_MANA {
            let held = saturate(
                harvester.mana as i128 + accrue(harvester.generation_rate as i64, delta),
            );
            harvesters[i].mana = if held > MAX_MANA {
                MAX_MANA
            } else {
                held
            };
        }
        i += 1;
    }
}

/// A harvester and where it stands.
#[derive(Copy, Clone, Debug, PartialEq, Eq, Structural)]
pub struct Well {
    /// The position in the world.
    pub position: Vec3,
    pub harvester: Harvester,
}

/// Whether a player at `player` is close enough to drain `well`: closer
/// than the drain radius. A player that stands on the harvester drains it
/// too.
pub open spec fn in_reach(well: Well, player: Vec3) -> bool {
    player.dist_sq(well.position) < DRAIN_RADIUS * DRAIN_RADIUS
}

/// A harvester after the player, at `player`, has had `delta` nanoseconds
/// to drain it.
pub open spec fn tapped(well: Well, player: Vec3, delta: u64) -> Well {
    if in_reach(well, player) {
        Well { position: well.position, harvester: well.harvester.drained(delta) }
    } else {
        well
    }
}

/// The pool after the player has drained the harvesters, one after the
/// other.
pub open spec fn pool_after(pool: Mana, wells: Seq<Well>, player: Vec3, delta: u64) -> Mana
    decreases wells.len(),
{
    if wells.len() == 0 {
        pool
    } else {
        let before = pool_after(pool, wells.drop_last(), player, delta);
        if in_reach(wells.last(), player) {
            before.plus(wells.last().harvester.yielded(delta))
        } else {
            before
        }
    }
}

/// Moves mana from the harvesters near the player into the pool.
///
/// `player` holds the position of the player if there is exactly one;
/// without it nothing happens. Each harvester within the drain radius
/// gives what the drain rate allows for `delta` nanoseconds, or all it
/// holds if that is less.
pub fn drain_mana(wells: &mut Vec<Well>, player: Option<Vec3>, delta: u64, mana: &mut Mana)
    ensures
        final(wells).len() == old(wells).len(),
        player is None ==> final(wells)@ == old(wells)@ && *final(mana) == *old(mana),
        player matches Some(at) ==> *final(mana) == pool_after(*old(mana), old(wells)@, at, delta)
            && forall|k: int|
            0 <= k < old(wells).len() ==> final(wells)[k] == tapped(
                #[trigger] old(wells)[k],
                at,
                delta,
            ),
{
    let at = match player {
        Some(at) => at,
        None => {
            return ;
        },
    };
    let ghost rows = wells@;
    let ghost pool = *mana;
    let n = wells.len();
    let drainable = accrue(DRAIN_RATE as i64, delta);
    let mut i: usize = 0;
    assert(rows.take(0) =~= Seq::<Well>::empty());
    while i < n
        invariant
            i <= n,
            wells.len() == n,
            n == rows.len(),
            drainable == accrued(DRAIN_RATE as int, delta),
            forall|k: int| i <= k < n ==> wells[k] == rows[k],
            forall|k: int| 0 <= k < i ==> wells[k] == tapped(#[trigger] rows[k], at, delta),
            *mana == pool_after(pool, rows.take(i as int), at, delta),
        decreases n - i,
    {
        let well = wells[i];
        proof {
            assert(rows.take(i + 1).drop_last() =~= rows.take(i as int));
            assert(DRAIN_RADIUS * DRAIN_RADIUS == 19_600_000_000int) by (nonlinear_arith)
                requires
                    DRAIN_RADIUS == 140_000,
            ;
        }
        if at.distance_squared(&well.position) < 19_600_000_000 {
            if (well.harvester.mana as i128) < drainable {
                mana.earn(well.harvester.mana);
                wells[i].harvester.mana = 0;
            } else {
                mana.earn(saturate(drainable));
                wells[i].harvester.mana = saturate(well.harvester.mana as i128 - drainable);
            }
        }
        i += 1;
    }
    assert(rows.take(n as int) =~= rows);
}

} // verus!
