//! The player's character and how the keys move it.

use vstd::prelude::*;
use crate::movement::{accrue, accrued};
use crate::vector::Vec3;

verus! {

/// The speed of the player's character when the game starts.
pub const PLAYER_SPEED: i32 = 100_000;

/// The player's character.
#[derive(Copy, Clone, Debug, PartialEq, Eq, Structural)]
pub struct Player {
    /// The distance covered per second, in thousandths.
    pub speed: i32,
}

impl Default for Player {
    fn default() -> (p: Player)
        ensures
            p.speed == 0,
    {
        Player { speed: 0 }
    }
}

/// The player's character as the game starts with it.
pub fn spawn_player() -> (p: Player)
    ensures
        p.speed == PLAYER_SPEED,
{
    Player { speed: PLAYER_SPEED }
}

/// Which of the four arrow keys are down.
#[derive(Copy, Clone, Debug, PartialEq, Eq, Structural)]
pub struct Arrows {
    pub up: bool,
    pub down: bool,
    pub right: bool,
    pub left: bool,
}

/// A character and where it stands.
#[derive(Copy, Clone, Debug, PartialEq, Eq, Structural)]
pub struct Walker {
    pub translation: Vec3,
    pub player: Player,
}

/// Where a step of `amount` leaves a character at `from`: up, then down,
/// then right, then left, for each key that is down, clamped after each.
/// Opposite keys cancel, short of the edge of the world.
pub open spec fn stepped(from: Vec3, arrows: Arrows, amount: int) -> Vec3 {
    let up = if arrows.up {
        from.moved(0, amount, 0)
    } else {
        from
    };
    let down = if arrows.down {
        up.moved(0, -amount, 0)
    } else {
        up
    };
    let right = if arrows.right {
        down.moved(amount, 0, 0)
    } else {
        down
    };
    if arrows.left {
        right.moved(-amount, 0, 0)
    } else {
        right
    }
}

/// Moves the characters by the keys that are down, at their speed, for
/// `delta` nanoseconds.
pub fn character_movement(characters: &mut Vec<Walker>, arrows: Arrows, delta: u64)
    ensures
        final(characters).len() == old(characters).len(),
        forall|k: int|
            0 <= k < old(characters).len() ==> {
                let before = #[trigger] old(characters)[k];
                let after = final(characters)[k];
                &&& after.player == before.player
                &&& after.translation == stepped(
                    before.translation,
                    arrows,
                    accrued(before.player.speed as int, delta),
                )
            },
{
    let n = characters.len();
    let mut i: usize = 0;
    while i < n
        invariant
            i <= n,
            characters.len() == n,
            n == old(characters).len(),
            forall|k: int| i <= k < n ==> characters[k] == old(characters)[k],
            forall|k: int|
                0 <= k < i ==> {
                    let before = #[trigger] old(characters)[k];
                    let after = characters[k];
                    &&& after.player == before.player
                    &&& after.translation == stepped(
                        before.translation,
                        arrows,
                        accrued(before.player.speed as int, delta),
                    )
                },
        decreases n - i,
    {
        let amount = accrue(characters[i].player.speed as i64, delta);
        let mut at = characters[i].translation;
        if arrows.up {
            at = at.translate(0, amount, 0);
        }
        if arrows.down {
            at = at.translate(0, -amount, 0);
        }
        if arrows.right {
            at = at.translate(amount, 0, 0);
        }
        if arrows.left {
            at = at.translate(-amount, 0, 0);
        }
        characters[i].translation = at;
        i += 1;
    }
}

} // verus!
