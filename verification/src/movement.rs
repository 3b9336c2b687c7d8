//! The kinematic integrator: acceleration into velocity, velocity into
//! position, by the time that the host reports for the tick.

use vstd::prelude::*;
use crate::fixed::{div_toward_zero, lemma_trunc_div_bounds, trunc_div, NANOS_PER_SECOND};
use crate::vector::Vec3;

verus! {

/// The change of position per second.
#[derive(Copy, Clone, Debug, PartialEq, Eq, Structural)]
pub struct Velocity {
    pub value: Vec3,
}

impl Velocity {
    pub fn new(value: Vec3) -> (v: Velocity)
        ensures
            v.value == value,
    {
        Velocity { value }
    }
}

/// The change of velocity per second.
#[derive(Copy, Clone, Debug, PartialEq, Eq, Structural)]
pub struct Acceleration {
    pub value: Vec3,
}

impl Acceleration {
    pub fn new(value: Vec3) -> (a: Acceleration)
        ensures
            a.value == value,
    {
        Acceleration { value }
    }
}

/// The kinematic state of a moving entity.
#[derive(Copy, Clone, Debug, PartialEq, Eq, Structural)]
pub struct KinematicBundle {
    pub velocity: Velocity,
    pub acceleration: Acceleration,
}

/// A velocity and the position that it moves.
#[derive(Copy, Clone, Debug, PartialEq, Eq, Structural)]
pub struct Moving {
    pub velocity: Velocity,
    pub translation: Vec3,
}

/// What a rate of `rate` per second adds up to over `nanos` nanoseconds,
/// rounded toward zero.
pub open spec fn accrued(rate: int, nanos: u64) -> int {
    trunc_div(rate * nanos, NANOS_PER_SECOND as int)
}

/// `value` after it has changed at `rate` per second for `nanos`
/// nanoseconds, each coordinate clamped to the range of the world.
pub open spec fn advanced(value: Vec3, rate: Vec3, nanos: u64) -> Vec3 {
    value.moved(accrued(rate.x as int, nanos), accrued(rate.y as int, nanos), accrued(rate.z as int, nanos))
}

/// What a rate per second adds up to over a time.
pub fn accrue(rate: i64, nanos: u64) -> (r: i128)
    ensures
        r == accrued(rate as int, nanos),
        -0x4_0000_0000_0000_0000_0000_0000 < r < 0x4_0000_0000_0000_0000_0000_0000,
        rate >= 0 ==> r >= 0,
{
    proof {
        let n = rate * nanos;
        assert(-0x8000_0000_0000_0000_0000_0000_0000_0000 < n
            < 0x8000_0000_0000_0000_0000_0000_0000_0000 && (rate >= 0 ==> n >= 0))
            by (nonlinear_arith)
            requires
                n == rate * nanos,
                -0x8000_0000_0000_0000 <= rate < 0x8000_0000_0000_0000,
                0 <= nanos < 0x1_0000_0000_0000_0000,
        ;
        lemma_trunc_div_bounds(n, NANOS_PER_SECOND as int);
    }
    assert(-0x8000_0000_0000_0000_0000_0000_0000_0000 < rate * nanos
        < 0x8000_0000_0000_0000_0000_0000_0000_0000) by (nonlinear_arith)
        requires
            -0x8000_0000_0000_0000 <= rate < 0x8000_0000_0000_0000,
            0 <= nanos < 0x1_0000_0000_0000_0000,
    ;
    div_toward_zero(rate as i128 * nanos as i128, NANOS_PER_SECOND as i128)
}

/// Changes a value at a rate per second for a time.
pub fn advance(value: &Vec3, rate: &Vec3, nanos: u64) -> (v: Vec3)
    ensures
        v == advanced(*value, *rate, nanos),
{
    value.translate(accrue(rate.x as i64, nanos), accrue(rate.y as i64, nanos), accrue(rate.z as i64, nanos))
}

/// First half of the integrator: each velocity grows by its acceleration
/// times the elapsed time.
pub fn update_velocity(bodies: &mut Vec<KinematicBundle>, delta: u64)
    ensures
        final(bodies).len() == old(bodies).len(),
        forall|k: int|
            0 <= k < old(bodies).len() ==> {
                let before = #[trigger] old(bodies)[k];
                let after = final(bodies)[k];
                &&& after.acceleration == before.acceleration
                &&& after.velocity.value == advanced(
                    before.velocity.value,
                    before.acceleration.value,
                    delta,
                )
            },
{
    let n = bodies.len();
    let mut i: usize = 0;
    while i < n
        invariant
            i <= n,
            bodies.len() == n,
            n == old(bodies).len(),
            forall|k: int| i <= k < n ==> bodies[k] == old(bodies)[k],
            forall|k: int|
                0 <= k < i ==> {
                    let before = #[trigger] old(bodies)[k];
                    let after = bodies[k];
                    &&& after.acceleration == before.acceleration
                    &&& after.velocity.value == advanced(
                        before.velocity.value,
                        before.acceleration.value,
                        delta,
                    )
                },
        decreases n - i,
    {
        let body = bodies[i];
        bodies[i].velocity.value = advance(&body.velocity.value, &body.acceleration.value, delta);
        i += 1;
    }
}

/// Second half of the integrator: each position moves by its velocity times
/// the elapsed time.
pub fn update_position(bodies: &mut Vec<Moving>, delta: u64)
    ensures
        final(bodies).len() == old(bodies).len(),
        forall|k: int|
            0 <= k < old(bodies).len() ==> {
                let before = #[trigger] old(bodies)[k];
                let after = final(bodies)[k];
                &&& after.velocity == before.velocity
                &&& after.translation == advanced(before.translation, before.velocity.value, delta)
            },
{
    let n = bodies.len();
    let mut i: usize = 0;
    while i < n
        invariant
            i <= n,
            bodies.len() == n,
            n == old(bodies).len(),
            forall|k: int| i <= k < n ==> bodies[k] == old(bodies)[k],
            forall|k: int|
                0 <= k < i ==> {
                    let before = #[trigger] old(bodies)[k];
                    let after = bodies[k];
                    &&& after.velocity == before.velocity
                    &&& after.translation == advanced(
                        before.translation,
                        before.velocity.value,
                        delta,
                    )
                },
        decreases n - i,
    {
        let body = bodies[i];
        bodies[i].translation = advance(&body.translation, &body.velocity.value, delta);
        i += 1;
    }
}

} // verus!
