//! Positions, velocities and accelerations in fixed-point coordinates, and
//! the exact distance tests that the proximity rules rest on.

use vstd::prelude::*;
use crate::fixed::{clamp_i32, saturate};

verus! {

/// A point or a displacement in the world, each coordinate in thousandths
/// of a world unit. The third coordinate is the render layer.
#[derive(Copy, Clone, Debug, PartialEq, Eq, Hash, Structural)]
pub struct Vec3 {
    pub x: i32,
    pub y: i32,
    pub z: i32,
}

impl Vec3 {
    pub fn new(x: i32, y: i32, z: i32) -> (v: Vec3)
        ensures
            v == (Vec3 { x, y, z }),
    {
        Vec3 { x, y, z }
    }

    /// The origin, and the zero displacement.
    pub fn zero() -> (v: Vec3)
        ensures
            v == (Vec3 { x: 0, y: 0, z: 0 }),
    {
        Vec3 { x: 0, y: 0, z: 0 }
    }

    /// The square of the Euclidean distance between two points.
    pub open spec fn dist_sq(self, other: Vec3) -> int {
        (self.x - other.x) * (self.x - other.x) + (self.y - other.y) * (self.y - other.y) + (
        self.z - other.z) * (self.z - other.z)
    }

    /// The square of the distance between two points once both are put on
    /// one render layer: only the first two coordinates count.
    pub open spec fn planar_dist_sq(self, other: Vec3) -> int {
        (self.x - other.x) * (self.x - other.x) + (self.y - other.y) * (self.y - other.y)
    }

    /// This point moved by the given displacement, each coordinate clamped
    /// to the range of the world.
    pub open spec fn moved(self, dx: int, dy: int, dz: int) -> Vec3 {
        Vec3 {
            x: clamp_i32(self.x + dx) as i32,
            y: clamp_i32(self.y + dy) as i32,
            z: clamp_i32(self.z + dz) as i32,
        }
    }

    /// The square of the Euclidean distance to `other`.
    pub fn distance_squared(&self, other: &Vec3) -> (d: u128)
        ensures
            d == self.dist_sq(*other),
    {
        let dx: i128 = self.x as i128 - other.x as i128;
        let dy: i128 = self.y as i128 - other.y as i128;
        let dz: i128 = self.z as i128 - other.z as i128;
        proof {
            lemma_square_bound(dx as int);
            lemma_square_bound(dy as int);
            lemma_square_bound(dz as int);
        }
        (dx * dx + dy * dy + dz * dz) as u128
    }

    /// The square of the distance to `other` with the render layer left out.
    pub fn planar_distance_squared(&self, other: &Vec3) -> (d: u128)
        ensures
            d == self.planar_dist_sq(*other),
    {
        let dx: i128 = self.x as i128 - other.x as i128;
        let dy: i128 = self.y as i128 - other.y as i128;
        proof {
            lemma_square_bound(dx as int);
            lemma_square_bound(dy as int);
        }
        (dx * dx + dy * dy) as u128
    }

    /// Moves the point by a displacement, clamping each coordinate.
    pub fn translate(&self, dx: i128, dy: i128, dz: i128) -> (v: Vec3)
        ensures
            v == self.moved(dx as int, dy as int, dz as int),
    {
        Vec3 {
            x: shift(self.x, dx),
            y: shift(self.y, dy),
            z: shift(self.z, dz),
        }
    }
}

/// The square of a difference of two coordinates is below 2^64.
pub proof fn lemma_square_bound(d: int)
    requires
        -0x1_0000_0000 < d < 0x1_0000_0000,
    ensures
        0 <= d * d < 0x1_0000_0000_0000_0000,
{
    assert(0 <= d * d < 0x1_0000_0000_0000_0000) by (nonlinear_arith)
        requires
            -0x1_0000_0000 < d < 0x1_0000_0000,
    ;
}

/// One coordinate moved by `d` and clamped.
fn shift(c: i32, d: i128) -> (r: i32)
    ensures
        r == clamp_i32(c + d),
{
    if d > 0x1_0000_0000 {
        i32::MAX
    } else if d < -0x1_0000_0000 {
        i32::MIN
    } else {
        saturate(c as i128 + d)
    }
}

/// Whether two points are apart, and closer than `range`: their distance
/// `d` has `0 < d < range`. Stated over squares, which is the same for a
/// range that is not negative.
pub open spec fn within(a: Vec3, b: Vec3, range: int) -> bool {
    0 < a.dist_sq(b) < range * range
}

/// Whether the distance between `a` and `b` is above zero and below `range`.
pub fn is_within(a: &Vec3, b: &Vec3, range: u64) -> (r: bool)
    ensures
        r == within(*a, *b, range as int),
{
    let d = a.distance_squared(b);
    assert(range * range <= u128::MAX) by (nonlinear_arith)
        requires
            0 <= range <= u64::MAX,
    ;
    0 < d && d < (range as u128) * (range as u128)
}

/// Distance does not depend on the side it is measured from.
pub proof fn lemma_dist_sq_symmetric(a: Vec3, b: Vec3)
    ensures
        a.dist_sq(b) == b.dist_sq(a),
        a.planar_dist_sq(b) == b.planar_dist_sq(a),
{
    lemma_square_negated(a.x - b.x);
    lemma_square_negated(a.y - b.y);
    lemma_square_negated(a.z - b.z);
}

/// A number and its negation have the same square.
pub proof fn lemma_square_negated(d: int)
    ensures
        d * d == (-d) * (-d),
{
    assert(d * d == (-d) * (-d)) by (nonlinear_arith);
}

} // verus!
