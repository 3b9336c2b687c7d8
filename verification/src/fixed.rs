//! Fixed-point arithmetic.
//!
//! Every real-valued quantity of the simulation (a coordinate, a radius, a
//! speed, a health value, an amount of mana) is held as a whole number of
//! thousandths: the world length 8 is the integer 8000. Stored values are
//! `i32` or `u32`; intermediate results are computed exactly in 128 bits,
//! divided with rounding toward zero, and clamped to the `i32` range when
//! they are stored. Time is counted in whole nanoseconds.

use vstd::prelude::*;

verus! {

/// How many stored units make up one world unit.
pub const UNIT: i32 = 1000;

/// How many nanoseconds make up one second.
pub const NANOS_PER_SECOND: u64 = 1_000_000_000;

/// Quotient of `n` by `d`, rounded toward zero.
pub open spec fn trunc_div(n: int, d: int) -> int {
    if n >= 0 {
        n / d
    } else {
        -((-n) / d)
    }
}

/// The nearest value to `v` in the `i32` range.
pub open spec fn clamp_i32(v: int) -> int {
    if v < i32::MIN {
        i32::MIN as int
    } else if v > i32::MAX {
        i32::MAX as int
    } else {
        v
    }
}

/// Whether `r` is the integer square root of `n`: the largest integer whose
/// square is at most `n`.
pub open spec fn is_floor_sqrt(r: int, n: int) -> bool {
    0 <= r && r * r <= n < (r + 1) * (r + 1)
}

/// The integer square root of `n`. For a negative `n` it is 0.
pub open spec fn floor_sqrt(n: int) -> int {
    if n <= 0 {
        0
    } else {
        choose|r: int| is_floor_sqrt(r, n)
    }
}

/// Squaring is monotonic on the non-negative integers.
pub proof fn lemma_square_monotonic(a: int, b: int)
    requires
        0 <= a <= b,
    ensures
        a * a <= b * b,
{
    assert(a * a <= b * b) by (nonlinear_arith)
        requires
            0 <= a <= b,
    ;
}

/// Every non-negative integer has an integer square root.
proof fn lemma_sqrt_exists(n: int)
    requires
        n >= 0,
    ensures
        exists|r: int| is_floor_sqrt(r, n),
    decreases n,
{
    if n == 0 {
        assert(is_floor_sqrt(0, n));
    } else {
        let m = n - 1;
        lemma_sqrt_exists(m);
        let r = choose|r: int| is_floor_sqrt(r, m);
        if (r + 1) * (r + 1) <= n {
            assert((r + 1) * (r + 1) == n);
            assert(((r + 1) + 1) * ((r + 1) + 1) > (r + 1) * (r + 1)) by (nonlinear_arith)
                requires
                    r >= 0,
            ;
            assert(is_floor_sqrt(r + 1, n));
        } else {
            assert(is_floor_sqrt(r, n));
        }
    }
}

/// `floor_sqrt(n)` is the integer square root of `n`, and nothing else is:
/// any `r >= 0` whose square is at most `n` while the next square is above
/// `n` equals it.
pub proof fn lemma_floor_sqrt(n: int)
    requires
        n >= 0,
    ensures
        is_floor_sqrt(floor_sqrt(n), n),
        forall|r: int| is_floor_sqrt(r, n) ==> r == floor_sqrt(n),
{
    lemma_sqrt_exists(n);
    let s = floor_sqrt(n);
    if n == 0 {
        assert(s == 0);
        assert(is_floor_sqrt(0, n));
        assert forall|r: int| is_floor_sqrt(r, n) implies r == s by {
            if r >= 1 {
                lemma_square_monotonic(1, r);
            }
        }
    } else {
        assert forall|r: int| is_floor_sqrt(r, n) implies r == s by {
            if r < s {
                lemma_square_monotonic(r + 1, s);
            }
            if s < r {
                lemma_square_monotonic(s + 1, r);
            }
        }
    }
}

/// Rounding toward zero loses less than one: the quotient times the divisor
/// lies between zero and the dividend, less than one divisor away from it.
pub proof fn lemma_trunc_div_bounds(n: int, d: int)
    requires
        d > 0,
    ensures
        n >= 0 ==> 0 <= trunc_div(n, d) * d <= n < trunc_div(n, d) * d + d,
        n <= 0 ==> 0 >= trunc_div(n, d) * d >= n > trunc_div(n, d) * d - d,
{
    if n >= 0 {
        let q = n / d;
        assert(0 <= q * d <= n < q * d + d) by (nonlinear_arith)
            requires
                d > 0,
                n >= 0,
                q == n / d,
        ;
    } else {
        let q = (-n) / d;
        assert(0 <= q * d <= -n < q * d + d) by (nonlinear_arith)
            requires
                d > 0,
                -n >= 0,
                q == (-n) / d,
        ;
        assert((-q) * d == -(q * d)) by (nonlinear_arith);
    }
}

/// Divides `n` by the positive `d`, rounding toward zero.
pub fn div_toward_zero(n: i128, d: i128) -> (q: i128)
    requires
        d > 0,
        n > i128::MIN,
    ensures
        q == trunc_div(n as int, d as int),
{
    if n >= 0 {
        n / d
    } else {
        -((-n) / d)
    }
}

/// The nearest `i32` to `v`.
pub fn saturate(v: i128) -> (r: i32)
    ensures
        r == clamp_i32(v as int),
{
    if v < -2147483648 {
        -2147483648
    } else if v > 2147483647 {
        2147483647
    } else {
        v as i32
    }
}

/// The integer square root of `n`, found by bisection.
pub fn isqrt(n: u128) -> (r: u64)
    ensures
        r == floor_sqrt(n as int),
        is_floor_sqrt(r as int, n as int),
{
    let mut lo: u128 = 0;
    let mut hi: u128 = 0x1_0000_0000_0000_0000;
    proof {
        assert(0x1_0000_0000_0000_0000int * 0x1_0000_0000_0000_0000int > u128::MAX)
            by (nonlinear_arith);
    }
    while hi - lo > 1
        invariant
            lo < hi <= 0x1_0000_0000_0000_0000,
            lo * lo <= n < hi * hi,
        decreases hi - lo,
    {
        let mid: u128 = lo + (hi - lo) / 2;
        assert(mid * mid <= u128::MAX) by (nonlinear_arith)
            requires
                0 <= mid < 0x1_0000_0000_0000_0000,
        ;
        if mid * mid <= n {
            lo = mid;
        } else {
            hi = mid;
        }
    }
    proof {
        assert(is_floor_sqrt(lo as int, n as int));
        lemma_floor_sqrt(n as int);
    }
    lo as u64
}

} // verus!
