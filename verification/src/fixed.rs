//! Fixed-point scalars.
//!
//! A normalized quantity in `[0, 1]` (a coordinate inside the image, an
//! interpolation phase, a style strength) is stored as an `i64` in
//! `[0, UNIT]`.  All interpolation arithmetic stays in integers, so every
//! operation here has an exact mathematical description.

use vstd::prelude::*;

verus! {

/// Fixed-point representation of 1.0.
pub const UNIT: i64 = 65536;

/// Linear interpolation from `a` (at `t == 0`) to `b` (at `t == UNIT`),
/// written so that the division always sees non-negative operands and is
/// exact at both endpoints.
pub open spec fn lerp_spec(a: int, b: int, t: int) -> int {
    if b >= a {
        a + (b - a) * t / (UNIT as int)
    } else {
        a - (a - b) * t / (UNIT as int)
    }
}

/// The endpoints of `lerp_spec` are exact: `t == 0` gives `a` and
/// `t == UNIT` gives `b`.
pub proof fn lemma_lerp_endpoints(a: int, b: int)
    ensures
        lerp_spec(a, b, 0) == a,
        lerp_spec(a, b, UNIT as int) == b,
{
    if b >= a {
        assert((b - a) * 0 == 0);
        assert((b - a) * (UNIT as int) / (UNIT as int) == b - a) by {
            vstd::arithmetic::div_mod::lemma_div_multiples_vanish(b - a, UNIT as int);
        }
    } else {
        assert((a - b) * 0 == 0);
        assert((a - b) * (UNIT as int) / (UNIT as int) == a - b) by {
            vstd::arithmetic::div_mod::lemma_div_multiples_vanish(a - b, UNIT as int);
        }
    }
}

/// Interpolated values stay between the endpoints.
pub proof fn lemma_lerp_bounds(a: int, b: int, t: int)
    requires
        0 <= t <= UNIT as int,
    ensures
        b >= a ==> a <= lerp_spec(a, b, t) <= b,
        b < a ==> b <= lerp_spec(a, b, t) <= a,
{
    if b >= a {
        assert(0 <= (b - a) * t) by (nonlinear_arith)
            requires b - a >= 0 && t >= 0;
        assert((b - a) * t <= (b - a) * (UNIT as int)) by (nonlinear_arith)
            requires b - a >= 0 && 0 <= t <= UNIT as int;
        assert(0 <= (b - a) * t / (UNIT as int)) by {
            vstd::arithmetic::div_mod::lemma_div_is_ordered(0, (b - a) * t, UNIT as int);
        }
        assert((b - a) * t / (UNIT as int) <= b - a) by {
            vstd::arithmetic::div_mod::lemma_div_is_ordered(
                (b - a) * t, (b - a) * (UNIT as int), UNIT as int);
            vstd::arithmetic::div_mod::lemma_div_multiples_vanish(b - a, UNIT as int);
        }
    } else {
        assert(0 <= (a - b) * t) by (nonlinear_arith)
            requires a - b >= 0 && t >= 0;
        assert((a - b) * t <= (a - b) * (UNIT as int)) by (nonlinear_arith)
            requires a - b >= 0 && 0 <= t <= UNIT as int;
        assert(0 <= (a - b) * t / (UNIT as int)) by {
            vstd::arithmetic::div_mod::lemma_div_is_ordered(0, (a - b) * t, UNIT as int);
        }
        assert((a - b) * t / (UNIT as int) <= a - b) by {
            vstd::arithmetic::div_mod::lemma_div_is_ordered(
                (a - b) * t, (a - b) * (UNIT as int), UNIT as int);
            vstd::arithmetic::div_mod::lemma_div_multiples_vanish(a - b, UNIT as int);
        }
    }
}

/// Executable linear interpolation; exact at both endpoints.
pub fn lerp(a: i64, b: i64, t: i64) -> (r: i64)
    requires
        -8 * UNIT <= a <= 8 * UNIT,
        -8 * UNIT <= b <= 8 * UNIT,
        0 <= t <= UNIT,
    ensures
        r == lerp_spec(a as int, b as int, t as int),
        a <= b ==> a <= r <= b,
        b < a ==> b <= r <= a,
{
    proof {
        lemma_lerp_bounds(a as int, b as int, t as int);
    }
    if b >= a {
        let d: i64 = b - a;
        a + d * t / UNIT
    } else {
        let d: i64 = a - b;
        a - d * t / UNIT
    }
}

/// The floor of the square root of a non-negative integer, defined by
/// counting up, so that spec-level cost functions have an exact value.
pub open spec fn sqrt_floor(x: int) -> int
    decreases x,
{
    if x <= 0 {
        0
    } else {
        let r = sqrt_floor(x - 1);
        if (r + 1) * (r + 1) <= x {
            r + 1
        } else {
            r
        }
    }
}

/// `sqrt_floor(x)` really is the floor of the square root.
pub proof fn lemma_sqrt_floor_bounds(x: int)
    requires
        x >= 0,
    ensures
        sqrt_floor(x) >= 0,
        sqrt_floor(x) * sqrt_floor(x) <= x,
        x < (sqrt_floor(x) + 1) * (sqrt_floor(x) + 1),
    decreases x,
{
    if x == 0 {
    } else {
        lemma_sqrt_floor_bounds(x - 1);
        let r = sqrt_floor(x - 1);
        if (r + 1) * (r + 1) <= x {
            assert(x < (r + 2) * (r + 2)) by (nonlinear_arith)
                requires r >= 0 && x - 1 < (r + 1) * (r + 1);
        }
    }
}

/// Inputs below `(b + 1)^2` have square roots of at most `b`.
pub proof fn lemma_sqrt_floor_le(x: int, b: int)
    requires
        0 <= x,
        0 <= b,
        x < (b + 1) * (b + 1),
    ensures
        sqrt_floor(x) <= b,
{
    lemma_sqrt_floor_bounds(x);
    let s = sqrt_floor(x);
    if s > b {
        assert((b + 1) * (b + 1) <= s * s) by (nonlinear_arith)
            requires 0 <= b + 1 <= s;
        assert(false);
    }
}

/// Two-sided bounds pin the square root down: anything that satisfies them
/// equals `sqrt_floor`.
pub proof fn lemma_sqrt_floor_unique(x: int, r: int)
    requires
        x >= 0,
        r >= 0,
        r * r <= x,
        x < (r + 1) * (r + 1),
    ensures
        r == sqrt_floor(x),
{
    lemma_sqrt_floor_bounds(x);
    let s = sqrt_floor(x);
    if r < s {
        assert((r + 1) * (r + 1) <= s * s) by (nonlinear_arith)
            requires 0 <= r + 1 <= s;
        assert(false);
    }
    if s < r {
        assert((s + 1) * (s + 1) <= r * r) by (nonlinear_arith)
            requires 0 <= s + 1 <= r;
        assert(false);
    }
}

/// Executable integer square root by bisection.
pub fn isqrt(x: u64) -> (r: u64)
    ensures
        r == sqrt_floor(x as int),
{
    if x == 0 {
        proof {
            assert(sqrt_floor(0) == 0);
        }
        return 0;
    }
    let mut lo: u64 = 0;
    let mut hi: u64 = if x >= 0xffff_ffff { 0x1_0000_0000 } else { x + 1 };
    proof {
        if x >= 0xffff_ffff {
            assert((x as int) < (hi as int) * (hi as int)) by (nonlinear_arith)
                requires hi == 0x1_0000_0000u64 && x <= u64::MAX;
        } else {
            assert((x as int) < (hi as int) * (hi as int)) by (nonlinear_arith)
                requires hi == x + 1 && x >= 1;
        }
    }
    while lo + 1 < hi
        invariant
            lo < hi <= 0x1_0000_0000u64,
            (lo as int) * (lo as int) <= x as int,
            (x as int) < (hi as int) * (hi as int),
        decreases hi - lo,
    {
        let mid: u64 = lo + (hi - lo) / 2;
        assert(lo < mid < hi);
        assert((mid as int) * (mid as int) < 0x1_0000_0000_0000_0000) by (nonlinear_arith)
            requires mid < 0x1_0000_0000u64;
        if mid * mid <= x {
            lo = mid;
        } else {
            hi = mid;
        }
    }
    proof {
        lemma_sqrt_floor_unique(x as int, lo as int);
    }
    lo
}

/// Absolute difference of two bounded scalars, as the distance building
/// block.
pub fn abs_diff(a: i64, b: i64) -> (r: i64)
    requires
        -8 * UNIT <= a <= 8 * UNIT,
        -8 * UNIT <= b <= 8 * UNIT,
    ensures
        r == if a >= b { a - b } else { b - a },
        0 <= r <= 16 * UNIT,
{
    if a >= b {
        a - b
    } else {
        b - a
    }
}

} // verus!
