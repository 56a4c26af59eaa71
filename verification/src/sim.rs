//! The motion simulator.
//!
//! Every render tick advances a scalar phase in `[0, UNIT]` and places each
//! particle on a path from its source to its assigned target.  The path is
//! selected by a `MotionStyle`; all styles are exact at both endpoints: at
//! phase `0` a particle renders exactly at its source, at phase `UNIT`
//! exactly at its assigned target.

use vstd::prelude::*;
use crate::fixed::{lerp, lerp_spec, lemma_lerp_endpoints, lemma_lerp_bounds, UNIT};
use crate::grid::{Particle, MAX_PARTICLES};

verus! {

/// The selectable per-tick trajectory rule.
#[derive(Clone, Copy, PartialEq, Eq, Structural, Debug)]
pub enum MotionStyle {
    /// Straight-line interpolation.
    Linear,
    /// Straight line plus a per-particle triangle oscillation of seeded
    /// amplitude and frequency that vanishes at the endpoints.
    Float,
    /// The displacement is bent by a phase-dependent rotation that unwinds
    /// before arrival.
    Swirl,
    /// Per-particle jitter, strongest mid-transition, zero at the
    /// endpoints.
    Dust,
    /// Linear until a threshold phase, then a rapid pull to the target.
    MagnetSnap,
}

impl Default for MotionStyle {
    fn default() -> (r: Self)
        ensures
            r == MotionStyle::Linear,
    {
        MotionStyle::Linear
    }
}

impl MotionStyle {
    /// Display name of the style.
    pub fn label(&self) -> (r: &'static str)
        ensures
            match self {
                MotionStyle::Linear => r@ == "Linear"@,
                MotionStyle::Float => r@ == "Float"@,
                MotionStyle::Swirl => r@ == "Swirl"@,
                MotionStyle::Dust => r@ == "Dust"@,
                MotionStyle::MagnetSnap => r@ == "Magnet Snap"@,
            },
    {
        match self {
            MotionStyle::Linear => "Linear",
            MotionStyle::Float => "Float",
            MotionStyle::Swirl => "Swirl",
            MotionStyle::Dust => "Dust",
            MotionStyle::MagnetSnap => "Magnet Snap",
        }
    }
}

/// Style strengths, each a fixed-point fraction in `[0, UNIT]`.
#[derive(Clone, Copy, PartialEq, Eq, Structural, Debug)]
pub struct MotionParams {
    pub style: MotionStyle,
    pub swirl_amount: i64,
    pub turbulence: i64,
    pub snap_strength: i64,
}

impl MotionParams {
    pub open spec fn wf(self) -> bool {
        &&& 0 <= self.swirl_amount <= UNIT
        &&& 0 <= self.turbulence <= UNIT
        &&& 0 <= self.snap_strength <= UNIT
    }
}

/// Clamps a coordinate into the normalized square.
pub open spec fn clamp_unit_spec(v: int) -> int {
    if v < 0 {
        0
    } else if v > UNIT {
        UNIT as int
    } else {
        v
    }
}

fn clamp_unit(v: i64) -> (r: i64)
    requires
        -100 * UNIT <= v <= 100 * UNIT,
    ensures
        r == clamp_unit_spec(v as int),
{
    if v < 0 {
        0
    } else if v > UNIT {
        UNIT
    } else {
        v
    }
}

/// Division rounding toward zero, written with non-negative operands only,
/// so that the executable code matches it exactly.
pub open spec fn div_tz_spec(v: int, d: int) -> int {
    if v >= 0 {
        v / d
    } else {
        -((-v) / d)
    }
}

/// `|div_tz(v, d)| <= |v| / d`-style bound: the quotient keeps the bound of
/// the numerator scaled down.
proof fn lemma_div_tz_bound(v: int, d: int, b: int)
    requires
        d >= 1,
        0 <= b,
        -(b * d) <= v <= b * d,
    ensures
        -b <= div_tz_spec(v, d) <= b,
{
    assert(b * d == d * b) by (nonlinear_arith);
    vstd::arithmetic::div_mod::lemma_div_multiples_vanish(b, d);
    if v >= 0 {
        vstd::arithmetic::div_mod::lemma_div_is_ordered(0, v, d);
        vstd::arithmetic::div_mod::lemma_div_is_ordered(v, b * d, d);
    } else {
        vstd::arithmetic::div_mod::lemma_div_is_ordered(0, -v, d);
        vstd::arithmetic::div_mod::lemma_div_is_ordered(-v, b * d, d);
    }
}

fn div_tz(v: i64, d: i64) -> (r: i64)
    requires
        1 <= d,
        -0x1000_0000_0000_0000 <= v <= 0x1000_0000_0000_0000,
    ensures
        r == div_tz_spec(v as int, d as int),
{
    if v >= 0 {
        v / d
    } else {
        -((-v) / d)
    }
}

/// The bell curve `4 * phase * (UNIT - phase) / UNIT`: zero at both
/// endpoints, `UNIT` at mid-transition.
pub open spec fn bell_spec(phase: int) -> int {
    4 * phase * (UNIT - phase) / (UNIT as int)
}

/// The bell stays in `[0, UNIT]` over the phase range, and vanishes exactly
/// at the endpoints.
pub proof fn lemma_bell_bounds(phase: int)
    requires
        0 <= phase <= UNIT,
    ensures
        0 <= bell_spec(phase) <= UNIT,
        phase == 0 ==> bell_spec(phase) == 0,
        phase == UNIT ==> bell_spec(phase) == 0,
{
    let u = UNIT as int;
    assert(0 <= 4 * phase * (u - phase) <= u * u) by (nonlinear_arith)
        requires 0 <= phase <= u && u == 65536;
    vstd::arithmetic::div_mod::lemma_div_is_ordered(0, 4 * phase * (u - phase), u);
    vstd::arithmetic::div_mod::lemma_div_is_ordered(4 * phase * (u - phase), u * u, u);
    vstd::arithmetic::div_mod::lemma_div_multiples_vanish(u, u);
    if phase == 0 {
        assert(4 * phase * (u - phase) == 0) by (nonlinear_arith)
            requires phase == 0;
    }
    if phase == u {
        assert(4 * phase * (u - phase) == 0) by (nonlinear_arith)
            requires phase == u;
    }
}

fn bell(phase: i64) -> (r: i64)
    requires
        0 <= phase <= UNIT,
    ensures
        r == bell_spec(phase as int),
        0 <= r <= UNIT,
{
    proof {
        lemma_bell_bounds(phase as int);
        assert(0 <= 4 * (phase as int) * (UNIT - phase as int) <= 0x4_0000_0000) by (
        nonlinear_arith)
            requires 0 <= phase <= 65536 && UNIT == 65536i64;
    }
    4 * phase * (UNIT - phase) / UNIT
}

/// Offset of magnitude `|j| * scale / 2048`, signed by `j`; `j` is a signed
/// byte drawn from a particle's seed, `scale` a fraction in `[0, UNIT]`.
/// The result vanishes whenever `scale` does, and stays within
/// `128 * UNIT / 2048`.
pub open spec fn seed_offset_spec(j: int, scale: int) -> int {
    div_tz_spec(j * scale, 2048)
}

pub proof fn lemma_seed_offset_bounds(j: int, scale: int)
    requires
        -128 <= j <= 128,
        0 <= scale <= UNIT,
    ensures
        -4096 <= seed_offset_spec(j, scale) <= 4096,
        scale == 0 ==> seed_offset_spec(j, scale) == 0,
{
    assert(-(4096 * 2048) <= j * scale <= 4096 * 2048) by (nonlinear_arith)
        requires -128 <= j <= 128 && 0 <= scale <= 65536 && UNIT == 65536i64;
    lemma_div_tz_bound(j * scale, 2048, 4096);
    if scale == 0 {
        assert(j * scale == 0) by (nonlinear_arith)
            requires scale == 0;
    }
}

fn seed_offset(j: i64, scale: i64) -> (r: i64)
    requires
        -128 <= j <= 128,
        0 <= scale <= UNIT,
    ensures
        r == seed_offset_spec(j as int, scale as int),
        -4096 <= r <= 4096,
{
    proof {
        lemma_seed_offset_bounds(j as int, scale as int);
        assert(-(4096 * 2048) <= (j as int) * (scale as int) <= 4096 * 2048) by (nonlinear_arith)
            requires -128 <= j <= 128 && 0 <= scale <= 65536;
    }
    div_tz(j * scale, 2048)
}

/// A signed byte in `[-128, 127]` drawn from bits `lo .. lo+8` of a seed.
pub open spec fn seed_byte_spec(seed: u32, lo: int) -> int {
    (seed as int) / pow2_spec(lo) % 256 - 128
}

/// Both seed bytes and dust bytes are signed bytes.
pub proof fn lemma_byte_ranges(seed: u32, phase: int, lo: int)
    ensures
        -128 <= seed_byte_spec(seed, lo) <= 127,
        -128 <= dust_byte_spec(seed, phase, lo) <= 127,
{
    vstd::arithmetic::div_mod::lemma_mod_bound((seed as int) / pow2_spec(lo), 256);
    vstd::arithmetic::div_mod::lemma_mod_bound((seed as int) + phase * 7919, 65536);
    vstd::arithmetic::div_mod::lemma_mod_bound(
        ((seed as int) + phase * 7919) % 65536 / pow2_spec(lo),
        256,
    );
}

/// The powers of two used to slice seeds.
pub open spec fn pow2_spec(lo: int) -> int {
    if lo == 8 {
        256
    } else {
        1
    }
}

fn seed_byte(seed: u32, lo: u32) -> (j: i64)
    requires
        lo == 0 || lo == 8,
    ensures
        j == seed_byte_spec(seed, lo as int),
        -128 <= j <= 127,
{
    let shifted: u32 = if lo == 8 {
        seed / 256
    } else {
        seed
    };
    (shifted % 256) as i64 - 128
}

/// Seeded frequency of the `Float` oscillation: one to four wave cycles
/// over the transition.
pub open spec fn float_freq_spec(seed: u32) -> int {
    1 + (seed as int) % 4
}

/// Triangle wave over one period `[0, 2 * UNIT)`: rises from `-UNIT` to
/// `UNIT`, then falls back.
pub open spec fn tri_wave_spec(x: int) -> int {
    if x < UNIT {
        2 * x - UNIT
    } else {
        3 * UNIT - 2 * x
    }
}

/// The oscillatory offset of the `Float` style along one axis: a triangle
/// oscillation of seeded frequency under a seeded-amplitude envelope that
/// vanishes at both endpoints.
pub open spec fn float_offset_spec(seed: u32, phase: int, lo: int) -> int {
    let amp = seed_offset_spec(seed_byte_spec(seed, lo), bell_spec(phase));
    let x = (float_freq_spec(seed) * phase) % (2 * (UNIT as int));
    div_tz_spec(amp * tri_wave_spec(x), UNIT as int)
}

/// The oscillation stays within the envelope's bound and vanishes exactly
/// at both endpoints.
pub proof fn lemma_float_offset_bounds(seed: u32, phase: int, lo: int)
    requires
        0 <= phase <= UNIT,
    ensures
        -4096 <= float_offset_spec(seed, phase, lo) <= 4096,
        phase == 0 ==> float_offset_spec(seed, phase, lo) == 0,
        phase == UNIT ==> float_offset_spec(seed, phase, lo) == 0,
{
    let u = UNIT as int;
    lemma_byte_ranges(seed, phase, lo);
    lemma_bell_bounds(phase);
    lemma_seed_offset_bounds(seed_byte_spec(seed, lo), bell_spec(phase));
    let amp = seed_offset_spec(seed_byte_spec(seed, lo), bell_spec(phase));
    let x = (float_freq_spec(seed) * phase) % (2 * u);
    vstd::arithmetic::div_mod::lemma_mod_bound(float_freq_spec(seed) * phase, 2 * u);
    assert(-u <= tri_wave_spec(x) <= u);
    assert(-(4096 * u) <= amp * tri_wave_spec(x) <= 4096 * u) by (nonlinear_arith)
        requires
            -4096 <= amp <= 4096,
            -u <= tri_wave_spec(x) <= u,
            u == 65536;
    lemma_div_tz_bound(amp * tri_wave_spec(x), u, 4096);
    if phase == 0 || phase == UNIT {
        assert(amp == 0);
        assert(amp * tri_wave_spec(x) == 0) by (nonlinear_arith)
            requires amp == 0;
        lemma_div_tz_bound(amp * tri_wave_spec(x), u, 0);
    }
}

fn float_offset(seed: u32, phase: i64, lo: u32) -> (r: i64)
    requires
        0 <= phase <= UNIT,
        lo == 0 || lo == 8,
    ensures
        r == float_offset_spec(seed, phase as int, lo as int),
        -4096 <= r <= 4096,
{
    proof {
        lemma_float_offset_bounds(seed, phase as int, lo as int);
        lemma_byte_ranges(seed, phase as int, lo as int);
    }
    let bl = bell(phase);
    let j = seed_byte(seed, lo);
    let amp = seed_offset(j, bl);
    let freq: i64 = 1 + ((seed % 4) as i64);
    proof {
        assert(0 <= (freq as int) * (phase as int) <= 262144) by (nonlinear_arith)
            requires 1 <= freq <= 4 && 0 <= phase <= 65536;
    }
    let x: i64 = (freq * phase) % (2 * UNIT);
    let tri: i64 = if x < UNIT {
        2 * x - UNIT
    } else {
        3 * UNIT - 2 * x
    };
    proof {
        assert(-(4096 * 65536) <= (amp as int) * (tri as int) <= 4096 * 65536)
            by (nonlinear_arith)
            requires -4096 <= amp <= 4096 && -65536 <= tri <= 65536;
    }
    div_tz(amp * tri, UNIT)
}

/// A signed byte that varies with both the particle seed and the phase,
/// for the per-tick scatter of the `Dust` style.
pub open spec fn dust_byte_spec(seed: u32, phase: int, lo: int) -> int {
    ((seed as int) + phase * 7919) % 65536 / pow2_spec(lo) % 256 - 128
}

fn dust_byte(seed: u32, phase: i64, lo: u32) -> (j: i64)
    requires
        0 <= phase <= UNIT,
        lo == 0 || lo == 8,
    ensures
        j == dust_byte_spec(seed, phase as int, lo as int),
        -128 <= j <= 127,
{
    let mixed: i64 = ((seed as i64) + phase * 7919) % 65536;
    let shifted: i64 = if lo == 8 {
        mixed / 256
    } else {
        mixed
    };
    shifted % 256 - 128
}

/// Quadratic cosine approximation on `[0, UNIT]`, exact at angle zero.
pub open spec fn cos_fx_spec(a: int) -> int {
    UNIT - a * a / (2 * UNIT)
}

/// Cubic sine approximation on `[0, UNIT]`, exact at angle zero.
pub open spec fn sin_fx_spec(a: int) -> int {
    a - a * a / (6 * UNIT) * a / (UNIT as int)
}

/// The approximations stay in `[0, UNIT]` on the angle range, and are exact
/// at zero.
pub proof fn lemma_trig_bounds(a: int)
    requires
        0 <= a <= UNIT,
    ensures
        0 <= cos_fx_spec(a) <= UNIT,
        0 <= sin_fx_spec(a) <= UNIT,
        a == 0 ==> cos_fx_spec(a) == UNIT && sin_fx_spec(a) == 0,
{
    let u = UNIT as int;
    assert(0 <= a * a <= u * u) by (nonlinear_arith)
        requires 0 <= a <= u;
    vstd::arithmetic::div_mod::lemma_div_is_ordered(0, a * a, 2 * u);
    assert(a * a / (2 * u) <= u) by {
        vstd::arithmetic::div_mod::lemma_div_is_ordered(a * a, u * u, 2 * u);
        assert(u * u <= (2 * u) * u) by (nonlinear_arith)
            requires u == 65536;
        vstd::arithmetic::div_mod::lemma_div_is_ordered(u * u, (2 * u) * u, 2 * u);
        vstd::arithmetic::div_mod::lemma_div_multiples_vanish(u, 2 * u);
        assert((2 * u) * u == u * (2 * u)) by (nonlinear_arith);
    }
    let t = a * a / (6 * u);
    assert(0 <= t && t * a <= u * a) by {
        vstd::arithmetic::div_mod::lemma_div_is_ordered(0, a * a, 6 * u);
        assert(a * a <= u * a) by (nonlinear_arith)
            requires 0 <= a <= u;
        vstd::arithmetic::div_mod::lemma_div_is_ordered(a * a, u * a, 6 * u);
        assert(u * a <= (6 * u) * u) by (nonlinear_arith)
            requires 0 <= a <= u;
        vstd::arithmetic::div_mod::lemma_div_is_ordered(u * a, (6 * u) * u, 6 * u);
        vstd::arithmetic::div_mod::lemma_div_multiples_vanish(u, 6 * u);
        assert((6 * u) * u == (6 * u) * u) by (nonlinear_arith);
        assert(t <= u);
        assert(t * a <= u * a) by (nonlinear_arith)
            requires 0 <= t <= u && a >= 0;
    }
    assert(0 <= t * a / u <= a) by {
        vstd::arithmetic::div_mod::lemma_div_is_ordered(0, t * a, u);
        assert(0 <= t * a) by (nonlinear_arith)
            requires 0 <= t && 0 <= a;
        vstd::arithmetic::div_mod::lemma_div_is_ordered(t * a, u * a, u);
        vstd::arithmetic::div_mod::lemma_div_multiples_vanish(a, u);
        assert(u * a == u * a);
    }
    if a == 0 {
        assert(a * a == 0);
    }
}

fn cos_fx(a: i64) -> (r: i64)
    requires
        0 <= a <= UNIT,
    ensures
        r == cos_fx_spec(a as int),
        0 <= r <= UNIT,
{
    proof {
        lemma_trig_bounds(a as int);
        assert(0 <= (a as int) * (a as int) <= 0x1_0000_0000) by (nonlinear_arith)
            requires 0 <= a <= 65536;
    }
    UNIT - a * a / (2 * UNIT)
}

fn sin_fx(a: i64) -> (r: i64)
    requires
        0 <= a <= UNIT,
    ensures
        r == sin_fx_spec(a as int),
        0 <= r <= UNIT,
{
    proof {
        lemma_trig_bounds(a as int);
        assert(0 <= (a as int) * (a as int) <= 0x1_0000_0000) by (nonlinear_arith)
            requires 0 <= a <= 65536;
        assert((a as int) * (a as int) <= (6 * (UNIT as int)) * (UNIT as int))
            by (nonlinear_arith)
            requires 0 <= a <= 65536 && UNIT == 65536i64;
        vstd::arithmetic::div_mod::lemma_div_is_ordered(
            0, (a as int) * (a as int), 6 * (UNIT as int));
        vstd::arithmetic::div_mod::lemma_div_is_ordered(
            (a as int) * (a as int),
            (6 * (UNIT as int)) * (UNIT as int),
            6 * (UNIT as int),
        );
        assert((6 * (UNIT as int)) * (UNIT as int) == (6 * (UNIT as int)) * (UNIT as int));
        vstd::arithmetic::div_mod::lemma_div_multiples_vanish(UNIT as int, 6 * (UNIT as int));
    }
    let t: i64 = a * a / (6 * UNIT);
    proof {
        assert(0 <= (t as int) * (a as int) <= 0x1_0000_0000) by (nonlinear_arith)
            requires 0 <= t <= 65536 && 0 <= a <= 65536;
    }
    a - t * a / UNIT
}

/// The bent displacement of the `Swirl` style: the vector `(dx, dy)`
/// rotated by angle `a`.
pub open spec fn rot_x_spec(dx: int, dy: int, a: int) -> int {
    div_tz_spec(dx * cos_fx_spec(a) - dy * sin_fx_spec(a), UNIT as int)
}

pub open spec fn rot_y_spec(dx: int, dy: int, a: int) -> int {
    div_tz_spec(dx * sin_fx_spec(a) + dy * cos_fx_spec(a), UNIT as int)
}

/// Rotation by angle zero moves nothing.
pub proof fn lemma_rot_identity(dx: int, dy: int)
    ensures
        rot_x_spec(dx, dy, 0) == dx,
        rot_y_spec(dx, dy, 0) == dy,
{
    lemma_trig_bounds(0);
    assert(dy * sin_fx_spec(0) == 0) by (nonlinear_arith)
        requires sin_fx_spec(0) == 0;
    assert(dx * sin_fx_spec(0) == 0) by (nonlinear_arith)
        requires sin_fx_spec(0) == 0;
    let u = UNIT as int;
    assert(rot_x_spec(dx, dy, 0) == div_tz_spec(dx * u, u));
    assert(rot_y_spec(dx, dy, 0) == div_tz_spec(dy * u, u));
    lemma_div_tz_exact(dx, u);
    lemma_div_tz_exact(dy, u);
}

/// Dividing an exact multiple recovers the factor, whatever its sign.
proof fn lemma_div_tz_exact(x: int, d: int)
    requires
        d >= 1,
    ensures
        div_tz_spec(x * d, d) == x,
{
    assert(x * d == d * x) by (nonlinear_arith);
    vstd::arithmetic::div_mod::lemma_div_multiples_vanish(x, d);
    if x * d < 0 {
        assert(-(x * d) == (-x) * d) by (nonlinear_arith);
        assert((-x) * d == d * (-x)) by (nonlinear_arith);
        vstd::arithmetic::div_mod::lemma_div_multiples_vanish(-x, d);
    }
}

/// Bounded displacements stay bounded under rotation.
pub proof fn lemma_rot_bounds(dx: int, dy: int, a: int)
    requires
        -(UNIT as int) <= dx <= UNIT,
        -(UNIT as int) <= dy <= UNIT,
        0 <= a <= UNIT,
    ensures
        -2 * (UNIT as int) <= rot_x_spec(dx, dy, a) <= 2 * (UNIT as int),
        -2 * (UNIT as int) <= rot_y_spec(dx, dy, a) <= 2 * (UNIT as int),
{
    let u = UNIT as int;
    lemma_trig_bounds(a);
    assert(-(u * u) <= dx * cos_fx_spec(a) <= u * u) by (nonlinear_arith)
        requires -u <= dx <= u && 0 <= cos_fx_spec(a) <= u;
    assert(-(u * u) <= dy * sin_fx_spec(a) <= u * u) by (nonlinear_arith)
        requires -u <= dy <= u && 0 <= sin_fx_spec(a) <= u;
    assert(-(u * u) <= dx * sin_fx_spec(a) <= u * u) by (nonlinear_arith)
        requires -u <= dx <= u && 0 <= sin_fx_spec(a) <= u;
    assert(-(u * u) <= dy * cos_fx_spec(a) <= u * u) by (nonlinear_arith)
        requires -u <= dy <= u && 0 <= cos_fx_spec(a) <= u;
    assert((2 * u) * u == 2 * (u * u)) by (nonlinear_arith);
    lemma_div_tz_bound(dx * cos_fx_spec(a) - dy * sin_fx_spec(a), u, 2 * u);
    lemma_div_tz_bound(dx * sin_fx_spec(a) + dy * cos_fx_spec(a), u, 2 * u);
}

/// The effective interpolation phase of the `MagnetSnap` style: linear
/// until the threshold `UNIT - snap / 2`, then boosted toward the target;
/// at full snap strength the boost is an immediate jump.
pub open spec fn magnet_phase_spec(phase: int, snap: int) -> int {
    let tau = UNIT - snap / 2;
    if phase < tau {
        phase
    } else if snap == UNIT {
        UNIT as int
    } else {
        let boosted = tau + (phase - tau) * (UNIT as int) / (UNIT - snap);
        if boosted > UNIT {
            UNIT as int
        } else {
            boosted
        }
    }
}

/// The effective phase stays in range and keeps both endpoints exact.
pub proof fn lemma_magnet_phase(phase: int, snap: int)
    requires
        0 <= phase <= UNIT,
        0 <= snap <= UNIT,
    ensures
        0 <= magnet_phase_spec(phase, snap) <= UNIT,
        phase == 0 ==> magnet_phase_spec(phase, snap) == 0,
        phase == UNIT ==> magnet_phase_spec(phase, snap) == UNIT,
{
    let u = UNIT as int;
    let tau = u - snap / 2;
    assert(0 <= snap / 2 <= u / 2) by {
        vstd::arithmetic::div_mod::lemma_div_is_ordered(0, snap, 2);
        vstd::arithmetic::div_mod::lemma_div_is_ordered(snap, u, 2);
    }
    if phase >= tau && snap != UNIT {
        let num = (phase - tau) * u;
        assert(0 <= num) by {
            vstd::arithmetic::mul::lemma_mul_nonnegative(phase - tau, u);
        }
        vstd::arithmetic::div_mod::lemma_div_is_ordered(0, num, u - snap);
        if phase == u {
            assert(num / (u - snap) >= num / u) by {
                vstd::arithmetic::div_mod::lemma_div_is_ordered_by_denominator(
                    num, u - snap, u);
            }
            assert(num / u == phase - tau) by {
                lemma_div_tz_exact(phase - tau, u);
            }
        }
    }
}

/// With full snap strength the path is exactly linear below the threshold
/// phase and exactly at the target above it.
pub proof fn lemma_magnet_full_snap(phase: int)
    requires
        0 <= phase <= UNIT,
    ensures
        phase < UNIT - UNIT / 2 ==> magnet_phase_spec(phase, UNIT as int) == phase,
        phase >= UNIT - UNIT / 2 ==> magnet_phase_spec(phase, UNIT as int) == UNIT,
{
}

/// The phase driving the base interpolation: the raw phase, except that
/// `MagnetSnap` substitutes its boosted phase.
pub open spec fn effective_phase_spec(params: MotionParams, phase: int) -> int {
    if params.style is MagnetSnap {
        magnet_phase_spec(phase, params.snap_strength as int)
    } else {
        phase
    }
}

/// Unclamped x-coordinate of one particle under a style.
pub open spec fn pos_x_spec(params: MotionParams, s: Particle, t: Particle, seed: u32, phase: int) -> int {
    let e = effective_phase_spec(params, phase);
    let bx = lerp_spec(s.x as int, t.x as int, e);
    match params.style {
        MotionStyle::Linear => bx,
        MotionStyle::MagnetSnap => bx,
        MotionStyle::Float => bx + float_offset_spec(seed, phase, 0),
        MotionStyle::Dust => bx + seed_offset_spec(
            dust_byte_spec(seed, phase, 0),
            (params.turbulence as int) * bell_spec(phase) / (UNIT as int),
        ),
        MotionStyle::Swirl => {
            let a = (params.swirl_amount as int) * bell_spec(phase) / (UNIT as int);
            let dx = bx - s.x;
            let dy = lerp_spec(s.y as int, t.y as int, e) - s.y;
            s.x + rot_x_spec(dx, dy, a)
        },
    }
}

/// Unclamped y-coordinate of one particle under a style.
pub open spec fn pos_y_spec(params: MotionParams, s: Particle, t: Particle, seed: u32, phase: int) -> int {
    let e = effective_phase_spec(params, phase);
    let by = lerp_spec(s.y as int, t.y as int, e);
    match params.style {
        MotionStyle::Linear => by,
        MotionStyle::MagnetSnap => by,
        MotionStyle::Float => by + float_offset_spec(seed, phase, 8),
        MotionStyle::Dust => by + seed_offset_spec(
            dust_byte_spec(seed, phase, 8),
            (params.turbulence as int) * bell_spec(phase) / (UNIT as int),
        ),
        MotionStyle::Swirl => {
            let a = (params.swirl_amount as int) * bell_spec(phase) / (UNIT as int);
            let dx = lerp_spec(s.x as int, t.x as int, e) - s.x;
            let dy = by - s.y;
            s.y + rot_y_spec(dx, dy, a)
        },
    }
}

/// One interpolated color channel.
pub open spec fn chan_spec(params: MotionParams, sc: int, tc: int, phase: int) -> int {
    lerp_spec(sc, tc, effective_phase_spec(params, phase))
}

/// The rendered particle: style position clamped into the normalized
/// square, colors interpolated.
pub open spec fn render_particle_spec(
    params: MotionParams,
    s: Particle,
    t: Particle,
    seed: u32,
    phase: int,
) -> Particle {
    Particle {
        x: clamp_unit_spec(pos_x_spec(params, s, t, seed, phase)) as i64,
        y: clamp_unit_spec(pos_y_spec(params, s, t, seed, phase)) as i64,
        red: chan_spec(params, s.red as int, t.red as int, phase) as u8,
        green: chan_spec(params, s.green as int, t.green as int, phase) as u8,
        blue: chan_spec(params, s.blue as int, t.blue as int, phase) as u8,
    }
}

/// Identity boundary conditions, for every style: at phase `0` the rendered
/// particle is exactly the source, at phase `UNIT` exactly the target.
pub proof fn lemma_boundary_exact(params: MotionParams, s: Particle, t: Particle, seed: u32)
    requires
        params.wf(),
        s.wf(),
        t.wf(),
    ensures
        render_particle_spec(params, s, t, seed, 0) == s,
        render_particle_spec(params, s, t, seed, UNIT as int) == t,
{
    let u = UNIT as int;
    lemma_magnet_phase(0, params.snap_strength as int);
    lemma_magnet_phase(u, params.snap_strength as int);
    assert(effective_phase_spec(params, 0) == 0);
    assert(effective_phase_spec(params, u) == u);
    lemma_lerp_endpoints(s.x as int, t.x as int);
    lemma_lerp_endpoints(s.y as int, t.y as int);
    lemma_lerp_endpoints(s.red as int, t.red as int);
    lemma_lerp_endpoints(s.green as int, t.green as int);
    lemma_lerp_endpoints(s.blue as int, t.blue as int);
    lemma_bell_bounds(0);
    lemma_bell_bounds(u);
    vstd::arithmetic::div_mod::lemma_div_basics(u);
    assert((params.turbulence as int) * 0 == 0);
    assert((params.swirl_amount as int) * 0 == 0);
    lemma_byte_ranges(seed, 0, 0);
    lemma_byte_ranges(seed, 0, 8);
    lemma_byte_ranges(seed, u, 0);
    lemma_byte_ranges(seed, u, 8);
    lemma_float_offset_bounds(seed, 0, 0);
    lemma_float_offset_bounds(seed, 0, 8);
    lemma_float_offset_bounds(seed, u, 0);
    lemma_float_offset_bounds(seed, u, 8);
    lemma_seed_offset_bounds(dust_byte_spec(seed, 0, 0), 0);
    lemma_seed_offset_bounds(dust_byte_spec(seed, 0, 8), 0);
    lemma_seed_offset_bounds(dust_byte_spec(seed, u, 0), 0);
    lemma_seed_offset_bounds(dust_byte_spec(seed, u, 8), 0);
    lemma_rot_identity(0, 0);
    lemma_rot_identity(lerp_spec(s.x as int, t.x as int, u) - s.x,
        lerp_spec(s.y as int, t.y as int, u) - s.y);
}

/// At full snap strength the `MagnetSnap` style renders exactly as
/// `Linear` below the threshold phase, and exactly at the target above it.
pub proof fn lemma_magnet_vs_linear(
    params: MotionParams,
    s: Particle,
    t: Particle,
    seed: u32,
    phase: int,
)
    requires
        params.style is MagnetSnap,
        params.snap_strength == UNIT,
        params.wf(),
        s.wf(),
        t.wf(),
        0 <= phase <= UNIT,
    ensures
        phase < UNIT - UNIT / 2 ==> render_particle_spec(params, s, t, seed, phase)
            == render_particle_spec(
            MotionParams { style: MotionStyle::Linear, ..params },
            s,
            t,
            seed,
            phase,
        ),
        phase >= UNIT - UNIT / 2 ==> render_particle_spec(params, s, t, seed, phase) == t,
{
    let u = UNIT as int;
    lemma_magnet_full_snap(phase);
    if phase >= u - u / 2 {
        assert(effective_phase_spec(params, phase) == u);
        lemma_lerp_endpoints(s.x as int, t.x as int);
        lemma_lerp_endpoints(s.y as int, t.y as int);
        lemma_lerp_endpoints(s.red as int, t.red as int);
        lemma_lerp_endpoints(s.green as int, t.green as int);
        lemma_lerp_endpoints(s.blue as int, t.blue as int);
    }
}

fn magnet_phase(phase: i64, snap: i64) -> (e: i64)
    requires
        0 <= phase <= UNIT,
        0 <= snap <= UNIT,
    ensures
        e == magnet_phase_spec(phase as int, snap as int),
        0 <= e <= UNIT,
{
    proof {
        lemma_magnet_phase(phase as int, snap as int);
        vstd::arithmetic::div_mod::lemma_div_is_ordered(0, snap as int, 2);
        vstd::arithmetic::div_mod::lemma_div_is_ordered(snap as int, 2 * (UNIT as int), 2);
    }
    let tau: i64 = UNIT - snap / 2;
    if phase < tau {
        phase
    } else if snap == UNIT {
        UNIT
    } else {
        proof {
            assert(0 <= ((phase as int) - (tau as int)) * (UNIT as int) <= 0x1_0000_0000)
                by (nonlinear_arith)
                requires
                    tau <= phase <= 65536,
                    0 <= tau,
                    UNIT == 65536i64;
        }
        let boosted: i64 = tau + (phase - tau) * UNIT / (UNIT - snap);
        if boosted > UNIT {
            UNIT
        } else {
            boosted
        }
    }
}

/// Renders one particle at one phase.
fn particle_at(params: &MotionParams, s: &Particle, t: &Particle, seed: u32, phase: i64) -> (p:
    Particle)
    requires
        params.wf(),
        s.wf(),
        t.wf(),
        0 <= phase <= UNIT,
    ensures
        p == render_particle_spec(*params, *s, *t, seed, phase as int),
        p.wf(),
{
    let e: i64 = match params.style {
        MotionStyle::MagnetSnap => magnet_phase(phase, params.snap_strength),
        _ => phase,
    };
    let bx = lerp(s.x, t.x, e);
    let by = lerp(s.y, t.y, e);
    let px: i64;
    let py: i64;
    match params.style {
        MotionStyle::Linear => {
            px = bx;
            py = by;
        },
        MotionStyle::MagnetSnap => {
            px = bx;
            py = by;
        },
        MotionStyle::Float => {
            px = bx + float_offset(seed, phase, 0);
            py = by + float_offset(seed, phase, 8);
        },
        MotionStyle::Dust => {
            let bl = bell(phase);
            proof {
                lemma_byte_ranges(seed, phase as int, 0);
                lemma_byte_ranges(seed, phase as int, 8);
                assert(0 <= (params.turbulence as int) * (bl as int) <= 0x1_0000_0000)
                    by (nonlinear_arith)
                    requires 0 <= params.turbulence <= 65536 && 0 <= bl <= 65536;
                assert((params.turbulence as int) * (bl as int) <= (UNIT as int) * (UNIT as int))
                    by (nonlinear_arith)
                    requires
                        0 <= params.turbulence <= 65536,
                        0 <= bl <= 65536,
                        UNIT == 65536i64;
                vstd::arithmetic::div_mod::lemma_div_is_ordered(
                    0, (params.turbulence as int) * (bl as int), UNIT as int);
                vstd::arithmetic::div_mod::lemma_div_is_ordered(
                    (params.turbulence as int) * (bl as int),
                    (UNIT as int) * (UNIT as int),
                    UNIT as int,
                );
                vstd::arithmetic::div_mod::lemma_div_multiples_vanish(UNIT as int, UNIT as int);
            }
            let tb: i64 = params.turbulence * bl / UNIT;
            let jx = dust_byte(seed, phase, 0);
            let jy = dust_byte(seed, phase, 8);
            px = bx + seed_offset(jx, tb);
            py = by + seed_offset(jy, tb);
        },
        MotionStyle::Swirl => {
            let bl = bell(phase);
            proof {
                assert(0 <= (params.swirl_amount as int) * (bl as int) <= 0x1_0000_0000)
                    by (nonlinear_arith)
                    requires 0 <= params.swirl_amount <= 65536 && 0 <= bl <= 65536;
                assert((params.swirl_amount as int) * (bl as int) <= (UNIT as int) * (UNIT as int))
                    by (nonlinear_arith)
                    requires
                        0 <= params.swirl_amount <= 65536,
                        0 <= bl <= 65536,
                        UNIT == 65536i64;
                vstd::arithmetic::div_mod::lemma_div_is_ordered(
                    0, (params.swirl_amount as int) * (bl as int), UNIT as int);
                vstd::arithmetic::div_mod::lemma_div_is_ordered(
                    (params.swirl_amount as int) * (bl as int),
                    (UNIT as int) * (UNIT as int),
                    UNIT as int,
                );
                vstd::arithmetic::div_mod::lemma_div_multiples_vanish(UNIT as int, UNIT as int);
            }
            let ang: i64 = params.swirl_amount * bl / UNIT;
            let ca = cos_fx(ang);
            let sa = sin_fx(ang);
            let dx = bx - s.x;
            let dy = by - s.y;
            proof {
                lemma_rot_bounds(dx as int, dy as int, ang as int);
                assert(-0x1_0000_0000 <= (dx as int) * (ca as int) <= 0x1_0000_0000)
                    by (nonlinear_arith)
                    requires -65536 <= dx <= 65536 && 0 <= ca <= 65536;
                assert(-0x1_0000_0000 <= (dy as int) * (sa as int) <= 0x1_0000_0000)
                    by (nonlinear_arith)
                    requires -65536 <= dy <= 65536 && 0 <= sa <= 65536;
                assert(-0x1_0000_0000 <= (dx as int) * (sa as int) <= 0x1_0000_0000)
                    by (nonlinear_arith)
                    requires -65536 <= dx <= 65536 && 0 <= sa <= 65536;
                assert(-0x1_0000_0000 <= (dy as int) * (ca as int) <= 0x1_0000_0000)
                    by (nonlinear_arith)
                    requires -65536 <= dy <= 65536 && 0 <= ca <= 65536;
            }
            let rx = div_tz(dx * ca - dy * sa, UNIT);
            let ry = div_tz(dx * sa + dy * ca, UNIT);
            px = s.x + rx;
            py = s.y + ry;
        },
    }
    proof {
        lemma_lerp_bounds(s.red as int, t.red as int, e as int);
        lemma_lerp_bounds(s.green as int, t.green as int, e as int);
        lemma_lerp_bounds(s.blue as int, t.blue as int, e as int);
    }
    let red_v: i64 = lerp(s.red as i64, t.red as i64, e);
    let green_v: i64 = lerp(s.green as i64, t.green as i64, e);
    let blue_v: i64 = lerp(s.blue as i64, t.blue as i64, e);
    Particle {
        x: clamp_unit(px),
        y: clamp_unit(py),
        red: red_v as u8,
        green: green_v as u8,
        blue: blue_v as u8,
    }
}

/// One tick of the phase: forward toward `UNIT` or back toward `0`,
/// clamping at the boundary, or wrapping to the opposite end when playback
/// loops.
pub open spec fn advance_phase_spec(phase: int, tick: int, reverse: bool, looped: bool) -> int {
    if reverse {
        if phase - tick >= 0 {
            phase - tick
        } else if looped {
            UNIT as int
        } else {
            0
        }
    } else {
        if phase + tick <= UNIT {
            phase + tick
        } else if looped {
            0
        } else {
            UNIT as int
        }
    }
}

fn advance_phase(phase: i64, tick: i64, reverse: bool, looped: bool) -> (r: i64)
    requires
        0 <= phase <= UNIT,
        1 <= tick <= UNIT,
    ensures
        r == advance_phase_spec(phase as int, tick as int, reverse, looped),
        0 <= r <= UNIT,
{
    if reverse {
        if phase - tick >= 0 {
            phase - tick
        } else if looped {
            UNIT
        } else {
            0
        }
    } else {
        if phase + tick <= UNIT {
            phase + tick
        } else if looped {
            0
        } else {
            UNIT
        }
    }
}

/// The phase after `k` non-looping ticks of size `tick`.
pub open spec fn phase_after_ticks(phase: int, tick: int, reverse: bool, k: nat) -> int
    decreases k,
{
    if k == 0 {
        phase
    } else {
        phase_after_ticks(
            advance_phase_spec(phase, tick, reverse, false),
            tick,
            reverse,
            (k - 1) as nat,
        )
    }
}

/// Forward ticks never overshoot `phase + k * tick` and stay in range.
pub proof fn lemma_forward_bounded(phase: int, tick: int, k: nat)
    requires
        0 <= phase <= UNIT,
        1 <= tick <= UNIT,
    ensures
        0 <= phase_after_ticks(phase, tick, false, k) <= UNIT,
        phase_after_ticks(phase, tick, false, k) <= phase + k * tick,
    decreases k,
{
    if k == 0 {
        assert(k * tick == 0) by (nonlinear_arith)
            requires k == 0;
    } else {
        let p1 = advance_phase_spec(phase, tick, false, false);
        lemma_forward_bounded(p1, tick, (k - 1) as nat);
        assert(p1 + ((k - 1) as nat) * tick <= phase + k * tick) by (nonlinear_arith)
            requires p1 <= phase + tick && k >= 1;
    }
}

/// Reverse ticks reach phase `0` exactly, once enough of them have passed.
pub proof fn lemma_reverse_returns(phase: int, tick: int, k: nat)
    requires
        0 <= phase <= UNIT,
        1 <= tick <= UNIT,
        phase <= k * tick,
    ensures
        phase_after_ticks(phase, tick, true, k) == 0,
    decreases k,
{
    if k == 0 {
        assert(k * tick == 0) by (nonlinear_arith)
            requires k == 0;
    } else {
        let p1 = advance_phase_spec(phase, tick, true, false);
        assert(p1 <= ((k - 1) as nat) * tick) by (nonlinear_arith)
            requires
                k >= 1,
                tick >= 1,
                phase <= k * tick,
                (p1 == phase - tick && phase - tick >= 0) || p1 == 0;
        lemma_reverse_returns(p1, tick, (k - 1) as nat);
    }
}

/// Round trip: starting at the source (phase `0`), any number of forward
/// ticks followed by the same number of reverse ticks lands exactly on
/// phase `0` again.
pub proof fn lemma_round_trip(tick: int, k: nat)
    requires
        1 <= tick <= UNIT,
    ensures
        phase_after_ticks(phase_after_ticks(0, tick, false, k), tick, true, k) == 0,
{
    lemma_forward_bounded(0, tick, k);
    lemma_reverse_returns(phase_after_ticks(0, tick, false, k), tick, k);
}

/// Why the simulator rejected an update.
#[derive(Clone, Copy, PartialEq, Eq, Structural, Debug)]
pub enum SimError {
    /// Grid sizes, or an assignment length, do not match the configured
    /// particle count.
    LengthMismatch,
    /// An assignment entry does not index the target grid.
    IndexOutOfRange,
}

/// The per-run mutable state, owned by the render loop: the global phase
/// and direction, one scratch seed per particle, and the rendered
/// particles of the current tick.
pub struct SimulationState {
    pub phase: i64,
    pub reverse: bool,
    pub scratch: Vec<u32>,
    pub outputs: Vec<Particle>,
}

/// The simulator: the two particle sets, the installed assignment, and the
/// playback configuration.  `update` is the only mutating entry point of
/// the render loop.
pub struct MotionSimulator {
    pub src: Vec<Particle>,
    pub tgt: Vec<Particle>,
    pub assign: Vec<usize>,
    pub n: usize,
    pub params: MotionParams,
    /// Phase advance per tick.
    pub tick: i64,
    /// Wrap at the ends instead of clamping.
    pub loop_playback: bool,
}

impl MotionSimulator {
    /// An assignment fit for this simulator: one in-range target per
    /// source.
    pub open spec fn valid_assignment(self, a: Seq<usize>) -> bool {
        &&& a.len() == self.n
        &&& forall|i: int| 0 <= i < a.len() ==> (#[trigger] a[i]) < self.n
    }

    pub open spec fn wf(self) -> bool {
        &&& 1 <= self.n <= MAX_PARTICLES
        &&& self.src@.len() == self.n
        &&& self.tgt@.len() == self.n
        &&& forall|i: int| 0 <= i < self.src@.len() ==> (#[trigger] self.src@[i]).wf()
        &&& forall|i: int| 0 <= i < self.tgt@.len() ==> (#[trigger] self.tgt@[i]).wf()
        &&& self.valid_assignment(self.assign@)
        &&& self.params.wf()
        &&& 1 <= self.tick <= UNIT
    }

    /// A state fits this simulator when its phase is in range and it
    /// carries one scratch seed per particle.
    pub open spec fn fits(self, st: SimulationState) -> bool {
        &&& 0 <= st.phase <= UNIT
        &&& st.scratch@.len() == self.n
    }

    /// What particle `i` shows at `phase` under scratch seed `seed`.
    pub open spec fn render_at(self, seed: u32, phase: int, i: int) -> Particle {
        render_particle_spec(
            self.params,
            self.src@[i],
            self.tgt@[self.assign@[i] as int],
            seed,
            phase,
        )
    }

    /// Identity boundary conditions over a whole simulator: phase `0`
    /// renders every particle at its source, phase `UNIT` at its assigned
    /// target, whatever the style and scratch seeds.
    pub proof fn lemma_boundary(self, seed: u32, i: int)
        requires
            self.wf(),
            0 <= i < self.n,
        ensures
            self.render_at(seed, 0, i) == self.src@[i],
            self.render_at(seed, UNIT as int, i) == self.tgt@[self.assign@[i] as int],
    {
        lemma_boundary_exact(
            self.params,
            self.src@[i],
            self.tgt@[self.assign@[i] as int],
            seed,
        );
    }

    /// Reversibility: from phase `0`, any number of forward ticks followed
    /// by the same number of reverse ticks puts every particle exactly
    /// back at its source, whatever the style and scratch seeds.
    pub proof fn lemma_reversible(self, seed: u32, i: int, k: nat)
        requires
            self.wf(),
            0 <= i < self.n,
        ensures
            self.render_at(
                seed,
                phase_after_ticks(
                    phase_after_ticks(0, self.tick as int, false, k),
                    self.tick as int,
                    true,
                    k,
                ),
                i,
            ) == self.src@[i],
    {
        lemma_round_trip(self.tick as int, k);
        self.lemma_boundary(seed, i);
    }

    /// Checks that an assignment has the right length and only in-range
    /// entries.
    fn check_assignment(n: usize, a: &Vec<usize>) -> (r: Result<(), SimError>)
        ensures
            r is Ok <==> (a@.len() == n && forall|i: int|
                0 <= i < a@.len() ==> (#[trigger] a@[i]) < n),
            r matches Err(e) ==> (e == SimError::LengthMismatch <==> a@.len() != n),
    {
        if a.len() != n {
            return Err(SimError::LengthMismatch);
        }
        let mut i: usize = 0;
        while i < a.len()
            invariant
                i <= a@.len(),
                forall|k: int| 0 <= k < i ==> (#[trigger] a@[k]) < n,
                a@.len() == n,
            decreases a@.len() - i,
        {
            if a[i] >= n {
                return Err(SimError::IndexOutOfRange);
            }
            i = i + 1;
        }
        Ok(())
    }

    /// Takes ownership of the solver's outputs and the playback
    /// configuration.
    pub fn new(
        source: crate::grid::ParticleGrid,
        target: crate::grid::ParticleGrid,
        assignment: Vec<usize>,
        params: MotionParams,
        tick: i64,
        loop_playback: bool,
    ) -> (r: Result<MotionSimulator, SimError>)
        requires
            source.wf(),
            target.wf(),
            params.wf(),
            1 <= tick <= UNIT,
        ensures
            r is Ok <==> (source.sidelen == target.sidelen && assignment@.len()
                == source.particles@.len() && forall|i: int|
                0 <= i < assignment@.len() ==> (#[trigger] assignment@[i])
                    < source.particles@.len()),
            r matches Ok(sim) ==> {
                &&& sim.wf()
                &&& sim.src@ == source.particles@
                &&& sim.tgt@ == target.particles@
                &&& sim.assign@ == assignment@
                &&& sim.params == params
                &&& sim.tick == tick
                &&& sim.loop_playback == loop_playback
            },
    {
        proof {
            assert(1 <= (source.sidelen as int) * (source.sidelen as int) <= 65536)
                by (nonlinear_arith)
                requires 1 <= source.sidelen <= 256;
        }
        if source.sidelen != target.sidelen {
            return Err(SimError::LengthMismatch);
        }
        let n = source.particles.len();
        match Self::check_assignment(n, &assignment) {
            Err(e) => Err(e),
            Ok(()) => Ok(
                MotionSimulator {
                    src: source.particles,
                    tgt: target.particles,
                    assign: assignment,
                    n,
                    params,
                    tick,
                    loop_playback,
                },
            ),
        }
    }

    /// Installs the assignment of a newly completed job.  A wrong-size or
    /// out-of-range assignment is rejected and the simulator is left
    /// exactly as it was.
    pub fn set_assignments(&mut self, assignment: Vec<usize>) -> (r: Result<(), SimError>)
        requires
            old(self).wf(),
        ensures
            final(self).wf(),
            r is Ok <==> old(self).valid_assignment(assignment@),
            r matches Err(e) ==> (e == SimError::LengthMismatch <==> assignment@.len() != old(
                self).n),
            r is Ok ==> final(self).assign@ == assignment@,
            r is Err ==> final(self).assign@ == old(self).assign@,
            final(self).src@ == old(self).src@,
            final(self).tgt@ == old(self).tgt@,
            final(self).n == old(self).n,
            final(self).params == old(self).params,
            final(self).tick == old(self).tick,
            final(self).loop_playback == old(self).loop_playback,
    {
        match Self::check_assignment(self.n, &assignment) {
            Err(e) => Err(e),
            Ok(()) => {
                self.assign = assignment;
                Ok(())
            },
        }
    }

    /// A fresh playback state: phase at the starting end for the chosen
    /// direction, scratch seeded per particle, nothing rendered yet.
    pub fn initial_state(&self, reverse: bool) -> (st: SimulationState)
        requires
            self.wf(),
        ensures
            self.fits(st),
            st.phase == if reverse { UNIT as int } else { 0int },
            st.reverse == reverse,
    {
        let mut scratch: Vec<u32> = Vec::new();
        let mut i: usize = 0;
        while i < self.n
            invariant
                i <= self.n,
                scratch@.len() == i,
            decreases self.n - i,
        {
            scratch.push(seed_for(i));
            i = i + 1;
        }
        SimulationState {
            phase: if reverse { UNIT } else { 0 },
            reverse,
            scratch,
            outputs: Vec::new(),
        }
    }

    /// Re-seeds the per-particle scratch values for the selected style and
    /// sets the playback direction; the phase itself stays where it was.
    pub fn prepare_play(&self, st: &mut SimulationState, reverse: bool)
        requires
            self.wf(),
            self.fits(*old(st)),
        ensures
            self.fits(*final(st)),
            final(st).phase == old(st).phase,
            final(st).reverse == reverse,
            final(st).outputs@ == old(st).outputs@,
    {
        let mut scratch: Vec<u32> = Vec::new();
        let mut i: usize = 0;
        while i < self.n
            invariant
                i <= self.n,
                scratch@.len() == i,
            decreases self.n - i,
        {
            scratch.push(seed_for(i));
            i = i + 1;
        }
        st.scratch = scratch;
        st.reverse = reverse;
    }

    /// Renders every particle at the state's current phase.
    pub fn render(&self, st: &mut SimulationState)
        requires
            self.wf(),
            self.fits(*old(st)),
        ensures
            self.fits(*final(st)),
            final(st).phase == old(st).phase,
            final(st).reverse == old(st).reverse,
            final(st).scratch@ == old(st).scratch@,
            final(st).outputs@.len() == self.n,
            forall|i: int| 0 <= i < self.n ==> (#[trigger] final(st).outputs@[i])
                == self.render_at(old(st).scratch@[i], old(st).phase as int, i),
    {
        let mut outputs: Vec<Particle> = Vec::new();
        let mut i: usize = 0;
        while i < self.n
            invariant
                self.wf(),
                self.fits(*st),
                st.phase == old(st).phase,
                st.scratch@ == old(st).scratch@,
                i <= self.n,
                outputs@.len() == i,
                forall|k: int| 0 <= k < i ==> (#[trigger] outputs@[k]) == self.render_at(
                    st.scratch@[k], st.phase as int, k),
            decreases self.n - i,
        {
            let t = self.assign[i];
            let p = particle_at(&self.params, &self.src[i], &self.tgt[t], st.scratch[i], st.phase);
            outputs.push(p);
            i = i + 1;
        }
        st.outputs = outputs;
    }

    /// One render tick: advances the phase one step in the current
    /// direction and renders every particle there.
    pub fn update(&self, st: &mut SimulationState)
        requires
            self.wf(),
            self.fits(*old(st)),
        ensures
            self.fits(*final(st)),
            final(st).phase == advance_phase_spec(
                old(st).phase as int,
                self.tick as int,
                old(st).reverse,
                self.loop_playback,
            ),
            final(st).reverse == old(st).reverse,
            final(st).scratch@ == old(st).scratch@,
            final(st).outputs@.len() == self.n,
            forall|i: int| 0 <= i < self.n ==> (#[trigger] final(st).outputs@[i])
                == self.render_at(old(st).scratch@[i], final(st).phase as int, i),
    {
        st.phase = advance_phase(st.phase, self.tick, st.reverse, self.loop_playback);
        self.render(st);
    }
}

/// The deterministic per-particle scratch seed; its exact value carries no
/// meaning, only its stability over one run.
fn seed_for(i: usize) -> u32 {
    #[verifier::truncate]
    (((i as u64).wrapping_mul(0x9E3779B97F4A7C15) >> 32u64) as u32)
}

} // verus!
