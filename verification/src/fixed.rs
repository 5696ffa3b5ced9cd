//! Fixed-point arithmetic for the simulation.
//!
//! One length unit is `SCALE` sub-units; positions, velocities and time steps
//! are all carried as `i64` counts of sub-units.  Division truncates toward
//! zero, exactly as the executable helpers below compute it.

use vstd::prelude::*;

verus! {

/// Sub-units per length (or time) unit.
pub const SCALE: i64 = 1000;

/// Particle radius, in sub-units (one length unit).
pub const SAND_RADIUS: i64 = 1000;

/// Gravity acceleration, in sub-units per time unit squared (1.2 units).
pub const GRAVITY: i64 = 1200;

/// Sideways-jostle loss of upward momentum on contact (0.1 units).
pub const JOSTLE: i64 = 100;

/// Damping keeps `DAMPING_NUM / DAMPING_DEN` of the horizontal velocity.
pub const DAMPING_NUM: i64 = 99;
pub const DAMPING_DEN: i64 = 100;

/// Velocity components saturate at this magnitude so that every product
/// taken during one update step stays well inside `i64`.
pub const VEL_LIMIT: i64 = 1_000_000_000;

/// Positions handed to the world are bounded by this magnitude, again so
/// that the fixed-point arithmetic of one step cannot overflow.
pub const POS_LIMIT: i64 = 1_000_000_000_000;

/// Largest accepted time step (100 time units).
pub const DT_LIMIT: i64 = 100_000;

/// Largest accepted plane extent, in length units.
pub const MAX_EXTENT: usize = 10_000;

/// Division truncating toward zero, the rounding used by the simulation.
pub open spec fn tdiv(a: int, b: int) -> int {
    if a >= 0 {
        a / b
    } else {
        -((-a) / b)
    }
}

/// Velocity saturation: clamp into `[-VEL_LIMIT, VEL_LIMIT]`.
pub open spec fn sat_vel(v: int) -> int {
    if v < -VEL_LIMIT {
        -VEL_LIMIT as int
    } else if v > VEL_LIMIT {
        VEL_LIMIT as int
    } else {
        v
    }
}

/// Truncating division on machine integers.
pub fn div_trunc(a: i64, b: i64) -> (r: i64)
    requires
        1 <= b,
        -0x4000_0000_0000_0000 <= a <= 0x4000_0000_0000_0000,
    ensures
        r as int == tdiv(a as int, b as int),
{
    if a >= 0 {
        let q: u64 = (a as u64) / (b as u64);
        proof {
            vstd::arithmetic::div_mod::lemma_div_nonincreasing(a as int, b as int);
            vstd::arithmetic::div_mod::lemma_div_pos_is_pos(a as int, b as int);
        }
        q as i64
    } else {
        let m: i64 = -a;
        let q: u64 = (m as u64) / (b as u64);
        proof {
            vstd::arithmetic::div_mod::lemma_div_nonincreasing(m as int, b as int);
            vstd::arithmetic::div_mod::lemma_div_pos_is_pos(m as int, b as int);
        }
        -(q as i64)
    }
}

/// Magnitude bound of a product from magnitude bounds of its factors.
pub proof fn lemma_mul_bound(a: int, b: int, am: int, bm: int)
    by (nonlinear_arith)
    requires
        -am <= a <= am,
        -bm <= b <= bm,
        0 <= am,
        0 <= bm,
    ensures
        -(am * bm) <= a * b <= am * bm,
{
}

/// Range bound of a product of two non-negative factors.
pub proof fn lemma_mul_bounds_pos(a: int, b: int, al: int, ah: int, bl: int, bh: int)
    by (nonlinear_arith)
    requires
        0 <= al <= a <= ah,
        0 <= bl <= b <= bh,
    ensures
        al * bl <= a * b <= ah * bh,
{
}

/// Saturate a velocity component into `[-VEL_LIMIT, VEL_LIMIT]`.
pub fn clamp_vel(v: i64) -> (r: i64)
    ensures
        r as int == sat_vel(v as int),
{
    if v < -VEL_LIMIT {
        -VEL_LIMIT
    } else if v > VEL_LIMIT {
        VEL_LIMIT
    } else {
        v
    }
}

} // verus!
