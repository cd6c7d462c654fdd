//! Atmosphere model: position-dependent wind and an ISA-style air column.
//!
//! The air model is the single troposphere layer: temperature falls by
//! 6.5 millikelvin per metre of altitude, and density is pressure over the
//! gas constant times temperature.  Altitude is `-z` in the world's z-down
//! frame.  Pressure needs a fractional power and is computed by the caller
//! with floating point; density takes the already-computed pressure.
//!
//! Wind is an affine field `bias + matrix * position`, plus a bounded random
//! walk of turbulence that only aircraft receive.

use vstd::prelude::*;

use crate::fixed::{fix_in_range, spec_clamp, FIX_LIMIT, SCALE};
use crate::geom::{mat3_in_range, mat3_mul_vec, spec_mat_row, vec3_in_range, Mat3, Vec3};

verus! {

/// Temperature drop per metre of altitude, in fixed point (0.0065 K/m).
pub const TEMP_ALTITUDE_RATE_FIX: i64 = 6_500;

/// Air gas constant for dry air, in fixed point (287.052874 J/(kg K)).
pub const R_AIR_CONSTANT_FIX: i64 = 287_052_874;

/// Gravity, in fixed point (9.8067 m/s^2).
pub const GRAVITY_ACCELERATION_FIX: i64 = 9_806_700;

/// Air temperature at altitude `h` above sea level: `T0 - 0.0065 h`,
/// exactly, in fixed point.
pub fn calcTemperature(h: i64, temp0: i64) -> (r: i64)
    requires
        -100_000_000_000_000 <= h <= 100_000_000_000_000,
        fix_in_range(temp0 as int),
    ensures
        r == temp0 - crate::geom::tdiv(h * TEMP_ALTITUDE_RATE_FIX, SCALE as int),
{
    proof {
        crate::geom::lemma_abs_mul_le(
            h as int,
            TEMP_ALTITUDE_RATE_FIX as int,
            100_000_000_000_000,
            TEMP_ALTITUDE_RATE_FIX as int,
        );
    }
    let drop = crate::geom::tdiv128((h as i128) * (TEMP_ALTITUDE_RATE_FIX as i128),
        SCALE as i128);
    proof {
        crate::geom::lemma_tdiv_mag(
            h as int * TEMP_ALTITUDE_RATE_FIX as int,
            SCALE as int,
            100_000_000_000_000 * (TEMP_ALTITUDE_RATE_FIX as int),
        );
    }
    temp0 - (drop as i64)
}

/// Air density for a temperature and pressure: `p / (R T)`, exactly, in
/// fixed point: the numerator is widened so the quotient keeps the scale.
pub fn calcDensity(temp: i64, pressure: i64) -> (r: i64)
    requires
        0 < temp <= FIX_LIMIT,
        0 <= pressure <= FIX_LIMIT,
    ensures
        r == pressure as int * (SCALE as int) * (SCALE as int) / (temp as int
            * R_AIR_CONSTANT_FIX as int),
{
    proof {
        crate::geom::lemma_abs_mul_le(temp as int, R_AIR_CONSTANT_FIX as int, FIX_LIMIT as int,
            R_AIR_CONSTANT_FIX as int);
        assert(temp as int * R_AIR_CONSTANT_FIX as int > 0) by (nonlinear_arith)
            requires
                temp > 0,
        ;
    }
    let denom = (temp as u128) * (R_AIR_CONSTANT_FIX as u128);
    let num = (pressure as u128) * (SCALE as u128) * (SCALE as u128);
    let q = num / denom;
    proof {
        vstd::arithmetic::div_mod::lemma_div_pos_is_pos(num as int, denom as int);
        assert(num as int <= (FIX_LIMIT as int) * (SCALE as int) * (SCALE as int));
        assert(denom as int >= R_AIR_CONSTANT_FIX as int) by (nonlinear_arith)
            requires
                temp >= 1,
                denom as int == temp as int * R_AIR_CONSTANT_FIX as int,
        ;
        vstd::arithmetic::div_mod::lemma_div_is_ordered_by_denominator(
            num as int,
            R_AIR_CONSTANT_FIX as int,
            denom as int,
        );
        vstd::arithmetic::div_mod::lemma_div_is_ordered(
            num as int,
            (FIX_LIMIT as int) * (SCALE as int) * (SCALE as int),
            R_AIR_CONSTANT_FIX as int,
        );
    }
    q as i64
}

/// Temperature at sea level stays put: `T(0, T0) == T0` for every `T0`.
pub proof fn lemma_temperature_sea_level(temp0: int)
    ensures
        temp0 - crate::geom::tdiv(0 * TEMP_ALTITUDE_RATE_FIX, SCALE as int) == temp0,
{
}

/// The deterministic wind at a position: `bias + matrix * position`.
pub fn calcWind(pos: Vec3, wind_matrix: Mat3, wind_bias: Vec3) -> (r: Vec3)
    requires
        vec3_in_range(pos),
        mat3_in_range(wind_matrix),
        -(FIX_LIMIT as int) / 2 <= wind_bias.x <= (FIX_LIMIT as int) / 2,
        -(FIX_LIMIT as int) / 2 <= wind_bias.y <= (FIX_LIMIT as int) / 2,
        -(FIX_LIMIT as int) / 2 <= wind_bias.z <= (FIX_LIMIT as int) / 2,
    ensures
        ({
            let m = wind_matrix;
            &&& r.x == wind_bias.x + spec_mat_row(m.m11 as int, m.m12 as int, m.m13 as int, pos)
            &&& r.y == wind_bias.y + spec_mat_row(m.m21 as int, m.m22 as int, m.m23 as int, pos)
            &&& r.z == wind_bias.z + spec_mat_row(m.m31 as int, m.m32 as int, m.m33 as int, pos)
        }),
{
    let turned = mat3_mul_vec(wind_matrix, pos);
    proof {
        crate::geom::lemma_mat_row_bound(
            wind_matrix.m11 as int,
            wind_matrix.m12 as int,
            wind_matrix.m13 as int,
            pos,
            FIX_LIMIT as int,
        );
        crate::geom::lemma_mat_row_bound(
            wind_matrix.m21 as int,
            wind_matrix.m22 as int,
            wind_matrix.m23 as int,
            pos,
            FIX_LIMIT as int,
        );
        crate::geom::lemma_mat_row_bound(
            wind_matrix.m31 as int,
            wind_matrix.m32 as int,
            wind_matrix.m33 as int,
            pos,
            FIX_LIMIT as int,
        );
    }
    Vec3 { x: wind_bias.x + turned.x, y: wind_bias.y + turned.y, z: wind_bias.z + turned.z }
}

/// The wind an aircraft receives: the deterministic field plus the shared
/// turbulence walk; objects receive the deterministic part alone.
pub fn wind_with_turbulence(base: Vec3, turbulence: Vec3) -> (r: Vec3)
    requires
        vec3_in_range(base),
        vec3_in_range(turbulence),
    ensures
        r.x == base.x + turbulence.x,
        r.y == base.y + turbulence.y,
        r.z == base.z + turbulence.z,
{
    Vec3 { x: base.x + turbulence.x, y: base.y + turbulence.y, z: base.z + turbulence.z }
}

/// Relies on `rand::random_range`: a uniform draw in `[-scale, scale)`; the
/// range is non-empty because `scale` is positive, so the call returns and
/// the result lies in the range.  Nothing else is promised of the value.
#[verifier::external_body]
fn turbulence_sample(scale: i64) -> (r: i64)
    requires
        scale >= 1,
    ensures
        -scale <= r < scale,
{
    rand::random_range(-scale..scale)
}

/// One turbulence step on one axis: a bounded random walk.  Whatever the
/// draw was, the new value moves by less than `scale` and stays clamped to
/// three times `scale`; a non-positive `scale` disables turbulence.
pub fn calcWindTurbulance(t: i64, scale: i64) -> (r: i64)
    requires
        0 <= scale <= FIX_LIMIT,
        -3 * scale <= t <= 3 * scale,
    ensures
        -3 * scale <= r <= 3 * scale,
        t - scale <= r < t + scale || (scale == 0 && r == t),
{
    if scale == 0 {
        t
    } else {
        let step = turbulence_sample(scale);
        let moved = t + step;
        let r = crate::fixed::clamp_fix(moved, -3 * scale, 3 * scale);
        proof {
            assert(r == spec_clamp(moved as int, -3 * scale as int, 3 * scale as int));
        }
        r
    }
}

} // verus!
