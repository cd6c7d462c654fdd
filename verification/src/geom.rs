//! Fixed-point vectors, quaternions and rotation matrices.
//!
//! Components carry the scale of [`crate::fixed::SCALE`]: a coordinate of one
//! metre is one million units.  Products of two scaled values are divided by
//! the scale again, rounding toward zero, which is stated exactly by
//! [`tdiv`].  Intermediate products are taken in 128-bit integers so no bound
//! tighter than [`crate::fixed::FIX_LIMIT`] is ever needed on the inputs.

use vstd::prelude::*;

use crate::fixed::{fix_in_range, FIX_LIMIT, SCALE};

verus! {

/// Division rounding toward zero, the rounding of the hardware.
pub open spec fn tdiv(p: int, d: int) -> int
    recommends
        d > 0,
{
    if p >= 0 {
        p / d
    } else {
        -((-p) / d)
    }
}

/// A three-component fixed-point vector.
#[derive(Clone, Copy, Debug, PartialEq, Eq, Structural)]
pub struct Vec3 {
    pub x: i64,
    pub y: i64,
    pub z: i64,
}

/// An orientation quaternion `(w, x, y, z)`, also in fixed point.
#[derive(Clone, Copy, Debug, PartialEq, Eq, Structural)]
pub struct Quat {
    pub w: i64,
    pub x: i64,
    pub y: i64,
    pub z: i64,
}

/// A row-major three-by-three matrix of fixed-point entries.
#[derive(Clone, Copy, Debug, PartialEq, Eq, Structural)]
pub struct Mat3 {
    pub m11: i64,
    pub m12: i64,
    pub m13: i64,
    pub m21: i64,
    pub m22: i64,
    pub m23: i64,
    pub m31: i64,
    pub m32: i64,
    pub m33: i64,
}

/// All three components in the coordinate range.
pub open spec fn vec3_in_range(v: Vec3) -> bool {
    fix_in_range(v.x as int) && fix_in_range(v.y as int) && fix_in_range(v.z as int)
}

/// Bound kept on quaternion components; unit quaternions stay well inside.
pub const QUAT_LIMIT: i64 = 2_000_000;

pub open spec fn quat_in_range(q: Quat) -> bool {
    &&& -(QUAT_LIMIT as int) <= q.w <= QUAT_LIMIT as int
    &&& -(QUAT_LIMIT as int) <= q.x <= QUAT_LIMIT as int
    &&& -(QUAT_LIMIT as int) <= q.y <= QUAT_LIMIT as int
    &&& -(QUAT_LIMIT as int) <= q.z <= QUAT_LIMIT as int
}

/// Bound that the nine entries of a rotation matrix built from an in-range
/// quaternion respect.
pub const ROT_LIMIT: i64 = 16_000_000;

pub open spec fn mat3_in_range(m: Mat3) -> bool {
    &&& -(ROT_LIMIT as int) <= m.m11 <= ROT_LIMIT as int
    &&& -(ROT_LIMIT as int) <= m.m12 <= ROT_LIMIT as int
    &&& -(ROT_LIMIT as int) <= m.m13 <= ROT_LIMIT as int
    &&& -(ROT_LIMIT as int) <= m.m21 <= ROT_LIMIT as int
    &&& -(ROT_LIMIT as int) <= m.m22 <= ROT_LIMIT as int
    &&& -(ROT_LIMIT as int) <= m.m23 <= ROT_LIMIT as int
    &&& -(ROT_LIMIT as int) <= m.m31 <= ROT_LIMIT as int
    &&& -(ROT_LIMIT as int) <= m.m32 <= ROT_LIMIT as int
    &&& -(ROT_LIMIT as int) <= m.m33 <= ROT_LIMIT as int
}

/// The product of two magnitude-bounded factors is magnitude-bounded.
pub proof fn lemma_abs_mul_le(a: int, b: int, aa: int, bb: int)
    requires
        -aa <= a <= aa,
        -bb <= b <= bb,
        0 <= aa,
        0 <= bb,
    ensures
        -(aa * bb) <= a * b <= aa * bb,
{
    assert(-(aa * bb) <= a * b <= aa * bb) by (nonlinear_arith)
        requires
            -aa <= a <= aa,
            -bb <= b <= bb,
            0 <= aa,
            0 <= bb,
    ;
}

/// Truncating division of a bounded product, done on magnitudes so only
/// non-negative machine division is ever executed.
pub fn tdiv128(p: i128, d: i128) -> (r: i128)
    requires
        d > 0,
        -(i128::MAX as int) <= p,
    ensures
        r == tdiv(p as int, d as int),
        p >= 0 ==> 0 <= r <= p,
        p < 0 ==> p <= r <= 0,
{
    if p >= 0 {
        let q = (p as u128) / (d as u128);
        proof {
            vstd::arithmetic::div_mod::lemma_div_nonincreasing(p as int, d as int);
            vstd::arithmetic::div_mod::lemma_div_pos_is_pos(p as int, d as int);
        }
        q as i128
    } else {
        let m = (-p) as u128;
        let q = m / (d as u128);
        proof {
            vstd::arithmetic::div_mod::lemma_div_nonincreasing(-p as int, d as int);
            vstd::arithmetic::div_mod::lemma_div_pos_is_pos(-p as int, d as int);
        }
        -(q as i128)
    }
}

/// Magnitude of a truncating quotient is bounded by the magnitude of the
/// dividend divided by the divisor.
pub proof fn lemma_tdiv_mag(p: int, d: int, cap: int)
    requires
        d > 0,
        -cap <= p <= cap,
        0 <= cap,
    ensures
        -(cap / d) <= tdiv(p, d) <= cap / d,
{
    if p >= 0 {
        vstd::arithmetic::div_mod::lemma_div_is_ordered(p, cap, d);
        vstd::arithmetic::div_mod::lemma_div_pos_is_pos(p, d);
    } else {
        vstd::arithmetic::div_mod::lemma_div_is_ordered(-p, cap, d);
        vstd::arithmetic::div_mod::lemma_div_pos_is_pos(-p, d);
    }
}

/// Specification of one scaled product: multiply, then drop the scale.
pub open spec fn spec_scale_mul(a: int, b: int) -> int {
    tdiv(a * b, SCALE as int)
}

/// Scaled product of two fixed-point scalars.
pub fn scale_mul(a: i64, b: i64) -> (r: i64)
    requires
        fix_in_range(a as int),
        fix_in_range(b as int),
    ensures
        r == spec_scale_mul(a as int, b as int),
        -1_000_000_000_000_000_000 <= r <= 1_000_000_000_000_000_000,
{
    proof {
        lemma_abs_mul_le(a as int, b as int, FIX_LIMIT as int, FIX_LIMIT as int);
    }
    let p = (a as i128) * (b as i128);
    let q = tdiv128(p, SCALE as i128);
    proof {
        lemma_tdiv_mag(p as int, SCALE as int, (FIX_LIMIT as int) * (FIX_LIMIT as int));
    }
    q as i64
}

/// Componentwise sum.
pub fn vec3_add(a: Vec3, b: Vec3) -> (r: Vec3)
    requires
        vec3_in_range(a),
        vec3_in_range(b),
    ensures
        r.x == a.x + b.x,
        r.y == a.y + b.y,
        r.z == a.z + b.z,
{
    Vec3 { x: a.x + b.x, y: a.y + b.y, z: a.z + b.z }
}

/// Componentwise difference.
pub fn vec3_sub(a: Vec3, b: Vec3) -> (r: Vec3)
    requires
        vec3_in_range(a),
        vec3_in_range(b),
    ensures
        r.x == a.x - b.x,
        r.y == a.y - b.y,
        r.z == a.z - b.z,
{
    Vec3 { x: a.x - b.x, y: a.y - b.y, z: a.z - b.z }
}

/// Componentwise negation.
pub fn vec3_neg(a: Vec3) -> (r: Vec3)
    requires
        vec3_in_range(a),
    ensures
        r.x == -a.x,
        r.y == -a.y,
        r.z == -a.z,
        vec3_in_range(r),
{
    Vec3 { x: -a.x, y: -a.y, z: -a.z }
}

/// Raw inner product, still carrying both factors' scales.
pub open spec fn spec_dot_raw(a: Vec3, b: Vec3) -> int {
    a.x * b.x + a.y * b.y + a.z * b.z
}

/// Scaled inner product.
pub open spec fn spec_dot(a: Vec3, b: Vec3) -> int {
    tdiv(spec_dot_raw(a, b), SCALE as int)
}

/// Inner product of two fixed-point vectors.
pub fn dot(a: Vec3, b: Vec3) -> (r: i64)
    requires
        vec3_in_range(a),
        vec3_in_range(b),
    ensures
        r == spec_dot(a, b),
{
    proof {
        lemma_abs_mul_le(a.x as int, b.x as int, FIX_LIMIT as int, FIX_LIMIT as int);
        lemma_abs_mul_le(a.y as int, b.y as int, FIX_LIMIT as int, FIX_LIMIT as int);
        lemma_abs_mul_le(a.z as int, b.z as int, FIX_LIMIT as int, FIX_LIMIT as int);
    }
    let p = (a.x as i128) * (b.x as i128) + (a.y as i128) * (b.y as i128) + (a.z as i128) * (
    b.z as i128);
    let q = tdiv128(p, SCALE as i128);
    proof {
        lemma_tdiv_mag(p as int, SCALE as int, 3 * (FIX_LIMIT as int) * (FIX_LIMIT as int));
    }
    q as i64
}

/// Squared length, kept raw: the scale of the result is the square of the
/// component scale, which is exactly what [`norm`] takes back out.
pub fn norm2_raw(a: Vec3) -> (r: u128)
    requires
        vec3_in_range(a),
    ensures
        r == spec_dot_raw(a, a),
        r <= 3_000_000_000_000_000_000_000_000,
{
    proof {
        lemma_abs_mul_le(a.x as int, a.x as int, FIX_LIMIT as int, FIX_LIMIT as int);
        lemma_abs_mul_le(a.y as int, a.y as int, FIX_LIMIT as int, FIX_LIMIT as int);
        lemma_abs_mul_le(a.z as int, a.z as int, FIX_LIMIT as int, FIX_LIMIT as int);
        lemma_square_nonneg(a.x as int);
        lemma_square_nonneg(a.y as int);
        lemma_square_nonneg(a.z as int);
    }
    let p = (a.x as i128) * (a.x as i128) + (a.y as i128) * (a.y as i128) + (a.z as i128) * (
    a.z as i128);
    p as u128
}

pub proof fn lemma_square_nonneg(a: int)
    ensures
        a * a >= 0,
{
    assert(a * a >= 0) by (nonlinear_arith);
}

/// Integer square root.
pub open spec fn is_isqrt(n: int, r: int) -> bool {
    &&& r >= 0
    &&& r * r <= n
    &&& (r + 1) * (r + 1) > n
}

/// The integer square root as a spec-level function: the unique value
/// whose square brackets `n`.
pub open spec fn spec_sqrt(n: int) -> int {
    choose|r: int| is_isqrt(n, r)
}

/// Every non-negative value has an integer square root, so [`spec_sqrt`]
/// denotes it.
pub proof fn lemma_isqrt_exists(n: int)
    requires
        n >= 0,
    ensures
        is_isqrt(n, spec_sqrt(n)),
    decreases n,
{
    if n == 0 {
        assert(is_isqrt(0, 0)) by (nonlinear_arith);
    } else {
        lemma_isqrt_exists(n - 1);
        let r = spec_sqrt(n - 1);
        if (r + 1) * (r + 1) <= n {
            assert(is_isqrt(n, r + 1)) by (nonlinear_arith)
                requires
                    r >= 0,
                    (r + 1) * (r + 1) <= n,
                    n - 1 < (r + 1) * (r + 1),
            ;
        } else {
            assert(is_isqrt(n, r));
        }
    }
}

/// The integer square root is unique: any value satisfying the bracketing
/// is [`spec_sqrt`].
pub proof fn lemma_isqrt_unique(n: int, r: int)
    requires
        is_isqrt(n, r),
    ensures
        r == spec_sqrt(n),
{
    let r0 = spec_sqrt(n);
    assert(is_isqrt(n, r0));
    assert(r == r0) by (nonlinear_arith)
        requires
            r >= 0,
            r0 >= 0,
            r * r <= n,
            (r + 1) * (r + 1) > n,
            r0 * r0 <= n,
            (r0 + 1) * (r0 + 1) > n,
    ;
}

/// Integer square root by bisection.
pub fn isqrt(n: u128) -> (r: u64)
    requires
        n <= 3_000_000_000_000_000_000_000_000,
    ensures
        is_isqrt(n as int, r as int),
        r <= 2_000_000_000_000,
{
    let mut lo: u128 = 0;
    let mut hi: u128 = 2_000_000_000_001;
    while lo + 1 < hi
        invariant
            0 <= lo < hi <= 2_000_000_000_001,
            lo as int * lo as int <= n,
            hi as int * hi as int > n,
        decreases hi - lo,
    {
        let mid = lo + (hi - lo) / 2;
        proof {
            lemma_abs_mul_le(mid as int, mid as int, 2_000_000_000_001, 2_000_000_000_001);
        }
        if mid * mid <= n {
            lo = mid;
        } else {
            hi = mid;
        }
    }
    lo as u64
}

/// Cross product, scaled like a single product.
pub open spec fn spec_cross(a: Vec3, b: Vec3) -> (int, int, int) {
    (
        tdiv(a.y * b.z - a.z * b.y, SCALE as int),
        tdiv(a.z * b.x - a.x * b.z, SCALE as int),
        tdiv(a.x * b.y - a.y * b.x, SCALE as int),
    )
}

/// Cross product of two fixed-point vectors.
pub fn cross(a: Vec3, b: Vec3) -> (r: Vec3)
    requires
        vec3_in_range(a),
        vec3_in_range(b),
    ensures
        (r.x as int, r.y as int, r.z as int) == spec_cross(a, b),
{
    proof {
        lemma_abs_mul_le(a.y as int, b.z as int, FIX_LIMIT as int, FIX_LIMIT as int);
        lemma_abs_mul_le(a.z as int, b.y as int, FIX_LIMIT as int, FIX_LIMIT as int);
        lemma_abs_mul_le(a.z as int, b.x as int, FIX_LIMIT as int, FIX_LIMIT as int);
        lemma_abs_mul_le(a.x as int, b.z as int, FIX_LIMIT as int, FIX_LIMIT as int);
        lemma_abs_mul_le(a.x as int, b.y as int, FIX_LIMIT as int, FIX_LIMIT as int);
        lemma_abs_mul_le(a.y as int, b.x as int, FIX_LIMIT as int, FIX_LIMIT as int);
    }
    let px = (a.y as i128) * (b.z as i128) - (a.z as i128) * (b.y as i128);
    let py = (a.z as i128) * (b.x as i128) - (a.x as i128) * (b.z as i128);
    let pz = (a.x as i128) * (b.y as i128) - (a.y as i128) * (b.x as i128);
    let qx = tdiv128(px, SCALE as i128);
    let qy = tdiv128(py, SCALE as i128);
    let qz = tdiv128(pz, SCALE as i128);
    proof {
        let cap = 2 * (FIX_LIMIT as int) * (FIX_LIMIT as int);
        lemma_tdiv_mag(px as int, SCALE as int, cap);
        lemma_tdiv_mag(py as int, SCALE as int, cap);
        lemma_tdiv_mag(pz as int, SCALE as int, cap);
    }
    Vec3 { x: qx as i64, y: qy as i64, z: qz as i64 }
}

/// The explicit expansion of `q * p * q'`, row by row: the only place the
/// quaternion convention `(w, x, y, z)` enters the aggregator.
pub open spec fn spec_quat_to_rot(q: Quat) -> Mat3 {
    let s = SCALE as int;
    Mat3 {
        m11: tdiv(q.w * q.w + q.x * q.x - q.y * q.y - q.z * q.z, s) as i64,
        m12: tdiv(2 * (q.x * q.y - q.w * q.z), s) as i64,
        m13: tdiv(2 * (q.x * q.z + q.w * q.y), s) as i64,
        m21: tdiv(2 * (q.x * q.y + q.w * q.z), s) as i64,
        m22: tdiv(q.w * q.w - q.x * q.x + q.y * q.y - q.z * q.z, s) as i64,
        m23: tdiv(2 * (q.y * q.z - q.w * q.x), s) as i64,
        m31: tdiv(2 * (q.x * q.z - q.w * q.y), s) as i64,
        m32: tdiv(2 * (q.y * q.z + q.w * q.x), s) as i64,
        m33: tdiv(q.w * q.w - q.x * q.x - q.y * q.y + q.z * q.z, s) as i64,
    }
}

/// Rotation matrix of a quaternion.
pub fn quat_to_rot(q: Quat) -> (r: Mat3)
    requires
        quat_in_range(q),
    ensures
        r == spec_quat_to_rot(q),
        mat3_in_range(r),
{
    proof {
        lemma_abs_mul_le(q.w as int, q.w as int, QUAT_LIMIT as int, QUAT_LIMIT as int);
        lemma_abs_mul_le(q.w as int, q.x as int, QUAT_LIMIT as int, QUAT_LIMIT as int);
        lemma_abs_mul_le(q.w as int, q.y as int, QUAT_LIMIT as int, QUAT_LIMIT as int);
        lemma_abs_mul_le(q.w as int, q.z as int, QUAT_LIMIT as int, QUAT_LIMIT as int);
        lemma_abs_mul_le(q.x as int, q.x as int, QUAT_LIMIT as int, QUAT_LIMIT as int);
        lemma_abs_mul_le(q.x as int, q.y as int, QUAT_LIMIT as int, QUAT_LIMIT as int);
        lemma_abs_mul_le(q.x as int, q.z as int, QUAT_LIMIT as int, QUAT_LIMIT as int);
        lemma_abs_mul_le(q.y as int, q.y as int, QUAT_LIMIT as int, QUAT_LIMIT as int);
        lemma_abs_mul_le(q.y as int, q.z as int, QUAT_LIMIT as int, QUAT_LIMIT as int);
        lemma_abs_mul_le(q.z as int, q.z as int, QUAT_LIMIT as int, QUAT_LIMIT as int);
    }
    let w = q.w as i128;
    let x = q.x as i128;
    let y = q.y as i128;
    let z = q.z as i128;
    let cap: i128 = 8 * (QUAT_LIMIT as i128) * (QUAT_LIMIT as i128);
    let e11 = w * w + x * x - y * y - z * z;
    let e12 = 2 * (x * y - w * z);
    let e13 = 2 * (x * z + w * y);
    let e21 = 2 * (x * y + w * z);
    let e22 = w * w - x * x + y * y - z * z;
    let e23 = 2 * (y * z - w * x);
    let e31 = 2 * (x * z - w * y);
    let e32 = 2 * (y * z + w * x);
    let e33 = w * w - x * x - y * y + z * z;
    proof {
        lemma_tdiv_mag(e11 as int, SCALE as int, cap as int);
        lemma_tdiv_mag(e12 as int, SCALE as int, cap as int);
        lemma_tdiv_mag(e13 as int, SCALE as int, cap as int);
        lemma_tdiv_mag(e21 as int, SCALE as int, cap as int);
        lemma_tdiv_mag(e22 as int, SCALE as int, cap as int);
        lemma_tdiv_mag(e23 as int, SCALE as int, cap as int);
        lemma_tdiv_mag(e31 as int, SCALE as int, cap as int);
        lemma_tdiv_mag(e32 as int, SCALE as int, cap as int);
        lemma_tdiv_mag(e33 as int, SCALE as int, cap as int);
    }
    Mat3 {
        m11: tdiv128(e11, SCALE as i128) as i64,
        m12: tdiv128(e12, SCALE as i128) as i64,
        m13: tdiv128(e13, SCALE as i128) as i64,
        m21: tdiv128(e21, SCALE as i128) as i64,
        m22: tdiv128(e22, SCALE as i128) as i64,
        m23: tdiv128(e23, SCALE as i128) as i64,
        m31: tdiv128(e31, SCALE as i128) as i64,
        m32: tdiv128(e32, SCALE as i128) as i64,
        m33: tdiv128(e33, SCALE as i128) as i64,
    }
}

/// One row of a matrix-vector product.
pub open spec fn spec_mat_row(m1: int, m2: int, m3: int, v: Vec3) -> int {
    tdiv(m1 * v.x + m2 * v.y + m3 * v.z, SCALE as int)
}

/// Matrix-vector product; the matrix entries stay within [`ROT_LIMIT`].
pub fn mat3_mul_vec(m: Mat3, v: Vec3) -> (r: Vec3)
    requires
        mat3_in_range(m),
        vec3_in_range(v),
    ensures
        r.x == spec_mat_row(m.m11 as int, m.m12 as int, m.m13 as int, v),
        r.y == spec_mat_row(m.m21 as int, m.m22 as int, m.m23 as int, v),
        r.z == spec_mat_row(m.m31 as int, m.m32 as int, m.m33 as int, v),
{
    proof {
        lemma_abs_mul_le(m.m11 as int, v.x as int, ROT_LIMIT as int, FIX_LIMIT as int);
        lemma_abs_mul_le(m.m12 as int, v.y as int, ROT_LIMIT as int, FIX_LIMIT as int);
        lemma_abs_mul_le(m.m13 as int, v.z as int, ROT_LIMIT as int, FIX_LIMIT as int);
        lemma_abs_mul_le(m.m21 as int, v.x as int, ROT_LIMIT as int, FIX_LIMIT as int);
        lemma_abs_mul_le(m.m22 as int, v.y as int, ROT_LIMIT as int, FIX_LIMIT as int);
        lemma_abs_mul_le(m.m23 as int, v.z as int, ROT_LIMIT as int, FIX_LIMIT as int);
        lemma_abs_mul_le(m.m31 as int, v.x as int, ROT_LIMIT as int, FIX_LIMIT as int);
        lemma_abs_mul_le(m.m32 as int, v.y as int, ROT_LIMIT as int, FIX_LIMIT as int);
        lemma_abs_mul_le(m.m33 as int, v.z as int, ROT_LIMIT as int, FIX_LIMIT as int);
    }
    let px = (m.m11 as i128) * (v.x as i128) + (m.m12 as i128) * (v.y as i128) + (m.m13 as i128) * (
    v.z as i128);
    let py = (m.m21 as i128) * (v.x as i128) + (m.m22 as i128) * (v.y as i128) + (m.m23 as i128) * (
    v.z as i128);
    let pz = (m.m31 as i128) * (v.x as i128) + (m.m32 as i128) * (v.y as i128) + (m.m33 as i128) * (
    v.z as i128);
    let qx = tdiv128(px, SCALE as i128);
    let qy = tdiv128(py, SCALE as i128);
    let qz = tdiv128(pz, SCALE as i128);
    proof {
        let cap = 3 * (ROT_LIMIT as int) * (FIX_LIMIT as int);
        lemma_tdiv_mag(px as int, SCALE as int, cap);
        lemma_tdiv_mag(py as int, SCALE as int, cap);
        lemma_tdiv_mag(pz as int, SCALE as int, cap);
    }
    Vec3 { x: qx as i64, y: qy as i64, z: qz as i64 }
}

/// A row of a matrix-vector product is bounded by the component bounds.
pub proof fn lemma_mat_row_bound(m1: int, m2: int, m3: int, v: Vec3, cap: int)
    requires
        -(ROT_LIMIT as int) <= m1 <= ROT_LIMIT as int,
        -(ROT_LIMIT as int) <= m2 <= ROT_LIMIT as int,
        -(ROT_LIMIT as int) <= m3 <= ROT_LIMIT as int,
        -cap <= v.x <= cap,
        -cap <= v.y <= cap,
        -cap <= v.z <= cap,
        0 <= cap,
    ensures
        -(3 * (ROT_LIMIT as int) * cap / (SCALE as int)) <= spec_mat_row(m1, m2, m3, v) <= 3 * (
        ROT_LIMIT as int) * cap / (SCALE as int),
{
    let r = ROT_LIMIT as int;
    lemma_abs_mul_le(m1, v.x as int, r, cap);
    lemma_abs_mul_le(m2, v.y as int, r, cap);
    lemma_abs_mul_le(m3, v.z as int, r, cap);
    vstd::arithmetic::mul::lemma_mul_is_associative(3, r, cap);
    vstd::arithmetic::mul::lemma_mul_nonnegative(r, cap);
    lemma_tdiv_mag(m1 * v.x + m2 * v.y + m3 * v.z, SCALE as int, 3 * r * cap);
}

/// The scaled inner product is bounded by the component bounds.
pub proof fn lemma_dot_bound(a: Vec3, b: Vec3, ca: int, cb: int)
    requires
        -ca <= a.x <= ca,
        -ca <= a.y <= ca,
        -ca <= a.z <= ca,
        -cb <= b.x <= cb,
        -cb <= b.y <= cb,
        -cb <= b.z <= cb,
        0 <= ca,
        0 <= cb,
    ensures
        -(3 * ca * cb / (SCALE as int)) <= spec_dot(a, b) <= 3 * ca * cb / (SCALE as int),
{
    lemma_abs_mul_le(a.x as int, b.x as int, ca, cb);
    lemma_abs_mul_le(a.y as int, b.y as int, ca, cb);
    lemma_abs_mul_le(a.z as int, b.z as int, ca, cb);
    vstd::arithmetic::mul::lemma_mul_is_associative(3, ca, cb);
    vstd::arithmetic::mul::lemma_mul_nonnegative(ca, cb);
    lemma_tdiv_mag(spec_dot_raw(a, b), SCALE as int, 3 * ca * cb);
}

/// The integer length of a componentwise-bounded vector is under twice the
/// bound.
pub proof fn lemma_norm_le(v: Vec3, n: int, cap: int)
    requires
        is_isqrt(spec_dot_raw(v, v), n),
        -cap <= v.x <= cap,
        -cap <= v.y <= cap,
        -cap <= v.z <= cap,
        0 <= cap,
    ensures
        0 <= n <= 2 * cap,
{
    lemma_abs_mul_le(v.x as int, v.x as int, cap, cap);
    lemma_abs_mul_le(v.y as int, v.y as int, cap, cap);
    lemma_abs_mul_le(v.z as int, v.z as int, cap, cap);
    if n > 2 * cap {
        assert(false) by (nonlinear_arith)
            requires
                n * n <= 3 * (cap * cap),
                n > 2 * cap,
                0 <= cap,
        ;
    }
}

/// Rotates `v` by the rotation that `q` encodes.
pub fn rotate(q: Quat, v: Vec3) -> (r: Vec3)
    requires
        quat_in_range(q),
        vec3_in_range(v),
    ensures
        ({
            let m = spec_quat_to_rot(q);
            &&& r.x == spec_mat_row(m.m11 as int, m.m12 as int, m.m13 as int, v)
            &&& r.y == spec_mat_row(m.m21 as int, m.m22 as int, m.m23 as int, v)
            &&& r.z == spec_mat_row(m.m31 as int, m.m32 as int, m.m33 as int, v)
        }),
{
    let m = quat_to_rot(q);
    mat3_mul_vec(m, v)
}

/// Unit direction of `v`, scaled back to fixed point.
pub open spec fn spec_normalize(v: Vec3, n: int) -> (int, int, int) {
    (
        tdiv(v.x * (SCALE as int), n),
        tdiv(v.y * (SCALE as int), n),
        tdiv(v.z * (SCALE as int), n),
    )
}

/// Normalizes a non-zero vector by its integer length `n`.
pub fn normalize(v: Vec3, n: i64) -> (r: Vec3)
    requires
        vec3_in_range(v),
        n > 0,
        is_isqrt(spec_dot_raw(v, v), n as int),
    ensures
        (r.x as int, r.y as int, r.z as int) == spec_normalize(v, n as int),
        -SCALE <= r.x <= SCALE,
        -SCALE <= r.y <= SCALE,
        -SCALE <= r.z <= SCALE,
        vec3_in_range(r),
{
    proof {
        lemma_norm_dominates(v, n as int);
        lemma_abs_mul_le(v.x as int, SCALE as int, n as int, SCALE as int);
        lemma_abs_mul_le(v.y as int, SCALE as int, n as int, SCALE as int);
        lemma_abs_mul_le(v.z as int, SCALE as int, n as int, SCALE as int);
    }
    let px = (v.x as i128) * (SCALE as i128);
    let py = (v.y as i128) * (SCALE as i128);
    let pz = (v.z as i128) * (SCALE as i128);
    let qx = tdiv128(px, n as i128);
    let qy = tdiv128(py, n as i128);
    let qz = tdiv128(pz, n as i128);
    proof {
        let cap = (n as int) * (SCALE as int);
        lemma_tdiv_mag(px as int, n as int, cap);
        lemma_tdiv_mag(py as int, n as int, cap);
        lemma_tdiv_mag(pz as int, n as int, cap);
        vstd::arithmetic::div_mod::lemma_div_multiples_vanish(SCALE as int, n as int);
    }
    Vec3 { x: qx as i64, y: qy as i64, z: qz as i64 }
}

/// The integer length dominates every component's magnitude.
pub proof fn lemma_norm_dominates(v: Vec3, n: int)
    requires
        is_isqrt(spec_dot_raw(v, v), n),
    ensures
        -n <= v.x <= n,
        -n <= v.y <= n,
        -n <= v.z <= n,
{
    assert(-n <= v.x <= n && -n <= v.y <= n && -n <= v.z <= n) by (nonlinear_arith)
        requires
            n >= 0,
            n * n <= v.x * v.x + v.y * v.y + v.z * v.z <= (n + 1) * (n + 1) - 1,
    ;
}

/// Raw triple product `a . (b x c)`: the determinant of the three columns,
/// with no scale division at all.
pub open spec fn spec_det_raw(a: Vec3, b: Vec3, c: Vec3) -> int {
    a.x * (b.y * c.z - b.z * c.y) + a.y * (b.z * c.x - b.x * c.z) + a.z * (b.x * c.y - b.y * c.x)
}

/// Bound for positions and mesh vertices: geometry stays within ten
/// kilometres of the origin, which keeps every triple product in range.
pub const POS_LIMIT: i64 = 10_000_000_000;

pub open spec fn vec3_pos_range(v: Vec3) -> bool {
    &&& -POS_LIMIT <= v.x <= POS_LIMIT
    &&& -POS_LIMIT <= v.y <= POS_LIMIT
    &&& -POS_LIMIT <= v.z <= POS_LIMIT
}

/// The magnitude of a raw triple product of componentwise-bounded vectors.
pub proof fn lemma_det_bound(a: Vec3, b: Vec3, c: Vec3, ca: int, cb: int, cc: int)
    requires
        -ca <= a.x <= ca,
        -ca <= a.y <= ca,
        -ca <= a.z <= ca,
        -cb <= b.x <= cb,
        -cb <= b.y <= cb,
        -cb <= b.z <= cb,
        -cc <= c.x <= cc,
        -cc <= c.y <= cc,
        -cc <= c.z <= cc,
        0 <= ca,
        0 <= cb,
        0 <= cc,
    ensures
        -(6 * ca * cb * cc) <= spec_det_raw(a, b, c) <= 6 * ca * cb * cc,
{
    let m = cb * cc;
    vstd::arithmetic::mul::lemma_mul_nonnegative(cb, cc);
    lemma_abs_mul_le(b.y as int, c.z as int, cb, cc);
    lemma_abs_mul_le(b.z as int, c.y as int, cb, cc);
    lemma_abs_mul_le(b.z as int, c.x as int, cb, cc);
    lemma_abs_mul_le(b.x as int, c.z as int, cb, cc);
    lemma_abs_mul_le(b.x as int, c.y as int, cb, cc);
    lemma_abs_mul_le(b.y as int, c.x as int, cb, cc);
    lemma_abs_mul_le(a.x as int, b.y * c.z - b.z * c.y, ca, 2 * m);
    lemma_abs_mul_le(a.y as int, b.z * c.x - b.x * c.z, ca, 2 * m);
    lemma_abs_mul_le(a.z as int, b.x * c.y - b.y * c.x, ca, 2 * m);
    assert(6 * ca * cb * cc == 3 * (ca * (2 * m))) by (nonlinear_arith)
        requires
            m == cb * cc,
    ;
}

/// Raw triple product of bounded vectors, in 128-bit arithmetic.
pub fn det_raw(a: Vec3, b: Vec3, c: Vec3) -> (r: i128)
    requires
        -100_000_000_000 <= a.x <= 100_000_000_000,
        -100_000_000_000 <= a.y <= 100_000_000_000,
        -100_000_000_000 <= a.z <= 100_000_000_000,
        -100_000_000_000 <= b.x <= 100_000_000_000,
        -100_000_000_000 <= b.y <= 100_000_000_000,
        -100_000_000_000 <= b.z <= 100_000_000_000,
        -100_000_000_000 <= c.x <= 100_000_000_000,
        -100_000_000_000 <= c.y <= 100_000_000_000,
        -100_000_000_000 <= c.z <= 100_000_000_000,
    ensures
        r == spec_det_raw(a, b, c),
        -6_000_000_000_000_000_000_000_000_000_000_000 <= r
            <= 6_000_000_000_000_000_000_000_000_000_000_000,
{
    proof {
        lemma_det_bound(a, b, c, 100_000_000_000, 100_000_000_000, 100_000_000_000);
        lemma_abs_mul_le(b.y as int, c.z as int, 100_000_000_000, 100_000_000_000);
        lemma_abs_mul_le(b.z as int, c.y as int, 100_000_000_000, 100_000_000_000);
        lemma_abs_mul_le(b.z as int, c.x as int, 100_000_000_000, 100_000_000_000);
        lemma_abs_mul_le(b.x as int, c.z as int, 100_000_000_000, 100_000_000_000);
        lemma_abs_mul_le(b.x as int, c.y as int, 100_000_000_000, 100_000_000_000);
        lemma_abs_mul_le(b.y as int, c.x as int, 100_000_000_000, 100_000_000_000);
        lemma_abs_mul_le(
            a.x as int,
            (b.y * c.z - b.z * c.y) as int,
            100_000_000_000,
            20_000_000_000_000_000_000_000,
        );
        lemma_abs_mul_le(
            a.y as int,
            (b.z * c.x - b.x * c.z) as int,
            100_000_000_000,
            20_000_000_000_000_000_000_000,
        );
        lemma_abs_mul_le(
            a.z as int,
            (b.x * c.y - b.y * c.x) as int,
            100_000_000_000,
            20_000_000_000_000_000_000_000,
        );
    }
    (a.x as i128) * ((b.y as i128) * (c.z as i128) - (b.z as i128) * (c.y as i128)) + (
    a.y as i128) * ((b.z as i128) * (c.x as i128) - (b.x as i128) * (c.z as i128)) + (
    a.z as i128) * ((b.x as i128) * (c.y as i128) - (b.y as i128) * (c.x as i128))
}

/// Length of a fixed-point vector: the square root of the raw square keeps
/// the component scale.
pub fn norm(a: Vec3) -> (r: i64)
    requires
        vec3_in_range(a),
    ensures
        r >= 0,
        is_isqrt(spec_dot_raw(a, a), r as int),
        r == spec_sqrt(spec_dot_raw(a, a)),
        r <= 2_000_000_000_000,
{
    let n2 = norm2_raw(a);
    let r = isqrt(n2);
    proof {
        lemma_isqrt_unique(n2 as int, r as int);
    }
    r as i64
}

} // verus!
