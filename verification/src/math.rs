//! Fixed-point vector and angle arithmetic for the simulation.
//!
//! World coordinates are kept in nano-units (`UNIT` per world unit), time in
//! milliseconds, velocities in nano-units per millisecond and accelerations in
//! nano-units per millisecond squared, so every per-frame update is an exact
//! integer multiplication. Angles are kept in nano-radians in `[0, TAU_NANO)`.
use vstd::prelude::*;
use vstd::arithmetic::div_mod::{
    lemma_fundamental_div_mod, lemma_fundamental_div_mod_converse, lemma_div_is_ordered,
    lemma_div_multiples_vanish, lemma_mod_multiples_basic,
};

verus! {

/// Nano-units per world unit.
pub const UNIT: i64 = 1_000_000_000;

/// One full turn, in nano-radians.
pub const TAU_NANO: i64 = 6_283_185_307;

/// Half a turn, in nano-radians.
pub const PI_NANO: i64 = 3_141_592_653;

/// A quarter turn, in nano-radians.
pub const HALF_PI_NANO: i64 = 1_570_796_327;

/// Scale of unit direction vectors: a direction of world length 1 has integer
/// length `DIR_UNIT`.
pub const DIR_UNIT: i64 = 1_000;

/// A 3D vector of fixed-point coordinates.
#[derive(Clone, Copy, PartialEq, Eq, Structural, Debug)]
pub struct Vec3I {
    pub x: i64,
    pub y: i64,
    pub z: i64,
}

/// Squared Euclidean length, as an unbounded integer.
pub open spec fn norm_sq(v: Vec3I) -> int {
    v.x * v.x + v.y * v.y + v.z * v.z
}

/// Squared distance between two points.
pub open spec fn dist_sq(a: Vec3I, b: Vec3I) -> int {
    (a.x - b.x) * (a.x - b.x) + (a.y - b.y) * (a.y - b.y) + (a.z - b.z) * (a.z - b.z)
}

/// Every coordinate of `v` is at most `b` in magnitude.
pub open spec fn coords_bounded(v: Vec3I, b: int) -> bool {
    -b <= v.x <= b && -b <= v.y <= b && -b <= v.z <= b
}

/// `x` clamped into `[-lim, lim]`.
pub open spec fn clamp_spec(x: int, lim: int) -> int {
    if x > lim {
        lim
    } else if x < -lim {
        -lim
    } else {
        x
    }
}

pub proof fn lemma_square_bound(a: int, b: int)
    requires
        -b <= a <= b,
        0 <= b,
    ensures
        0 <= a * a <= b * b,
{
    assert(0 <= a * a <= b * b) by (nonlinear_arith)
        requires
            -b <= a <= b,
            0 <= b,
    ;
}

/// Bound on a product from bounds on both factors' magnitudes.
pub proof fn lemma_mul_abs_bounds(a: int, b: int, al: int, bl: int)
    requires
        -al <= a <= al,
        -bl <= b <= bl,
        0 <= al,
        0 <= bl,
    ensures
        -(al * bl) <= a * b <= al * bl,
{
    assert(-(al * bl) <= a * b <= al * bl) by (nonlinear_arith)
        requires
            -al <= a <= al,
            -bl <= b <= bl,
            0 <= al,
            0 <= bl,
    ;
}

/// Squared distance is symmetric in its arguments.
pub proof fn lemma_dist_sq_symmetric(a: Vec3I, b: Vec3I)
    ensures
        dist_sq(a, b) == dist_sq(b, a),
{
    assert(dist_sq(a, b) == dist_sq(b, a)) by (nonlinear_arith);
}

/// Computes `dist_sq` exactly, in 128-bit arithmetic.
pub fn dist_sq_i128(a: &Vec3I, b: &Vec3I) -> (r: i128)
    requires
        coords_bounded(*a, 2_300_000_000_000_000_000),
        coords_bounded(*b, 2_300_000_000_000_000_000),
    ensures
        r == dist_sq(*a, *b),
        0 <= r,
{
    let dx: i128 = a.x as i128 - b.x as i128;
    let dy: i128 = a.y as i128 - b.y as i128;
    let dz: i128 = a.z as i128 - b.z as i128;
    proof {
        lemma_square_bound(dx as int, 4_600_000_000_000_000_000);
        lemma_square_bound(dy as int, 4_600_000_000_000_000_000);
        lemma_square_bound(dz as int, 4_600_000_000_000_000_000);
    }
    dx * dx + dy * dy + dz * dz
}

/// Computes `norm_sq` exactly, in 128-bit arithmetic.
pub fn norm_sq_i128(v: &Vec3I) -> (r: i128)
    requires
        coords_bounded(*v, 2_300_000_000_000_000_000),
    ensures
        r == norm_sq(*v),
        0 <= r,
{
    proof {
        lemma_square_bound(v.x as int, 2_300_000_000_000_000_000);
        lemma_square_bound(v.y as int, 2_300_000_000_000_000_000);
        lemma_square_bound(v.z as int, 2_300_000_000_000_000_000);
    }
    (v.x as i128) * (v.x as i128) + (v.y as i128) * (v.y as i128) + (v.z as i128) * (v.z as i128)
}

/// `x` clamped into `[-lim, lim]`.
pub fn clamp_i64(x: i64, lim: i64) -> (r: i64)
    requires
        0 < lim,
    ensures
        r == clamp_spec(x as int, lim as int),
{
    if x > lim {
        lim
    } else if x < -lim {
        -lim
    } else {
        x
    }
}

/// Adds a (possibly negative) angle delta to an angle and renormalises the
/// result into `[0, TAU_NANO)`; exactly Euclidean addition modulo a full turn.
pub fn add_angle(a: i64, d: i64) -> (r: i64)
    requires
        0 <= a < TAU_NANO,
        -1_000_000_000_000_000 <= d <= 1_000_000_000_000_000,
    ensures
        r == (a + d) % (TAU_NANO as int),
        0 <= r < TAU_NANO,
{
    let s: i64 = a + d;
    let tau: u64 = TAU_NANO as u64;
    if s >= 0 {
        let r: u64 = (s as u64) % tau;
        r as i64
    } else {
        let neg: u64 = (-s) as u64;
        let m: u64 = neg % tau;
        proof {
            lemma_fundamental_div_mod(neg as int, tau as int);
            if m == 0 {
                lemma_mod_multiples_basic(-((neg as int) / (tau as int)), tau as int);
                assert((s as int) == (-((neg as int) / (tau as int))) * (tau as int));
            } else {
                lemma_fundamental_div_mod_converse(
                    s as int,
                    tau as int,
                    -((neg as int) / (tau as int)) - 1,
                    tau as int - m as int,
                );
            }
        }
        if m == 0 {
            0
        } else {
            (tau - m) as i64
        }
    }
}

/// `r` is the integer square root of `n`.
pub open spec fn is_isqrt(r: int, n: int) -> bool {
    0 <= r && r * r <= n < (r + 1) * (r + 1)
}

/// Integer square root of a small number, by searching upward.
pub fn isqrt(n: u64) -> (r: u64)
    requires
        n <= 4_000_000,
    ensures
        is_isqrt(r as int, n as int),
{
    let mut r: u64 = 0;
    let mut next_sq: u64 = 1;
    while next_sq <= n
        invariant
            n <= 4_000_000,
            0 <= r <= 2_000,
            r * r <= n,
            next_sq == (r + 1) * (r + 1),
        decreases n - r * r,
    {
        proof {
            assert(r + 1 <= 2_000) by (nonlinear_arith)
                requires
                    ((r + 1) as int) * ((r + 1) as int) <= 4_000_000,
                    0 <= r,
            ;
            assert((r as int) * (r as int) < ((r + 1) as int) * ((r + 1) as int))
                by (nonlinear_arith)
                requires
                    0 <= r,
            ;
            assert(((r + 2) as int) * ((r + 2) as int) == ((r + 1) as int) * ((r + 1) as int) + 2
                * ((r + 1) as int) + 1) by (nonlinear_arith);
        }
        r = r + 1;
        next_sq = next_sq + 2 * r + 1;
    }
    r
}

/// One coordinate of a direction scaled to integer length `DIR_UNIT`:
/// `d * DIR_UNIT / len`, rounded toward zero.
pub open spec fn dir_comp(d: int, len: int) -> int {
    if d >= 0 {
        (d * DIR_UNIT) / len
    } else {
        -(((-d) * DIR_UNIT) / len)
    }
}

/// Scales one coordinate of a vector of integer length `len` so that the
/// whole vector gets length close to `DIR_UNIT`.
pub fn scale_dir_comp(d: i64, len: u64) -> (r: i64)
    requires
        1 <= len <= 2_000,
        -(len as int) <= d <= len as int,
    ensures
        r == dir_comp(d as int, len as int),
        -DIR_UNIT <= r <= DIR_UNIT,
{
    proof {
        lemma_div_is_ordered(
            if d >= 0 { d * DIR_UNIT } else { (-d) * DIR_UNIT },
            (len as int) * (DIR_UNIT as int),
            len as int,
        );
        lemma_div_multiples_vanish(DIR_UNIT as int, len as int);
        if d >= 0 {
            assert(d * DIR_UNIT >= 0) by (nonlinear_arith)
                requires
                    d >= 0,
            ;
            assert(d * DIR_UNIT <= (len as int) * (DIR_UNIT as int)) by (nonlinear_arith)
                requires
                    d <= len as int,
                    0 < DIR_UNIT,
            ;
            vstd::arithmetic::div_mod::lemma_div_pos_is_pos(d * DIR_UNIT, len as int);
        } else {
            assert((-d) * DIR_UNIT >= 0) by (nonlinear_arith)
                requires
                    d < 0,
            ;
            assert((-d) * DIR_UNIT <= (len as int) * (DIR_UNIT as int)) by (nonlinear_arith)
                requires
                    -d <= len as int,
                    0 < DIR_UNIT,
            ;
            vstd::arithmetic::div_mod::lemma_div_pos_is_pos((-d) * DIR_UNIT, len as int);
        }
    }
    if d >= 0 {
        let q: u64 = (d as u64) * (DIR_UNIT as u64) / len;
        q as i64
    } else {
        let q: u64 = ((-d) as u64) * (DIR_UNIT as u64) / len;
        -(q as i64)
    }
}

} // verus!
