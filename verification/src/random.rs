//! Random draws for asteroid spawning: a uniform orientation and a uniform
//! planar direction, built from integer samples of the `rand` crate.
use vstd::prelude::*;
use rand::Rng;
use crate::math::{
    dir_comp, is_isqrt, isqrt, lemma_square_bound, scale_dir_comp, Vec3I, DIR_UNIT, TAU_NANO,
};

verus! {

/// Relies on rand's `Rng::gen_range` over an integer `Range`, which returns a
/// uniform sample in `[lo, hi)` and panics only on an empty range.
#[verifier::external_body]
pub(crate) fn rand_range_i64(lo: i64, hi: i64) -> (r: i64)
    requires
        lo < hi,
    ensures
        lo <= r < hi,
{
    rand::thread_rng().gen_range(lo..hi)
}

/// A uniformly random orientation: three independent rotation angles in
/// `[0, TAU_NANO)`, to be applied about the x, y and z axes in that order.
pub fn rotation() -> (r: Vec3I)
    ensures
        0 <= r.x < TAU_NANO,
        0 <= r.y < TAU_NANO,
        0 <= r.z < TAU_NANO,
{
    Vec3I {
        x: rand_range_i64(0, TAU_NANO),
        y: rand_range_i64(0, TAU_NANO),
        z: rand_range_i64(0, TAU_NANO),
    }
}

/// A planar (y = 0) direction of integer length close to `DIR_UNIT`,
/// obtained by scaling an integer sample from the square.
pub open spec fn is_scaled_direction(r: Vec3I, dx: int, dz: int, len: int) -> bool {
    &&& -DIR_UNIT <= dx <= DIR_UNIT
    &&& -DIR_UNIT <= dz <= DIR_UNIT
    &&& !(dx == 0 && dz == 0)
    &&& is_isqrt(len, dx * dx + dz * dz)
    &&& r.x == dir_comp(dx, len)
    &&& r.y == 0
    &&& r.z == dir_comp(dz, len)
}

/// A random unit-length direction in the xz plane, scaled to `DIR_UNIT`:
/// a uniform sample from the square, normalised by its integer length.
pub fn direction_2d() -> (r: Vec3I)
    ensures
        exists|dx: int, dz: int, len: int| is_scaled_direction(r, dx, dz, len),
        -DIR_UNIT <= r.x <= DIR_UNIT,
        r.y == 0,
        -DIR_UNIT <= r.z <= DIR_UNIT,
{
    let dx: i64 = rand_range_i64(-DIR_UNIT, DIR_UNIT + 1);
    let mut dz: i64 = rand_range_i64(-DIR_UNIT, DIR_UNIT + 1);
    if dx == 0 && dz == 0 {
        // a zero sample carries no direction; fall back to the z axis
        dz = DIR_UNIT;
    }
    proof {
        lemma_square_bound(dx as int, DIR_UNIT as int);
        lemma_square_bound(dz as int, DIR_UNIT as int);
    }
    let nn: u64 = (dx * dx) as u64 + (dz * dz) as u64;
    let len: u64 = isqrt(nn);
    proof {
        assert((len as int) * (len as int) <= nn as int);
        if dx != 0 {
            assert((dx as int) * (dx as int) >= 1) by (nonlinear_arith)
                requires
                    dx != 0,
            ;
        } else {
            assert((dz as int) * (dz as int) >= 1) by (nonlinear_arith)
                requires
                    dz != 0,
            ;
        }
        assert(1 <= nn as int);
        if len == 0 {
            assert((nn as int) < (0 + 1) * (0 + 1));
            assert(false);
        }
        assert(len >= 1);
        assert(len <= 2_000) by (nonlinear_arith)
            requires
                (len as int) * (len as int) <= 2_000_000,
                len >= 0,
        ;
        assert((dx as int) * (dx as int) <= nn as int);
        assert((dz as int) * (dz as int) <= nn as int);
        let lp = len as int + 1;
        assert((nn as int) < lp * lp);
        assert(-(len as int) <= dx as int <= len as int) by (nonlinear_arith)
            requires
                (dx as int) * (dx as int) < (lp * lp),
                lp == len as int + 1,
                len >= 0,
        ;
        assert(-(len as int) <= dz as int <= len as int) by (nonlinear_arith)
            requires
                (dz as int) * (dz as int) < (lp * lp),
                lp == len as int + 1,
                len >= 0,
        ;
    }
    let rx: i64 = scale_dir_comp(dx, len);
    let rz: i64 = scale_dir_comp(dz, len);
    let r = Vec3I { x: rx, y: 0, z: rz };
    proof {
        assert(is_scaled_direction(r, dx as int, dz as int, len as int));
    }
    r
}

} // verus!
