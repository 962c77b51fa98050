//! The motion integrator: semi-implicit Euler over fixed-point coordinates.
//! Each playing frame first advances every velocity from its acceleration,
//! then advances every position from the *updated* velocity, so acceleration
//! is reflected in the same frame's displacement.
use vstd::prelude::*;
use crate::collision_detection::Collider;
use crate::math::{clamp_i64, clamp_spec, coords_bounded, Vec3I};
use crate::world::{
    Entity, Transform, World, ACC_LIMIT, MAX_DT_MS, POS_LIMIT, POS_MOVED_LIMIT, VEL_LIMIT,
};

verus! {

/// Linear velocity, in nano-units per millisecond.
#[derive(Clone, Copy, PartialEq, Eq, Structural, Debug)]
pub struct Velocity {
    pub value: Vec3I,
}

/// Constant per-entity acceleration, in nano-units per millisecond squared.
#[derive(Clone, Copy, PartialEq, Eq, Structural, Debug)]
pub struct Acceleration {
    pub value: Vec3I,
}

/// Everything a spawn request carries besides its role tag: initial
/// transform, kinematic state, collision boundary and the opaque handle of
/// the model the renderer should attach.
#[derive(Debug)]
pub struct MovingObjectBundle {
    pub transform: Transform,
    pub velocity: Velocity,
    pub acceleration: Acceleration,
    pub collider: Collider,
    pub model: u64,
}

/// One velocity coordinate after a step of `dt`: `v + a * dt`, saturated at
/// the representable velocity limit.
pub open spec fn vel_step(v: int, a: int, dt: int) -> int {
    clamp_spec(v + a * dt, VEL_LIMIT as int)
}

/// One position coordinate after a step of `dt` at (updated) velocity `v`.
pub open spec fn pos_step(p: int, v: int, dt: int) -> int {
    p + v * dt
}

/// The velocity vector of `e` after one velocity step.
pub open spec fn stepped_velocity(e: Entity, dt: int) -> Vec3I {
    Vec3I {
        x: vel_step(e.velocity.value.x as int, e.acceleration.value.x as int, dt) as i64,
        y: vel_step(e.velocity.value.y as int, e.acceleration.value.y as int, dt) as i64,
        z: vel_step(e.velocity.value.z as int, e.acceleration.value.z as int, dt) as i64,
    }
}

/// The position vector of `e` after one position step.
pub open spec fn stepped_position(e: Entity, dt: int) -> Vec3I {
    Vec3I {
        x: pos_step(e.transform.translation.x as int, e.velocity.value.x as int, dt) as i64,
        y: pos_step(e.transform.translation.y as int, e.velocity.value.y as int, dt) as i64,
        z: pos_step(e.transform.translation.z as int, e.velocity.value.z as int, dt) as i64,
    }
}

/// `b` is `a` with exactly its velocity replaced by `v`.
pub open spec fn with_velocity(a: Entity, v: Vec3I) -> Entity {
    Entity { velocity: Velocity { value: v }, ..a }
}

/// `b` is `a` with exactly its translation replaced by `p`.
pub open spec fn with_translation(a: Entity, p: Vec3I) -> Entity {
    Entity { transform: Transform { translation: p, ..a.transform }, ..a }
}

/// Bound on a product from bounds on its factors.
pub proof fn lemma_mul_bounds(a: int, b: int, al: int, bl: int)
    requires
        -al <= a <= al,
        0 <= b <= bl,
        0 <= al,
    ensures
        -(al * bl) <= a * b <= al * bl,
{
    assert(-(al * bl) <= a * b <= al * bl) by (nonlinear_arith)
        requires
            -al <= a <= al,
            0 <= b <= bl,
            0 <= al,
    ;
}

/// For every entity, `velocity += acceleration * dt`, saturated at
/// `VEL_LIMIT`; nothing else changes.
pub fn update_velocity(world: &mut World, dt_ms: i64)
    requires
        0 <= dt_ms <= MAX_DT_MS,
        forall|i: int|
            0 <= i < old(world).entities@.len() ==> coords_bounded(
                (#[trigger] old(world).entities@[i]).velocity.value,
                VEL_LIMIT as int,
            ) && coords_bounded(old(world).entities@[i].acceleration.value, ACC_LIMIT as int),
    ensures
        final(world).entities@.len() == old(world).entities@.len(),
        forall|i: int|
            0 <= i < old(world).entities@.len() ==> final(world).entities@[i] == with_velocity(
                #[trigger] old(world).entities@[i],
                stepped_velocity(old(world).entities@[i], dt_ms as int),
            ),
        final(world).next_id == old(world).next_id,
        final(world).game_state == old(world).game_state,
        final(world).spawn_timer == old(world).spawn_timer,
{
    let n: usize = world.entities.len();
    let mut i: usize = 0;
    while i < n
        invariant
            n == old(world).entities@.len(),
            0 <= i <= n,
            world.entities@.len() == n,
            0 <= dt_ms <= MAX_DT_MS,
            forall|k: int|
                0 <= k < n ==> coords_bounded(
                    (#[trigger] old(world).entities@[k]).velocity.value,
                    VEL_LIMIT as int,
                ) && coords_bounded(old(world).entities@[k].acceleration.value, ACC_LIMIT as int),
            forall|k: int|
                0 <= k < i ==> world.entities@[k] == with_velocity(
                    #[trigger] old(world).entities@[k],
                    stepped_velocity(old(world).entities@[k], dt_ms as int),
                ),
            forall|k: int| i <= k < n ==> world.entities@[k] == old(world).entities@[k],
            world.next_id == old(world).next_id,
            world.game_state == old(world).game_state,
            world.spawn_timer == old(world).spawn_timer,
        decreases n - i,
    {
        proof {
            assert(world.entities@[i as int] == old(world).entities@[i as int]);
            let e = old(world).entities@[i as int];
            assert(coords_bounded(e.velocity.value, VEL_LIMIT as int));
            lemma_mul_bounds(e.acceleration.value.x as int, dt_ms as int, ACC_LIMIT as int, MAX_DT_MS as int);
            lemma_mul_bounds(e.acceleration.value.y as int, dt_ms as int, ACC_LIMIT as int, MAX_DT_MS as int);
            lemma_mul_bounds(e.acceleration.value.z as int, dt_ms as int, ACC_LIMIT as int, MAX_DT_MS as int);
        }
        let vx: i64 = clamp_i64(
            world.entities[i].velocity.value.x + world.entities[i].acceleration.value.x * dt_ms,
            VEL_LIMIT,
        );
        let vy: i64 = clamp_i64(
            world.entities[i].velocity.value.y + world.entities[i].acceleration.value.y * dt_ms,
            VEL_LIMIT,
        );
        let vz: i64 = clamp_i64(
            world.entities[i].velocity.value.z + world.entities[i].acceleration.value.z * dt_ms,
            VEL_LIMIT,
        );
        let e = &mut world.entities[i];
        e.velocity.value = Vec3I { x: vx, y: vy, z: vz };
        i = i + 1;
    }
}

/// For every entity, `position += velocity * dt`, exactly; nothing else
/// changes.
pub fn update_position(world: &mut World, dt_ms: i64)
    requires
        0 <= dt_ms <= MAX_DT_MS,
        forall|i: int|
            0 <= i < old(world).entities@.len() ==> coords_bounded(
                (#[trigger] old(world).entities@[i]).velocity.value,
                VEL_LIMIT as int,
            ) && coords_bounded(old(world).entities@[i].transform.translation, 2 * (
            POS_LIMIT as int)),
    ensures
        final(world).entities@.len() == old(world).entities@.len(),
        forall|i: int|
            0 <= i < old(world).entities@.len() ==> final(world).entities@[i] == with_translation(
                #[trigger] old(world).entities@[i],
                stepped_position(old(world).entities@[i], dt_ms as int),
            ),
        forall|i: int|
            0 <= i < final(world).entities@.len() ==> coords_bounded(
                (#[trigger] final(world).entities@[i]).transform.translation,
                POS_MOVED_LIMIT as int,
            ),
        final(world).next_id == old(world).next_id,
        final(world).game_state == old(world).game_state,
        final(world).spawn_timer == old(world).spawn_timer,
{
    let n: usize = world.entities.len();
    let mut i: usize = 0;
    while i < n
        invariant
            n == old(world).entities@.len(),
            0 <= i <= n,
            world.entities@.len() == n,
            0 <= dt_ms <= MAX_DT_MS,
            forall|k: int|
                0 <= k < n ==> coords_bounded(
                    (#[trigger] old(world).entities@[k]).velocity.value,
                    VEL_LIMIT as int,
                ) && coords_bounded(
                    old(world).entities@[k].transform.translation,
                    2 * (POS_LIMIT as int),
                ),
            forall|k: int|
                0 <= k < i ==> world.entities@[k] == with_translation(
                    #[trigger] old(world).entities@[k],
                    stepped_position(old(world).entities@[k], dt_ms as int),
                ) && coords_bounded(world.entities@[k].transform.translation, POS_MOVED_LIMIT as int),
            forall|k: int| i <= k < n ==> world.entities@[k] == old(world).entities@[k],
            world.next_id == old(world).next_id,
            world.game_state == old(world).game_state,
            world.spawn_timer == old(world).spawn_timer,
        decreases n - i,
    {
        proof {
            assert(world.entities@[i as int] == old(world).entities@[i as int]);
            let e = old(world).entities@[i as int];
            assert(coords_bounded(e.transform.translation, 2 * (POS_LIMIT as int)));
            lemma_mul_bounds(e.velocity.value.x as int, dt_ms as int, VEL_LIMIT as int, MAX_DT_MS as int);
            lemma_mul_bounds(e.velocity.value.y as int, dt_ms as int, VEL_LIMIT as int, MAX_DT_MS as int);
            lemma_mul_bounds(e.velocity.value.z as int, dt_ms as int, VEL_LIMIT as int, MAX_DT_MS as int);
        }
        let px: i64 = world.entities[i].transform.translation.x + world.entities[i].velocity.value.x
            * dt_ms;
        let py: i64 = world.entities[i].transform.translation.y + world.entities[i].velocity.value.y
            * dt_ms;
        let pz: i64 = world.entities[i].transform.translation.z + world.entities[i].velocity.value.z
            * dt_ms;
        let e = &mut world.entities[i];
        e.transform.translation = Vec3I { x: px, y: py, z: pz };
        i = i + 1;
    }
    proof {
        assert forall|k: int|
            0 <= k < final(world).entities@.len() implies coords_bounded(
            (#[trigger] final(world).entities@[k]).transform.translation,
            POS_MOVED_LIMIT as int,
        ) by {
            assert(world.entities@[k] == with_translation(
                old(world).entities@[k],
                stepped_position(old(world).entities@[k], dt_ms as int),
            ));
        }
    }
}

/// One velocity coordinate after `n` whole frames of step `dt`.
pub open spec fn vel_after_ticks(v0: int, a: int, dt: int, n: nat) -> int
    decreases n,
{
    if n == 0 {
        v0
    } else {
        vel_step(vel_after_ticks(v0, a, dt, (n - 1) as nat), a, dt)
    }
}

/// One position coordinate after `n` whole frames of step `dt`: each frame
/// adds the velocity *after* that frame's velocity step.
pub open spec fn pos_after_ticks(p0: int, v0: int, a: int, dt: int, n: nat) -> int
    decreases n,
{
    if n == 0 {
        p0
    } else {
        pos_step(pos_after_ticks(p0, v0, a, dt, (n - 1) as nat), vel_after_ticks(v0, a, dt, n), dt)
    }
}

/// Integration correctness of the semi-implicit Euler scheme: with constant
/// acceleration `a`, initial velocity `v0` and fixed step `dt`, after `n`
/// frames the velocity is exactly `v0 + a * dt * n`, and the displacement is
/// the sum of the post-update velocities of the `n` frames — equivalently,
/// `2 * (p_n - p0) == 2 * n * v0 * dt + n * (n + 1) * a * dt * dt` — provided
/// the velocity never reaches the saturation limit on the way.
pub proof fn lemma_semi_implicit_euler(p0: int, v0: int, a: int, dt: int, n: nat)
    requires
        0 <= dt,
        -(VEL_LIMIT as int) <= v0 <= VEL_LIMIT as int,
        -(VEL_LIMIT as int) <= v0 + a * dt * n <= VEL_LIMIT as int,
    ensures
        vel_after_ticks(v0, a, dt, n) == v0 + (a * dt) * n,
        2 * (pos_after_ticks(p0, v0, a, dt, n) - p0) == (2 * n) * (v0 * dt) + (n * (n + 1)) * ((a
            * dt) * dt),
    decreases n,
{
    let ad = a * dt;
    let vd = v0 * dt;
    let c = ad * dt;
    if n == 0 {
        assert(ad * n == 0) by (nonlinear_arith)
            requires
                n == 0,
        ;
        assert((2 * n) * vd == 0) by (nonlinear_arith)
            requires
                n == 0,
        ;
        assert((n * (n + 1)) * c == 0) by (nonlinear_arith)
            requires
                n == 0,
        ;
    } else {
        let m = (n - 1) as nat;
        if ad >= 0 {
            assert(0 <= ad * m <= ad * n) by (nonlinear_arith)
                requires
                    0 <= m <= n,
                    ad >= 0,
            ;
        } else {
            assert(ad * n <= ad * m <= 0) by (nonlinear_arith)
                requires
                    0 <= m <= n,
                    ad < 0,
            ;
        }
        lemma_semi_implicit_euler(p0, v0, a, dt, m);
        assert(ad * m + ad == ad * n) by (nonlinear_arith)
            requires
                m == n - 1,
        ;
        // velocity: one more saturating step from `v0 + ad * m`, which stays
        // strictly inside the limit, so the clamp is the identity.
        assert(vel_after_ticks(v0, a, dt, n) == vel_step(v0 + ad * m, a, dt));
        assert(vel_after_ticks(v0, a, dt, n) == v0 + ad * n);
        // position: the recurrence adds the post-step velocity times dt.
        assert(pos_after_ticks(p0, v0, a, dt, n) == pos_after_ticks(p0, v0, a, dt, m) + (v0 + ad
            * n) * dt);
        assert((v0 + ad * n) * dt == vd + n * c) by (nonlinear_arith)
            requires
                vd == v0 * dt,
                c == ad * dt,
        ;
        assert((2 * m) * vd + 2 * vd == (2 * n) * vd) by (nonlinear_arith)
            requires
                m == n - 1,
        ;
        assert((m * (m + 1)) * c + 2 * (n * c) == (n * (n + 1)) * c) by (nonlinear_arith)
            requires
                m == n - 1,
        ;
        assert(2 * (pos_after_ticks(p0, v0, a, dt, n) - p0) == (2 * n) * vd + (n * (n + 1)) * c);
    }
}

} // verus!
