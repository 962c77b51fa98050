//! Asteroid lifecycle: the repeating spawn timer, timed random spawning, and
//! the missile/asteroid collision resolution pass with its double-despawn
//! guard.
use vstd::prelude::*;
use crate::collision_detection::{ids_unique, Collider};
use crate::math::{coords_bounded, Vec3I, TAU_NANO};
use crate::movement::{Acceleration, Velocity};
use crate::random::{direction_2d, is_scaled_direction, rand_range_i64, rotation};
use crate::world::{contains_id, Entity, Role, Transform, World, MAX_DT_MS};

verus! {

/// Simulated time between two asteroid spawns, in milliseconds.
pub const SPAWN_PERIOD_MS: i64 = 600;

/// Spawn region: `x` in `[-SPAWN_RANGE_X, SPAWN_RANGE_X)`, in nano-units.
pub const SPAWN_RANGE_X: i64 = 25_000_000_000;

/// Spawn region: `z` in `[0, SPAWN_RANGE_Z)`, in nano-units.
pub const SPAWN_RANGE_Z: i64 = 25_000_000_000;

/// Asteroid speed: 5 world units per second, as a multiplier on a direction
/// of integer length `DIR_UNIT`.
pub const VELOCITY_SCALAR: i64 = 5_000;

/// Asteroid acceleration: 1 world unit per second squared, as a multiplier on
/// a direction of integer length `DIR_UNIT`.
pub const ACCELERATION_SCALAR: i64 = 1;

/// Base asteroid collision radius: 2 world units, per thousandth of scale.
pub const COLLISION_SIZE_PER_MILLI: i64 = 2_000_000;

/// Smallest (inclusive) and largest (exclusive) random scale, in thousandths.
pub const SCALE_MIN_MILLI: i64 = 500;

pub const SCALE_MAX_MILLI: i64 = 1_500;

/// Opaque handle of the asteroid model, for the rendering collaborator.
pub const ASTEROID_MODEL: u64 = 1;

/// A repeating countdown gating asteroid spawns: it accumulates simulated
/// time while the game is playing, fires each time a full period has
/// elapsed, and keeps the remainder.
#[derive(Clone, Copy, PartialEq, Eq, Structural, Debug)]
pub struct SpawnTimer {
    pub elapsed_ms: i64,
}

/// Advances the timer by `dt_ms` and reports whether it fired. It fires
/// exactly when the accumulated time reaches a full period, and what is kept
/// is the accumulated time modulo the period.
pub fn tick_timer(timer: &mut SpawnTimer, dt_ms: i64) -> (fired: bool)
    requires
        0 <= old(timer).elapsed_ms < SPAWN_PERIOD_MS,
        0 <= dt_ms <= 0x7fff_ffff_ffff_0000,
    ensures
        fired == (old(timer).elapsed_ms + dt_ms >= SPAWN_PERIOD_MS),
        final(timer).elapsed_ms == (old(timer).elapsed_ms + dt_ms) % (SPAWN_PERIOD_MS as int),
        0 <= final(timer).elapsed_ms < SPAWN_PERIOD_MS,
{
    let total: i64 = timer.elapsed_ms + dt_ms;
    if total >= SPAWN_PERIOD_MS {
        let rem: u64 = (total as u64) % (SPAWN_PERIOD_MS as u64);
        timer.elapsed_ms = rem as i64;
        true
    } else {
        proof {
            vstd::arithmetic::div_mod::lemma_small_mod(total as nat, SPAWN_PERIOD_MS as nat);
        }
        timer.elapsed_ms = total;
        false
    }
}

/// Total of a sequence of frame deltas.
pub open spec fn sum_dts(ds: Seq<int>) -> int
    decreases ds.len(),
{
    if ds.len() == 0 {
        0
    } else {
        ds[0] + sum_dts(ds.subrange(1, ds.len() as int))
    }
}

/// The timer after a sequence of playing frames, starting from `e0`.
pub open spec fn timer_after(e0: int, ds: Seq<int>) -> int
    decreases ds.len(),
{
    if ds.len() == 0 {
        e0
    } else {
        timer_after((e0 + ds[0]) % (SPAWN_PERIOD_MS as int), ds.subrange(1, ds.len() as int))
    }
}

/// The timer fired during some frame of the sequence.
pub open spec fn fired_during(e0: int, ds: Seq<int>) -> bool
    decreases ds.len(),
{
    if ds.len() == 0 {
        false
    } else {
        e0 + ds[0] >= SPAWN_PERIOD_MS || fired_during(
            (e0 + ds[0]) % (SPAWN_PERIOD_MS as int),
            ds.subrange(1, ds.len() as int),
        )
    }
}

/// The spawn timer boundary law: over any run of playing frames whose
/// accumulated simulated time stays under one period, the timer never fires
/// (so no asteroid spawns), and it holds exactly the accumulated time — the
/// first frame to reach the period is the first to fire.
pub proof fn lemma_spawn_timer_boundary(e0: int, ds: Seq<int>)
    requires
        0 <= e0,
        forall|i: int| 0 <= i < ds.len() ==> 0 <= #[trigger] ds[i],
        e0 + sum_dts(ds) < SPAWN_PERIOD_MS,
    ensures
        !fired_during(e0, ds),
        timer_after(e0, ds) == e0 + sum_dts(ds),
    decreases ds.len(),
{
    if ds.len() > 0 {
        let rest = ds.subrange(1, ds.len() as int);
        assert forall|i: int| 0 <= i < rest.len() implies 0 <= #[trigger] rest[i] by {
            assert(rest[i] == ds[i + 1]);
        }
        assert(0 <= sum_dts(rest)) by {
            lemma_sum_dts_nonneg(rest);
        }
        vstd::arithmetic::div_mod::lemma_small_mod((e0 + ds[0]) as nat, SPAWN_PERIOD_MS as nat);
        lemma_spawn_timer_boundary(e0 + ds[0], rest);
    }
}

/// A sum of nonnegative deltas is nonnegative.
pub proof fn lemma_sum_dts_nonneg(ds: Seq<int>)
    requires
        forall|i: int| 0 <= i < ds.len() ==> 0 <= #[trigger] ds[i],
    ensures
        0 <= sum_dts(ds),
    decreases ds.len(),
{
    if ds.len() > 0 {
        let rest = ds.subrange(1, ds.len() as int);
        assert forall|i: int| 0 <= i < rest.len() implies 0 <= #[trigger] rest[i] by {
            assert(rest[i] == ds[i + 1]);
        }
        lemma_sum_dts_nonneg(rest);
    }
}

/// What a freshly spawned asteroid looks like: the given identifier, the
/// Asteroid role, a position inside the spawn region, a random orientation,
/// a random scale in `[0.5, 1.5)` that also scales the collision radius, a
/// random planar direction times the velocity scalar, an independent random
/// planar direction times the acceleration scalar, an empty overlap list and
/// the asteroid model handle.
pub open spec fn asteroid_spawn_ok(a: Entity, id: u64) -> bool {
    &&& a.id == id
    &&& a.role == Role::Asteroid
    &&& -SPAWN_RANGE_X <= a.transform.translation.x < SPAWN_RANGE_X
    &&& a.transform.translation.y == 0
    &&& 0 <= a.transform.translation.z < SPAWN_RANGE_Z
    &&& 0 <= a.transform.rotation.x < TAU_NANO
    &&& 0 <= a.transform.rotation.y < TAU_NANO
    &&& 0 <= a.transform.rotation.z < TAU_NANO
    &&& SCALE_MIN_MILLI <= a.transform.scale_milli < SCALE_MAX_MILLI
    &&& a.collider.radius == a.transform.scale_milli * COLLISION_SIZE_PER_MILLI
    &&& (exists|dx: int, dz: int, len: int|
        #[trigger] is_scaled_direction(
            Vec3I {
                x: (a.velocity.value.x / VELOCITY_SCALAR) as i64,
                y: 0,
                z: (a.velocity.value.z / VELOCITY_SCALAR) as i64,
            },
            dx,
            dz,
            len,
        ))
    &&& a.velocity.value.y == 0
    &&& coords_bounded(a.velocity.value, 5_000_000)
    &&& (exists|dx: int, dz: int, len: int|
        #[trigger] is_scaled_direction(a.acceleration.value, dx, dz, len))
    &&& a.acceleration.value.y == 0
    &&& coords_bounded(a.acceleration.value, 1_000)
    &&& a.collider.colliding_entities@ == Seq::<u64>::empty()
    &&& a.model == ASTEROID_MODEL
}

/// While playing, advances the spawn timer and, each time it fires, spawns
/// exactly one randomly placed asteroid (unless the identifier space is
/// exhausted). The timer keeps the accumulated time modulo the period;
/// nothing else of the world changes.
pub fn spawn_asteroid(world: &mut World, dt_ms: i64) -> (spawned: Option<u64>)
    requires
        0 <= old(world).spawn_timer.elapsed_ms < SPAWN_PERIOD_MS,
        0 <= dt_ms <= MAX_DT_MS,
    ensures
        spawned == if old(world).spawn_timer.elapsed_ms + dt_ms >= SPAWN_PERIOD_MS && old(
            world,
        ).next_id < u64::MAX {
            Some(old(world).next_id)
        } else {
            None
        },
        final(world).spawn_timer.elapsed_ms == (old(world).spawn_timer.elapsed_ms + dt_ms) % (
        SPAWN_PERIOD_MS as int),
        final(world).game_state == old(world).game_state,
        old(world).spawn_timer.elapsed_ms + dt_ms < SPAWN_PERIOD_MS || old(world).next_id
            == u64::MAX ==> final(world).entities@ == old(world).entities@ && final(world).next_id
            == old(world).next_id,
        old(world).spawn_timer.elapsed_ms + dt_ms >= SPAWN_PERIOD_MS && old(world).next_id
            < u64::MAX ==> final(world).entities@.len() == old(world).entities@.len() + 1
            && final(world).entities@.subrange(0, old(world).entities@.len() as int) == old(
            world,
        ).entities@ && asteroid_spawn_ok(
            final(world).entities@[old(world).entities@.len() as int],
            old(world).next_id,
        ) && final(world).next_id == old(world).next_id + 1,
{
    let fired: bool = tick_timer(&mut world.spawn_timer, dt_ms);
    if !fired {
        return None;
    }
    if world.next_id == u64::MAX {
        // no identifier is left to allocate; skip this spawn
        return None;
    }
    let x: i64 = rand_range_i64(-SPAWN_RANGE_X, SPAWN_RANGE_X);
    let z: i64 = rand_range_i64(0, SPAWN_RANGE_Z);
    let rot: Vec3I = rotation();
    let scale: i64 = rand_range_i64(SCALE_MIN_MILLI, SCALE_MAX_MILLI);
    let vel_dir: Vec3I = direction_2d();
    let acc_dir: Vec3I = direction_2d();
    let ghost vd = vel_dir;
    let a = Entity {
        id: world.next_id,
        role: Role::Asteroid,
        transform: Transform {
            translation: Vec3I { x, y: 0, z },
            rotation: rot,
            scale_milli: scale,
        },
        velocity: Velocity {
            value: Vec3I {
                x: vel_dir.x * VELOCITY_SCALAR,
                y: 0,
                z: vel_dir.z * VELOCITY_SCALAR,
            },
        },
        acceleration: Acceleration {
            value: Vec3I {
                x: acc_dir.x * ACCELERATION_SCALAR,
                y: 0,
                z: acc_dir.z * ACCELERATION_SCALAR,
            },
        },
        collider: Collider::new(scale * COLLISION_SIZE_PER_MILLI),
        model: ASTEROID_MODEL,
    };
    proof {
        assert(a.velocity.value.x / VELOCITY_SCALAR == vd.x as int) by (nonlinear_arith)
            requires
                a.velocity.value.x == vd.x * VELOCITY_SCALAR,
                VELOCITY_SCALAR == 5_000,
                -1_000 <= vd.x <= 1_000,
        ;
        assert(a.velocity.value.z / VELOCITY_SCALAR == vd.z as int) by (nonlinear_arith)
            requires
                a.velocity.value.z == vd.z * VELOCITY_SCALAR,
                VELOCITY_SCALAR == 5_000,
                -1_000 <= vd.z <= 1_000,
        ;
        assert(Vec3I {
            x: (a.velocity.value.x / VELOCITY_SCALAR) as i64,
            y: 0,
            z: (a.velocity.value.z / VELOCITY_SCALAR) as i64,
        } == vd);
        assert(a.acceleration.value == acc_dir);
    }
    let id: u64 = world.next_id;
    let n: usize = world.entities.len();
    world.entities.push(a);
    world.next_id = world.next_id + 1;
    proof {
        assert(final(world).entities@.subrange(0, n as int) =~= old(world).entities@);
    }
    Some(id)
}

/// There is a live entity with this id and the Missile role.
pub open spec fn is_live_missile(es: Seq<Entity>, id: u64) -> bool {
    exists|k: int| 0 <= k < es.len() && es[k].id == id && es[k].role == Role::Missile
}

/// The first id in `list` that names a live missile, if any.
pub open spec fn first_live_missile(es: Seq<Entity>, list: Seq<u64>) -> Option<u64>
    decreases list.len(),
{
    if list.len() == 0 {
        None
    } else if is_live_missile(es, list[0]) {
        Some(list[0])
    } else {
        first_live_missile(es, list.subrange(1, list.len() as int))
    }
}

/// Appends `id` unless it is already pending: despawn requests are never
/// issued twice for one identifier.
pub open spec fn push_unless_present(p: Seq<u64>, id: u64) -> Seq<u64> {
    if p.contains(id) {
        p
    } else {
        p.push(id)
    }
}

/// The despawn requests of the resolution pass, walking the entities from
/// index `i` with `p` already pending: each asteroid looks for the first
/// live missile in its overlap list (in list order); if there is one, the
/// asteroid is despawned, and so is that missile unless it was already
/// claimed by an earlier asteroid.
pub open spec fn resolve_from(es: Seq<Entity>, i: int, p: Seq<u64>) -> Seq<u64>
    decreases es.len() - i,
{
    if i < 0 || i >= es.len() {
        p
    } else {
        let p2 = if es[i].role == Role::Asteroid {
            match first_live_missile(es, es[i].collider.colliding_entities@) {
                Some(m) => push_unless_present(push_unless_present(p, es[i].id), m),
                None => p,
            }
        } else {
            p
        };
        resolve_from(es, i + 1, p2)
    }
}

/// The despawn requests of one whole resolution pass.
pub open spec fn resolve_spec(es: Seq<Entity>) -> Seq<u64> {
    resolve_from(es, 0, Seq::empty())
}

/// No id occurs twice.
pub open spec fn no_dups(s: Seq<u64>) -> bool {
    forall|i: int, j: int| 0 <= i < j < s.len() ==> s[i] != s[j]
}

/// Membership after a guarded append: the old members, plus possibly `x`.
pub proof fn lemma_push_unless_contains(p: Seq<u64>, x: u64, id: u64)
    ensures
        push_unless_present(p, x).contains(id) == (p.contains(id) || id == x),
{
    if p.contains(x) {
    } else {
        let q = p.push(x);
        if p.contains(id) {
            let w = choose|w: int| 0 <= w < p.len() && p[w] == id;
            assert(q[w] == id);
            assert(q.contains(id));
        }
        if id == x {
            assert(q[p.len() as int] == x);
            assert(q.contains(id));
        }
        if q.contains(id) {
            let w = choose|w: int| 0 <= w < q.len() && q[w] == id;
            if w < p.len() {
                assert(p[w] == id);
                assert(p.contains(id));
            } else {
                assert(id == x);
            }
        }
    }
}

/// A guarded append keeps the list free of duplicates.
pub proof fn lemma_push_unless_no_dups(p: Seq<u64>, x: u64)
    requires
        no_dups(p),
    ensures
        no_dups(push_unless_present(p, x)),
{
    if !p.contains(x) {
        let q = p.push(x);
        assert forall|i: int, j: int| 0 <= i < j < q.len() implies q[i] != q[j] by {
            if j == p.len() {
                assert(q[i] == p[i]);
                if p[i] == x {
                    assert(p.contains(x));
                }
            }
        }
    }
}

/// Whatever is pending stays pending through the rest of the pass.
pub proof fn lemma_resolve_contains_mono(es: Seq<Entity>, i: int, p: Seq<u64>, id: u64)
    requires
        p.contains(id),
    ensures
        resolve_from(es, i, p).contains(id),
    decreases es.len() - i,
{
    if 0 <= i < es.len() {
        if es[i].role == Role::Asteroid {
            match first_live_missile(es, es[i].collider.colliding_entities@) {
                Some(m) => {
                    lemma_push_unless_contains(p, es[i].id, id);
                    lemma_push_unless_contains(push_unless_present(p, es[i].id), m, id);
                    lemma_resolve_contains_mono(
                        es,
                        i + 1,
                        push_unless_present(push_unless_present(p, es[i].id), m),
                        id,
                    );
                },
                None => {
                    lemma_resolve_contains_mono(es, i + 1, p, id);
                },
            }
        } else {
            lemma_resolve_contains_mono(es, i + 1, p, id);
        }
    }
}

/// The double-removal guard, as a law: if the pending list holds no
/// duplicate, neither does the finished resolution pass — no entity is ever
/// requested to despawn twice in one frame.
pub proof fn lemma_resolve_no_dups(es: Seq<Entity>, i: int, p: Seq<u64>)
    requires
        no_dups(p),
    ensures
        no_dups(resolve_from(es, i, p)),
    decreases es.len() - i,
{
    if 0 <= i < es.len() {
        if es[i].role == Role::Asteroid {
            match first_live_missile(es, es[i].collider.colliding_entities@) {
                Some(m) => {
                    lemma_push_unless_no_dups(p, es[i].id);
                    lemma_push_unless_no_dups(push_unless_present(p, es[i].id), m);
                    lemma_resolve_no_dups(
                        es,
                        i + 1,
                        push_unless_present(push_unless_present(p, es[i].id), m),
                    );
                },
                None => {
                    lemma_resolve_no_dups(es, i + 1, p);
                },
            }
        } else {
            lemma_resolve_no_dups(es, i + 1, p);
        }
    }
}

/// What the first-missile search returns is a live missile from the list;
/// when it returns nothing, the list holds no live missile.
pub proof fn lemma_first_live_missile_sound(es: Seq<Entity>, list: Seq<u64>)
    ensures
        match first_live_missile(es, list) {
            Some(m) => is_live_missile(es, m) && list.contains(m),
            None => forall|k: int| 0 <= k < list.len() ==> !is_live_missile(es, #[trigger] list[k]),
        },
    decreases list.len(),
{
    if list.len() > 0 {
        if is_live_missile(es, list[0]) {
            assert(list.contains(list[0]));
        } else {
            let tail = list.subrange(1, list.len() as int);
            lemma_first_live_missile_sound(es, tail);
            match first_live_missile(es, tail) {
                Some(m) => {
                    let w = choose|w: int| 0 <= w < tail.len() && tail[w] == m;
                    assert(list[w + 1] == m);
                    assert(list.contains(m));
                },
                None => {
                    assert forall|k: int|
                        0 <= k < list.len() implies !is_live_missile(es, #[trigger] list[k]) by {
                        if k > 0 {
                            assert(tail[k - 1] == list[k]);
                        }
                    }
                },
            }
        }
    }
}

/// An asteroid's own identifier never names a live missile (roles are
/// disjoint and identifiers unique).
pub proof fn lemma_asteroid_not_missile(es: Seq<Entity>, t: int)
    requires
        ids_unique(es),
        0 <= t < es.len(),
        es[t].role == Role::Asteroid,
    ensures
        !is_live_missile(es, es[t].id),
{
    if is_live_missile(es, es[t].id) {
        let k = choose|k: int|
            0 <= k < es.len() && es[k].id == es[t].id && es[k].role == Role::Missile;
        assert(k != t);
    }
}

/// An identifier that no remaining asteroid carries and that names no live
/// missile can only be pending if it already was.
pub proof fn lemma_resolve_frozen(es: Seq<Entity>, i: int, p: Seq<u64>, id: u64)
    requires
        !is_live_missile(es, id),
        forall|k: int|
            i <= k < es.len() && (#[trigger] es[k]).role == Role::Asteroid ==> es[k].id != id,
    ensures
        resolve_from(es, i, p).contains(id) == p.contains(id),
    decreases es.len() - i,
{
    if 0 <= i < es.len() {
        if es[i].role == Role::Asteroid {
            match first_live_missile(es, es[i].collider.colliding_entities@) {
                Some(m) => {
                    lemma_first_live_missile_sound(es, es[i].collider.colliding_entities@);
                    lemma_push_unless_contains(p, es[i].id, id);
                    lemma_push_unless_contains(push_unless_present(p, es[i].id), m, id);
                    lemma_resolve_frozen(
                        es,
                        i + 1,
                        push_unless_present(push_unless_present(p, es[i].id), m),
                        id,
                    );
                },
                None => {
                    lemma_resolve_frozen(es, i + 1, p, id);
                },
            }
        } else {
            lemma_resolve_frozen(es, i + 1, p, id);
        }
    }
}

/// Which asteroids get despawned, as a law: an asteroid's id comes out of
/// the resolution pass exactly when its overlap list holds a live missile
/// (or it was already pending).
pub proof fn lemma_resolve_asteroid_iff(es: Seq<Entity>, i: int, p: Seq<u64>, t: int)
    requires
        ids_unique(es),
        0 <= i <= t < es.len(),
        es[t].role == Role::Asteroid,
    ensures
        resolve_from(es, i, p).contains(es[t].id) == (p.contains(es[t].id) || first_live_missile(
            es,
            es[t].collider.colliding_entities@,
        ).is_some()),
    decreases es.len() - i,
{
    lemma_asteroid_not_missile(es, t);
    if i == t {
        match first_live_missile(es, es[t].collider.colliding_entities@) {
            Some(m) => {
                let p2 = push_unless_present(push_unless_present(p, es[t].id), m);
                lemma_push_unless_contains(p, es[t].id, es[t].id);
                lemma_push_unless_contains(push_unless_present(p, es[t].id), m, es[t].id);
                lemma_resolve_contains_mono(es, i + 1, p2, es[t].id);
            },
            None => {
                assert forall|k: int|
                    i + 1 <= k < es.len() && (#[trigger] es[k]).role == Role::Asteroid implies es[k].id
                    != es[t].id by {
                    assert(k != t);
                }
                lemma_resolve_frozen(es, i + 1, p, es[t].id);
            },
        }
    } else {
        // i < t: this step can add only other ids.
        if es[i].role == Role::Asteroid {
            match first_live_missile(es, es[i].collider.colliding_entities@) {
                Some(m) => {
                    lemma_first_live_missile_sound(es, es[i].collider.colliding_entities@);
                    assert(m != es[t].id);
                    lemma_push_unless_contains(p, es[i].id, es[t].id);
                    lemma_push_unless_contains(push_unless_present(p, es[i].id), m, es[t].id);
                    lemma_resolve_asteroid_iff(
                        es,
                        i + 1,
                        push_unless_present(push_unless_present(p, es[i].id), m),
                        t,
                    );
                },
                None => {
                    lemma_resolve_asteroid_iff(es, i + 1, p, t);
                },
            }
        } else {
            lemma_resolve_asteroid_iff(es, i + 1, p, t);
        }
    }
}

/// A stretch of non-asteroids contributes nothing to the pass.
pub proof fn lemma_resolve_skip(es: Seq<Entity>, i: int, j: int, p: Seq<u64>)
    requires
        0 <= i <= j <= es.len(),
        forall|k: int| i <= k < j ==> (#[trigger] es[k]).role != Role::Asteroid,
    ensures
        resolve_from(es, i, p) == resolve_from(es, j, p),
    decreases j - i,
{
    if i < j {
        lemma_resolve_skip(es, i + 1, j, p);
    }
}

/// When exactly one live missile exists and it stands in the list, the
/// search finds it.
pub proof fn lemma_first_live_missile_unique(es: Seq<Entity>, list: Seq<u64>, m: u64)
    requires
        list.contains(m),
        is_live_missile(es, m),
        forall|id: u64| is_live_missile(es, id) ==> id == m,
    ensures
        first_live_missile(es, list) == Some(m),
    decreases list.len(),
{
    if is_live_missile(es, list[0]) {
        assert(list[0] == m);
    } else {
        let tail = list.subrange(1, list.len() as int);
        let w = choose|w: int| 0 <= w < list.len() && list[w] == m;
        assert(w != 0);
        assert(tail[w - 1] == m);
        assert(tail.contains(m));
        lemma_first_live_missile_unique(es, tail, m);
    }
}

/// Collision resolution determinism: one asteroid overlapping exactly two
/// live missiles despawns itself and the first missile in its overlap-list
/// order; the second missile survives the pass.
pub proof fn lemma_resolution_single_asteroid(es: Seq<Entity>, t: int, m1: u64, m2: u64)
    requires
        ids_unique(es),
        0 <= t < es.len(),
        es[t].role == Role::Asteroid,
        forall|k: int| 0 <= k < es.len() && k != t ==> (#[trigger] es[k]).role != Role::Asteroid,
        es[t].collider.colliding_entities@ == seq![m1, m2],
        is_live_missile(es, m1),
        is_live_missile(es, m2),
        m1 != m2,
    ensures
        resolve_spec(es) == seq![es[t].id, m1],
        !resolve_spec(es).contains(m2),
{
    let a = es[t].id;
    let list = es[t].collider.colliding_entities@;
    lemma_asteroid_not_missile(es, t);
    lemma_resolve_skip(es, 0, t, Seq::empty());
    assert(list[0] == m1);
    assert(first_live_missile(es, list) == Some(m1));
    let p1 = push_unless_present(Seq::empty(), a);
    assert(!Seq::<u64>::empty().contains(a));
    assert(p1 =~= seq![a]);
    let p2 = push_unless_present(p1, m1);
    assert(m1 != a);
    assert(!p1.contains(m1)) by {
        if p1.contains(m1) {
            let w = choose|w: int| 0 <= w < p1.len() && p1[w] == m1;
            assert(p1[0] == a);
        }
    }
    assert(p2 =~= seq![a, m1]);
    lemma_resolve_skip(es, t + 1, es.len() as int, p2);
    assert(resolve_spec(es) == p2);
    assert(m2 != a && m2 != m1);
    if resolve_spec(es).contains(m2) {
        let w = choose|w: int| 0 <= w < p2.len() && p2[w] == m2;
    }
}

/// The missile double-removal guard: one missile overlapping two asteroids
/// (and no other live missile about) despawns both asteroids, and the
/// missile exactly once.
pub proof fn lemma_resolution_shared_missile(es: Seq<Entity>, t1: int, t2: int, m: u64)
    requires
        ids_unique(es),
        0 <= t1 < t2 < es.len(),
        es[t1].role == Role::Asteroid,
        es[t2].role == Role::Asteroid,
        forall|k: int|
            0 <= k < es.len() && k != t1 && k != t2 ==> (#[trigger] es[k]).role != Role::Asteroid,
        is_live_missile(es, m),
        forall|id: u64| is_live_missile(es, id) ==> id == m,
        es[t1].collider.colliding_entities@.contains(m),
        es[t2].collider.colliding_entities@.contains(m),
    ensures
        resolve_spec(es) == seq![es[t1].id, m, es[t2].id],
{
    let a1 = es[t1].id;
    let a2 = es[t2].id;
    lemma_asteroid_not_missile(es, t1);
    lemma_asteroid_not_missile(es, t2);
    assert(m != a1 && m != a2);
    assert(a1 != a2);
    lemma_resolve_skip(es, 0, t1, Seq::empty());
    lemma_first_live_missile_unique(es, es[t1].collider.colliding_entities@, m);
    let p1 = push_unless_present(Seq::empty(), a1);
    assert(p1 =~= seq![a1]);
    let p2 = push_unless_present(p1, m);
    assert(!p1.contains(m)) by {
        if p1.contains(m) {
            let w = choose|w: int| 0 <= w < p1.len() && p1[w] == m;
        }
    }
    assert(p2 =~= seq![a1, m]);
    lemma_resolve_skip(es, t1 + 1, t2, p2);
    lemma_first_live_missile_unique(es, es[t2].collider.colliding_entities@, m);
    let p3 = push_unless_present(p2, a2);
    assert(!p2.contains(a2)) by {
        if p2.contains(a2) {
            let w = choose|w: int| 0 <= w < p2.len() && p2[w] == a2;
            assert(p2[0] == a1 && p2[1] == m);
        }
    }
    assert(p3 =~= seq![a1, m, a2]);
    let p4 = push_unless_present(p3, m);
    assert(p3.contains(m)) by {
        assert(p3[1] == m);
    }
    assert(p4 == p3);
    lemma_resolve_skip(es, t2 + 1, es.len() as int, p4);
}

/// Is there a live missile with this id? (runtime form of `is_live_missile`)
pub fn is_missile_id(world: &World, id: u64) -> (r: bool)
    ensures
        r == is_live_missile(world.entities@, id),
{
    let mut k: usize = 0;
    while k < world.entities.len()
        invariant
            0 <= k <= world.entities@.len(),
            forall|t: int|
                0 <= t < k ==> !(world.entities@[t].id == id && world.entities@[t].role
                    == Role::Missile),
        decreases world.entities@.len() - k,
    {
        if world.entities[k].id == id && matches!(world.entities[k].role, Role::Missile) {
            return true;
        }
        k = k + 1;
    }
    false
}

/// The collision resolution pass: computes the frame's despawn requests,
/// exactly `resolve_spec` of the current entities. Read-only; the requests
/// are applied at the frame's mutation boundary.
pub fn remove_on_missile_collision(world: &World) -> (despawn: Vec<u64>)
    ensures
        despawn@ == resolve_spec(world.entities@),
{
    let ghost es = world.entities@;
    let mut pending: Vec<u64> = Vec::new();
    let n: usize = world.entities.len();
    let mut i: usize = 0;
    while i < n
        invariant
            n == es.len(),
            0 <= i <= n,
            world.entities@ == es,
            resolve_from(es, i as int, pending@) == resolve_spec(es),
        decreases n - i,
    {
        let ghost p_entry = pending@;
        if matches!(world.entities[i].role, Role::Asteroid) {
            let list = &world.entities[i].collider.colliding_entities;
            let ghost lseq = list@;
            let llen: usize = list.len();
            let mut found: Option<u64> = None;
            let mut j: usize = 0;
            proof {
                assert(lseq.subrange(0, llen as int) =~= lseq);
            }
            while j < llen
                invariant_except_break
                    0 <= j <= llen,
                    llen == lseq.len(),
                    list@ == lseq,
                    world.entities@ == es,
                    found.is_none(),
                    first_live_missile(es, lseq.subrange(j as int, llen as int))
                        == first_live_missile(es, lseq),
                ensures
                    world.entities@ == es,
                    match found {
                        Some(m) => first_live_missile(es, lseq) == Some(m),
                        None => first_live_missile(es, lseq) == None::<u64>,
                    },
                decreases llen - j,
            {
                let id: u64 = list[j];
                let ghost tail = lseq.subrange(j as int, llen as int);
                proof {
                    assert(tail.len() == llen - j);
                    assert(tail[0] == lseq[j as int]);
                    assert(tail.subrange(1, tail.len() as int) =~= lseq.subrange(
                        (j + 1) as int,
                        llen as int,
                    ));
                }
                if is_missile_id(world, id) {
                    proof {
                        assert(is_live_missile(es, tail[0]));
                        assert(first_live_missile(es, tail) == Some(id));
                    }
                    found = Some(id);
                    break ;
                }
                proof {
                    assert(!is_live_missile(es, tail[0]));
                    assert(first_live_missile(es, tail) == first_live_missile(
                        es,
                        lseq.subrange((j + 1) as int, llen as int),
                    ));
                }
                j = j + 1;
            }
            proof {
                if found.is_none() {
                    assert(lseq.subrange(llen as int, llen as int) =~= Seq::<u64>::empty());
                }
            }
            match found {
                Some(m) => {
                    let aid: u64 = world.entities[i].id;
                    if !contains_id(&pending, aid) {
                        pending.push(aid);
                    }
                    if !contains_id(&pending, m) {
                        pending.push(m);
                    }
                    proof {
                        assert(pending@ == push_unless_present(
                            push_unless_present(p_entry, aid),
                            m,
                        ));
                    }
                },
                None => {},
            }
        }
        proof {
            assert(resolve_from(es, (i + 1) as int, pending@) == resolve_from(es, i as int, p_entry));
        }
        i = i + 1;
    }
    pending
}

} // verus!
