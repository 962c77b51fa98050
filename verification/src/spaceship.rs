//! Ship control: steering and roll, direct-velocity thrust, and missile
//! fire. The trigonometry that turns the ship's yaw into a facing vector is
//! the frontend's (it owns the rendering math); each frame hands the current
//! facing in as a fixed-point direction, and every decision made from it is
//! verified here.
use vstd::prelude::*;
use crate::collision_detection::Collider;
use crate::math::{add_angle, coords_bounded, Vec3I, DIR_UNIT, HALF_PI_NANO, PI_NANO, TAU_NANO};
use crate::movement::{Acceleration, Velocity};
use crate::world::{find_ship, Entity, InputState, Role, Transform, World, MAX_DT_MS, POS_LIMIT};

verus! {

/// Steering speed: 2 radians per second, in nano-radians per millisecond.
pub const SPACESHIP_ROTATION_SPEED: i64 = 2_000_000;

/// Roll shown while steering: one sixteenth of a turn, in nano-radians.
pub const SPACESHIP_ROLL_AMOUNT: i64 = 392_699_081;

/// Ship speed: 20 world units per second, as a multiplier on a facing of
/// integer length `DIR_UNIT`.
pub const SPACESHIP_MOVEMENT_SPEED: i64 = 20_000;

/// Ship collision radius: 5 world units, in nano-units.
pub const SPACESHIP_COLLISION_SIZE: i64 = 5_000_000_000;

/// Missile speed: 50 world units per second, as a multiplier on the facing.
pub const MISSILE_SPEED: i64 = 50_000;

/// Missile collision radius: 1 world unit, in nano-units.
pub const MISSILE_COLLISION_SIZE: i64 = 1_000_000_000;

/// Missiles spawn 7.5 world units ahead of the ship, as a multiplier on the
/// facing.
pub const MISSILE_FORWARD_OFFSET: i64 = 7_500_000;

/// Opaque model handles for the rendering collaborator.
pub const SPACESHIP_MODEL: u64 = 2;

pub const MISSILE_MODEL: u64 = 3;

/// The steering intent: when both keys are held, left wins.
pub open spec fn steer_dir(input: InputState) -> int {
    if input.steer_left {
        1
    } else if input.steer_right {
        -1
    } else {
        0
    }
}

/// The thrust intent: forward wins over backward.
pub open spec fn thrust_mult(input: InputState) -> int {
    if input.thrust_forward {
        SPACESHIP_MOVEMENT_SPEED as int
    } else if input.thrust_backward {
        -SPACESHIP_MOVEMENT_SPEED as int
    } else {
        0
    }
}

/// The roll the ship snaps to while steering (the sign matches the steer
/// direction), before the heading-flip correction.
pub open spec fn roll_target(input: InputState) -> int {
    if input.steer_left {
        -SPACESHIP_ROLL_AMOUNT as int
    } else if input.steer_right {
        SPACESHIP_ROLL_AMOUNT as int
    } else {
        0
    }
}

/// Half a turn of extra roll when the facing's z component indicates the
/// model has inverted — a correction for the rendered orientation, not
/// physics.
pub open spec fn roll_flip(input: InputState) -> int {
    if input.ship_forward.z >= 0 {
        PI_NANO as int
    } else {
        0
    }
}

/// The ship after one frame of control: yaw advanced by the steer intent,
/// roll snapped to its target (with the heading-flip correction), and the
/// velocity overwritten with `-facing * thrust` — an overwrite, not an
/// accumulation: the ship keeps no inertia.
pub open spec fn ship_controlled(e: Entity, input: InputState, dt: int) -> Entity {
    Entity {
        transform: Transform {
            rotation: Vec3I {
                x: e.transform.rotation.x,
                y: ((e.transform.rotation.y + steer_dir(input) * (SPACESHIP_ROTATION_SPEED as int)
                    * dt) % (TAU_NANO as int)) as i64,
                z: ((roll_target(input) + roll_flip(input)) % (TAU_NANO as int)) as i64,
            },
            ..e.transform
        },
        velocity: Velocity {
            value: Vec3I {
                x: (-input.ship_forward.x * thrust_mult(input)) as i64,
                y: (-input.ship_forward.y * thrust_mult(input)) as i64,
                z: (-input.ship_forward.z * thrust_mult(input)) as i64,
            },
        },
        ..e
    }
}

/// Steering, roll and thrust, evaluated once per playing frame on the (at
/// most one) ship: exactly `ship_controlled` on it, and nothing else.
/// While paused, or with no ship alive, the world is untouched.
pub fn spaceship_movement_controls(world: &mut World, input: &InputState, dt_ms: i64)
    requires
        0 <= dt_ms <= MAX_DT_MS,
        coords_bounded(input.ship_forward, DIR_UNIT as int),
        forall|i: int|
            0 <= i < old(world).entities@.len() ==> 0 <= (#[trigger] old(
                world,
            ).entities@[i]).transform.rotation.y < TAU_NANO,
    ensures
        !old(world).game_state.is_playing ==> *final(world) == *old(world),
        old(world).game_state.is_playing ==> final(world).entities@.len() == old(
            world,
        ).entities@.len() && final(world).next_id == old(world).next_id && final(world).game_state
            == old(world).game_state && final(world).spawn_timer == old(world).spawn_timer,
        old(world).game_state.is_playing ==> match crate::world::ship_index_of(
            old(world).entities@,
        ) {
            Some(s) => final(world).entities@ == old(world).entities@.update(
                s,
                ship_controlled(old(world).entities@[s], *input, dt_ms as int),
            ),
            None => final(world).entities@ == old(world).entities@,
        },
{
    if !run_if_playing(world) {
        return ;
    }
    let s_opt = find_ship(world);
    match s_opt {
        None => {
            proof {
                crate::world::lemma_ship_index_none(old(world).entities@);
            }
        },
        Some(s) => {
            proof {
                crate::world::lemma_ship_index_first(old(world).entities@, s as int);
            }
            let steer: i64 = if input.steer_left {
                1
            } else if input.steer_right {
                -1
            } else {
                0
            };
            let thrust: i64 = if input.thrust_forward {
                SPACESHIP_MOVEMENT_SPEED
            } else if input.thrust_backward {
                -SPACESHIP_MOVEMENT_SPEED
            } else {
                0
            };
            let roll_base: i64 = if input.steer_left {
                -SPACESHIP_ROLL_AMOUNT
            } else if input.steer_right {
                SPACESHIP_ROLL_AMOUNT
            } else {
                0
            };
            let flip: i64 = if input.ship_forward.z >= 0 {
                PI_NANO
            } else {
                0
            };
            proof {
                assert(-2_000_000 <= steer * SPACESHIP_ROTATION_SPEED <= 2_000_000)
                    by (nonlinear_arith)
                    requires
                        -1 <= steer <= 1,
                        SPACESHIP_ROTATION_SPEED == 2_000_000,
                ;
                crate::math::lemma_mul_abs_bounds(
                    (steer * SPACESHIP_ROTATION_SPEED) as int,
                    dt_ms as int,
                    2_000_000,
                    MAX_DT_MS as int,
                );
                crate::math::lemma_mul_abs_bounds(
                    -input.ship_forward.x as int,
                    thrust as int,
                    DIR_UNIT as int,
                    SPACESHIP_MOVEMENT_SPEED as int,
                );
                crate::math::lemma_mul_abs_bounds(
                    -input.ship_forward.y as int,
                    thrust as int,
                    DIR_UNIT as int,
                    SPACESHIP_MOVEMENT_SPEED as int,
                );
                crate::math::lemma_mul_abs_bounds(
                    -input.ship_forward.z as int,
                    thrust as int,
                    DIR_UNIT as int,
                    SPACESHIP_MOVEMENT_SPEED as int,
                );
            }
            let yaw: i64 = add_angle(
                world.entities[s].transform.rotation.y,
                steer * SPACESHIP_ROTATION_SPEED * dt_ms,
            );
            let roll: i64 = add_angle(0, roll_base + flip);
            let vx: i64 = -input.ship_forward.x * thrust;
            let vy: i64 = -input.ship_forward.y * thrust;
            let vz: i64 = -input.ship_forward.z * thrust;
            let e = &mut world.entities[s];
            e.transform.rotation = Vec3I { x: e.transform.rotation.x, y: yaw, z: roll };
            e.velocity.value = Vec3I { x: vx, y: vy, z: vz };
            proof {
                assert(world.entities@ =~= old(world).entities@.update(
                    s as int,
                    ship_controlled(old(world).entities@[s as int], *input, dt_ms as int),
                ));
            }
        },
    }
}

/// What a freshly fired missile looks like, from the (already steered) ship
/// it left: placed 7.5 units ahead of the ship along its facing, carrying
/// the ship's orientation turned a quarter about its local x axis, flying at
/// `-facing * MISSILE_SPEED` with no acceleration.
pub open spec fn missile_spawn_ok(msl: Entity, ship: Entity, f: Vec3I, id: u64) -> bool {
    &&& msl.id == id
    &&& msl.role == Role::Missile
    &&& msl.transform.translation.x == ship.transform.translation.x - f.x * (
    MISSILE_FORWARD_OFFSET as int)
    &&& msl.transform.translation.y == ship.transform.translation.y - f.y * (
    MISSILE_FORWARD_OFFSET as int)
    &&& msl.transform.translation.z == ship.transform.translation.z - f.z * (
    MISSILE_FORWARD_OFFSET as int)
    &&& msl.transform.rotation.x == (ship.transform.rotation.x + HALF_PI_NANO as int) % (TAU_NANO
        as int)
    &&& msl.transform.rotation.y == ship.transform.rotation.y
    &&& msl.transform.rotation.z == ship.transform.rotation.z
    &&& msl.transform.scale_milli == 1_000
    &&& msl.velocity.value.x == -f.x * (MISSILE_SPEED as int)
    &&& msl.velocity.value.y == -f.y * (MISSILE_SPEED as int)
    &&& msl.velocity.value.z == -f.z * (MISSILE_SPEED as int)
    &&& msl.acceleration.value == (Vec3I { x: 0, y: 0, z: 0 })
    &&& msl.collider.radius == MISSILE_COLLISION_SIZE
    &&& msl.collider.colliding_entities@ == Seq::<u64>::empty()
    &&& msl.model == MISSILE_MODEL
}

/// Missile fire, evaluated once per playing frame: while the fire action is
/// held and a ship is alive, spawns one missile ahead of the ship (one per
/// frame: the weapon has no fire-rate limit, a known limitation). Returns
/// the new missile's id, if one spawned.
pub fn spaceship_weapon_controls(world: &mut World, input: &InputState) -> (spawned: Option<u64>)
    requires
        coords_bounded(input.ship_forward, DIR_UNIT as int),
        forall|i: int|
            0 <= i < old(world).entities@.len() ==> coords_bounded(
                (#[trigger] old(world).entities@[i]).transform.translation,
                POS_LIMIT as int,
            ) && 0 <= old(world).entities@[i].transform.rotation.x < TAU_NANO,
    ensures
        final(world).game_state == old(world).game_state,
        final(world).spawn_timer == old(world).spawn_timer,
        !(old(world).game_state.is_playing && input.fire && crate::world::ship_index_of(
            old(world).entities@,
        ).is_some() && old(world).next_id < u64::MAX) ==> *final(world) == *old(world) && spawned
            == None::<u64>,
        old(world).game_state.is_playing && input.fire && crate::world::ship_index_of(
            old(world).entities@,
        ).is_some() && old(world).next_id < u64::MAX ==> {
            &&& final(world).entities@.len() == old(world).entities@.len() + 1
            &&& final(world).entities@.subrange(0, old(world).entities@.len() as int) == old(
                world,
            ).entities@
            &&& missile_spawn_ok(
                final(world).entities@[old(world).entities@.len() as int],
                old(world).entities@[crate::world::ship_index_of(old(world).entities@).unwrap()],
                input.ship_forward,
                old(world).next_id,
            )
            &&& final(world).next_id == old(world).next_id + 1
            &&& spawned == Some(old(world).next_id)
        },
{
    if !run_if_playing(world) {
        return None;
    }
    if !input.fire {
        return None;
    }
    let s_opt = find_ship(world);
    match s_opt {
        None => {
            proof {
                crate::world::lemma_ship_index_none(old(world).entities@);
            }
            None
        },
        Some(s) => {
            proof {
                crate::world::lemma_ship_index_first(old(world).entities@, s as int);
            }
            if world.next_id == u64::MAX {
                return None;
            }
            proof {
                crate::math::lemma_mul_abs_bounds(
                    input.ship_forward.x as int,
                    MISSILE_FORWARD_OFFSET as int,
                    DIR_UNIT as int,
                    MISSILE_FORWARD_OFFSET as int,
                );
                crate::math::lemma_mul_abs_bounds(
                    input.ship_forward.y as int,
                    MISSILE_FORWARD_OFFSET as int,
                    DIR_UNIT as int,
                    MISSILE_FORWARD_OFFSET as int,
                );
                crate::math::lemma_mul_abs_bounds(
                    input.ship_forward.z as int,
                    MISSILE_FORWARD_OFFSET as int,
                    DIR_UNIT as int,
                    MISSILE_FORWARD_OFFSET as int,
                );
                crate::math::lemma_mul_abs_bounds(
                    -input.ship_forward.x as int,
                    MISSILE_SPEED as int,
                    DIR_UNIT as int,
                    MISSILE_SPEED as int,
                );
                crate::math::lemma_mul_abs_bounds(
                    -input.ship_forward.y as int,
                    MISSILE_SPEED as int,
                    DIR_UNIT as int,
                    MISSILE_SPEED as int,
                );
                crate::math::lemma_mul_abs_bounds(
                    -input.ship_forward.z as int,
                    MISSILE_SPEED as int,
                    DIR_UNIT as int,
                    MISSILE_SPEED as int,
                );
            }
            let ship_t: Transform = world.entities[s].transform;
            let id: u64 = world.next_id;
            let msl = Entity {
                id,
                role: Role::Missile,
                transform: Transform {
                    translation: Vec3I {
                        x: ship_t.translation.x - input.ship_forward.x * MISSILE_FORWARD_OFFSET,
                        y: ship_t.translation.y - input.ship_forward.y * MISSILE_FORWARD_OFFSET,
                        z: ship_t.translation.z - input.ship_forward.z * MISSILE_FORWARD_OFFSET,
                    },
                    rotation: Vec3I {
                        x: add_angle(ship_t.rotation.x, HALF_PI_NANO),
                        y: ship_t.rotation.y,
                        z: ship_t.rotation.z,
                    },
                    scale_milli: 1_000,
                },
                velocity: Velocity {
                    value: Vec3I {
                        x: -input.ship_forward.x * MISSILE_SPEED,
                        y: -input.ship_forward.y * MISSILE_SPEED,
                        z: -input.ship_forward.z * MISSILE_SPEED,
                    },
                },
                acceleration: Acceleration { value: Vec3I { x: 0, y: 0, z: 0 } },
                collider: Collider::new(MISSILE_COLLISION_SIZE),
                model: MISSILE_MODEL,
            };
            let n: usize = world.entities.len();
            world.entities.push(msl);
            world.next_id = world.next_id + 1;
            proof {
                assert(final(world).entities@.subrange(0, n as int) =~= old(world).entities@);
            }
            Some(id)
        },
    }
}

/// The startup spawn: exactly one ship at the origin, at rest, with zero
/// acceleration and the ship's collision radius.
pub fn spawn_spaceship(world: &mut World)
    requires
        forall|i: int|
            0 <= i < old(world).entities@.len() ==> (#[trigger] old(world).entities@[i]).role
                != Role::Spaceship,
        old(world).next_id < u64::MAX,
    ensures
        final(world).entities@.len() == old(world).entities@.len() + 1,
        final(world).entities@.subrange(0, old(world).entities@.len() as int) == old(
            world,
        ).entities@,
        spaceship_spawn_ok(
            final(world).entities@[old(world).entities@.len() as int],
            old(world).next_id,
        ),
        final(world).next_id == old(world).next_id + 1,
        final(world).game_state == old(world).game_state,
        final(world).spawn_timer == old(world).spawn_timer,
{
    let ship = Entity {
        id: world.next_id,
        role: Role::Spaceship,
        transform: Transform {
            translation: Vec3I { x: 0, y: 0, z: 0 },
            rotation: Vec3I { x: 0, y: 0, z: 0 },
            scale_milli: 1_000,
        },
        velocity: Velocity { value: Vec3I { x: 0, y: 0, z: 0 } },
        acceleration: Acceleration { value: Vec3I { x: 0, y: 0, z: 0 } },
        collider: Collider::new(SPACESHIP_COLLISION_SIZE),
        model: SPACESHIP_MODEL,
    };
    let n: usize = world.entities.len();
    world.entities.push(ship);
    world.next_id = world.next_id + 1;
    proof {
        assert(final(world).entities@.subrange(0, n as int) =~= old(world).entities@);
    }
}

/// The ship entity as spawned at startup.
pub open spec fn spaceship_spawn_ok(e: Entity, id: u64) -> bool {
    &&& e.id == id
    &&& e.role == Role::Spaceship
    &&& e.transform.translation == (Vec3I { x: 0, y: 0, z: 0 })
    &&& e.transform.rotation == (Vec3I { x: 0, y: 0, z: 0 })
    &&& e.transform.scale_milli == 1_000
    &&& e.velocity.value == (Vec3I { x: 0, y: 0, z: 0 })
    &&& e.acceleration.value == (Vec3I { x: 0, y: 0, z: 0 })
    &&& e.collider.radius == SPACESHIP_COLLISION_SIZE
    &&& e.collider.colliding_entities@ == Seq::<u64>::empty()
    &&& e.model == SPACESHIP_MODEL
}

/// Local playing test, shared by the two control systems.
fn run_if_playing(world: &World) -> (r: bool)
    ensures
        r == world.game_state.is_playing,
{
    crate::game_state::run_if_gamestate_is_playing(&world.game_state)
}

} // verus!
