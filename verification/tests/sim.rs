use asteroids_core::asteroid::SpawnTimer;
use asteroids_core::collision_detection::Collider;
use asteroids_core::game_state::GameState;
use asteroids_core::math::{add_angle, isqrt, Vec3I};
use asteroids_core::movement::{Acceleration, Velocity};
use asteroids_core::world::{Entity, InputState, Role, Transform, World};

const UNIT: i64 = 1_000_000_000;

fn vec3(x: i64, y: i64, z: i64) -> Vec3I {
    Vec3I { x, y, z }
}

fn entity(id: u64, role: Role, pos: Vec3I, vel: Vec3I, acc: Vec3I, radius: i64) -> Entity {
    Entity {
        id,
        role,
        transform: Transform { translation: pos, rotation: vec3(0, 0, 0), scale_milli: 1_000 },
        velocity: Velocity { value: vel },
        acceleration: Acceleration { value: acc },
        collider: Collider { radius, colliding_entities: Vec::new() },
        model: 1,
    }
}

fn world_of(entities: Vec<Entity>) -> World {
    let next_id = entities.iter().map(|e| e.id).max().map(|m| m + 1).unwrap_or(0);
    World {
        entities,
        next_id,
        game_state: GameState { is_playing: true },
        spawn_timer: SpawnTimer { elapsed_ms: 0 },
    }
}

fn idle_input() -> InputState {
    InputState {
        steer_left: false,
        steer_right: false,
        thrust_forward: false,
        thrust_backward: false,
        fire: false,
        pause_just_pressed: false,
        ship_forward: vec3(0, 0, -1_000),
    }
}

fn ids(world: &World) -> Vec<u64> {
    world.entities.iter().map(|e| e.id).collect()
}

#[test]
fn integration_semi_implicit_euler() {
    // constant acceleration 1 unit/s^2 along x (1000 nano-units/ms^2 at the
    // fixed-point scale), initial velocity 1 unit/s (1_000_000 nano-units/ms)
    let a = entity(
        0,
        Role::Asteroid,
        vec3(0, 0, 0),
        vec3(1_000_000, 0, 0),
        vec3(1_000, 0, 0),
        UNIT,
    );
    let mut w = world_of(vec![a]);
    let input = idle_input();
    let dt: i64 = 100;
    let n: i64 = 3;
    for _ in 0..n {
        asteroids_core::schedules::tick(&mut w, &input, dt);
    }
    // velocity after n frames: v0 + a*dt*n
    assert_eq!(w.entities[0].velocity.value.x, 1_000_000 + 1_000 * dt * n);
    // position: the sum of the post-update velocities, times dt
    let expected_pos: i64 = (1..=n).map(|k| (1_000_000 + 1_000 * dt * k) * dt).sum();
    assert_eq!(w.entities[0].transform.translation.x, expected_pos);
    assert_eq!(expected_pos, 360_000_000);
}

#[test]
fn collision_symmetry_and_no_self_collision() {
    // a and b overlap (distance 1 unit, radii 2 + 1); c is far away
    let a = entity(0, Role::Asteroid, vec3(0, 0, 0), vec3(0, 0, 0), vec3(0, 0, 0), 2 * UNIT);
    let b = entity(1, Role::Asteroid, vec3(UNIT, 0, 0), vec3(0, 0, 0), vec3(0, 0, 0), UNIT);
    let c = entity(2, Role::Asteroid, vec3(50 * UNIT, 0, 0), vec3(0, 0, 0), vec3(0, 0, 0), UNIT);
    let mut w = world_of(vec![a, b, c]);
    let input = idle_input();
    asteroids_core::schedules::tick(&mut w, &input, 0);
    let la = &w.entities[0].collider.colliding_entities;
    let lb = &w.entities[1].collider.colliding_entities;
    let lc = &w.entities[2].collider.colliding_entities;
    assert!(la.contains(&1) == lb.contains(&0));
    assert!(la.contains(&1));
    assert!(!la.contains(&2) && !lc.contains(&0));
    assert!(!la.contains(&0) && !lb.contains(&1) && !lc.contains(&2));
}

#[test]
fn collision_boundary_is_inclusive() {
    // distance exactly equal to the radius sum counts as an overlap
    let a = entity(0, Role::Asteroid, vec3(0, 0, 0), vec3(0, 0, 0), vec3(0, 0, 0), 2 * UNIT);
    let b = entity(1, Role::Spaceship, vec3(3 * UNIT, 0, 0), vec3(0, 0, 0), vec3(0, 0, 0), UNIT);
    let mut w = world_of(vec![a, b]);
    let input = idle_input();
    asteroids_core::schedules::tick(&mut w, &input, 0);
    assert!(w.entities[0].collider.colliding_entities.contains(&1));
    assert!(w.entities[1].collider.colliding_entities.contains(&0));
}

#[test]
fn resolution_one_asteroid_two_missiles() {
    // the asteroid overlaps both missiles; only the first by overlap-list
    // order (entity order) goes with it, the second survives
    let a = entity(0, Role::Asteroid, vec3(0, 0, 0), vec3(0, 0, 0), vec3(0, 0, 0), 2 * UNIT);
    let m1 = entity(1, Role::Missile, vec3(2 * UNIT, 0, 0), vec3(0, 0, 0), vec3(0, 0, 0), UNIT);
    let m2 = entity(2, Role::Missile, vec3(-2 * UNIT, 0, 0), vec3(0, 0, 0), vec3(0, 0, 0), UNIT);
    let mut w = world_of(vec![a, m1, m2]);
    let input = idle_input();
    let out = asteroids_core::schedules::tick(&mut w, &input, 0);
    assert_eq!(ids(&w), vec![2]);
    assert!(out.despawned.contains(&0));
    assert!(out.despawned.contains(&1));
    assert!(!out.despawned.contains(&2));
}

#[test]
fn missile_double_removal_guard() {
    // one missile overlapping two asteroids: both asteroids go, the missile
    // is requested exactly once
    let a1 = entity(0, Role::Asteroid, vec3(0, 0, 0), vec3(0, 0, 0), vec3(0, 0, 0), 2 * UNIT);
    let a2 = entity(1, Role::Asteroid, vec3(3 * UNIT, 0, 0), vec3(0, 0, 0), vec3(0, 0, 0), 2 * UNIT);
    let m = entity(2, Role::Missile, vec3(UNIT + UNIT / 2, 0, 0), vec3(0, 0, 0), vec3(0, 0, 0), UNIT);
    let mut w = world_of(vec![a1, a2, m]);
    let input = idle_input();
    let out = asteroids_core::schedules::tick(&mut w, &input, 0);
    assert!(w.entities.is_empty());
    assert!(out.despawned.contains(&0));
    assert!(out.despawned.contains(&1));
    assert_eq!(out.despawned.iter().filter(|&&id| id == 2).count(), 1);
    // no identifier is requested twice
    for i in 0..out.despawned.len() {
        for j in (i + 1)..out.despawned.len() {
            assert_ne!(out.despawned[i], out.despawned[j]);
        }
    }
}

#[test]
fn pause_gating_freezes_kinematics_and_timer() {
    let a = entity(5, Role::Asteroid, vec3(UNIT, 0, 0), vec3(1_000_000, 0, 0), vec3(500, 0, 0), UNIT);
    let mut w = world_of(vec![a]);
    let mut input = idle_input();
    input.pause_just_pressed = true;
    let out = asteroids_core::schedules::tick(&mut w, &input, 10_000);
    assert!(!w.game_state.is_playing);
    assert_eq!(w.entities[0].transform.translation.x, UNIT);
    assert_eq!(w.entities[0].velocity.value.x, 1_000_000);
    assert_eq!(w.spawn_timer.elapsed_ms, 0);
    assert_eq!(w.entities.len(), 1);
    assert!(out.spawned.is_empty());
    // held (not newly pressed) pause input does not resume
    input.pause_just_pressed = false;
    asteroids_core::schedules::tick(&mut w, &input, 10_000);
    assert!(!w.game_state.is_playing);
    assert_eq!(w.entities[0].transform.translation.x, UNIT);
    // a second rising edge resumes, and time advances again
    input.pause_just_pressed = true;
    asteroids_core::schedules::tick(&mut w, &input, 100);
    assert!(w.game_state.is_playing);
    assert_ne!(w.entities[0].transform.translation.x, UNIT);
}

#[test]
fn bounds_cleanup_despawns_far_entities_even_paused() {
    let far = entity(0, Role::Asteroid, vec3(150 * UNIT, 0, 0), vec3(0, 0, 0), vec3(0, 0, 0), UNIT);
    let near = entity(1, Role::Asteroid, vec3(50 * UNIT, 0, 0), vec3(0, 0, 0), vec3(0, 0, 0), UNIT);
    let mut w = world_of(vec![far, near]);
    w.game_state.is_playing = false;
    let input = idle_input();
    let out = asteroids_core::schedules::tick(&mut w, &input, 0);
    assert_eq!(ids(&w), vec![1]);
    assert_eq!(out.despawned, vec![0]);
}

#[test]
fn bounds_cleanup_despawns_far_entities_while_playing() {
    let far = entity(0, Role::Spaceship, vec3(0, 150 * UNIT, 0), vec3(0, 0, 0), vec3(0, 0, 0), UNIT);
    let near = entity(1, Role::Asteroid, vec3(0, 0, 50 * UNIT), vec3(0, 0, 0), vec3(0, 0, 0), UNIT);
    let mut w = world_of(vec![far, near]);
    let input = idle_input();
    let out = asteroids_core::schedules::tick(&mut w, &input, 0);
    assert_eq!(ids(&w), vec![1]);
    assert_eq!(out.despawned, vec![0]);
}

#[test]
fn spawn_timer_boundary() {
    let mut w = World::new();
    let input = idle_input();
    // 300 ms of accumulated time: under the 600 ms period, no asteroid yet
    let out1 = asteroids_core::schedules::tick(&mut w, &input, 300);
    assert_eq!(w.entities.len(), 1);
    assert!(out1.spawned.is_empty());
    assert_eq!(w.spawn_timer.elapsed_ms, 300);
    // the boundary: exactly one asteroid spawns, and the timer resets
    let out2 = asteroids_core::schedules::tick(&mut w, &input, 300);
    assert_eq!(w.entities.len(), 2);
    assert_eq!(out2.spawned.len(), 1);
    assert_eq!(w.spawn_timer.elapsed_ms, 0);
    // no second spawn until another full period has elapsed
    let out3 = asteroids_core::schedules::tick(&mut w, &input, 300);
    assert_eq!(w.entities.len(), 2);
    assert!(out3.spawned.is_empty());
    let out4 = asteroids_core::schedules::tick(&mut w, &input, 300);
    assert_eq!(w.entities.len(), 3);
    assert_eq!(out4.spawned.len(), 1);
}

#[test]
fn spawned_asteroid_fields_are_in_range() {
    let mut w = World::new();
    w.spawn_timer.elapsed_ms = 599;
    let input = idle_input();
    // one millisecond reaches the period boundary; the new asteroid then
    // moves by at most 0.005 units in its spawn frame
    asteroids_core::schedules::tick(&mut w, &input, 1);
    assert_eq!(w.entities.len(), 2);
    let a = &w.entities[1];
    assert_eq!(a.role, Role::Asteroid);
    let slack: i64 = 10_000_000;
    let t = a.transform.translation;
    assert!(-25 * UNIT - slack <= t.x && t.x < 25 * UNIT + slack);
    assert_eq!(t.y, 0);
    assert!(-slack <= t.z && t.z < 25 * UNIT + slack);
    assert!(1_000_000_000 <= a.collider.radius && a.collider.radius < 3_000_000_000);
    assert_eq!(a.collider.radius, a.transform.scale_milli * 2_000_000);
    // velocity: a random planar direction times 5 units/s, so its largest
    // component is well away from zero; a wrapper echoing its input back
    // could not produce this. The integrator has already run once in the
    // spawn frame, adding up to one millisecond of acceleration (at most
    // 1_000 per coordinate) on top of the spawn velocity.
    let v = a.velocity.value;
    assert_eq!(v.y, 0);
    assert!(v.x.abs() <= 5_001_000 && v.z.abs() <= 5_001_000);
    assert!(v.x.abs().max(v.z.abs()) >= 2_000_000);
    let acc = a.acceleration.value;
    assert_eq!(acc.y, 0);
    assert!(acc.x.abs() <= 1_000 && acc.z.abs() <= 1_000);
    assert!(acc.x.abs().max(acc.z.abs()) >= 400);
    let r = a.transform.rotation;
    assert!(0 <= r.x && r.x < 6_283_185_307);
    assert!(0 <= r.y && r.y < 6_283_185_307);
    assert!(0 <= r.z && r.z < 6_283_185_307);
}

#[test]
fn ship_movement_controls() {
    let mut w = World::new();
    let mut input = idle_input();
    input.steer_left = true;
    input.thrust_forward = true;
    let out = asteroids_core::schedules::tick(&mut w, &input, 100);
    assert!(out.spawned.is_empty());
    let ship = &w.entities[0];
    // yaw: +2 rad/s for 100 ms
    assert_eq!(ship.transform.rotation.y, 200_000_000);
    // roll: snapped to -tau/16, normalised; the facing's z is negative, so
    // no heading flip
    assert_eq!(ship.transform.rotation.z, 6_283_185_307 - 392_699_081);
    // velocity overwritten with -facing * 20 units/s, then integrated
    assert_eq!(ship.velocity.value.z, 20_000_000);
    assert_eq!(ship.transform.translation.z, 20_000_000 * 100);
    // opposite inputs: left and forward win over right and backward
    input.steer_right = true;
    input.thrust_backward = true;
    let yaw_before = w.entities[0].transform.rotation.y;
    asteroids_core::schedules::tick(&mut w, &input, 100);
    assert_eq!(w.entities[0].transform.rotation.y, yaw_before + 200_000_000);
    assert_eq!(w.entities[0].velocity.value.z, 20_000_000);
}

#[test]
fn ship_stops_without_thrust() {
    let mut w = World::new();
    let mut input = idle_input();
    input.thrust_forward = true;
    asteroids_core::schedules::tick(&mut w, &input, 100);
    assert_eq!(w.entities[0].velocity.value.z, 20_000_000);
    input.thrust_forward = false;
    asteroids_core::schedules::tick(&mut w, &input, 100);
    // velocity is overwritten, not accumulated: no thrust means full stop
    assert_eq!(w.entities[0].velocity.value.z, 0);
}

#[test]
fn heading_flip_applies_roll_correction() {
    let mut w = World::new();
    let mut input = idle_input();
    input.ship_forward = vec3(0, 0, 1_000);
    asteroids_core::schedules::tick(&mut w, &input, 0);
    // facing z >= 0: half a turn of roll is added
    assert_eq!(w.entities[0].transform.rotation.z, 3_141_592_653);
}

#[test]
fn weapon_controls_spawn_missile() {
    let mut w = World::new();
    let mut input = idle_input();
    input.fire = true;
    let out = asteroids_core::schedules::tick(&mut w, &input, 0);
    assert_eq!(w.entities.len(), 2);
    assert_eq!(out.spawned, vec![1]);
    let msl = &w.entities[1];
    assert_eq!(msl.role, Role::Missile);
    // 7.5 units ahead of the ship along its facing
    assert_eq!(msl.transform.translation.z, 7_500_000_000);
    assert_eq!(msl.velocity.value.z, 50_000_000);
    assert_eq!(msl.acceleration.value, vec3(0, 0, 0));
    assert_eq!(msl.collider.radius, 1_000_000_000);
    // a quarter turn about the local x axis
    assert_eq!(msl.transform.rotation.x, 1_570_796_327);
    // no fire-rate limit: holding fire spawns one per frame
    let out2 = asteroids_core::schedules::tick(&mut w, &input, 0);
    assert_eq!(out2.spawned, vec![2]);
    assert_eq!(w.entities.len(), 3);
}

#[test]
fn no_fire_while_paused() {
    let mut w = World::new();
    let mut input = idle_input();
    input.fire = true;
    input.pause_just_pressed = true;
    let out = asteroids_core::schedules::tick(&mut w, &input, 0);
    assert!(out.spawned.is_empty());
    assert_eq!(w.entities.len(), 1);
}

#[test]
fn startup_world_holds_one_ship_at_origin() {
    let w = World::new();
    assert!(w.game_state.is_playing);
    assert_eq!(w.entities.len(), 1);
    let ship = &w.entities[0];
    assert_eq!(ship.role, Role::Spaceship);
    assert_eq!(ship.transform.translation, vec3(0, 0, 0));
    assert_eq!(ship.velocity.value, vec3(0, 0, 0));
    assert_eq!(ship.acceleration.value, vec3(0, 0, 0));
    assert_eq!(ship.collider.radius, 5_000_000_000);
}

#[test]
fn random_direction_has_unit_scale() {
    for _ in 0..50 {
        let d = asteroids_core::random::direction_2d();
        assert_eq!(d.y, 0);
        assert!(d.x.abs() <= 1_000 && d.z.abs() <= 1_000);
        let n = d.x * d.x + d.z * d.z;
        assert!(500_000 <= n && n <= 2_000_000);
    }
}

#[test]
fn random_rotation_in_range() {
    for _ in 0..50 {
        let r = asteroids_core::random::rotation();
        assert!(0 <= r.x && r.x < 6_283_185_307);
        assert!(0 <= r.y && r.y < 6_283_185_307);
        assert!(0 <= r.z && r.z < 6_283_185_307);
    }
}

#[test]
fn math_isqrt_and_angles() {
    assert_eq!(isqrt(0), 0);
    assert_eq!(isqrt(3), 1);
    assert_eq!(isqrt(4), 2);
    assert_eq!(isqrt(2_000_000), 1_414);
    assert_eq!(add_angle(0, -392_699_081), 6_283_185_307 - 392_699_081);
    assert_eq!(add_angle(6_000_000_000, 500_000_000), 216_814_693);
    assert_eq!(add_angle(0, 0), 0);
}

#[test]
fn despawn_request_for_unknown_id_is_noop() {
    let a = entity(0, Role::Asteroid, vec3(0, 0, 0), vec3(0, 0, 0), vec3(0, 0, 0), UNIT);
    let mut w = world_of(vec![a]);
    let pending: Vec<u64> = vec![999, 999];
    asteroids_core::despawner::apply_despawns(&mut w, &pending);
    assert_eq!(ids(&w), vec![0]);
}
