//! The frame scheduler: one simulated frame is one ordered pass through
//! input/pause handling, ship control and spawning, motion integration,
//! collision detection, collision resolution and bounds cleanup, with all
//! despawn requests collected and applied once at the end of the frame. The
//! order is a contract, not an accident: spawned entities move in the frame
//! they appear, resolution reads the overlap lists of the very same frame,
//! and no phase ever observes a partially despawned store.
use vstd::prelude::*;
use crate::asteroid::{
    asteroid_spawn_ok, no_dups, resolve_spec, spawn_asteroid, SPAWN_PERIOD_MS,
};
use crate::collision_detection::{
    collide_list, collision_detection, eq_but_colliding, lemma_collide_list_same_shape,
    same_shape, shape_bounded,
};
use crate::asteroid::remove_on_missile_collision;
use crate::despawner::{
    apply_despawns, bounds_extend, filter_alive, in_bounds, lemma_bounds_extend_contains,
    lemma_bounds_extend_no_dups, lemma_filter_alive_elements, lemma_filter_alive_one_ship,
    lemma_filter_alive_sorted, lemma_in_bounds_coords, off_screen_despawner,
};
use crate::game_state::{pause_controls, run_if_gamestate_is_playing};
use crate::math::{coords_bounded, Vec3I, DIR_UNIT, TAU_NANO};
use crate::movement::{
    stepped_position, stepped_velocity, update_position, update_velocity, with_translation,
    with_velocity,
};
use crate::spaceship::{
    missile_spawn_ok, ship_controlled, spaceship_movement_controls, spaceship_weapon_controls,
};
use crate::world::{
    at_most_one_ship, entity_inv, ship_index_of, wf, Entity, InputState, World,
    ACC_LIMIT, MAX_DT_MS, POS_LIMIT, POS_MOVED_LIMIT, RADIUS_LIMIT, VEL_LIMIT,
};

verus! {

/// The phases of one frame, in their fixed execution order.
#[derive(Clone, Copy, PartialEq, Eq, Structural, Debug, Hash)]
pub enum InGameSet {
    UserInput,
    EntitySpawning,
    EntityUpdates,
    CollisionDetection,
    DespawnEntities,
}

/// The position of a phase in the frame's order.
pub open spec fn phase_rank(s: InGameSet) -> int {
    match s {
        InGameSet::UserInput => 0,
        InGameSet::EntitySpawning => 1,
        InGameSet::EntityUpdates => 2,
        InGameSet::CollisionDetection => 3,
        InGameSet::DespawnEntities => 4,
    }
}

/// What one frame reports to the rendering collaborator: the ids of the
/// entities spawned this frame (their full records stand in the world), and
/// the deduplicated despawn requests that were applied at the frame's end.
#[derive(Debug)]
pub struct FrameOutput {
    pub spawned: Vec<u64>,
    pub despawned: Vec<u64>,
}

/// One semi-implicit Euler step of a single entity: velocity first, then
/// position from the updated velocity.
pub open spec fn euler_step(o: Entity, dt: int) -> Entity {
    let ov = with_velocity(o, stepped_velocity(o, dt));
    with_translation(ov, stepped_position(ov, dt))
}

/// Entity `i` of the mid-frame snapshot is `o` integrated and given its
/// freshly recomputed overlap list.
pub open spec fn processed_plain(o: Entity, mid: Seq<Entity>, i: int, dt: int) -> bool {
    &&& 0 <= i < mid.len()
    &&& eq_but_colliding(euler_step(o, dt), mid[i])
    &&& mid[i].collider.colliding_entities@ == collide_list(mid, i)
}

/// A missile fires this frame: the action is held, a ship is alive and an
/// identifier is left.
pub open spec fn frame_fire_ok(w: World, input: InputState) -> bool {
    input.fire && ship_index_of(w.entities@).is_some() && w.next_id < u64::MAX
}

/// The identifier allocator after the weapon phase.
pub open spec fn frame_nid2(w: World, input: InputState) -> u64 {
    if frame_fire_ok(w, input) {
        (w.next_id + 1) as u64
    } else {
        w.next_id
    }
}

/// The spawn timer fires this frame.
pub open spec fn frame_fired(w: World, dt: int) -> bool {
    w.spawn_timer.elapsed_ms + dt >= SPAWN_PERIOD_MS
}

/// An asteroid spawns this frame.
pub open spec fn frame_spawn_ok(w: World, input: InputState, dt: int) -> bool {
    frame_fired(w, dt) && frame_nid2(w, input) < u64::MAX
}

/// The ids spawned by a playing frame, in spawn order (missile first).
pub open spec fn frame_spawned_ids(w: World, input: InputState, dt: int) -> Seq<u64> {
    (if frame_fire_ok(w, input) {
        seq![w.next_id]
    } else {
        Seq::<u64>::empty()
    }) + (if frame_spawn_ok(w, input, dt) {
        seq![frame_nid2(w, input)]
    } else {
        Seq::<u64>::empty()
    })
}

/// The identifier allocator after a playing frame.
pub open spec fn frame_next_id(w: World, input: InputState, dt: int) -> u64 {
    if frame_spawn_ok(w, input, dt) {
        (frame_nid2(w, input) + 1) as u64
    } else {
        frame_nid2(w, input)
    }
}

/// The mid-frame snapshot of a playing frame, taken between collision
/// detection and resolution: every pre-frame entity steered (the ship) and
/// integrated, plus the missile and the asteroid the frame spawned (also
/// integrated), each with the overlap list of the snapshot itself.
pub open spec fn playing_frame_rel(w: World, mid: Seq<Entity>, input: InputState, dt: int) -> bool {
    let es = w.entities@;
    let n = es.len() as int;
    let fire_ok = frame_fire_ok(w, input);
    let spawn_ok = frame_spawn_ok(w, input, dt);
    &&& mid.len() == n + (if fire_ok {
        1int
    } else {
        0int
    }) + (if spawn_ok {
        1int
    } else {
        0int
    })
    &&& (forall|i: int|
        0 <= i < n && ship_index_of(es) != Some(i) ==> processed_plain(es[i], mid, i, dt))
    &&& (match ship_index_of(es) {
        Some(s) => processed_plain(ship_controlled(es[s], input, dt), mid, s, dt),
        None => true,
    })
    &&& (fire_ok ==> exists|m0: Entity|
        #[trigger] missile_spawn_ok(
            m0,
            ship_controlled(es[ship_index_of(es).unwrap()], input, dt),
            input.ship_forward,
            w.next_id,
        ) && processed_plain(m0, mid, n, dt))
    &&& (spawn_ok ==> exists|a0: Entity|
        #[trigger] asteroid_spawn_ok(a0, frame_nid2(w, input)) && processed_plain(
            a0,
            mid,
            mid.len() - 1,
            dt,
        ))
}

/// The mid-frame snapshot of a paused frame: the same entities, untouched
/// but for their recomputed overlap lists.
pub open spec fn paused_frame_rel(es: Seq<Entity>, mid: Seq<Entity>) -> bool {
    &&& mid.len() == es.len()
    &&& forall|i: int|
        0 <= i < es.len() ==> eq_but_colliding(#[trigger] es[i], mid[i])
            && mid[i].collider.colliding_entities@ == collide_list(mid, i)
}


/// The bounds every entity meets when the integrator runs.
pub open spec fn pre_motion_ok(e: Entity) -> bool {
    &&& coords_bounded(e.velocity.value, VEL_LIMIT as int)
    &&& coords_bounded(e.acceleration.value, ACC_LIMIT as int)
    &&& coords_bounded(e.transform.translation, 2 * (POS_LIMIT as int))
    &&& 0 <= e.collider.radius <= RADIUS_LIMIT
    &&& 0 <= e.transform.rotation.x < TAU_NANO
    &&& 0 <= e.transform.rotation.y < TAU_NANO
    &&& 0 <= e.transform.rotation.z < TAU_NANO
}

proof fn lemma_entity_inv_pre_motion(e: Entity)
    requires
        entity_inv(e),
    ensures
        pre_motion_ok(e),
{
}

proof fn lemma_controlled_pre_motion(e: Entity, input: InputState, dt: int)
    requires
        entity_inv(e),
        coords_bounded(input.ship_forward, DIR_UNIT as int),
        0 <= dt <= MAX_DT_MS,
    ensures
        pre_motion_ok(ship_controlled(e, input, dt)),
        ship_controlled(e, input, dt).role == e.role,
        ship_controlled(e, input, dt).id == e.id,
        coords_bounded(ship_controlled(e, input, dt).transform.translation, POS_LIMIT as int),
{
    crate::math::lemma_mul_abs_bounds(
        -input.ship_forward.x as int,
        crate::spaceship::thrust_mult(input),
        DIR_UNIT as int,
        crate::spaceship::SPACESHIP_MOVEMENT_SPEED as int,
    );
    crate::math::lemma_mul_abs_bounds(
        -input.ship_forward.y as int,
        crate::spaceship::thrust_mult(input),
        DIR_UNIT as int,
        crate::spaceship::SPACESHIP_MOVEMENT_SPEED as int,
    );
    crate::math::lemma_mul_abs_bounds(
        -input.ship_forward.z as int,
        crate::spaceship::thrust_mult(input),
        DIR_UNIT as int,
        crate::spaceship::SPACESHIP_MOVEMENT_SPEED as int,
    );
    vstd::arithmetic::div_mod::lemma_mod_bound(
        e.transform.rotation.y + crate::spaceship::steer_dir(input) * (
        crate::spaceship::SPACESHIP_ROTATION_SPEED as int) * dt,
        TAU_NANO as int,
    );
    vstd::arithmetic::div_mod::lemma_mod_bound(
        crate::spaceship::roll_target(input) + crate::spaceship::roll_flip(input),
        TAU_NANO as int,
    );
}

proof fn lemma_missile_pre_motion(m: Entity, c: Entity, f: Vec3I, id: u64)
    requires
        missile_spawn_ok(m, c, f, id),
        coords_bounded(c.transform.translation, POS_LIMIT as int),
        0 <= c.transform.rotation.y < TAU_NANO,
        0 <= c.transform.rotation.z < TAU_NANO,
        coords_bounded(f, DIR_UNIT as int),
    ensures
        pre_motion_ok(m),
{
    crate::math::lemma_mul_abs_bounds(
        f.x as int,
        crate::spaceship::MISSILE_FORWARD_OFFSET as int,
        DIR_UNIT as int,
        crate::spaceship::MISSILE_FORWARD_OFFSET as int,
    );
    crate::math::lemma_mul_abs_bounds(
        f.y as int,
        crate::spaceship::MISSILE_FORWARD_OFFSET as int,
        DIR_UNIT as int,
        crate::spaceship::MISSILE_FORWARD_OFFSET as int,
    );
    crate::math::lemma_mul_abs_bounds(
        f.z as int,
        crate::spaceship::MISSILE_FORWARD_OFFSET as int,
        DIR_UNIT as int,
        crate::spaceship::MISSILE_FORWARD_OFFSET as int,
    );
    crate::math::lemma_mul_abs_bounds(
        -f.x as int,
        crate::spaceship::MISSILE_SPEED as int,
        DIR_UNIT as int,
        crate::spaceship::MISSILE_SPEED as int,
    );
    crate::math::lemma_mul_abs_bounds(
        -f.y as int,
        crate::spaceship::MISSILE_SPEED as int,
        DIR_UNIT as int,
        crate::spaceship::MISSILE_SPEED as int,
    );
    crate::math::lemma_mul_abs_bounds(
        -f.z as int,
        crate::spaceship::MISSILE_SPEED as int,
        DIR_UNIT as int,
        crate::spaceship::MISSILE_SPEED as int,
    );
    vstd::arithmetic::div_mod::lemma_mod_bound(
        c.transform.rotation.x + crate::math::HALF_PI_NANO as int,
        TAU_NANO as int,
    );
}

proof fn lemma_asteroid_pre_motion(a: Entity, id: u64)
    requires
        asteroid_spawn_ok(a, id),
    ensures
        pre_motion_ok(a),
{
    assert(0 <= a.transform.scale_milli * 2_000_000 <= 3_000_000_000) by (nonlinear_arith)
        requires
            500 <= a.transform.scale_milli < 1_500,
    ;
    assert(a.collider.radius == a.transform.scale_milli * 2_000_000);
}

/// One Euler step keeps everything but the kinematic state, and keeps the
/// kinematic state within its limits.
proof fn lemma_euler_preserves(o: Entity, dt: int)
    requires
        pre_motion_ok(o),
        0 <= dt <= MAX_DT_MS,
    ensures
        euler_step(o, dt).id == o.id,
        euler_step(o, dt).role == o.role,
        euler_step(o, dt).acceleration == o.acceleration,
        euler_step(o, dt).collider == o.collider,
        euler_step(o, dt).model == o.model,
        euler_step(o, dt).transform.rotation == o.transform.rotation,
        euler_step(o, dt).transform.scale_milli == o.transform.scale_milli,
        coords_bounded(euler_step(o, dt).velocity.value, VEL_LIMIT as int),
        coords_bounded(euler_step(o, dt).transform.translation, POS_MOVED_LIMIT as int),
{
    let sv = stepped_velocity(o, dt);
    let ov = with_velocity(o, sv);
    crate::math::lemma_mul_abs_bounds(sv.x as int, dt, VEL_LIMIT as int, MAX_DT_MS as int);
    crate::math::lemma_mul_abs_bounds(sv.y as int, dt, VEL_LIMIT as int, MAX_DT_MS as int);
    crate::math::lemma_mul_abs_bounds(sv.z as int, dt, VEL_LIMIT as int, MAX_DT_MS as int);
}

/// One simulated frame. Runs the phases in their contractual order (pause
/// toggle, ship control and weapon fire, asteroid spawning, velocity then
/// position integration, collision detection, collision resolution, bounds
/// cleanup) and applies all collected despawn requests in one pass at the
/// end, so no phase observes a partially mutated store and no identifier is
/// despawned twice. Returns the frame's spawn and despawn requests for the
/// rendering collaborator.
///
/// While paused, the entities' kinematic state, the spawn timer and the
/// identifier allocator are untouched: only the overlap lists are
/// recomputed, and the bounds cleanup still runs.
#[verifier::rlimit(100)]
pub fn tick(world: &mut World, input: &InputState, dt_ms: i64) -> (out: FrameOutput)
    requires
        wf(*old(world)),
        0 <= dt_ms <= MAX_DT_MS,
        coords_bounded(input.ship_forward, DIR_UNIT as int),
    ensures
        wf(*final(world)),
        final(world).game_state.is_playing == (old(world).game_state.is_playing
            != input.pause_just_pressed),
        no_dups(out.despawned@),
        !final(world).game_state.is_playing ==> {
            &&& final(world).spawn_timer == old(world).spawn_timer
            &&& final(world).next_id == old(world).next_id
            &&& out.spawned@ == Seq::<u64>::empty()
            &&& exists|mid: Seq<Entity>|
                #[trigger] paused_frame_rel(old(world).entities@, mid) && out.despawned@
                    == bounds_extend(mid, 0, Seq::empty()) && final(world).entities@
                    == filter_alive(mid, out.despawned@)
        },
        final(world).game_state.is_playing ==> {
            &&& final(world).spawn_timer.elapsed_ms == (old(world).spawn_timer.elapsed_ms + dt_ms)
                % (SPAWN_PERIOD_MS as int)
            &&& out.spawned@ == frame_spawned_ids(*old(world), *input, dt_ms as int)
            &&& final(world).next_id == frame_next_id(*old(world), *input, dt_ms as int)
            &&& exists|mid: Seq<Entity>|
                #[trigger] playing_frame_rel(*old(world), mid, *input, dt_ms as int)
                    && out.despawned@ == bounds_extend(mid, 0, resolve_spec(mid))
                    && final(world).entities@ == filter_alive(mid, out.despawned@)
        },
{
    let ghost es0 = old(world).entities@;
    let ghost n0 = es0.len() as int;
    let ghost dt = dt_ms as int;
    let ghost sidx = ship_index_of(es0);
    let ghost fire_ok = frame_fire_ok(*old(world), *input);
    let ghost spawn_ok = frame_spawn_ok(*old(world), *input, dt);
    let ghost nid2 = frame_nid2(*old(world), *input);
    let ghost mut es3 = es0;
    pause_controls(&mut world.game_state, input.pause_just_pressed);
    let playing: bool = run_if_gamestate_is_playing(&world.game_state);
    let mut spawned_ids: Vec<u64> = Vec::new();
    if playing {
        proof {
            crate::world::lemma_ship_index_props(es0);
            assert forall|i: int|
                0 <= i < world.entities@.len() implies 0 <= (#[trigger] world.entities@[i]).transform.rotation.y
                < TAU_NANO by {
                assert(entity_inv(es0[i]));
            }
        }
        spaceship_movement_controls(world, input, dt_ms);
        let ghost es1 = world.entities@;
        proof {
            assert(es1.len() == n0);
            assert forall|k: int| 0 <= k < n0 implies (#[trigger] es0[k]).role == es1[k].role by {
                if sidx == Some(k) {
                    assert(es1[k] == ship_controlled(es0[k], *input, dt));
                }
            }
            crate::world::lemma_ship_index_same_roles(es0, es1, 0);
            assert(ship_index_of(es1) == sidx);
            assert forall|i: int|
                0 <= i < n0 implies coords_bounded(
                (#[trigger] es1[i]).transform.translation,
                POS_LIMIT as int,
            ) && 0 <= es1[i].transform.rotation.x < TAU_NANO by {
                assert(entity_inv(es0[i]));
                if sidx == Some(i) {
                    assert(es1[i] == ship_controlled(es0[i], *input, dt));
                }
            }
        }
        let missile_id: Option<u64> = spaceship_weapon_controls(world, input);
        let ghost es2 = world.entities@;
        proof {
            if fire_ok {
                assert(es2.subrange(0, n0) == es1);
                assert forall|k: int| 0 <= k < n0 implies #[trigger] es2[k] == es1[k] by {
                    assert(es2.subrange(0, n0)[k] == es2[k]);
                }
            } else {
                assert(es2 == es1);
            }
            assert(world.next_id == nid2);
            assert(world.spawn_timer == old(world).spawn_timer);
        }
        match missile_id {
            Some(id) => {
                spawned_ids.push(id);
            },
            None => {},
        }
        let asteroid_id: Option<u64> = spawn_asteroid(world, dt_ms);
        proof {
            es3 = world.entities@;
            if spawn_ok {
                assert(es3.subrange(0, es2.len() as int) == es2);
                assert forall|k: int| 0 <= k < es2.len() implies #[trigger] es3[k] == es2[k] by {
                    assert(es3.subrange(0, es2.len() as int)[k] == es3[k]);
                }
                assert(asteroid_spawn_ok(es3[es3.len() - 1], nid2));
            } else {
                assert(es3 == es2);
            }
            assert(world.next_id == frame_next_id(*old(world), *input, dt));
        }
        match asteroid_id {
            Some(id) => {
                spawned_ids.push(id);
            },
            None => {},
        }
        proof {
            assert(spawned_ids@ =~= frame_spawned_ids(*old(world), *input, dt));
            assert(es3.len() == n0 + (if fire_ok {
                1int
            } else {
                0int
            }) + (if spawn_ok {
                1int
            } else {
                0int
            }));
            assert(forall|i: int| 0 <= i < n0 && sidx != Some(i) ==> #[trigger] es3[i] == es0[i]);
            assert(match sidx {
                Some(s) => es3[s] == ship_controlled(es0[s], *input, dt),
                None => true,
            });
            if fire_ok {
                assert(missile_spawn_ok(
                    es3[n0],
                    ship_controlled(es0[sidx.unwrap()], *input, dt),
                    input.ship_forward,
                    old(world).next_id,
                ));
            }
            assert forall|i: int| 0 <= i < es3.len() implies pre_motion_ok(#[trigger] es3[i]) by {
                if i < n0 {
                    if sidx == Some(i) {
                        lemma_controlled_pre_motion(es0[i], *input, dt);
                    } else {
                        lemma_entity_inv_pre_motion(es0[i]);
                    }
                } else if fire_ok && i == n0 {
                    let s = sidx.unwrap();
                    let c = ship_controlled(es0[s], *input, dt);
                    lemma_controlled_pre_motion(es0[s], *input, dt);
                    lemma_missile_pre_motion(es3[i], c, input.ship_forward, old(world).next_id);
                } else {
                    assert(spawn_ok && i == es3.len() - 1);
                    lemma_asteroid_pre_motion(es3[i], nid2);
                }
            }
        }
        update_velocity(world, dt_ms);
        let ghost es4 = world.entities@;
        proof {
            assert forall|i: int|
                0 <= i < es4.len() implies coords_bounded(
                (#[trigger] es4[i]).velocity.value,
                VEL_LIMIT as int,
            ) && coords_bounded(es4[i].transform.translation, 2 * (POS_LIMIT as int)) by {
                assert(es4[i] == with_velocity(es3[i], stepped_velocity(es3[i], dt)));
                assert(pre_motion_ok(es3[i]));
            }
        }
        update_position(world, dt_ms);
        proof {
            let es5p = world.entities@;
            assert forall|i: int| 0 <= i < es5p.len() implies #[trigger] es5p[i] == euler_step(
                es3[i],
                dt,
            ) by {
                assert(es4[i] == with_velocity(es3[i], stepped_velocity(es3[i], dt)));
                assert(es5p[i] == with_translation(es4[i], stepped_position(es4[i], dt)));
            }
        }
    }
    let ghost es5 = world.entities@;
    proof {
        if playing {
            assert forall|i: int| 0 <= i < es5.len() implies shape_bounded(#[trigger] es5[i]) by {
                assert(es5[i] == euler_step(es3[i], dt));
                lemma_euler_preserves(es3[i], dt);
            }
        } else {
            assert(es5 == es0);
            assert forall|i: int| 0 <= i < es5.len() implies shape_bounded(#[trigger] es5[i]) by {
                assert(entity_inv(es0[i]));
            }
        }
    }
    collision_detection(world);
    let ghost mid = world.entities@;
    proof {
        assert forall|k: int| 0 <= k < es5.len() implies same_shape(#[trigger] es5[k], mid[k]) by {
            assert(eq_but_colliding(es5[k], mid[k]));
        }
        assert forall|i: int|
            0 <= i < mid.len() implies (#[trigger] mid[i]).collider.colliding_entities@
            == collide_list(mid, i) by {
            lemma_collide_list_same_shape(es5, mid, i, 0);
        }
    }
    let mut pending: Vec<u64> = if playing {
        remove_on_missile_collision(world)
    } else {
        Vec::new()
    };
    let ghost resolved = pending@;
    proof {
        assert forall|i: int|
            0 <= i < world.entities@.len() implies coords_bounded(
            (#[trigger] world.entities@[i]).transform.translation,
            POS_MOVED_LIMIT as int,
        ) by {
            assert(eq_but_colliding(es5[i], mid[i]));
            if playing {
                lemma_euler_preserves(es3[i], dt);
            } else {
                assert(entity_inv(es0[i]));
            }
        }
    }
    off_screen_despawner(world, &mut pending);
    proof {
        assert(pending@ == bounds_extend(mid, 0, resolved));
        if playing {
            crate::asteroid::lemma_resolve_no_dups(mid, 0, Seq::empty());
        }
        lemma_bounds_extend_no_dups(mid, 0, resolved);
    }
    apply_despawns(world, &pending);
    proof {
        let esf = world.entities@;
        let nidf = world.next_id;
        assert forall|i: int|
            0 <= i < mid.len() implies (#[trigger] mid[i]).id == es5[i].id && mid[i].role
            == es5[i].role && mid[i].collider.radius == es5[i].collider.radius && mid[i].velocity
            == es5[i].velocity && mid[i].acceleration == es5[i].acceleration && mid[i].transform
            == es5[i].transform by {
            assert(eq_but_colliding(es5[i], mid[i]));
        }
        if playing {
            assert forall|i: int|
                0 <= i < mid.len() implies (#[trigger] mid[i]).id == es3[i].id && mid[i].role
                == es3[i].role && coords_bounded(mid[i].velocity.value, VEL_LIMIT as int)
                && coords_bounded(mid[i].acceleration.value, ACC_LIMIT as int) && 0
                <= mid[i].collider.radius <= RADIUS_LIMIT && 0 <= mid[i].transform.rotation.x
                < TAU_NANO && 0 <= mid[i].transform.rotation.y < TAU_NANO && 0
                <= mid[i].transform.rotation.z < TAU_NANO by {
                assert(es5[i] == euler_step(es3[i], dt));
                lemma_euler_preserves(es3[i], dt);
                assert(pre_motion_ok(es3[i]));
            }
            assert forall|i: int| 0 <= i < n0 implies (#[trigger] es3[i]).id == es0[i].id
                && es3[i].role == es0[i].role by {
                if sidx == Some(i) {
                    assert(es3[i] == ship_controlled(es0[i], *input, dt));
                }
            }
            assert forall|i: int, j: int| 0 <= i < j < mid.len() implies (#[trigger] mid[i]).id < (
            #[trigger] mid[j]).id by {
                if j < n0 {
                } else if i < n0 {
                    assert(es0[i].id < old(world).next_id);
                } else {
                }
            }
            assert(at_most_one_ship(mid)) by {
                assert forall|i: int, j: int|
                    0 <= i < j < mid.len() implies !(mid[i].role == crate::world::Role::Spaceship
                    && mid[j].role == crate::world::Role::Spaceship) by {
                    if j >= n0 {
                        assert(mid[j].role != crate::world::Role::Spaceship);
                    }
                }
            }
            assert forall|i: int| 0 <= i < mid.len() implies (#[trigger] mid[i]).id < nidf by {
                if i < n0 {
                    assert(es0[i].id < old(world).next_id);
                }
            }
            vstd::arithmetic::div_mod::lemma_mod_bound(
                old(world).spawn_timer.elapsed_ms + dt,
                SPAWN_PERIOD_MS as int,
            );
        } else {
            assert forall|i: int|
                0 <= i < mid.len() implies (#[trigger] mid[i]).id == es0[i].id && mid[i].role
                == es0[i].role && coords_bounded(mid[i].velocity.value, VEL_LIMIT as int)
                && coords_bounded(mid[i].acceleration.value, ACC_LIMIT as int) && 0
                <= mid[i].collider.radius <= RADIUS_LIMIT && 0 <= mid[i].transform.rotation.x
                < TAU_NANO && 0 <= mid[i].transform.rotation.y < TAU_NANO && 0
                <= mid[i].transform.rotation.z < TAU_NANO by {
                assert(entity_inv(es0[i]));
            }
            assert forall|i: int, j: int| 0 <= i < j < mid.len() implies (#[trigger] mid[i]).id < (
            #[trigger] mid[j]).id by {
            }
            assert(at_most_one_ship(mid)) by {
                assert forall|i: int, j: int|
                    0 <= i < j < mid.len() implies !(mid[i].role == crate::world::Role::Spaceship
                    && mid[j].role == crate::world::Role::Spaceship) by {
                    assert(mid[i].role == es0[i].role && mid[j].role == es0[j].role);
                }
            }
            assert forall|i: int| 0 <= i < mid.len() implies (#[trigger] mid[i]).id < nidf by {
                assert(mid[i].id == es0[i].id && es0[i].id < old(world).next_id);
            }
        }
        lemma_filter_alive_sorted(mid, pending@);
        lemma_filter_alive_one_ship(mid, pending@);
        lemma_filter_alive_elements(mid, pending@);
        assert forall|j: int|
            0 <= j < esf.len() implies entity_inv(#[trigger] esf[j]) && esf[j].id < nidf by {
            let k = choose|k: int| 0 <= k < mid.len() && esf[j] == mid[k];
            assert(!pending@.contains(esf[j].id));
            lemma_bounds_extend_contains(mid, 0, resolved, mid[k].id);
            assert(in_bounds(mid[k]));
            lemma_in_bounds_coords(mid[k]);
        }
        if playing {
            assert forall|i: int|
                0 <= i < mid.len() implies #[trigger] processed_plain(es3[i], mid, i, dt) by {
                assert(es5[i] == euler_step(es3[i], dt));
                assert(eq_but_colliding(es5[i], mid[i]));
            }
            assert(playing_frame_rel(*old(world), mid, *input, dt)) by {
                if fire_ok {
                    assert(missile_spawn_ok(
                        es3[n0],
                        ship_controlled(es0[sidx.unwrap()], *input, dt),
                        input.ship_forward,
                        old(world).next_id,
                    ) && processed_plain(es3[n0], mid, n0, dt));
                }
                if spawn_ok {
                    assert(asteroid_spawn_ok(es3[mid.len() - 1], nid2) && processed_plain(
                        es3[mid.len() - 1],
                        mid,
                        mid.len() - 1,
                        dt,
                    ));
                }
            }
        } else {
            assert(paused_frame_rel(es0, mid));
        }
    }
    FrameOutput { spawned: spawned_ids, despawned: pending }
}


} // verus!
