//! The simulation world: the entity store, the identifier allocator, the pause
//! flag and the asteroid spawn timer, together with the well-formedness
//! invariant that every frame preserves.
use vstd::prelude::*;
use crate::asteroid::{SpawnTimer, SPAWN_PERIOD_MS};
use crate::collision_detection::Collider;
use crate::game_state::GameState;
use crate::math::{coords_bounded, Vec3I, TAU_NANO};
use crate::movement::{Acceleration, Velocity};

verus! {

/// Largest frame delta accepted by the pipeline, in milliseconds.
pub const MAX_DT_MS: i64 = 60_000;

/// Largest coordinate magnitude an entity may hold between frames.
pub const POS_LIMIT: i64 = 1_000_000_000_000_000;

/// Largest coordinate magnitude reachable after one motion step from within
/// `POS_LIMIT` (`POS_LIMIT + VEL_LIMIT * MAX_DT_MS`, rounded up).
pub const POS_MOVED_LIMIT: i64 = 2_300_000_000_000_000_000;

/// Largest velocity coordinate, in nano-units per millisecond; the integrator
/// saturates here.
pub const VEL_LIMIT: i64 = 30_000_000_000_000;

/// Largest acceleration coordinate, in nano-units per millisecond squared.
pub const ACC_LIMIT: i64 = 1_000_000;

/// Largest collision radius, in nano-units.
pub const RADIUS_LIMIT: i64 = 10_000_000_000;

/// The closed classification of simulated objects. Each entity has exactly
/// one role; collision resolution and weapon control match on it.
#[derive(Clone, Copy, PartialEq, Eq, Structural, Debug)]
pub enum Role {
    Asteroid,
    Spaceship,
    Missile,
}

/// Position, orientation and scale of an entity. The orientation is three
/// Euler angles (applied about the x, y then z axis) in nano-radians, each in
/// `[0, TAU_NANO)`; the scale is uniform, in thousandths.
#[derive(Clone, Copy, PartialEq, Eq, Structural, Debug)]
pub struct Transform {
    pub translation: Vec3I,
    pub rotation: Vec3I,
    pub scale_milli: i64,
}

/// One simulated object: an identifier, its role tag and its attribute
/// records. Identifiers are allocated in increasing order and never reused
/// within a run.
#[derive(Debug)]
pub struct Entity {
    pub id: u64,
    pub role: Role,
    pub transform: Transform,
    pub velocity: Velocity,
    pub acceleration: Acceleration,
    pub collider: Collider,
    pub model: u64,
}

/// The logical input actions of one frame, as the frontend observed them.
/// `pause_just_pressed` is the rising edge of the pause key, not its level.
/// `ship_forward` is the ship's facing direction scaled to integer length
/// `DIR_UNIT`, which the frontend derives from the ship's orientation.
#[derive(Clone, Copy, PartialEq, Eq, Structural, Debug)]
pub struct InputState {
    pub steer_left: bool,
    pub steer_right: bool,
    pub thrust_forward: bool,
    pub thrust_backward: bool,
    pub fire: bool,
    pub pause_just_pressed: bool,
    pub ship_forward: Vec3I,
}

/// The whole simulation state.
#[derive(Debug)]
pub struct World {
    pub entities: Vec<Entity>,
    pub next_id: u64,
    pub game_state: GameState,
    pub spawn_timer: SpawnTimer,
}

/// Per-entity bounds that keep every frame's arithmetic exact.
pub open spec fn entity_inv(e: Entity) -> bool {
    &&& coords_bounded(e.transform.translation, POS_LIMIT as int)
    &&& coords_bounded(e.velocity.value, VEL_LIMIT as int)
    &&& coords_bounded(e.acceleration.value, ACC_LIMIT as int)
    &&& 0 <= e.collider.radius <= RADIUS_LIMIT
    &&& 0 <= e.transform.rotation.x < TAU_NANO
    &&& 0 <= e.transform.rotation.y < TAU_NANO
    &&& 0 <= e.transform.rotation.z < TAU_NANO
}

/// Entity identifiers are strictly increasing along the store (hence unique)
/// and below the allocator's next value.
pub open spec fn ids_sorted(es: Seq<Entity>) -> bool {
    forall|i: int, j: int| 0 <= i < j < es.len() ==> es[i].id < es[j].id
}

/// At most one entity carries the Spaceship role.
pub open spec fn at_most_one_ship(es: Seq<Entity>) -> bool {
    forall|i: int, j: int|
        0 <= i < j < es.len() ==> !(es[i].role == Role::Spaceship && es[j].role
            == Role::Spaceship)
}

/// The world invariant: every tick requires it and re-establishes it.
pub open spec fn wf(w: World) -> bool {
    &&& forall|i: int| 0 <= i < w.entities@.len() ==> entity_inv(#[trigger] w.entities@[i])
    &&& ids_sorted(w.entities@)
    &&& forall|i: int| 0 <= i < w.entities@.len() ==> (#[trigger] w.entities@[i]).id < w.next_id
    &&& at_most_one_ship(w.entities@)
    &&& 0 <= w.spawn_timer.elapsed_ms < SPAWN_PERIOD_MS
}

/// What the ship index means: a found index is in range, carries the
/// Spaceship role and is the first to do so; otherwise no entity from `i` on
/// is a ship.
pub proof fn lemma_ship_index_from_props(es: Seq<Entity>, i: int)
    requires
        0 <= i <= es.len(),
    ensures
        match ship_index_from(es, i) {
            Some(s) => i <= s < es.len() && es[s].role == Role::Spaceship && forall|k: int|
                i <= k < s ==> (#[trigger] es[k]).role != Role::Spaceship,
            None => forall|k: int| i <= k < es.len() ==> (#[trigger] es[k]).role != Role::Spaceship,
        },
    decreases es.len() - i,
{
    if i < es.len() && es[i].role != Role::Spaceship {
        lemma_ship_index_from_props(es, i + 1);
    }
}

/// What the ship index means, from the start of the store.
pub proof fn lemma_ship_index_props(es: Seq<Entity>)
    ensures
        match ship_index_of(es) {
            Some(s) => 0 <= s < es.len() && es[s].role == Role::Spaceship && forall|k: int|
                0 <= k < s ==> (#[trigger] es[k]).role != Role::Spaceship,
            None => forall|k: int| 0 <= k < es.len() ==> (#[trigger] es[k]).role != Role::Spaceship,
        },
{
    lemma_ship_index_from_props(es, 0);
}

/// Ship indices depend on the roles alone.
pub proof fn lemma_ship_index_same_roles(es1: Seq<Entity>, es2: Seq<Entity>, i: int)
    requires
        es1.len() == es2.len(),
        forall|k: int| 0 <= k < es1.len() ==> (#[trigger] es1[k]).role == es2[k].role,
    ensures
        ship_index_from(es1, i) == ship_index_from(es2, i),
    decreases es1.len() - i,
{
    if 0 <= i < es1.len() {
        lemma_ship_index_same_roles(es1, es2, i + 1);
    }
}

impl World {
    /// Startup: a world holding exactly one ship at the origin, playing,
    /// with the spawn timer at zero.
    pub fn new() -> (w: World)
        ensures
            wf(w),
            w.game_state.is_playing,
            w.spawn_timer.elapsed_ms == 0,
            w.entities@.len() == 1,
            crate::spaceship::spaceship_spawn_ok(w.entities@[0], 0),
            w.next_id == 1,
    {
        let mut w = World {
            entities: Vec::new(),
            next_id: 0,
            game_state: GameState { is_playing: true },
            spawn_timer: SpawnTimer { elapsed_ms: 0 },
        };
        crate::spaceship::spawn_spaceship(&mut w);
        proof {
            assert(entity_inv(w.entities@[0]));
        }
        w
    }
}

/// Linear membership test on an id list.
pub fn contains_id(v: &Vec<u64>, id: u64) -> (r: bool)
    ensures
        r == v@.contains(id),
{
    let mut i: usize = 0;
    while i < v.len()
        invariant
            0 <= i <= v@.len(),
            forall|k: int| 0 <= k < i ==> v@[k] != id,
        decreases v@.len() - i,
    {
        if v[i] == id {
            assert(v@[i as int] == id);
            return true;
        }
        i = i + 1;
    }
    false
}

/// Index of the first entity with the Spaceship role from position `i` on.
pub open spec fn ship_index_from(es: Seq<Entity>, i: int) -> Option<int>
    decreases es.len() - i,
{
    if i < 0 || i >= es.len() {
        None
    } else if es[i].role == Role::Spaceship {
        Some(i)
    } else {
        ship_index_from(es, i + 1)
    }
}

/// Index of the first entity with the Spaceship role, if any.
pub open spec fn ship_index_of(es: Seq<Entity>) -> Option<int> {
    ship_index_from(es, 0)
}

/// With no ship among the entities, there is no ship index.
pub proof fn lemma_ship_index_from_none(es: Seq<Entity>, i: int)
    requires
        forall|k: int| i <= k < es.len() ==> (#[trigger] es[k]).role != Role::Spaceship,
    ensures
        ship_index_from(es, i) == None::<int>,
    decreases es.len() - i,
{
    if 0 <= i < es.len() {
        lemma_ship_index_from_none(es, i + 1);
    }
}

/// With no ship among the entities, there is no ship index.
pub proof fn lemma_ship_index_none(es: Seq<Entity>)
    requires
        forall|k: int| 0 <= k < es.len() ==> (#[trigger] es[k]).role != Role::Spaceship,
    ensures
        ship_index_of(es) == None::<int>,
{
    lemma_ship_index_from_none(es, 0);
}

/// The first ship's index is the ship index.
pub proof fn lemma_ship_index_from_first(es: Seq<Entity>, i: int, s: int)
    requires
        0 <= i <= s < es.len(),
        es[s].role == Role::Spaceship,
        forall|k: int| i <= k < s ==> (#[trigger] es[k]).role != Role::Spaceship,
    ensures
        ship_index_from(es, i) == Some(s),
    decreases es.len() - i,
{
    if i < s {
        lemma_ship_index_from_first(es, i + 1, s);
    }
}

/// The first ship's index is the ship index.
pub proof fn lemma_ship_index_first(es: Seq<Entity>, s: int)
    requires
        0 <= s < es.len(),
        es[s].role == Role::Spaceship,
        forall|k: int| 0 <= k < s ==> (#[trigger] es[k]).role != Role::Spaceship,
    ensures
        ship_index_of(es) == Some(s),
{
    lemma_ship_index_from_first(es, 0, s);
}

/// Index of the first entity with the Spaceship role, if any.
pub fn find_ship(w: &World) -> (r: Option<usize>)
    ensures
        match r {
            Some(i) => 0 <= i < w.entities@.len() && w.entities@[i as int].role == Role::Spaceship
                && forall|k: int| 0 <= k < i ==> w.entities@[k].role != Role::Spaceship,
            None => forall|k: int|
                0 <= k < w.entities@.len() ==> w.entities@[k].role != Role::Spaceship,
        },
{
    let mut i: usize = 0;
    while i < w.entities.len()
        invariant
            0 <= i <= w.entities@.len(),
            forall|k: int| 0 <= k < i ==> w.entities@[k].role != Role::Spaceship,
        decreases w.entities@.len() - i,
    {
        if matches!(w.entities[i].role, Role::Spaceship) {
            return Some(i);
        }
        i = i + 1;
    }
    None
}

} // verus!
