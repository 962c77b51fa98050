//! Pairwise collision detection: every frame, each entity's overlap list is
//! recomputed from scratch as the ids of all other entities whose combined
//! collision radius reaches it.
use vstd::prelude::*;
use crate::math::{dist_sq, lemma_dist_sq_symmetric, dist_sq_i128, coords_bounded, Vec3I};
use crate::world::{World, Entity, POS_MOVED_LIMIT, RADIUS_LIMIT};

verus! {

/// A spherical collision boundary (fixed radius, in nano-units) together with
/// the per-frame recomputed list of overlapping entity ids. The list has no
/// memory: it is fully replaced by every detection pass.
#[derive(Debug)]
pub struct Collider {
    pub radius: i64,
    pub colliding_entities: Vec<u64>,
}

impl Collider {
    /// A collider of the given radius with an empty overlap list.
    pub fn new(radius: i64) -> (r: Self)
        ensures
            r.radius == radius,
            r.colliding_entities@ == Seq::<u64>::empty(),
    {
        Collider { radius, colliding_entities: Vec::new() }
    }
}

/// Two entities overlap when the distance between their centres is at most
/// the sum of their collision radii (compared on squares, which is exact).
pub open spec fn pair_overlaps(a: Entity, b: Entity) -> bool {
    dist_sq(a.transform.translation, b.transform.translation) <= (a.collider.radius
        + b.collider.radius) * (a.collider.radius + b.collider.radius)
}

/// The overlap list of entity `i`: ids of all entities `j != i`, in entity
/// order from position `j` on, that overlap entity `i`.
pub open spec fn collide_list_from(es: Seq<Entity>, i: int, j: int) -> Seq<u64>
    decreases es.len() - j,
{
    if j < 0 || j >= es.len() {
        Seq::empty()
    } else {
        let rest = collide_list_from(es, i, j + 1);
        if j != i && pair_overlaps(es[i], es[j]) {
            seq![es[j].id] + rest
        } else {
            rest
        }
    }
}

/// The full overlap list of entity `i` in `es`.
pub open spec fn collide_list(es: Seq<Entity>, i: int) -> Seq<u64> {
    collide_list_from(es, i, 0)
}

/// The fields that collision detection reads: position and radius.
pub open spec fn same_shape(a: Entity, b: Entity) -> bool {
    a.id == b.id && a.transform.translation == b.transform.translation && a.collider.radius
        == b.collider.radius
}

/// Coordinates and radius small enough for the squared-distance comparison.
pub open spec fn shape_bounded(e: Entity) -> bool {
    coords_bounded(e.transform.translation, POS_MOVED_LIMIT as int) && 0 <= e.collider.radius
        <= RADIUS_LIMIT
}

/// Runtime overlap test, exactly `pair_overlaps`.
pub fn overlapping(a: &Entity, b: &Entity) -> (r: bool)
    requires
        shape_bounded(*a),
        shape_bounded(*b),
    ensures
        r == pair_overlaps(*a, *b),
{
    let dd: i128 = dist_sq_i128(&a.transform.translation, &b.transform.translation);
    let rs: i128 = a.collider.radius as i128 + b.collider.radius as i128;
    proof {
        crate::math::lemma_square_bound(rs as int, 2 * RADIUS_LIMIT as int);
    }
    dd <= rs * rs
}

/// `b` is `a` with (possibly) another overlap list; everything else is equal.
pub open spec fn eq_but_colliding(a: Entity, b: Entity) -> bool {
    &&& b.id == a.id
    &&& b.role == a.role
    &&& b.transform == a.transform
    &&& b.velocity == a.velocity
    &&& b.acceleration == a.acceleration
    &&& b.collider.radius == a.collider.radius
    &&& b.model == a.model
}

/// No two entities share an identifier.
pub open spec fn ids_unique(es: Seq<Entity>) -> bool {
    forall|i: int, j: int| 0 <= i < es.len() && 0 <= j < es.len() && i != j ==> es[i].id != es[j].id
}

/// Overlap lists depend only on the entities' shapes (position and radius),
/// not on their other attributes.
pub proof fn lemma_collide_list_same_shape(es1: Seq<Entity>, es2: Seq<Entity>, i: int, j: int)
    requires
        es1.len() == es2.len(),
        forall|k: int| 0 <= k < es1.len() ==> same_shape(#[trigger] es1[k], es2[k]),
        0 <= i < es1.len(),
        0 <= j <= es1.len(),
    ensures
        collide_list_from(es1, i, j) == collide_list_from(es2, i, j),
    decreases es1.len() - j,
{
    if j < es1.len() {
        lemma_collide_list_same_shape(es1, es2, i, j + 1);
        assert(same_shape(es1[i], es2[i]));
        assert(same_shape(es1[j], es2[j]));
        assert(pair_overlaps(es1[i], es1[j]) == pair_overlaps(es2[i], es2[j]));
    }
}

/// Membership in the overlap list is exactly "other entity, and overlapping".
pub proof fn lemma_collide_list_membership(es: Seq<Entity>, i: int, j: int, id: u64)
    requires
        0 <= i < es.len(),
        0 <= j <= es.len(),
    ensures
        collide_list_from(es, i, j).contains(id) <==> exists|k: int|
            j <= k < es.len() && k != i && pair_overlaps(es[i], es[k]) && es[k].id == id,
    decreases es.len() - j,
{
    if j < es.len() {
        lemma_collide_list_membership(es, i, j + 1, id);
        let rest = collide_list_from(es, i, j + 1);
        if j != i && pair_overlaps(es[i], es[j]) {
            assert(collide_list_from(es, i, j) == seq![es[j].id] + rest);
            if collide_list_from(es, i, j).contains(id) {
                let w = choose|w: int|
                    0 <= w < collide_list_from(es, i, j).len() && collide_list_from(es, i, j)[w]
                        == id;
                if w == 0 {
                    assert(es[j].id == id && j != i && pair_overlaps(es[i], es[j]));
                } else {
                    assert(rest[w - 1] == id);
                    assert(rest.contains(id));
                }
            }
            if exists|k: int|
                j <= k < es.len() && k != i && pair_overlaps(es[i], es[k]) && es[k].id == id {
                let k = choose|k: int|
                    j <= k < es.len() && k != i && pair_overlaps(es[i], es[k]) && es[k].id == id;
                if k == j {
                    assert(collide_list_from(es, i, j)[0] == id);
                } else {
                    assert(rest.contains(id));
                    let w = choose|w: int| 0 <= w < rest.len() && rest[w] == id;
                    assert(collide_list_from(es, i, j)[w + 1] == id);
                }
            }
        } else {
            if exists|k: int|
                j <= k < es.len() && k != i && pair_overlaps(es[i], es[k]) && es[k].id == id {
                let k = choose|k: int|
                    j <= k < es.len() && k != i && pair_overlaps(es[i], es[k]) && es[k].id == id;
                assert(k != j);
            }
        }
    }
}

/// With unique ids, `j`'s id stands in `i`'s overlap list exactly when the
/// two are distinct and overlap.
pub proof fn lemma_collide_membership_unique(es: Seq<Entity>, i: int, j: int)
    requires
        ids_unique(es),
        0 <= i < es.len(),
        0 <= j < es.len(),
    ensures
        collide_list(es, i).contains(es[j].id) <==> (j != i && pair_overlaps(es[i], es[j])),
{
    lemma_collide_list_membership(es, i, 0, es[j].id);
    if collide_list(es, i).contains(es[j].id) {
        let k = choose|k: int|
            0 <= k < es.len() && k != i && pair_overlaps(es[i], es[k]) && es[k].id == es[j].id;
        assert(k == j);
    }
}

/// Collision symmetry: `A` stands in `B`'s overlap list exactly when `B`
/// stands in `A`'s, for any one frame's recomputed lists.
pub proof fn lemma_collision_symmetry(es: Seq<Entity>, i: int, j: int)
    requires
        ids_unique(es),
        0 <= i < es.len(),
        0 <= j < es.len(),
    ensures
        collide_list(es, i).contains(es[j].id) <==> collide_list(es, j).contains(es[i].id),
{
    lemma_collide_membership_unique(es, i, j);
    lemma_collide_membership_unique(es, j, i);
    lemma_dist_sq_symmetric(es[i].transform.translation, es[j].transform.translation);
    assert(pair_overlaps(es[i], es[j]) == pair_overlaps(es[j], es[i]));
}

/// No self-collision: an entity never stands in its own overlap list.
pub proof fn lemma_no_self_collision(es: Seq<Entity>, i: int)
    requires
        ids_unique(es),
        0 <= i < es.len(),
    ensures
        !collide_list(es, i).contains(es[i].id),
{
    lemma_collide_membership_unique(es, i, i);
}

/// Recomputes every entity's overlap list from scratch: afterwards, entity
/// `i` lists exactly the ids of the other entities overlapping it, in entity
/// order, and nothing else about the world has changed.
pub fn collision_detection(world: &mut World)
    requires
        forall|i: int|
            0 <= i < old(world).entities@.len() ==> shape_bounded(
                #[trigger] old(world).entities@[i],
            ),
    ensures
        final(world).entities@.len() == old(world).entities@.len(),
        forall|i: int|
            0 <= i < old(world).entities@.len() ==> eq_but_colliding(
                #[trigger] old(world).entities@[i],
                final(world).entities@[i],
            ) && final(world).entities@[i].collider.colliding_entities@ == collide_list(
                old(world).entities@,
                i,
            ),
        final(world).next_id == old(world).next_id,
        final(world).game_state == old(world).game_state,
        final(world).spawn_timer == old(world).spawn_timer,
{
    let n: usize = world.entities.len();
    let mut i: usize = 0;
    while i < n
        invariant
            n == old(world).entities@.len(),
            0 <= i <= n,
            world.entities@.len() == n,
            forall|k: int|
                0 <= k < n ==> shape_bounded(#[trigger] old(world).entities@[k]),
            forall|k: int|
                0 <= k < n ==> same_shape(#[trigger] old(world).entities@[k], world.entities@[k]),
            forall|k: int|
                0 <= k < i ==> eq_but_colliding(#[trigger] old(world).entities@[k], world.entities@[k])
                    && world.entities@[k].collider.colliding_entities@ == collide_list(
                    old(world).entities@,
                    k,
                ),
            forall|k: int| i <= k < n ==> world.entities@[k] == old(world).entities@[k],
            world.next_id == old(world).next_id,
            world.game_state == old(world).game_state,
            world.spawn_timer == old(world).spawn_timer,
        decreases n - i,
    {
        let ghost es_now = world.entities@;
        let mut list: Vec<u64> = Vec::new();
        let mut j: usize = 0;
        proof {
            assert(list@ + collide_list_from(es_now, i as int, 0) =~= collide_list_from(
                es_now,
                i as int,
                0,
            ));
        }
        while j < n
            invariant
                n == es_now.len(),
                0 <= i < n,
                0 <= j <= n,
                world.entities@ == es_now,
                forall|k: int|
                    0 <= k < n ==> shape_bounded(#[trigger] old(world).entities@[k]),
                forall|k: int|
                    0 <= k < n ==> same_shape(#[trigger] old(world).entities@[k], es_now[k]),
                list@ + collide_list_from(es_now, i as int, j as int) == collide_list_from(
                    es_now,
                    i as int,
                    0,
                ),
            decreases n - j,
        {
            proof {
                assert(same_shape(old(world).entities@[i as int], es_now[i as int]));
                assert(same_shape(old(world).entities@[j as int], es_now[j as int]));
                assert(shape_bounded(es_now[i as int]));
                assert(shape_bounded(es_now[j as int]));
            }
            if j != i && overlapping(&world.entities[i], &world.entities[j]) {
                let id: u64 = world.entities[j].id;
                list.push(id);
                proof {
                    assert(list@ + collide_list_from(es_now, i as int, j + 1 as int)
                        =~= (list@.drop_last() + seq![id]) + collide_list_from(
                        es_now,
                        i as int,
                        j + 1 as int,
                    ));
                    assert(collide_list_from(es_now, i as int, j as int) == seq![id]
                        + collide_list_from(es_now, i as int, j + 1 as int));
                    assert((list@.drop_last() + seq![id]) + collide_list_from(
                        es_now,
                        i as int,
                        j + 1 as int,
                    ) =~= list@.drop_last() + collide_list_from(es_now, i as int, j as int));
                }
            }
            j = j + 1;
        }
        proof {
            assert(collide_list_from(es_now, i as int, n as int) =~= Seq::<u64>::empty());
            assert(list@ + Seq::<u64>::empty() =~= list@);
            lemma_collide_list_same_shape(old(world).entities@, es_now, i as int, 0);
        }
        let e = &mut world.entities[i];
        e.collider.colliding_entities = list;
        i = i + 1;
    }
}

} // verus!
