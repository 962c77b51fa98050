//! Bounds cleanup and the deferred despawn boundary: entities too far from
//! the origin are requested to despawn (regardless of pause), and all of a
//! frame's despawn requests are applied in one pass at the end of the frame,
//! so no phase ever observes a partially mutated entity store.
use vstd::prelude::*;
use crate::asteroid::{no_dups, push_unless_present};
use crate::collision_detection::ids_unique;
use crate::math::{coords_bounded, norm_sq, norm_sq_i128, lemma_square_bound};
use crate::world::{contains_id, at_most_one_ship, entity_inv, ids_sorted, Entity, Role, World,
    POS_MOVED_LIMIT};

verus! {

/// Entities farther than this from the origin are despawned (100 world
/// units, in nano-units).
pub const DESPAWN_DISTANCE: i64 = 100_000_000_000;

/// The entity is within the despawn bound.
pub open spec fn in_bounds(e: Entity) -> bool {
    norm_sq(e.transform.translation) <= (DESPAWN_DISTANCE as int) * (DESPAWN_DISTANCE as int)
}

/// The despawn requests after the bounds sweep from index `i` with `p`
/// already pending: every out-of-bounds entity is requested, each at most
/// once.
pub open spec fn bounds_extend(es: Seq<Entity>, i: int, p: Seq<u64>) -> Seq<u64>
    decreases es.len() - i,
{
    if i < 0 || i >= es.len() {
        p
    } else {
        let p2 = if !in_bounds(es[i]) {
            push_unless_present(p, es[i].id)
        } else {
            p
        };
        bounds_extend(es, i + 1, p2)
    }
}

/// Membership after the sweep: the old requests, plus exactly the ids of the
/// out-of-bounds entities.
pub proof fn lemma_bounds_extend_contains(es: Seq<Entity>, i: int, p: Seq<u64>, id: u64)
    requires
        0 <= i <= es.len(),
    ensures
        bounds_extend(es, i, p).contains(id) == (p.contains(id) || exists|k: int|
            i <= k < es.len() && !in_bounds(#[trigger] es[k]) && es[k].id == id),
    decreases es.len() - i,
{
    if i < es.len() {
        if !in_bounds(es[i]) {
            crate::asteroid::lemma_push_unless_contains(p, es[i].id, id);
            lemma_bounds_extend_contains(es, i + 1, push_unless_present(p, es[i].id), id);
        } else {
            lemma_bounds_extend_contains(es, i + 1, p, id);
        }
    }
}

/// The sweep keeps the request list free of duplicates.
pub proof fn lemma_bounds_extend_no_dups(es: Seq<Entity>, i: int, p: Seq<u64>)
    requires
        no_dups(p),
    ensures
        no_dups(bounds_extend(es, i, p)),
    decreases es.len() - i,
{
    if 0 <= i < es.len() {
        if !in_bounds(es[i]) {
            crate::asteroid::lemma_push_unless_no_dups(p, es[i].id);
            lemma_bounds_extend_no_dups(es, i + 1, push_unless_present(p, es[i].id));
        } else {
            lemma_bounds_extend_no_dups(es, i + 1, p);
        }
    }
}

/// Within the bound, every coordinate is within the bound.
pub proof fn lemma_in_bounds_coords(e: Entity)
    requires
        in_bounds(e),
    ensures
        coords_bounded(e.transform.translation, DESPAWN_DISTANCE as int),
{
    let t = e.transform.translation;
    assert(coords_bounded(t, DESPAWN_DISTANCE as int)) by (nonlinear_arith)
        requires
            t.x * t.x + t.y * t.y + t.z * t.z <= (DESPAWN_DISTANCE as int) * (DESPAWN_DISTANCE
                as int),
            DESPAWN_DISTANCE > 0,
    ;
}

/// The bounds sweep: appends to the frame's pending despawn requests the id
/// of every entity beyond `DESPAWN_DISTANCE` from the origin, skipping ids
/// already requested. It runs regardless of the pause flag.
pub fn off_screen_despawner(world: &World, pending: &mut Vec<u64>)
    requires
        forall|i: int|
            0 <= i < world.entities@.len() ==> coords_bounded(
                (#[trigger] world.entities@[i]).transform.translation,
                POS_MOVED_LIMIT as int,
            ),
    ensures
        final(pending)@ == bounds_extend(world.entities@, 0, old(pending)@),
{
    let ghost es = world.entities@;
    let n: usize = world.entities.len();
    let mut i: usize = 0;
    while i < n
        invariant
            n == es.len(),
            0 <= i <= n,
            world.entities@ == es,
            forall|k: int|
                0 <= k < n ==> coords_bounded(
                    (#[trigger] es[k]).transform.translation,
                    POS_MOVED_LIMIT as int,
                ),
            bounds_extend(es, i as int, pending@) == bounds_extend(es, 0, old(pending)@),
        decreases n - i,
    {
        let ghost p_entry = pending@;
        let dd: i128 = norm_sq_i128(&world.entities[i].transform.translation);
        proof {
            lemma_square_bound(DESPAWN_DISTANCE as int, DESPAWN_DISTANCE as int);
        }
        let bound: i128 = (DESPAWN_DISTANCE as i128) * (DESPAWN_DISTANCE as i128);
        if dd > bound {
            let id: u64 = world.entities[i].id;
            if !contains_id(pending, id) {
                pending.push(id);
            }
            proof {
                assert(pending@ == push_unless_present(p_entry, id));
            }
        }
        proof {
            assert(bounds_extend(es, (i + 1) as int, pending@) == bounds_extend(
                es,
                i as int,
                p_entry,
            ));
        }
        i = i + 1;
    }
}

/// The entities that survive the frame: those whose id carries no despawn
/// request, in their original order.
pub open spec fn filter_alive(es: Seq<Entity>, dead: Seq<u64>) -> Seq<Entity>
    decreases es.len(),
{
    if es.len() == 0 {
        Seq::empty()
    } else if dead.contains(es[0].id) {
        filter_alive(es.subrange(1, es.len() as int), dead)
    } else {
        seq![es[0]] + filter_alive(es.subrange(1, es.len() as int), dead)
    }
}

/// Every survivor is one of the original entities.
pub proof fn lemma_filter_alive_elements(es: Seq<Entity>, dead: Seq<u64>)
    ensures
        filter_alive(es, dead).len() <= es.len(),
        forall|j: int|
            0 <= j < filter_alive(es, dead).len() ==> exists|k: int|
                0 <= k < es.len() && #[trigger] filter_alive(es, dead)[j] == es[k],
        forall|j: int|
            0 <= j < filter_alive(es, dead).len() ==> !dead.contains(
                (#[trigger] filter_alive(es, dead)[j]).id,
            ),
    decreases es.len(),
{
    if es.len() > 0 {
        let tail = es.subrange(1, es.len() as int);
        lemma_filter_alive_elements(tail, dead);
        assert forall|j: int|
            0 <= j < filter_alive(es, dead).len() implies (exists|k: int|
            0 <= k < es.len() && #[trigger] filter_alive(es, dead)[j] == es[k]) && !dead.contains(
            filter_alive(es, dead)[j].id,
        ) by {
            if dead.contains(es[0].id) {
                let k = choose|k: int| 0 <= k < tail.len() && filter_alive(tail, dead)[j] == tail[k];
                assert(tail[k] == es[k + 1]);
            } else {
                if j > 0 {
                    let jj = j - 1;
                    assert(filter_alive(es, dead)[j] == filter_alive(tail, dead)[jj]);
                    let k = choose|k: int|
                        0 <= k < tail.len() && filter_alive(tail, dead)[jj] == tail[k];
                    assert(tail[k] == es[k + 1]);
                } else {
                    assert(filter_alive(es, dead)[0] == es[0]);
                }
            }
        }
    }
}

/// Survival of a particular entity: with unique ids, the entity at index `k`
/// survives exactly when its id carries no request.
pub proof fn lemma_filter_alive_member(es: Seq<Entity>, dead: Seq<u64>, k: int)
    requires
        0 <= k < es.len(),
        !dead.contains(es[k].id),
    ensures
        exists|j: int| 0 <= j < filter_alive(es, dead).len() && #[trigger] filter_alive(es, dead)[j]
            == es[k],
    decreases es.len(),
{
    let tail = es.subrange(1, es.len() as int);
    if k == 0 {
        assert(filter_alive(es, dead)[0] == es[0]);
    } else {
        lemma_filter_alive_member(tail, dead, k - 1);
        let jj = choose|jj: int|
            0 <= jj < filter_alive(tail, dead).len() && #[trigger] filter_alive(tail, dead)[jj]
                == tail[k - 1];
        if dead.contains(es[0].id) {
            assert(filter_alive(es, dead)[jj] == tail[k - 1]);
        } else {
            assert(filter_alive(es, dead)[jj + 1] == tail[k - 1]);
        }
        assert(tail[k - 1] == es[k]);
    }
}

/// The survivors keep their strictly increasing id order.
pub proof fn lemma_filter_alive_sorted(es: Seq<Entity>, dead: Seq<u64>)
    requires
        ids_sorted(es),
    ensures
        ids_sorted(filter_alive(es, dead)),
    decreases es.len(),
{
    if es.len() > 0 {
        let tail = es.subrange(1, es.len() as int);
        assert(ids_sorted(tail)) by {
            assert(forall|a: int, b: int|
                0 <= a < b < tail.len() ==> tail[a] == es[a + 1] && tail[b] == es[b + 1]);
        }
        lemma_filter_alive_sorted(tail, dead);
        lemma_filter_alive_elements(tail, dead);
        if !dead.contains(es[0].id) {
            let r = filter_alive(es, dead);
            assert forall|a: int, b: int| 0 <= a < b < r.len() implies r[a].id < r[b].id by {
                if a == 0 {
                    assert(r[b] == filter_alive(tail, dead)[b - 1]);
                    let k = choose|k: int|
                        0 <= k < tail.len() && filter_alive(tail, dead)[b - 1] == tail[k];
                    assert(tail[k] == es[k + 1]);
                    assert(es[0].id < es[k + 1].id);
                } else {
                    assert(r[a] == filter_alive(tail, dead)[a - 1]);
                    assert(r[b] == filter_alive(tail, dead)[b - 1]);
                }
            }
        }
    }
}

/// At most one ship survives if at most one was there.
pub proof fn lemma_filter_alive_one_ship(es: Seq<Entity>, dead: Seq<u64>)
    requires
        at_most_one_ship(es),
    ensures
        at_most_one_ship(filter_alive(es, dead)),
    decreases es.len(),
{
    if es.len() > 0 {
        let tail = es.subrange(1, es.len() as int);
        assert(at_most_one_ship(tail)) by {
            assert(forall|a: int, b: int|
                0 <= a < b < tail.len() ==> tail[a] == es[a + 1] && tail[b] == es[b + 1]);
        }
        lemma_filter_alive_one_ship(tail, dead);
        lemma_filter_alive_elements(tail, dead);
        if !dead.contains(es[0].id) {
            let r = filter_alive(es, dead);
            assert forall|a: int, b: int|
                0 <= a < b < r.len() implies !(r[a].role == Role::Spaceship && r[b].role
                == Role::Spaceship) by {
                if a == 0 && es[0].role == Role::Spaceship {
                    assert(r[b] == filter_alive(tail, dead)[b - 1]);
                    let k = choose|k: int|
                        0 <= k < tail.len() && filter_alive(tail, dead)[b - 1] == tail[k];
                    assert(tail[k] == es[k + 1]);
                } else if a > 0 {
                    assert(r[a] == filter_alive(tail, dead)[a - 1]);
                    assert(r[b] == filter_alive(tail, dead)[b - 1]);
                }
            }
        }
    }
}

/// The frame's mutation boundary: removes every entity whose id stands in
/// the request list, in one pass. A request for an id that no entity
/// carries (or that was already removed) is a no-op.
pub fn apply_despawns(world: &mut World, pending: &Vec<u64>)
    ensures
        final(world).entities@ == filter_alive(old(world).entities@, pending@),
        final(world).next_id == old(world).next_id,
        final(world).game_state == old(world).game_state,
        final(world).spawn_timer == old(world).spawn_timer,
{
    let ghost orig = world.entities@;
    let mut kept: Vec<Entity> = Vec::new();
    proof {
        assert(kept@ + filter_alive(orig, pending@) =~= filter_alive(orig, pending@));
    }
    while world.entities.len() > 0
        invariant
            kept@ + filter_alive(world.entities@, pending@) == filter_alive(orig, pending@),
            world.next_id == old(world).next_id,
            world.game_state == old(world).game_state,
            world.spawn_timer == old(world).spawn_timer,
        decreases world.entities@.len(),
    {
        let ghost cur = world.entities@;
        let e: Entity = world.entities.remove(0);
        proof {
            assert(world.entities@ =~= cur.subrange(1, cur.len() as int));
        }
        if !contains_id(pending, e.id) {
            kept.push(e);
            proof {
                assert(kept@ + filter_alive(world.entities@, pending@) =~= kept@.drop_last() + (
                seq![e] + filter_alive(cur.subrange(1, cur.len() as int), pending@)));
                assert(kept@.drop_last() + (seq![e] + filter_alive(
                    cur.subrange(1, cur.len() as int),
                    pending@,
                )) =~= kept@.drop_last() + filter_alive(cur, pending@));
            }
        }
    }
    proof {
        assert(filter_alive(world.entities@, pending@) =~= Seq::<Entity>::empty());
        assert(kept@ + Seq::<Entity>::empty() =~= kept@);
    }
    world.entities = kept;
}

} // verus!
