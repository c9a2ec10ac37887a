//! The movement system: every entity that carries a position, a velocity and
//! the `Movable` tag moves by one fixed timestep, and is asked to be destroyed
//! if it thereby leaves the playfield and is tagged for that.

use vstd::prelude::*;
use crate::command::{lemma_position, lookup, named, position, present, Command};
use crate::config::{Config, Params};
use crate::entity::{Components, Entity, EntityId};
use crate::geometry::{advance_position, is_out_of_bounds, out_of_bounds, step_position};
use crate::store::{Store, StoreState};

verus! {

/// An entity after one timestep. One that lacks a position, a velocity or the
/// `Movable` tag stays as it is.
pub open spec fn moved(e: Entity, cfg: Params) -> Entity {
    match (e.components.position, e.components.velocity, e.components.movable) {
        (Some(p), Some(v), Some(_)) => Entity {
            components: Components {
                position: Some(advance_position(p, v, cfg.timestep, cfg.speed_scale)),
                ..e.components
            },
            ..e
        },
        _ => e,
    }
}

/// Whether an entity that has just moved is to be removed: it moves, is
/// tagged for removal off the playfield, and lies beyond the playfield
/// widened by the margin.
pub open spec fn strays(e: Entity, cfg: Params) -> bool {
    match (e.components.position, e.components.velocity, e.components.movable) {
        (Some(p), Some(_), Some(m)) => m.auto_despawn && out_of_bounds(p, cfg.win, cfg.margin),
        _ => false,
    }
}

/// All entities after one timestep.
pub open spec fn move_all(live: Seq<Entity>, cfg: Params) -> Seq<Entity> {
    Seq::new(live.len(), |i: int| moved(live[i], cfg))
}

/// One destroy request for each entity among `live` that strays, in their order.
pub open spec fn despawn_requests(live: Seq<Entity>, cfg: Params) -> Seq<Command>
    decreases live.len(),
{
    if live.len() == 0 {
        Seq::empty()
    } else {
        let rest = despawn_requests(live.drop_last(), cfg);
        if strays(live.last(), cfg) {
            rest.push(Command::Destroy(live.last().id))
        } else {
            rest
        }
    }
}

/// The store after the movement system has run: every entity has moved, and
/// the destroy requests for those that strayed wait behind the earlier requests.
pub open spec fn movement(s: StoreState, cfg: Params) -> StoreState {
    let live = move_all(s.live, cfg);
    StoreState { live, pending: s.pending + despawn_requests(live, cfg), ..s }
}

/// The movement system asks for nothing but the destruction of live entities.
pub proof fn lemma_despawn_requests_destroy(live: Seq<Entity>, cfg: Params)
    ensures
        despawn_requests(live, cfg).len() <= live.len(),
        forall|k: int|
            0 <= k < despawn_requests(live, cfg).len() ==> (#[trigger] despawn_requests(live, cfg)[k]) is Destroy
                && present(live, named(despawn_requests(live, cfg)[k])),
    decreases live.len(),
{
    if live.len() > 0 {
        let rest = despawn_requests(live.drop_last(), cfg);
        lemma_despawn_requests_destroy(live.drop_last(), cfg);
        assert forall|k: int| 0 <= k < despawn_requests(live, cfg).len() implies (#[trigger] despawn_requests(
            live,
            cfg,
        )[k]) is Destroy && present(live, named(despawn_requests(live, cfg)[k])) by {
            if k < rest.len() {
                let i = choose|i: int|
                    0 <= i < live.drop_last().len() && (#[trigger] live.drop_last()[i]).id == named(rest[k]);
                assert(live[i].id == named(rest[k]));
            } else {
                assert(live[live.len() - 1].id == live.last().id);
            }
        }
    }
}

/// An entity that strays has its destruction asked for.
pub proof fn lemma_stray_is_requested(live: Seq<Entity>, cfg: Params, i: int)
    requires
        0 <= i < live.len(),
        strays(live[i], cfg),
    ensures
        exists|k: int|
            0 <= k < despawn_requests(live, cfg).len() && #[trigger] despawn_requests(live, cfg)[k]
                == Command::Destroy(live[i].id),
    decreases live.len(),
{
    let rest = despawn_requests(live.drop_last(), cfg);
    if i < live.len() - 1 {
        lemma_stray_is_requested(live.drop_last(), cfg, i);
        let k = choose|k: int| 0 <= k < rest.len() && #[trigger] rest[k] == Command::Destroy(live.drop_last()[i].id);
        assert(despawn_requests(live, cfg)[k] == Command::Destroy(live[i].id));
    } else {
        assert(despawn_requests(live, cfg)[rest.len() as int] == Command::Destroy(live[i].id));
    }
}

/// The movement system keeps a store in order, and neither adds nor removes
/// an entity, nor hands out an identifier.
pub proof fn lemma_movement_wf(s: StoreState, cfg: Params)
    requires
        s.wf(),
    ensures
        movement(s, cfg).wf(),
        movement(s, cfg).next_id == s.next_id,
        movement(s, cfg).live.len() == s.live.len(),
        forall|i: int| 0 <= i < s.live.len() ==> (#[trigger] movement(s, cfg).live[i]).id == s.live[i].id,
{
    let live = move_all(s.live, cfg);
    let asked = despawn_requests(live, cfg);
    lemma_despawn_requests_destroy(live, cfg);
    assert forall|k: int| 0 <= k < asked.len() implies named(#[trigger] asked[k]).0 < s.next_id by {
        let i = choose|i: int| 0 <= i < live.len() && (#[trigger] live[i]).id == named(asked[k]);
        assert(s.live[i].id.0 < s.next_id);
    }
    assert forall|i: int| 0 <= i < live.len() implies !(#[trigger] live[i]).components.is_none() by {
        assert(!s.live[i].components.is_none());
    }
    assert forall|i: int, j: int| 0 <= i < j < live.len() implies (#[trigger] live[i]).id != (#[trigger] live[j]).id by {
        assert(s.live[i].id != s.live[j].id);
    }
    assert forall|i: int| 0 <= i < live.len() implies (#[trigger] live[i]).id.0 < s.next_id by {
        assert(s.live[i].id.0 < s.next_id);
    }
}

/// The movement system leaves every entity in its place: an identifier
/// names the same entity before and after, moved by one timestep.
pub proof fn lemma_move_all_lookup(live: Seq<Entity>, cfg: Params, id: EntityId)
    ensures
        present(move_all(live, cfg), id) == present(live, id),
        lookup(move_all(live, cfg), id) == match lookup(live, id) {
            Some(c) => Some(moved(Entity { id, components: c }, cfg).components),
            None => None,
        },
{
    let after = move_all(live, cfg);
    lemma_position(live, id);
    lemma_position(after, id);
    match position(live, id) {
        Some(p) => {
            assert(after[p].id == live[p].id);
            let q = position(after, id)->0;
            assert(live[q].id == after[q].id);
        },
        None => {
            if position(after, id) is Some {
                let q = position(after, id)->0;
                assert(live[q].id == after[q].id);
            }
        },
    }
}

/// Runs the movement system once over the store.
pub fn run_movement(store: &mut Store, cfg: &Config)
    ensures
        final(store)@ == movement(old(store)@, cfg@),
        old(store).wf() ==> final(store).wf(),
{
    let params = cfg.params();
    let n: usize = store.len();
    let ghost before = store@;
    let ghost target = move_all(before.live, params);
    let mut i: usize = 0;
    while i < n
        invariant
            i <= n,
            n == before.live.len(),
            before == old(store)@,
            target == move_all(before.live, params),
            before.wf() ==> store.wf(),
            store@.next_id == before.next_id,
            store@.live.len() == n,
            forall|k: int| 0 <= k < i ==> store@.live[k] == target[k],
            forall|k: int| i <= k < n ==> store@.live[k] == before.live[k],
            store@.pending == before.pending + despawn_requests(target.take(i as int), params),
        decreases n - i,
    {
        let e = store.entity_at(i);
        proof {
            assert(target.take(i + 1).drop_last() =~= target.take(i as int));
            assert(target.take(i + 1).last() == moved(e, params));
        }
        match (e.components.position, e.components.velocity, e.components.movable) {
            (Some(p), Some(v), Some(m)) => {
                let arrived = step_position(p, v, params.timestep, params.speed_scale);
                let mut components = e.components;
                components.position = Some(arrived);
                store.replace_at(i, components);
                if m.auto_despawn && is_out_of_bounds(arrived, params.win, params.margin) {
                    store.request_destroy_at(i);
                    proof {
                        let earlier = despawn_requests(target.take(i as int), params);
                        assert(store@.pending =~= before.pending + earlier.push(Command::Destroy(e.id)));
                    }
                }
            },
            _ => {},
        }
        i = i + 1;
    }
    proof {
        assert(target.take(n as int) =~= target);
        assert(store@.live =~= target);
    }
}

} // verus!
