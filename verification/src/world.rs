//! The simulation: a store, its constants, and the tick that runs the four
//! stages in their fixed order.

use vstd::prelude::*;
use crate::animation::{
    animated, animation, expiry_requests, is_over, lemma_animate_all_lookup, lemma_animation_wf,
    lemma_expiry_requests_destroy, lemma_over_is_requested, run_animation,
};
use crate::collision::{
    asked_by_collision, collision, explosion, first_hit, lemma_collision_wf, lemma_hit_is_requested,
    lemma_no_hit_no_change, lemma_strike_upto_extends, lemma_strike_upto_wf, run_collision, strike_upto,
};
use crate::command::{
    lemma_apply_all_keeps, lemma_apply_all_untouched, lemma_created_is_live, lemma_destroyed_is_gone, lemma_position, lookup, named,
    present, Command,
};
use crate::config::{Config, Params};
use crate::entity::{Entity, EntityId};
use crate::movement::{
    despawn_requests, lemma_despawn_requests_destroy, lemma_move_all_lookup, lemma_movement_wf,
    lemma_stray_is_requested, moved, movement, run_movement, strays,
};
use crate::store::{lemma_flush_wf, Store, StoreState};

verus! {

/// The store after one tick: movement, then collision, then the waiting
/// requests take effect, then animation. What the animation system asks for
/// waits for the next tick.
pub open spec fn tick(s: StoreState, cfg: Params, dt: u64) -> StoreState {
    animation(collision(movement(s, cfg), cfg).flush(), dt)
}

/// Whether the store has identifiers left for every explosion that one tick
/// can ask for.
pub open spec fn can_tick(s: StoreState) -> bool {
    s.can_issue(s.live.len())
}

/// The store after one tick for each elapsed time in `dts`, first to last.
pub open spec fn run(s: StoreState, cfg: Params, dts: Seq<u64>) -> StoreState
    decreases dts.len(),
{
    if dts.len() == 0 {
        s
    } else {
        tick(run(s, cfg, dts.drop_last()), cfg, dts.last())
    }
}

/// A tick keeps a store in order.
pub proof fn lemma_tick_wf(s: StoreState, cfg: Params, dt: u64)
    requires
        s.wf(),
        can_tick(s),
    ensures
        tick(s, cfg, dt).wf(),
{
    lemma_movement_wf(s, cfg);
    let m = movement(s, cfg);
    lemma_collision_wf(m, cfg);
    let c = collision(m, cfg);
    lemma_flush_wf(c);
    lemma_animation_wf(c.flush(), dt);
}

/// Two runs that start from the same store, with the same constants and the
/// same elapsed times, end in the same store: positions, animations, waiting
/// requests and identifiers alike.
pub proof fn lemma_run_deterministic(a: StoreState, b: StoreState, cfg: Params, dts: Seq<u64>)
    requires
        a == b,
    ensures
        run(a, cfg, dts) == run(b, cfg, dts),
{
}

/// The store as the lifecycle stage of a tick finds it: the movement and
/// the collision system have run, and what they asked for is still waiting.
pub open spec fn before_flush(s: StoreState, cfg: Params) -> StoreState {
    collision(movement(s, cfg), cfg)
}

/// The movement and the collision system neither add nor remove an entity:
/// whatever was live when the tick began is live until the flush, and so is
/// seen by a query made in between.
pub proof fn lemma_destruction_is_deferred(s: StoreState, cfg: Params, id: EntityId)
    requires
        s.wf(),
        can_tick(s),
    ensures
        present(before_flush(s, cfg).live, id) == present(s.live, id),
        before_flush(s, cfg).live.len() == s.live.len(),
{
    lemma_movement_wf(s, cfg);
    let m = movement(s, cfg);
    lemma_collision_wf(m, cfg);
    if present(s.live, id) {
        let i = choose|i: int| 0 <= i < s.live.len() && (#[trigger] s.live[i]).id == id;
        assert(m.live[i].id == id);
    }
    if present(m.live, id) {
        let i = choose|i: int| 0 <= i < m.live.len() && (#[trigger] m.live[i]).id == id;
        assert(s.live[i].id == id);
    }
}

/// An entity whose destruction is waiting when a tick begins, or is asked
/// for by the movement or the collision system during the tick, is not live
/// when the tick returns, unless a request that waited behind it when the
/// tick began brought it back.
pub proof fn lemma_tick_removes(s: StoreState, cfg: Params, dt: u64, k: int)
    requires
        s.wf(),
        can_tick(s),
        0 <= k < before_flush(s, cfg).pending.len(),
        before_flush(s, cfg).pending[k] is Destroy,
        forall|j: int|
            k < j < s.pending.len() ==> (#[trigger] s.pending[j]) is Destroy || named(s.pending[j]) != named(
                before_flush(s, cfg).pending[k],
            ),
    ensures
        !present(tick(s, cfg, dt).live, named(before_flush(s, cfg).pending[k])),
{
    lemma_movement_wf(s, cfg);
    let m = movement(s, cfg);
    lemma_collision_wf(m, cfg);
    let c = collision(m, cfg);
    lemma_strike_upto_extends(m, 0, m.live.len() as int, cfg);
    lemma_despawn_requests_destroy(m.live, cfg);
    let asked = despawn_requests(m.live, cfg);
    let id = named(c.pending[k]);
    assert(id.0 < m.next_id) by {
        if k < m.pending.len() {
            assert(c.pending[k] == m.pending[k]);
            if k < s.pending.len() {
                assert(m.pending[k] == s.pending[k]);
            } else {
                assert(m.pending[k] == asked[k - s.pending.len()]);
                let w = choose|w: int| 0 <= w < m.live.len() && (#[trigger] m.live[w]).id == id;
                assert(m.live[w].id.0 < m.next_id);
            }
        } else {
            assert(asked_by_collision(c.pending[k], m, c));
            let w = choose|w: int| 0 <= w < m.live.len() && (#[trigger] m.live[w]).id == id;
            assert(m.live[w].id.0 < m.next_id);
        }
    }
    assert forall|j: int| k < j < c.pending.len() implies (#[trigger] c.pending[j]) is Destroy || named(
        c.pending[j],
    ) != id by {
        if j < m.pending.len() {
            assert(c.pending[j] == m.pending[j]);
            if j < s.pending.len() {
                assert(m.pending[j] == s.pending[j]);
            } else {
                assert(m.pending[j] == asked[j - s.pending.len()]);
            }
        } else {
            assert(asked_by_collision(c.pending[j], m, c));
        }
    }
    lemma_destroyed_is_gone(m.live, c.pending, k);
    lemma_animate_all_lookup(c.flush().live, dt, id);
}

/// An entity whose animation is over when a tick returns is not live when
/// the next tick returns.
pub proof fn lemma_over_is_removed(s: StoreState, cfg: Params, dt: u64, next_dt: u64, i: int)
    requires
        s.wf(),
        can_tick(s),
        can_tick(tick(s, cfg, dt)),
        0 <= i < tick(s, cfg, dt).live.len(),
        is_over(tick(s, cfg, dt).live[i]),
    ensures
        !present(tick(tick(s, cfg, dt), cfg, next_dt).live, tick(s, cfg, dt).live[i].id),
{
    let t = tick(s, cfg, dt);
    lemma_tick_wf(s, cfg, dt);
    lemma_over_is_requested(t.live, i);
    lemma_expiry_requests_destroy(t.live);
    let asked = expiry_requests(t.live);
    assert(t.pending =~= asked);
    let k = choose|k: int| 0 <= k < asked.len() && #[trigger] asked[k] == Command::Destroy(t.live[i].id);
    lemma_movement_wf(t, cfg);
    let m = movement(t, cfg);
    lemma_collision_wf(m, cfg);
    lemma_strike_upto_extends(m, 0, m.live.len() as int, cfg);
    assert(m.pending[k] == t.pending[k]);
    assert(before_flush(t, cfg).pending[k] == m.pending[k]);
    lemma_tick_removes(t, cfg, next_dt, k);
}

/// An entity that is tagged for removal off the playfield, and that the
/// movement of a tick carries beyond the widened playfield, is not live when
/// the tick returns.
pub proof fn lemma_stray_is_removed(s: StoreState, cfg: Params, dt: u64, i: int)
    requires
        s.wf(),
        can_tick(s),
        0 <= i < s.live.len(),
        strays(moved(s.live[i], cfg), cfg),
    ensures
        !present(tick(s, cfg, dt).live, s.live[i].id),
{
    lemma_movement_wf(s, cfg);
    let m = movement(s, cfg);
    lemma_collision_wf(m, cfg);
    lemma_strike_upto_extends(m, 0, m.live.len() as int, cfg);
    lemma_stray_is_requested(m.live, cfg, i);
    let asked = despawn_requests(m.live, cfg);
    let k = choose|k: int| 0 <= k < asked.len() && #[trigger] asked[k] == Command::Destroy(m.live[i].id);
    let at = s.pending.len() + k;
    assert(m.pending[at] == asked[k]);
    assert(before_flush(s, cfg).pending[at] == m.pending[at]);
    lemma_tick_removes(s, cfg, dt, at);
}

/// Where, after the movement of a tick, an entity hits a target, neither of
/// the two is live when the tick returns, and an explosion is: under a new
/// identifier, where the target stood, its animation advanced by the elapsed
/// time.
pub proof fn lemma_hit_is_resolved(s: StoreState, cfg: Params, dt: u64, i: int)
    requires
        s.wf(),
        can_tick(s),
        0 <= i < s.live.len(),
        first_hit(movement(s, cfg).live[i].components, movement(s, cfg).live) is Some,
    ensures
        ({
            let m = movement(s, cfg);
            let j = first_hit(m.live[i].components, m.live)->0;
            let id = EntityId(strike_upto(m, i, cfg).next_id);
            let burst = Entity { id, components: explosion(m.live[j].components.position->0, cfg) };
            &&& 0 <= j < s.live.len()
            &&& !present(tick(s, cfg, dt).live, s.live[i].id)
            &&& !present(tick(s, cfg, dt).live, s.live[j].id)
            &&& !present(s.live, id)
            &&& lookup(tick(s, cfg, dt).live, id) == Some(animated(burst, dt).components)
        }),
{
    lemma_movement_wf(s, cfg);
    let m = movement(s, cfg);
    lemma_collision_wf(m, cfg);
    let c = collision(m, cfg);
    lemma_hit_is_requested(m, i, cfg);
    let j = first_hit(m.live[i].components, m.live)->0;
    let at = strike_upto(m, i, cfg).pending.len() as int;
    let id = EntityId(strike_upto(m, i, cfg).next_id);
    assert(m.live[i].id == s.live[i].id);
    assert(m.live[j].id == s.live[j].id);
    lemma_tick_removes(s, cfg, dt, at);
    lemma_tick_removes(s, cfg, dt, at + 1);
    lemma_created_is_live(m.live, c.pending, at + 2);
    lemma_animate_all_lookup(c.flush().live, dt, id);
    lemma_strike_upto_wf(m, i, cfg);
    if present(s.live, id) {
        let w = choose|w: int| 0 <= w < s.live.len() && (#[trigger] s.live[w]).id == id;
        assert(m.live[w].id == id);
    }
}

/// An entity that is live before and after a tick, and that no request
/// waiting when the tick began was to create or to attach to, has changed in
/// nothing but its position and its animation: it has moved by one timestep,
/// and its animation has advanced by the elapsed time.
pub proof fn lemma_survivor_only_moves(s: StoreState, cfg: Params, dt: u64, id: EntityId)
    requires
        s.wf(),
        can_tick(s),
        present(s.live, id),
        present(tick(s, cfg, dt).live, id),
        forall|k: int| 0 <= k < s.pending.len() ==> (#[trigger] s.pending[k]) is Destroy || named(s.pending[k]) != id,
    ensures
        lookup(s.live, id) is Some,
        lookup(tick(s, cfg, dt).live, id) == Some(
            animated(moved(Entity { id, components: lookup(s.live, id)->0 }, cfg), dt).components,
        ),
{
    lemma_movement_wf(s, cfg);
    let m = movement(s, cfg);
    lemma_collision_wf(m, cfg);
    let c = collision(m, cfg);
    lemma_strike_upto_extends(m, 0, m.live.len() as int, cfg);
    lemma_despawn_requests_destroy(m.live, cfg);
    let asked = despawn_requests(m.live, cfg);
    lemma_position(s.live, id);
    lemma_move_all_lookup(s.live, cfg, id);
    let w = choose|w: int| 0 <= w < s.live.len() && (#[trigger] s.live[w]).id == id;
    assert(s.live[w].id.0 < s.next_id);
    assert forall|k: int| 0 <= k < c.pending.len() implies (#[trigger] c.pending[k]) is Destroy || named(
        c.pending[k],
    ) != id by {
        if k < m.pending.len() {
            assert(c.pending[k] == m.pending[k]);
            if k < s.pending.len() {
                assert(m.pending[k] == s.pending[k]);
            } else {
                assert(m.pending[k] == asked[k - s.pending.len()]);
            }
        } else {
            assert(asked_by_collision(c.pending[k], m, c));
        }
    }
    lemma_animate_all_lookup(c.flush().live, dt, id);
    lemma_apply_all_keeps(m.live, c.pending, id);
}

/// An entity that is live when a tick begins, and that no request names that
/// waits at the flush, is live when the tick returns.
pub proof fn lemma_unnamed_survives(s: StoreState, cfg: Params, dt: u64, id: EntityId)
    requires
        s.wf(),
        can_tick(s),
        present(s.live, id),
        forall|k: int|
            0 <= k < before_flush(s, cfg).pending.len() ==> named(#[trigger] before_flush(s, cfg).pending[k]) != id,
    ensures
        present(tick(s, cfg, dt).live, id),
{
    lemma_movement_wf(s, cfg);
    let m = movement(s, cfg);
    lemma_collision_wf(m, cfg);
    let c = collision(m, cfg);
    lemma_move_all_lookup(s.live, cfg, id);
    assert forall|k: int| 0 <= k < c.pending.len() implies named(#[trigger] c.pending[k]) != id by {
        assert(named(before_flush(s, cfg).pending[k]) != id);
    }
    lemma_apply_all_untouched(m.live, c.pending, id);
    lemma_position(m.live, id);
    lemma_position(c.flush().live, id);
    lemma_animate_all_lookup(c.flush().live, dt, id);
}

/// Where, after the movement of a tick, no entity hits a target, the
/// collision system asks for nothing: it destroys no entity and makes no
/// explosion.
pub proof fn lemma_miss_changes_nothing(s: StoreState, cfg: Params)
    requires
        forall|i: int|
            0 <= i < movement(s, cfg).live.len() ==> first_hit(
                (#[trigger] movement(s, cfg).live[i]).components,
                movement(s, cfg).live,
            ) is None,
    ensures
        before_flush(s, cfg) == movement(s, cfg),
{
    let m = movement(s, cfg);
    lemma_no_hit_no_change(m, m.live.len() as int, cfg);
}

/// A store together with the constants it is run with.
pub struct Simulation {
    pub store: Store,
    pub config: Config,
}

impl Simulation {
    /// A simulation with no entity in it.
    pub fn new(config: Config) -> (sim: Simulation)
        ensures
            sim.store@ == StoreState::empty(),
            sim.store.wf(),
            sim.config == config,
    {
        Simulation { store: Store::new(), config }
    }

    /// Advances the simulation by one tick, `dt` nanoseconds having elapsed
    /// since the last one.
    pub fn tick(&mut self, dt: u64)
        requires
            can_tick(old(self).store@),
        ensures
            final(self).store@ == tick(old(self).store@, old(self).config@, dt),
            old(self).store.wf() ==> final(self).store.wf(),
            final(self).config == old(self).config,
    {
        run_movement(&mut self.store, &self.config);
        run_collision(&mut self.store, &self.config);
        self.store.apply_pending();
        run_animation(&mut self.store, dt);
    }

    /// Tells whether the store has identifiers left for one more tick.
    pub fn ready(&self) -> (r: bool)
        ensures
            r == can_tick(self.store@),
    {
        self.store.has_room(self.store.len())
    }

    /// Advances the simulation by one tick if the store has identifiers left
    /// for it, and tells whether it did. Otherwise nothing changes.
    pub fn try_tick(&mut self, dt: u64) -> (done: bool)
        ensures
            done == can_tick(old(self).store@),
            final(self).store@ == if done {
                tick(old(self).store@, old(self).config@, dt)
            } else {
                old(self).store@
            },
            old(self).store.wf() ==> final(self).store.wf(),
            final(self).config == old(self).config,
    {
        if self.ready() {
            self.tick(dt);
            true
        } else {
            false
        }
    }
}

} // verus!
