//! The frame-indexed animation state machine.
//!
//! An animation plays its frames in order. Each advance adds the elapsed time
//! to the time spent in the current frame; once that reaches the frame period
//! the next frame starts at time zero. Past the last frame the animation is
//! over, and stays so.

use vstd::prelude::*;
use crate::command::{lemma_position, lookup, named, position, present, Command};
use crate::entity::{Components, Entity, EntityId};
use crate::store::{Store, StoreState};

verus! {

/// The animation component: the frame shown, the time spent in it, and the
/// two constants it was created with. Durations are in nanoseconds.
#[derive(Clone, Copy, Debug, PartialEq, Eq)]
pub struct Animation {
    pub frame_index: u32,
    pub time_in_frame: u64,
    pub frame_count: u32,
    pub frame_period: u64,
}

/// What an animation is doing.
#[derive(Clone, Copy, Debug, PartialEq, Eq)]
pub enum AnimationState {
    Playing { frame_index: u32, time_in_frame: u64 },
    Despawned,
}

impl Animation {
    /// Whether the last frame has been left behind.
    pub open spec fn is_finished(self) -> bool {
        self.frame_index >= self.frame_count
    }

    /// The state of the machine.
    pub open spec fn state(self) -> AnimationState {
        if self.is_finished() {
            AnimationState::Despawned
        } else {
            AnimationState::Playing { frame_index: self.frame_index, time_in_frame: self.time_in_frame }
        }
    }

    /// The animation after `dt` nanoseconds have elapsed. At most one frame
    /// passes per advance, and a finished animation does not change.
    pub open spec fn after(self, dt: u64) -> Animation {
        if self.is_finished() {
            self
        } else if self.time_in_frame + dt >= self.frame_period {
            Animation { frame_index: (self.frame_index + 1) as u32, time_in_frame: 0, ..self }
        } else {
            Animation { time_in_frame: (self.time_in_frame + dt) as u64, ..self }
        }
    }

    /// The animation after `n` advances of `dt` nanoseconds each.
    pub open spec fn after_many(self, dt: u64, n: nat) -> Animation
        decreases n,
    {
        if n == 0 {
            self
        } else {
            self.after_many(dt, (n - 1) as nat).after(dt)
        }
    }

    /// An animation at the start of its first frame.
    pub fn new(frame_count: u32, frame_period: u64) -> (a: Animation)
        ensures
            a == (Animation { frame_index: 0, time_in_frame: 0, frame_count, frame_period }),
    {
        Animation { frame_index: 0, time_in_frame: 0, frame_count, frame_period }
    }

    /// Tells whether the animation is over.
    pub fn finished(&self) -> (r: bool)
        ensures
            r == self.is_finished(),
    {
        self.frame_index >= self.frame_count
    }

    /// Reads the state of the machine.
    pub fn current_state(&self) -> (s: AnimationState)
        ensures
            s == self.state(),
    {
        if self.frame_index >= self.frame_count {
            AnimationState::Despawned
        } else {
            AnimationState::Playing { frame_index: self.frame_index, time_in_frame: self.time_in_frame }
        }
    }

    /// Advances by `dt` nanoseconds and tells whether the animation is over afterwards.
    pub fn advance(&mut self, dt: u64) -> (over: bool)
        ensures
            *final(self) == old(self).after(dt),
            over == final(self).is_finished(),
    {
        if self.frame_index < self.frame_count {
            if self.time_in_frame as u128 + dt as u128 >= self.frame_period as u128 {
                self.frame_index = self.frame_index + 1;
                self.time_in_frame = 0;
            } else {
                self.time_in_frame = self.time_in_frame + dt;
            }
        }
        self.frame_index >= self.frame_count
    }
}

/// An animation advanced `n` times by at least its frame period has moved on
/// by `n` frames, or by as many as it had left.
pub proof fn lemma_whole_periods(a: Animation, dt: u64, n: nat)
    requires
        dt >= a.frame_period,
        a.frame_index <= a.frame_count,
    ensures
        a.after_many(dt, n).frame_index == if a.frame_index + n <= a.frame_count {
            a.frame_index + n
        } else {
            a.frame_count as int
        },
        a.after_many(dt, n).frame_count == a.frame_count,
        a.after_many(dt, n).frame_period == a.frame_period,
        0 < n && a.frame_index + n <= a.frame_count ==> a.after_many(dt, n).time_in_frame == 0,
    decreases n,
{
    if n > 0 {
        lemma_whole_periods(a, dt, (n - 1) as nat);
    }
}

/// A fresh animation advanced by its frame period, once per frame, is over
/// exactly after as many advances as it has frames, and not before.
pub proof fn lemma_ends_after_last_frame(frame_count: u32, frame_period: u64, n: nat)
    ensures
        (Animation { frame_index: 0, time_in_frame: 0, frame_count, frame_period }).after_many(frame_period, n).is_finished()
            <==> n >= frame_count,
        n < frame_count ==> (Animation { frame_index: 0, time_in_frame: 0, frame_count, frame_period }).after_many(
            frame_period,
            n,
        ).state() == (AnimationState::Playing { frame_index: n as u32, time_in_frame: 0 }),
{
    let a = Animation { frame_index: 0, time_in_frame: 0, frame_count, frame_period };
    lemma_whole_periods(a, frame_period, n);
}

/// An entity after `dt` nanoseconds: its animation, if it carries one, has advanced.
pub open spec fn animated(e: Entity, dt: u64) -> Entity {
    match e.components.animation {
        Some(a) => Entity { components: Components { animation: Some(a.after(dt)), ..e.components }, ..e },
        None => e,
    }
}

/// Whether the entity carries an animation that is over.
pub open spec fn is_over(e: Entity) -> bool {
    e.components.animation matches Some(a) && a.is_finished()
}

/// All entities after `dt` nanoseconds.
pub open spec fn animate_all(live: Seq<Entity>, dt: u64) -> Seq<Entity> {
    Seq::new(live.len(), |i: int| animated(live[i], dt))
}

/// One destroy request for each entity among `live` whose animation is over,
/// in their order.
pub open spec fn expiry_requests(live: Seq<Entity>) -> Seq<Command>
    decreases live.len(),
{
    if live.len() == 0 {
        Seq::empty()
    } else {
        let rest = expiry_requests(live.drop_last());
        if is_over(live.last()) {
            rest.push(Command::Destroy(live.last().id))
        } else {
            rest
        }
    }
}

/// The store after the animation system has run: every animation has
/// advanced, and the destroy requests for those that are over wait behind the
/// earlier requests.
pub open spec fn animation(s: StoreState, dt: u64) -> StoreState {
    let live = animate_all(s.live, dt);
    StoreState { live, pending: s.pending + expiry_requests(live), ..s }
}

/// The animation system asks for nothing but the destruction of live entities.
pub proof fn lemma_expiry_requests_destroy(live: Seq<Entity>)
    ensures
        expiry_requests(live).len() <= live.len(),
        forall|k: int|
            0 <= k < expiry_requests(live).len() ==> (#[trigger] expiry_requests(live)[k]) is Destroy && present(
                live,
                named(expiry_requests(live)[k]),
            ),
    decreases live.len(),
{
    if live.len() > 0 {
        let rest = expiry_requests(live.drop_last());
        lemma_expiry_requests_destroy(live.drop_last());
        assert forall|k: int| 0 <= k < expiry_requests(live).len() implies (#[trigger] expiry_requests(live)[k])
            is Destroy && present(live, named(expiry_requests(live)[k])) by {
            if k < rest.len() {
                let i = choose|i: int|
                    0 <= i < live.drop_last().len() && (#[trigger] live.drop_last()[i]).id == named(rest[k]);
                assert(live[i].id == named(rest[k]));
            } else {
                assert(live[live.len() - 1].id == live.last().id);
            }
        }
    }
}

/// An entity whose animation is over has its destruction asked for.
pub proof fn lemma_over_is_requested(live: Seq<Entity>, i: int)
    requires
        0 <= i < live.len(),
        is_over(live[i]),
    ensures
        exists|k: int|
            0 <= k < expiry_requests(live).len() && #[trigger] expiry_requests(live)[k] == Command::Destroy(
                live[i].id,
            ),
    decreases live.len(),
{
    let rest = expiry_requests(live.drop_last());
    if i < live.len() - 1 {
        lemma_over_is_requested(live.drop_last(), i);
        let k = choose|k: int| 0 <= k < rest.len() && #[trigger] rest[k] == Command::Destroy(live.drop_last()[i].id);
        assert(expiry_requests(live)[k] == Command::Destroy(live[i].id));
    } else {
        assert(expiry_requests(live)[rest.len() as int] == Command::Destroy(live[i].id));
    }
}

/// The animation system keeps a store in order, and neither adds nor removes
/// an entity, nor hands out an identifier.
pub proof fn lemma_animation_wf(s: StoreState, dt: u64)
    requires
        s.wf(),
    ensures
        animation(s, dt).wf(),
        animation(s, dt).next_id == s.next_id,
        animation(s, dt).live.len() == s.live.len(),
        forall|i: int| 0 <= i < s.live.len() ==> (#[trigger] animation(s, dt).live[i]).id == s.live[i].id,
{
    let live = animate_all(s.live, dt);
    let asked = expiry_requests(live);
    lemma_expiry_requests_destroy(live);
    assert forall|k: int| 0 <= k < asked.len() implies named(#[trigger] asked[k]).0 < s.next_id by {
        let i = choose|i: int| 0 <= i < live.len() && (#[trigger] live[i]).id == named(asked[k]);
        assert(s.live[i].id.0 < s.next_id);
    }
    assert forall|i: int| 0 <= i < live.len() implies !(#[trigger] live[i]).components.is_none() by {
        assert(!s.live[i].components.is_none());
    }
    assert forall|i: int, j: int| 0 <= i < j < live.len() implies (#[trigger] live[i]).id != (#[trigger] live[j]).id by {
        assert(s.live[i].id != s.live[j].id);
    }
    assert forall|i: int| 0 <= i < live.len() implies (#[trigger] live[i]).id.0 < s.next_id by {
        assert(s.live[i].id.0 < s.next_id);
    }
}

/// The animation system leaves every entity in its place: an identifier
/// names the same entity before and after, with its animation advanced.
pub proof fn lemma_animate_all_lookup(live: Seq<Entity>, dt: u64, id: EntityId)
    ensures
        present(animate_all(live, dt), id) == present(live, id),
        lookup(animate_all(live, dt), id) == match lookup(live, id) {
            Some(c) => Some(animated(Entity { id, components: c }, dt).components),
            None => None,
        },
{
    let after = animate_all(live, dt);
    lemma_position(live, id);
    lemma_position(after, id);
    match position(live, id) {
        Some(p) => {
            assert(after[p].id == live[p].id);
            let q = position(after, id)->0;
            assert(live[q].id == after[q].id);
        },
        None => {
            if position(after, id) is Some {
                let q = position(after, id)->0;
                assert(live[q].id == after[q].id);
            }
        },
    }
}

/// Runs the animation system once over the store, `dt` nanoseconds having elapsed.
pub fn run_animation(store: &mut Store, dt: u64)
    ensures
        final(store)@ == animation(old(store)@, dt),
        old(store).wf() ==> final(store).wf(),
{
    let n: usize = store.len();
    let ghost before = store@;
    let ghost target = animate_all(before.live, dt);
    let mut i: usize = 0;
    while i < n
        invariant
            i <= n,
            n == before.live.len(),
            before == old(store)@,
            target == animate_all(before.live, dt),
            before.wf() ==> store.wf(),
            store@.next_id == before.next_id,
            store@.live.len() == n,
            forall|k: int| 0 <= k < i ==> store@.live[k] == target[k],
            forall|k: int| i <= k < n ==> store@.live[k] == before.live[k],
            store@.pending == before.pending + expiry_requests(target.take(i as int)),
        decreases n - i,
    {
        let e = store.entity_at(i);
        proof {
            assert(target.take(i + 1).drop_last() =~= target.take(i as int));
            assert(target.take(i + 1).last() == animated(e, dt));
        }
        match e.components.animation {
            Some(a) => {
                let mut playing = a;
                let over = playing.advance(dt);
                let mut components = e.components;
                components.animation = Some(playing);
                store.replace_at(i, components);
                if over {
                    store.request_destroy_at(i);
                    proof {
                        let earlier = expiry_requests(target.take(i as int));
                        assert(store@.pending =~= before.pending + earlier.push(Command::Destroy(e.id)));
                    }
                }
            },
            None => {},
        }
        i = i + 1;
    }
    proof {
        assert(target.take(n as int) =~= target);
        assert(store@.live =~= target);
    }
}

} // verus!
