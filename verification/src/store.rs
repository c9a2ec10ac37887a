//! The entity store: the live entities, the requests waiting to change them,
//! and the counter that hands out identifiers.
//!
//! Requests take effect only in `apply_pending`. Until then the live entities
//! stay as they are, so a pass over them never sees one appear or vanish.

use vstd::prelude::*;
use crate::command::{
    apply_all, find, ids_below, lemma_apply_all_ids_below, lemma_apply_all_well_formed,
    lemma_destroyed_is_gone, lemma_repeated_destroy, lookup, named, present, well_formed, Command,
    CommandBuffer,
};
use crate::entity::{Component, Components, Entity, EntityId, Filter};

verus! {

/// What a store holds, as plain mathematical values.
pub struct StoreState {
    /// The live entities, in the order in which they came into being.
    pub live: Seq<Entity>,
    /// The requests made since the last flush, oldest first.
    pub pending: Seq<Command>,
    /// The identifier that will be handed out next.
    pub next_id: u64,
}

/// Why the store turned a call down.
#[derive(Clone, Copy, Debug, PartialEq, Eq)]
pub enum StoreError {
    /// The identifier was never handed out by this store.
    UnknownEntity,
}

/// The entities among `live` that `filter` accepts, in their order.
pub open spec fn matching(live: Seq<Entity>, filter: Filter) -> Seq<Entity>
    decreases live.len(),
{
    if live.len() == 0 {
        live
    } else {
        let rest = matching(live.drop_last(), filter);
        if filter.accepts(live.last().components) {
            rest.push(live.last())
        } else {
            rest
        }
    }
}

/// Whether no request names an identifier that has not been handed out.
pub open spec fn requests_below(pending: Seq<Command>, bound: u64) -> bool {
    forall|k: int| 0 <= k < pending.len() ==> named(#[trigger] pending[k]).0 < bound
}

impl StoreState {
    /// The store with nothing in it.
    pub open spec fn empty() -> StoreState {
        StoreState { live: Seq::empty(), pending: Seq::empty(), next_id: 0 }
    }

    /// Whether the store is in order: identifiers are unique, every entity
    /// carries a component, and no identifier is in use or asked for that
    /// has not been handed out.
    pub open spec fn wf(self) -> bool {
        &&& well_formed(self.live)
        &&& ids_below(self.live, self.next_id)
        &&& requests_below(self.pending, self.next_id)
    }

    /// Whether `n` more identifiers can be handed out.
    pub open spec fn can_issue(self, n: nat) -> bool {
        self.next_id + n <= u64::MAX
    }

    /// The store after an identifier has been handed out.
    pub open spec fn reserve(self) -> StoreState {
        StoreState { next_id: (self.next_id + 1) as u64, ..self }
    }

    /// The store with one more request waiting.
    pub open spec fn enqueue(self, cmd: Command) -> StoreState {
        StoreState { pending: self.pending.push(cmd), ..self }
    }

    /// The store after a new entity with these components has been asked for.
    pub open spec fn spawn(self, components: Components) -> StoreState {
        self.enqueue(Command::Create(Entity { id: EntityId(self.next_id), components })).reserve()
    }

    /// The store after all waiting requests have taken effect.
    pub open spec fn flush(self) -> StoreState {
        StoreState { live: apply_all(self.live, self.pending), pending: Seq::empty(), ..self }
    }

    /// The store with other components on the entity at place `i`.
    pub open spec fn replace_at(self, i: int, components: Components) -> StoreState {
        StoreState { live: self.live.update(i, Entity { id: self.live[i].id, components }), ..self }
    }
}

/// Flushing keeps a store in order.
pub proof fn lemma_flush_wf(s: StoreState)
    requires
        s.wf(),
    ensures
        s.flush().wf(),
{
    lemma_apply_all_well_formed(s.live, s.pending);
    lemma_apply_all_ids_below(s.live, s.pending, s.next_id);
}

/// The identifier that a store in order hands out next is new: no live
/// entity has it and no waiting request names it.
pub proof fn lemma_next_id_is_new(s: StoreState)
    requires
        s.wf(),
    ensures
        !present(s.live, EntityId(s.next_id)),
        forall|k: int| 0 <= k < s.pending.len() ==> named(#[trigger] s.pending[k]) != EntityId(s.next_id),
{
}

/// Asking a store twice for the destruction of an entity leaves, after the
/// flush, the store that asking once leaves: the entity is gone, and the
/// second request has done nothing.
pub proof fn lemma_request_twice(s: StoreState, id: EntityId)
    requires
        s.wf(),
    ensures
        s.enqueue(Command::Destroy(id)).enqueue(Command::Destroy(id)).flush() == s.enqueue(
            Command::Destroy(id),
        ).flush(),
        !present(s.enqueue(Command::Destroy(id)).flush().live, id),
{
    lemma_repeated_destroy(s.live, s.pending, id);
}

/// A request changes no live entity before the flush, and so no query.
pub proof fn lemma_request_is_deferred(s: StoreState, cmd: Command, filter: Filter)
    ensures
        s.enqueue(cmd).live == s.live,
        matching(s.enqueue(cmd).live, filter) == matching(s.live, filter),
{
}

/// Every entity that a query returns is live and accepted by the filter.
pub proof fn lemma_matching_sound(live: Seq<Entity>, filter: Filter, k: int)
    requires
        0 <= k < matching(live, filter).len(),
    ensures
        filter.accepts(matching(live, filter)[k].components),
        exists|i: int| 0 <= i < live.len() && #[trigger] live[i] == matching(live, filter)[k],
    decreases live.len(),
{
    let rest = matching(live.drop_last(), filter);
    if k < rest.len() {
        lemma_matching_sound(live.drop_last(), filter, k);
        let i = choose|i: int| 0 <= i < live.drop_last().len() && #[trigger] live.drop_last()[i] == rest[k];
        assert(live[i] == matching(live, filter)[k]);
    } else {
        assert(live[live.len() - 1] == matching(live, filter)[k]);
    }
}

/// Every live entity that the filter accepts is among those a query returns.
pub proof fn lemma_matching_complete(live: Seq<Entity>, filter: Filter, i: int)
    requires
        0 <= i < live.len(),
        filter.accepts(live[i].components),
    ensures
        exists|k: int| 0 <= k < matching(live, filter).len() && #[trigger] matching(live, filter)[k] == live[i],
    decreases live.len(),
{
    let rest = matching(live.drop_last(), filter);
    if i < live.len() - 1 {
        lemma_matching_complete(live.drop_last(), filter, i);
        let k = choose|k: int| 0 <= k < rest.len() && #[trigger] rest[k] == live.drop_last()[i];
        assert(matching(live, filter)[k] == live[i]);
    } else {
        assert(matching(live, filter)[rest.len() as int] == live[i]);
    }
}

/// An entity whose destruction is waiting, and that no later request brings
/// back, is not live after the flush and is in no query.
pub proof fn lemma_flush_removes(s: StoreState, k: int, filter: Filter)
    requires
        s.wf(),
        0 <= k < s.pending.len(),
        s.pending[k] is Destroy,
        forall|j: int|
            k < j < s.pending.len() ==> (#[trigger] s.pending[j]) is Destroy || named(s.pending[j]) != named(
                s.pending[k],
            ),
    ensures
        !present(s.flush().live, named(s.pending[k])),
        forall|n: int|
            0 <= n < matching(s.flush().live, filter).len() ==> (#[trigger] matching(s.flush().live, filter)[n]).id
                != named(s.pending[k]),
{
    lemma_destroyed_is_gone(s.live, s.pending, k);
    let after = s.flush().live;
    assert forall|n: int| 0 <= n < matching(after, filter).len() implies (#[trigger] matching(after, filter)[n]).id
        != named(s.pending[k]) by {
        lemma_matching_sound(after, filter, n);
    }
}

/// The entity store.
pub struct Store {
    live: Vec<Entity>,
    pending: CommandBuffer,
    next_id: u64,
}

impl View for Store {
    type V = StoreState;

    closed spec fn view(&self) -> StoreState {
        StoreState { live: self.live@, pending: self.pending@, next_id: self.next_id }
    }
}

impl Store {
    /// Whether the store is in order.
    pub open spec fn wf(&self) -> bool {
        self@.wf()
    }

    /// A store with nothing in it.
    pub fn new() -> (s: Store)
        ensures
            s@ == StoreState::empty(),
            s.wf(),
    {
        Store { live: Vec::new(), pending: CommandBuffer::new(), next_id: 0 }
    }

    /// Hands out an identifier that this store has not handed out before. The
    /// entity comes into being once a component is attached to it.
    pub fn create(&mut self) -> (id: EntityId)
        requires
            old(self)@.can_issue(1),
        ensures
            id == EntityId(old(self)@.next_id),
            final(self)@ == old(self)@.reserve(),
            old(self).wf() ==> final(self).wf(),
    {
        let id = EntityId(self.next_id);
        self.next_id = self.next_id + 1;
        id
    }

    /// Asks for a new entity with the given components and returns the
    /// identifier it will have. With no component there will be no entity,
    /// only the identifier.
    pub fn spawn(&mut self, components: Components) -> (id: EntityId)
        requires
            old(self)@.can_issue(1),
        ensures
            id == EntityId(old(self)@.next_id),
            final(self)@ == old(self)@.spawn(components),
            old(self).wf() ==> final(self).wf(),
    {
        let id = EntityId(self.next_id);
        self.pending.enqueue_create(Entity { id, components });
        self.next_id = self.next_id + 1;
        id
    }

    /// Asks for `component` to be attached to the entity `id`, in place of an
    /// earlier component of the same kind. If no such entity is live when the
    /// request takes effect, it comes into being with this one component. An
    /// identifier that this store never handed out is turned down.
    pub fn attach(&mut self, id: EntityId, component: Component) -> (r: Result<(), StoreError>)
        ensures
            match r {
                Ok(_) => id.0 < old(self)@.next_id && final(self)@ == old(self)@.enqueue(
                    Command::Attach(id, component),
                ),
                Err(e) => id.0 >= old(self)@.next_id && e == StoreError::UnknownEntity && final(self)@
                    == old(self)@,
            },
            old(self).wf() ==> final(self).wf(),
    {
        if id.0 < self.next_id {
            self.pending.enqueue_attach(id, component);
            Ok(())
        } else {
            Err(StoreError::UnknownEntity)
        }
    }

    /// Asks for the entity `id` to be destroyed. The entity stays live, and
    /// in every query, until the waiting requests are applied. An identifier
    /// that this store never handed out names no entity, and nothing is asked.
    pub fn request_destroy(&mut self, id: EntityId)
        ensures
            final(self)@ == if id.0 < old(self)@.next_id {
                old(self)@.enqueue(Command::Destroy(id))
            } else {
                old(self)@
            },
            old(self).wf() ==> final(self).wf(),
    {
        if id.0 < self.next_id {
            self.pending.enqueue_destroy(id);
        }
    }

    /// Lets every waiting request take effect, oldest first, and empties the queue.
    pub fn apply_pending(&mut self)
        ensures
            final(self)@ == old(self)@.flush(),
            old(self).wf() ==> final(self).wf(),
    {
        proof {
            if self.wf() {
                lemma_flush_wf(self@);
            }
        }
        self.pending.flush(&mut self.live);
    }

    /// The live entities that `filter` accepts, with their components, in the
    /// order in which they came into being.
    pub fn query(&self, filter: &Filter) -> (found: Vec<Entity>)
        ensures
            found@ == matching(self@.live, *filter),
    {
        let mut found: Vec<Entity> = Vec::new();
        let mut i: usize = 0;
        while i < self.live.len()
            invariant
                i <= self.live.len(),
                found@ == matching(self.live@.take(i as int), *filter),
            decreases self.live.len() - i,
        {
            proof {
                assert(self.live@.take(i + 1).drop_last() =~= self.live@.take(i as int));
            }
            let e = self.live[i];
            if filter.matches(&e.components) {
                found.push(e);
            }
            i = i + 1;
        }
        proof {
            assert(self.live@.take(i as int) =~= self.live@);
        }
        found
    }

    /// The components of the entity `id`, if it is live.
    pub fn get(&self, id: EntityId) -> (r: Option<Components>)
        ensures
            r == lookup(self@.live, id),
    {
        match find(&self.live, id) {
            Some(i) => Some(self.live[i].components),
            None => None,
        }
    }

    /// Whether the entity `id` is live.
    pub fn contains(&self, id: EntityId) -> (r: bool)
        ensures
            r == present(self@.live, id),
    {
        find(&self.live, id).is_some()
    }

    /// The number of live entities.
    pub fn len(&self) -> (n: usize)
        ensures
            n == self@.live.len(),
    {
        self.live.len()
    }

    /// The number of requests waiting.
    pub fn pending_len(&self) -> (n: usize)
        ensures
            n == self@.pending.len(),
    {
        self.pending.len()
    }

    /// Tells whether `n` more identifiers can be handed out.
    pub fn has_room(&self, n: usize) -> (r: bool)
        ensures
            r == self@.can_issue(n as nat),
    {
        n as u128 + self.next_id as u128 <= u64::MAX as u128
    }

    /// The number of identifiers handed out so far.
    pub fn issued(&self) -> (n: u64)
        ensures
            n == self@.next_id,
    {
        self.next_id
    }

    /// The live entity at place `i`, the oldest being at place zero.
    pub fn entity_at(&self, i: usize) -> (e: Entity)
        requires
            i < self@.live.len(),
        ensures
            e == self@.live[i as int],
    {
        self.live[i]
    }

    /// The waiting request at place `i`, the oldest being at place zero.
    pub fn pending_at(&self, i: usize) -> (cmd: Command)
        requires
            i < self@.pending.len(),
        ensures
            cmd == self@.pending[i as int],
    {
        self.pending.get(i)
    }

    /// Asks for the live entity at place `i` to be destroyed.
    pub(crate) fn request_destroy_at(&mut self, i: usize)
        requires
            i < old(self)@.live.len(),
        ensures
            final(self)@ == old(self)@.enqueue(Command::Destroy(old(self)@.live[i as int].id)),
            old(self).wf() ==> final(self).wf(),
    {
        let id = self.live[i].id;
        self.pending.enqueue_destroy(id);
    }

    /// Gives the live entity at place `i` other components, at once.
    pub(crate) fn replace_at(&mut self, i: usize, components: Components)
        requires
            i < old(self)@.live.len(),
            !components.is_none(),
        ensures
            final(self)@ == old(self)@.replace_at(i as int, components),
            old(self).wf() ==> final(self).wf(),
    {
        let id = self.live[i].id;
        self.live.set(i, Entity { id, components });
    }
}

} // verus!
