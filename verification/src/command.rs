//! The lifecycle queue: requests to create, extend and destroy entities are
//! collected while the systems run and take effect together, in the order in
//! which they were made.

use vstd::prelude::*;
use crate::entity::{Component, Components, Entity, EntityId};

verus! {

/// A request to change which entities there are.
#[derive(Clone, Copy, Debug, PartialEq, Eq)]
pub enum Command {
    /// Add this entity, unless it has no component or its identifier is taken.
    Create(Entity),
    /// Attach the component to the entity; if there is no such entity, it
    /// comes into being with this one component.
    Attach(EntityId, Component),
    /// Remove the entity; nothing happens if there is none.
    Destroy(EntityId),
}

/// Whether an entity with this identifier is among `live`.
pub open spec fn present(live: Seq<Entity>, id: EntityId) -> bool {
    exists|i: int| 0 <= i < live.len() && (#[trigger] live[i]).id == id
}

/// The index of the first entity with this identifier, looking from `from` on.
pub open spec fn position_from(live: Seq<Entity>, id: EntityId, from: int) -> Option<int>
    decreases live.len() - from,
{
    if from < 0 || from >= live.len() {
        None
    } else if live[from].id == id {
        Some(from)
    } else {
        position_from(live, id, from + 1)
    }
}

/// The index of the first entity with this identifier.
pub open spec fn position(live: Seq<Entity>, id: EntityId) -> Option<int> {
    position_from(live, id, 0)
}

/// The components of the entity with this identifier.
pub open spec fn lookup(live: Seq<Entity>, id: EntityId) -> Option<Components> {
    match position(live, id) {
        Some(i) => Some(live[i].components),
        None => None,
    }
}

/// Whether no two entities share an identifier.
pub open spec fn distinct_ids(live: Seq<Entity>) -> bool {
    forall|i: int, j: int| 0 <= i < j < live.len() ==> (#[trigger] live[i]).id != (#[trigger] live[j]).id
}

/// Whether every entity carries at least one component.
pub open spec fn none_bare(live: Seq<Entity>) -> bool {
    forall|i: int| 0 <= i < live.len() ==> !(#[trigger] live[i]).components.is_none()
}

/// Whether every identifier in use is less than `bound`.
pub open spec fn ids_below(live: Seq<Entity>, bound: u64) -> bool {
    forall|i: int| 0 <= i < live.len() ==> (#[trigger] live[i]).id.0 < bound
}

/// What a sequence of live entities must satisfy: identifiers are unique and
/// every entity carries a component.
pub open spec fn well_formed(live: Seq<Entity>) -> bool {
    distinct_ids(live) && none_bare(live)
}

/// The identifier that a request names.
pub open spec fn named(cmd: Command) -> EntityId {
    match cmd {
        Command::Create(e) => e.id,
        Command::Attach(id, _) => id,
        Command::Destroy(id) => id,
    }
}

/// The live entities after one request has taken effect.
pub open spec fn apply_command(live: Seq<Entity>, cmd: Command) -> Seq<Entity> {
    match cmd {
        Command::Create(e) => if e.components.is_none() || position(live, e.id) is Some {
            live
        } else {
            live.push(e)
        },
        Command::Attach(id, c) => match position(live, id) {
            Some(i) => live.update(i, Entity { id, components: live[i].components.with(c) }),
            None => live.push(Entity { id, components: Components::none().with(c) }),
        },
        Command::Destroy(id) => match position(live, id) {
            Some(i) => live.remove(i),
            None => live,
        },
    }
}

/// The live entities after all requests have taken effect, first to last.
pub open spec fn apply_all(live: Seq<Entity>, cmds: Seq<Command>) -> Seq<Entity>
    decreases cmds.len(),
{
    if cmds.len() == 0 {
        live
    } else {
        apply_command(apply_all(live, cmds.drop_last()), cmds.last())
    }
}

/// `position_from` finds the first entity with the identifier at or after
/// `from`, and finds none only if there is none.
pub proof fn lemma_position_from(live: Seq<Entity>, id: EntityId, from: int)
    requires
        0 <= from <= live.len(),
    ensures
        match position_from(live, id, from) {
            Some(i) => from <= i < live.len() && live[i].id == id && forall|k: int|
                from <= k < i ==> (#[trigger] live[k]).id != id,
            None => forall|k: int| from <= k < live.len() ==> (#[trigger] live[k]).id != id,
        },
    decreases live.len() - from,
{
    if from < live.len() && live[from].id != id {
        lemma_position_from(live, id, from + 1);
    }
}

/// `position` finds the first entity with the identifier, and finds none
/// exactly if no entity has it.
pub proof fn lemma_position(live: Seq<Entity>, id: EntityId)
    ensures
        position(live, id) is Some <==> present(live, id),
        match position(live, id) {
            Some(i) => 0 <= i < live.len() && live[i].id == id && forall|k: int|
                0 <= k < i ==> (#[trigger] live[k]).id != id,
            None => forall|k: int| 0 <= k < live.len() ==> (#[trigger] live[k]).id != id,
        },
{
    lemma_position_from(live, id, 0);
}

/// Read as a map from identifiers to components, the live entities change
/// under a request at the identifier it names and nowhere else.
pub proof fn lemma_apply_command_lookup(live: Seq<Entity>, cmd: Command, id: EntityId)
    requires
        distinct_ids(live),
    ensures
        lookup(apply_command(live, cmd), id) == match cmd {
            Command::Create(e) => if id == e.id && !e.components.is_none() && lookup(live, id) is None {
                Some(e.components)
            } else {
                lookup(live, id)
            },
            Command::Attach(target, c) => if id == target {
                match lookup(live, id) {
                    Some(old) => Some(old.with(c)),
                    None => Some(Components::none().with(c)),
                }
            } else {
                lookup(live, id)
            },
            Command::Destroy(target) => if id == target {
                None
            } else {
                lookup(live, id)
            },
        },
{
    let next = apply_command(live, cmd);
    lemma_position(live, id);
    lemma_position(next, id);
    match cmd {
        Command::Create(e) => {
            lemma_position(live, e.id);
            if !(e.components.is_none() || position(live, e.id) is Some) {
                assert(next[live.len() as int] == e);
                if position(live, id) is Some {
                    let i = position(live, id)->0;
                    assert(next[i] == live[i]);
                }
            }
        },
        Command::Attach(target, c) => {
            lemma_position(live, target);
            match position(live, target) {
                Some(t) => {
                    assert(next.len() == live.len());
                    assert(forall|k: int| 0 <= k < live.len() ==> (#[trigger] next[k]).id == live[k].id);
                    if position(live, id) is Some {
                        let i = position(live, id)->0;
                        assert(next[i].id == id);
                        let j = position(next, id)->0;
                        assert(live[j].id == next[j].id);
                    } else if position(next, id) is Some {
                        let j = position(next, id)->0;
                        assert(live[j].id == next[j].id);
                    }
                },
                None => {
                    assert(next[live.len() as int].id == target);
                    if position(live, id) is Some {
                        let i = position(live, id)->0;
                        assert(next[i] == live[i]);
                    }
                },
            }
        },
        Command::Destroy(target) => {
            lemma_position(live, target);
            match position(live, target) {
                Some(t) => {
                    live.remove_ensures(t);
                    if position(next, id) is Some {
                        let j = position(next, id)->0;
                        let from = if j < t { j } else { j + 1 };
                        assert(next[j] == live[from]);
                        if position(live, id) is Some {
                            let i = position(live, id)->0;
                            assert(live[i].id == live[from].id);
                        }
                    } else if position(live, id) is Some {
                        let i = position(live, id)->0;
                        if i != t {
                            let to = if i < t { i } else { i - 1 };
                            assert(next[to] == live[i]);
                        }
                    }
                },
                None => {},
            }
        },
    }
}

/// A request keeps identifiers unique and leaves no entity without a component.
pub proof fn lemma_apply_command_well_formed(live: Seq<Entity>, cmd: Command)
    requires
        well_formed(live),
    ensures
        well_formed(apply_command(live, cmd)),
{
    lemma_position(live, named(cmd));
    if cmd is Destroy && position(live, named(cmd)) is Some {
        live.remove_ensures(position(live, named(cmd))->0);
    }
}

/// A request brings no identifier into use but the one it names.
pub proof fn lemma_apply_command_ids_below(live: Seq<Entity>, cmd: Command, bound: u64)
    requires
        ids_below(live, bound),
        !(cmd is Destroy) ==> named(cmd).0 < bound,
    ensures
        ids_below(apply_command(live, cmd), bound),
{
    lemma_position(live, named(cmd));
    if cmd is Destroy && position(live, named(cmd)) is Some {
        live.remove_ensures(position(live, named(cmd))->0);
    }
}

/// Any number of requests keep identifiers unique and leave no entity
/// without a component.
pub proof fn lemma_apply_all_well_formed(live: Seq<Entity>, cmds: Seq<Command>)
    requires
        well_formed(live),
    ensures
        well_formed(apply_all(live, cmds)),
    decreases cmds.len(),
{
    if cmds.len() > 0 {
        lemma_apply_all_well_formed(live, cmds.drop_last());
        lemma_apply_command_well_formed(apply_all(live, cmds.drop_last()), cmds.last());
    }
}

/// Requests bring no identifiers into use but those they name.
pub proof fn lemma_apply_all_ids_below(live: Seq<Entity>, cmds: Seq<Command>, bound: u64)
    requires
        ids_below(live, bound),
        forall|k: int| 0 <= k < cmds.len() && !((#[trigger] cmds[k]) is Destroy) ==> named(cmds[k]).0 < bound,
    ensures
        ids_below(apply_all(live, cmds), bound),
    decreases cmds.len(),
{
    if cmds.len() > 0 {
        lemma_apply_all_ids_below(live, cmds.drop_last(), bound);
        lemma_apply_command_ids_below(apply_all(live, cmds.drop_last()), cmds.last(), bound);
    }
}

/// Destroying an entity a second time changes nothing: after the first
/// request it is gone, and every other entity is as it was.
pub proof fn lemma_destroy_twice(live: Seq<Entity>, id: EntityId)
    requires
        distinct_ids(live),
    ensures
        !present(apply_command(live, Command::Destroy(id)), id),
        apply_command(apply_command(live, Command::Destroy(id)), Command::Destroy(id)) == apply_command(
            live,
            Command::Destroy(id),
        ),
        forall|other: EntityId|
            other != id ==> #[trigger] lookup(apply_command(live, Command::Destroy(id)), other) == lookup(
                live,
                other,
            ),
{
    let once = apply_command(live, Command::Destroy(id));
    lemma_apply_command_lookup(live, Command::Destroy(id), id);
    lemma_position(once, id);
    assert forall|other: EntityId| other != id implies #[trigger] lookup(once, other) == lookup(live, other) by {
        lemma_apply_command_lookup(live, Command::Destroy(id), other);
    }
}

/// A request that does not destroy, and names another entity, brings no
/// entity with the identifier `id` into being.
pub proof fn lemma_apply_command_absent(live: Seq<Entity>, cmd: Command, id: EntityId)
    requires
        distinct_ids(live),
        !present(live, id),
        cmd is Destroy || named(cmd) != id,
    ensures
        !present(apply_command(live, cmd), id),
{
    lemma_apply_command_lookup(live, cmd, id);
    lemma_position(live, id);
    lemma_position(apply_command(live, cmd), id);
}

/// An entity whose destruction was asked for is gone after the flush, unless
/// a later request in the same queue brought it back.
pub proof fn lemma_destroyed_is_gone(live: Seq<Entity>, cmds: Seq<Command>, k: int)
    requires
        well_formed(live),
        0 <= k < cmds.len(),
        cmds[k] is Destroy,
        forall|j: int| k < j < cmds.len() ==> (#[trigger] cmds[j]) is Destroy || named(cmds[j]) != named(cmds[k]),
    ensures
        !present(apply_all(live, cmds), named(cmds[k])),
    decreases cmds.len(),
{
    let id = named(cmds[k]);
    let earlier = apply_all(live, cmds.drop_last());
    lemma_apply_all_well_formed(live, cmds.drop_last());
    if k == cmds.len() - 1 {
        lemma_destroy_twice(earlier, id);
    } else {
        assert(cmds.drop_last()[k] == cmds[k]);
        assert forall|j: int| k < j < cmds.drop_last().len() implies (#[trigger] cmds.drop_last()[j]) is Destroy
            || named(cmds.drop_last()[j]) != id by {
            assert(cmds.drop_last()[j] == cmds[j]);
        }
        lemma_destroyed_is_gone(live, cmds.drop_last(), k);
        lemma_apply_command_absent(earlier, cmds.last(), id);
    }
}

/// Asking once more for the destruction of an entity, behind a queue that
/// destroys it already and does not bring it back, changes nothing.
pub proof fn lemma_second_destroy_is_idle(live: Seq<Entity>, cmds: Seq<Command>, k: int)
    requires
        well_formed(live),
        0 <= k < cmds.len(),
        cmds[k] is Destroy,
        forall|j: int| k < j < cmds.len() ==> (#[trigger] cmds[j]) is Destroy || named(cmds[j]) != named(cmds[k]),
    ensures
        apply_all(live, cmds.push(Command::Destroy(named(cmds[k])))) == apply_all(live, cmds),
{
    let id = named(cmds[k]);
    lemma_destroyed_is_gone(live, cmds, k);
    lemma_apply_all_push(live, cmds, Command::Destroy(id));
    lemma_position(apply_all(live, cmds), id);
}

/// Asking twice in a row for the destruction of an entity has the effect of
/// asking once.
pub proof fn lemma_repeated_destroy(live: Seq<Entity>, cmds: Seq<Command>, id: EntityId)
    requires
        well_formed(live),
    ensures
        apply_all(live, cmds.push(Command::Destroy(id)).push(Command::Destroy(id))) == apply_all(
            live,
            cmds.push(Command::Destroy(id)),
        ),
        !present(apply_all(live, cmds.push(Command::Destroy(id))), id),
{
    let once = cmds.push(Command::Destroy(id));
    lemma_apply_all_push(live, cmds, Command::Destroy(id));
    lemma_apply_all_push(live, once, Command::Destroy(id));
    lemma_apply_all_well_formed(live, cmds);
    lemma_destroy_twice(apply_all(live, cmds), id);
}

/// Requests leave alone the entities they do not name.
pub proof fn lemma_apply_all_untouched(live: Seq<Entity>, cmds: Seq<Command>, id: EntityId)
    requires
        well_formed(live),
        forall|k: int| 0 <= k < cmds.len() ==> named(#[trigger] cmds[k]) != id,
    ensures
        lookup(apply_all(live, cmds), id) == lookup(live, id),
    decreases cmds.len(),
{
    if cmds.len() > 0 {
        assert forall|k: int| 0 <= k < cmds.drop_last().len() implies named(#[trigger] cmds.drop_last()[k]) != id by {
            assert(cmds.drop_last()[k] == cmds[k]);
        }
        lemma_apply_all_untouched(live, cmds.drop_last(), id);
        lemma_apply_all_well_formed(live, cmds.drop_last());
        assert(named(cmds[cmds.len() - 1]) != id);
        lemma_apply_command_lookup(apply_all(live, cmds.drop_last()), cmds.last(), id);
    }
}

/// An entity that is live before and after a flush, and that no request to
/// create or to attach names, has the components it had.
pub proof fn lemma_apply_all_keeps(live: Seq<Entity>, cmds: Seq<Command>, id: EntityId)
    requires
        well_formed(live),
        forall|k: int| 0 <= k < cmds.len() ==> (#[trigger] cmds[k]) is Destroy || named(cmds[k]) != id,
        present(apply_all(live, cmds), id),
    ensures
        lookup(apply_all(live, cmds), id) == lookup(live, id),
    decreases cmds.len(),
{
    if cmds.len() > 0 {
        let earlier = apply_all(live, cmds.drop_last());
        lemma_apply_all_well_formed(live, cmds.drop_last());
        lemma_apply_command_lookup(earlier, cmds.last(), id);
        lemma_position(apply_all(live, cmds), id);
        lemma_position(earlier, id);
        assert(cmds[cmds.len() - 1] is Destroy || named(cmds[cmds.len() - 1]) != id);
        assert forall|k: int| 0 <= k < cmds.drop_last().len() implies (#[trigger] cmds.drop_last()[k]) is Destroy
            || named(cmds.drop_last()[k]) != id by {
            assert(cmds.drop_last()[k] == cmds[k]);
        }
        lemma_apply_all_keeps(live, cmds.drop_last(), id);
    }
}

/// An entity whose creation was asked for under an identifier that is not in
/// use, and that no other request in the queue names, is live after the
/// flush, with the components it was asked for with.
pub proof fn lemma_created_is_live(live: Seq<Entity>, cmds: Seq<Command>, k: int)
    requires
        well_formed(live),
        0 <= k < cmds.len(),
        cmds[k] is Create,
        !cmds[k]->Create_0.components.is_none(),
        !present(live, named(cmds[k])),
        forall|j: int| 0 <= j < cmds.len() && j != k ==> named(#[trigger] cmds[j]) != named(cmds[k]),
    ensures
        lookup(apply_all(live, cmds), named(cmds[k])) == Some(cmds[k]->Create_0.components),
    decreases cmds.len(),
{
    let id = named(cmds[k]);
    let earlier = apply_all(live, cmds.drop_last());
    lemma_apply_all_well_formed(live, cmds.drop_last());
    lemma_position(live, id);
    if k == cmds.len() - 1 {
        assert forall|j: int| 0 <= j < cmds.drop_last().len() implies named(#[trigger] cmds.drop_last()[j]) != id by {
            assert(cmds.drop_last()[j] == cmds[j]);
        }
        lemma_apply_all_untouched(live, cmds.drop_last(), id);
        lemma_apply_command_lookup(earlier, cmds.last(), id);
    } else {
        assert(cmds.drop_last()[k] == cmds[k]);
        assert forall|j: int| 0 <= j < cmds.drop_last().len() && j != k implies named(
            #[trigger] cmds.drop_last()[j],
        ) != id by {
            assert(cmds.drop_last()[j] == cmds[j]);
        }
        lemma_created_is_live(live, cmds.drop_last(), k);
        assert(named(cmds[cmds.len() - 1]) != id);
        lemma_apply_command_lookup(earlier, cmds.last(), id);
    }
}

/// Applying one more request after the others is applying the longer queue.
pub proof fn lemma_apply_all_push(live: Seq<Entity>, cmds: Seq<Command>, cmd: Command)
    ensures
        apply_all(live, cmds.push(cmd)) == apply_command(apply_all(live, cmds), cmd),
{
    assert(cmds.push(cmd).drop_last() =~= cmds);
}

/// Finds the entity with the given identifier.
pub fn find(live: &Vec<Entity>, id: EntityId) -> (r: Option<usize>)
    ensures
        match r {
            Some(i) => i < live@.len() && live@[i as int].id == id && position(live@, id) == Some(i as int),
            None => position(live@, id) is None && !present(live@, id),
        },
{
    proof {
        lemma_position(live@, id);
    }
    let mut i: usize = 0;
    while i < live.len()
        invariant
            i <= live.len(),
            position(live@, id) == position_from(live@, id, i as int),
        decreases live.len() - i,
    {
        if live[i].id.0 == id.0 {
            return Some(i);
        }
        i = i + 1;
    }
    None
}

/// Lets one request take effect.
pub fn apply(live: &mut Vec<Entity>, cmd: Command)
    ensures
        final(live)@ == apply_command(old(live)@, cmd),
{
    match cmd {
        Command::Create(e) => {
            if !e.components.is_empty() {
                if find(live, e.id).is_none() {
                    live.push(e);
                }
            }
        },
        Command::Attach(id, c) => {
            match find(live, id) {
                Some(i) => {
                    let mut components = live[i].components;
                    components.attach(c);
                    live.set(i, Entity { id, components });
                },
                None => {
                    let mut components = Components::empty();
                    components.attach(c);
                    live.push(Entity { id, components });
                },
            }
        },
        Command::Destroy(id) => {
            match find(live, id) {
                Some(i) => {
                    live.remove(i);
                },
                None => {},
            }
        },
    }
}

/// The queue of requests made since the last flush, oldest first.
pub struct CommandBuffer {
    queue: Vec<Command>,
}

impl View for CommandBuffer {
    type V = Seq<Command>;

    closed spec fn view(&self) -> Seq<Command> {
        self.queue@
    }
}

impl CommandBuffer {
    /// An empty queue.
    pub fn new() -> (b: CommandBuffer)
        ensures
            b@ == Seq::<Command>::empty(),
    {
        CommandBuffer { queue: Vec::new() }
    }

    /// The number of requests waiting.
    pub fn len(&self) -> (n: usize)
        ensures
            n == self@.len(),
    {
        self.queue.len()
    }

    /// The request at place `i`, the oldest being at place zero.
    pub fn get(&self, i: usize) -> (cmd: Command)
        requires
            i < self@.len(),
        ensures
            cmd == self@[i as int],
    {
        self.queue[i]
    }

    /// Asks for `entity` to be created.
    pub fn enqueue_create(&mut self, entity: Entity)
        ensures
            final(self)@ == old(self)@.push(Command::Create(entity)),
    {
        self.queue.push(Command::Create(entity));
    }

    /// Asks for `component` to be attached to the entity `id`.
    pub fn enqueue_attach(&mut self, id: EntityId, component: Component)
        ensures
            final(self)@ == old(self)@.push(Command::Attach(id, component)),
    {
        self.queue.push(Command::Attach(id, component));
    }

    /// Asks for the entity `id` to be destroyed.
    pub fn enqueue_destroy(&mut self, id: EntityId)
        ensures
            final(self)@ == old(self)@.push(Command::Destroy(id)),
    {
        self.queue.push(Command::Destroy(id));
    }

    /// Lets every waiting request take effect on `live`, oldest first, and
    /// empties the queue.
    pub fn flush(&mut self, live: &mut Vec<Entity>)
        ensures
            final(live)@ == apply_all(old(live)@, old(self)@),
            final(self)@ == Seq::<Command>::empty(),
    {
        let mut i: usize = 0;
        while i < self.queue.len()
            invariant
                i <= self.queue.len(),
                self.queue@ == old(self).queue@,
                live@ == apply_all(old(live)@, self.queue@.take(i as int)),
            decreases self.queue.len() - i,
        {
            let cmd = self.queue[i];
            proof {
                assert(self.queue@.take(i + 1).drop_last() =~= self.queue@.take(i as int));
            }
            apply(live, cmd);
            i = i + 1;
        }
        proof {
            assert(self.queue@.take(i as int) =~= self.queue@);
        }
        self.queue = Vec::new();
    }
}

} // verus!
