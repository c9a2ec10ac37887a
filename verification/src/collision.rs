//! The collision system: each projectile fired by the player is tested
//! against the targets, oldest first. On its first hit the target and the
//! projectile are asked to be destroyed and an explosion is asked for where
//! the target stood. A projectile scores at most one hit per pass.

use vstd::prelude::*;
use crate::animation::Animation;
use crate::command::{named, present, Command};
use crate::config::{Config, Params};
use crate::entity::{Components, Entity, EntityId, Ownership, Role};
use crate::geometry::{boxes_overlap, overlaps, unit_scale, Extent, Vec2, UNIT};
use crate::store::{Store, StoreState};

verus! {

/// The scale of an entity: the one it carries, or a factor of one.
pub open spec fn scale_of(c: Components) -> Extent {
    match c.scale {
        Some(s) => s,
        None => unit_scale(),
    }
}

/// Whether the components are those of a projectile of the player that can collide.
pub open spec fn is_player_projectile(c: Components) -> bool {
    &&& c.role == Some(Role::Projectile)
    &&& c.ownership == Some(Ownership::Player)
    &&& c.position is Some
    &&& c.size is Some
}

/// Whether the components are those of a target that can be hit.
pub open spec fn is_target(c: Components) -> bool {
    &&& c.role == Some(Role::Target)
    &&& c.position is Some
    &&& c.size is Some
}

/// Whether `a` is a projectile of the player, `b` a target, and their boxes overlap.
pub open spec fn hits(a: Components, b: Components) -> bool {
    &&& is_player_projectile(a)
    &&& is_target(b)
    &&& boxes_overlap(a.position->0, a.size->0, scale_of(a), b.position->0, b.size->0, scale_of(b))
}

/// The place of the first entity at or after `from` that `a` hits.
pub open spec fn first_hit_from(a: Components, live: Seq<Entity>, from: int) -> Option<int>
    decreases live.len() - from,
{
    if from < 0 || from >= live.len() {
        None
    } else if hits(a, live[from].components) {
        Some(from)
    } else {
        first_hit_from(a, live, from + 1)
    }
}

/// The place of the first entity that `a` hits.
pub open spec fn first_hit(a: Components, live: Seq<Entity>) -> Option<int> {
    first_hit_from(a, live, 0)
}

/// The components of an explosion at `at`: a position, the explosion role, an
/// animation at the start of its first frame, and the sprite sheet.
pub open spec fn explosion(at: Vec2, cfg: Params) -> Components {
    Components {
        position: Some(at),
        role: Some(Role::Explosion),
        animation: Some(
            Animation {
                frame_index: 0,
                time_in_frame: 0,
                frame_count: cfg.frame_count,
                frame_period: cfg.frame_period,
            },
        ),
        sprite: Some(cfg.explosion_sheet),
        ..Components::none()
    }
}

/// The store after the entity at place `i` has been tested against the
/// targets. The live entities stay as they are; a hit adds three requests.
pub open spec fn strike(s: StoreState, i: int, cfg: Params) -> StoreState {
    match first_hit(s.live[i].components, s.live) {
        Some(j) => s.enqueue(Command::Destroy(s.live[j].id)).enqueue(Command::Destroy(s.live[i].id)).spawn(
            explosion(s.live[j].components.position->0, cfg),
        ),
        None => s,
    }
}

/// The store after the first `n` entities have been tested, oldest first.
pub open spec fn strike_upto(s: StoreState, n: int, cfg: Params) -> StoreState
    decreases n,
{
    if n <= 0 {
        s
    } else {
        strike(strike_upto(s, n - 1, cfg), n - 1, cfg)
    }
}

/// The store after the collision system has run.
pub open spec fn collision(s: StoreState, cfg: Params) -> StoreState {
    strike_upto(s, s.live.len() as int, cfg)
}

/// `first_hit_from` finds the first entity hit at or after `from`, and finds
/// none only if none is hit.
pub proof fn lemma_first_hit_from(a: Components, live: Seq<Entity>, from: int)
    requires
        0 <= from <= live.len(),
    ensures
        match first_hit_from(a, live, from) {
            Some(j) => from <= j < live.len() && hits(a, live[j].components) && forall|k: int|
                from <= k < j ==> !hits(a, (#[trigger] live[k]).components),
            None => forall|k: int| from <= k < live.len() ==> !hits(a, (#[trigger] live[k]).components),
        },
    decreases live.len() - from,
{
    if from < live.len() && !hits(a, live[from].components) {
        lemma_first_hit_from(a, live, from + 1);
    }
}

/// Testing entities against the targets keeps a store in order, changes no
/// live entity, and hands out at most one identifier per entity tested.
pub proof fn lemma_strike_upto_wf(s: StoreState, n: int, cfg: Params)
    requires
        s.wf(),
        0 <= n <= s.live.len(),
        s.can_issue(n as nat),
    ensures
        strike_upto(s, n, cfg).wf(),
        strike_upto(s, n, cfg).live == s.live,
        s.next_id <= strike_upto(s, n, cfg).next_id <= s.next_id + n,
    decreases n,
{
    if n > 0 {
        lemma_strike_upto_wf(s, n - 1, cfg);
        let earlier = strike_upto(s, n - 1, cfg);
        lemma_first_hit_from(earlier.live[n - 1].components, earlier.live, 0);
        match first_hit(earlier.live[n - 1].components, earlier.live) {
            Some(j) => {
                assert(earlier.live[j].id.0 < earlier.next_id);
                assert(earlier.live[n - 1].id.0 < earlier.next_id);
            },
            None => {},
        }
    }
}

/// What a request that the collision system adds can be: the destruction of
/// a live entity, or the creation of one under an identifier handed out
/// between the two given stores.
pub open spec fn asked_by_collision(cmd: Command, from: StoreState, to: StoreState) -> bool {
    match cmd {
        Command::Destroy(id) => present(from.live, id),
        Command::Create(e) => from.next_id <= e.id.0 < to.next_id,
        Command::Attach(_, _) => false,
    }
}

/// Testing more entities only adds requests behind those that wait already,
/// each of them the destruction of a live entity or the creation of a new one.
pub proof fn lemma_strike_upto_extends(s: StoreState, a: int, b: int, cfg: Params)
    requires
        s.wf(),
        0 <= a <= b <= s.live.len(),
        s.can_issue(b as nat),
    ensures
        strike_upto(s, a, cfg).pending.len() <= strike_upto(s, b, cfg).pending.len(),
        strike_upto(s, a, cfg).next_id <= strike_upto(s, b, cfg).next_id,
        forall|k: int|
            0 <= k < strike_upto(s, a, cfg).pending.len() ==> #[trigger] strike_upto(s, b, cfg).pending[k]
                == strike_upto(s, a, cfg).pending[k],
        forall|k: int|
            strike_upto(s, a, cfg).pending.len() <= k < strike_upto(s, b, cfg).pending.len()
                ==> asked_by_collision(
                #[trigger] strike_upto(s, b, cfg).pending[k],
                strike_upto(s, a, cfg),
                strike_upto(s, b, cfg),
            ),
    decreases b - a,
{
    if a < b {
        lemma_strike_upto_extends(s, a, b - 1, cfg);
        lemma_strike_upto_wf(s, a, cfg);
        lemma_strike_upto_wf(s, b - 1, cfg);
        let from = strike_upto(s, a, cfg);
        let earlier = strike_upto(s, b - 1, cfg);
        let to = strike_upto(s, b, cfg);
        lemma_first_hit_from(earlier.live[b - 1].components, earlier.live, 0);
        assert forall|k: int| from.pending.len() <= k < to.pending.len() implies asked_by_collision(
            #[trigger] to.pending[k],
            from,
            to,
        ) by {
            if k < earlier.pending.len() {
                assert(to.pending[k] == earlier.pending[k]);
                assert(asked_by_collision(earlier.pending[k], from, earlier));
            } else {
                let j = first_hit(earlier.live[b - 1].components, earlier.live)->0;
                assert(from.live[j].id == earlier.live[j].id);
                assert(from.live[b - 1].id == earlier.live[b - 1].id);
            }
        }
    }
}

/// Where the entity at place `i` hits a target, the collision system asks for
/// the destruction of the target, then of the entity, then for an explosion
/// where the target stands, under an identifier that no other request names.
pub proof fn lemma_hit_is_requested(s: StoreState, i: int, cfg: Params)
    requires
        s.wf(),
        s.can_issue(s.live.len()),
        0 <= i < s.live.len(),
        first_hit(s.live[i].components, s.live) is Some,
    ensures
        ({
            let j = first_hit(s.live[i].components, s.live)->0;
            let at = strike_upto(s, i, cfg).pending.len() as int;
            let id = EntityId(strike_upto(s, i, cfg).next_id);
            let all = collision(s, cfg).pending;
            &&& 0 <= j < s.live.len()
            &&& hits(s.live[i].components, s.live[j].components)
            &&& s.pending.len() <= at
            &&& at + 3 <= all.len()
            &&& all[at] == Command::Destroy(s.live[j].id)
            &&& all[at + 1] == Command::Destroy(s.live[i].id)
            &&& all[at + 2] == Command::Create(
                Entity { id, components: explosion(s.live[j].components.position->0, cfg) },
            )
            &&& !present(s.live, id)
            &&& forall|k: int| 0 <= k < all.len() && k != at + 2 ==> named(#[trigger] all[k]) != id
        }),
{
    let n = s.live.len() as int;
    let earlier = strike_upto(s, i, cfg);
    let next = strike_upto(s, i + 1, cfg);
    let last = collision(s, cfg);
    let id = EntityId(earlier.next_id);
    lemma_strike_upto_wf(s, i, cfg);
    lemma_strike_upto_wf(s, i + 1, cfg);
    lemma_strike_upto_extends(s, 0, i, cfg);
    lemma_strike_upto_extends(s, i + 1, n, cfg);
    lemma_first_hit_from(s.live[i].components, s.live, 0);
    let at = earlier.pending.len() as int;
    assert(next.pending.len() == at + 3);
    assert(last.pending[at] == next.pending[at]);
    assert(last.pending[at + 1] == next.pending[at + 1]);
    assert(last.pending[at + 2] == next.pending[at + 2]);
    assert forall|k: int| 0 <= k < last.pending.len() && k != at + 2 implies named(#[trigger] last.pending[k])
        != id by {
        if k < at {
            assert(last.pending[k] == next.pending[k]);
            assert(named(earlier.pending[k]).0 < earlier.next_id);
        } else if k < at + 2 {
            assert(last.pending[k] == next.pending[k]);
            let j = first_hit(s.live[i].components, s.live)->0;
            assert(s.live[j].id.0 < s.next_id);
            assert(s.live[i].id.0 < s.next_id);
        } else {
            assert(asked_by_collision(last.pending[k], next, last));
            match last.pending[k] {
                Command::Destroy(gone) => {
                    let w = choose|w: int| 0 <= w < next.live.len() && (#[trigger] next.live[w]).id == gone;
                    assert(s.live[w].id.0 < s.next_id);
                },
                _ => {},
            }
        }
    }
}

/// The number of entities among the first `n` that hit a target.
pub open spec fn hits_upto(live: Seq<Entity>, n: int) -> nat
    decreases n,
{
    if n <= 0 {
        0
    } else if first_hit(live[n - 1].components, live) is Some {
        hits_upto(live, n - 1) + 1
    } else {
        hits_upto(live, n - 1)
    }
}

/// The collision system hands out one identifier, and asks for one explosion
/// and two destructions, for each entity that hits a target: no more, however
/// many targets the entity overlaps, and no fewer.
pub proof fn lemma_one_explosion_per_hit(s: StoreState, n: int, cfg: Params)
    requires
        0 <= n <= s.live.len(),
        s.can_issue(n as nat),
    ensures
        hits_upto(s.live, n) <= n,
        strike_upto(s, n, cfg).live == s.live,
        strike_upto(s, n, cfg).next_id == s.next_id + hits_upto(s.live, n),
        strike_upto(s, n, cfg).pending.len() == s.pending.len() + 3 * hits_upto(s.live, n),
    decreases n,
{
    if n > 0 {
        lemma_one_explosion_per_hit(s, n - 1, cfg);
    }
}

/// Where no entity hits a target, the collision system changes nothing.
pub proof fn lemma_no_hit_no_change(s: StoreState, n: int, cfg: Params)
    requires
        0 <= n <= s.live.len(),
        forall|i: int| 0 <= i < n ==> first_hit((#[trigger] s.live[i]).components, s.live) is None,
    ensures
        strike_upto(s, n, cfg) == s,
    decreases n,
{
    if n > 0 {
        lemma_no_hit_no_change(s, n - 1, cfg);
        assert(first_hit(s.live[n - 1].components, s.live) is None);
    }
}

/// The collision system keeps a store in order and changes no live entity.
pub proof fn lemma_collision_wf(s: StoreState, cfg: Params)
    requires
        s.wf(),
        s.can_issue(s.live.len()),
    ensures
        collision(s, cfg).wf(),
        collision(s, cfg).live == s.live,
        s.next_id <= collision(s, cfg).next_id <= s.next_id + s.live.len(),
{
    lemma_strike_upto_wf(s, s.live.len() as int, cfg);
}

fn scale_or_unit(c: &Components) -> (s: Extent)
    ensures
        s == scale_of(*c),
{
    match c.scale {
        Some(s) => s,
        None => Extent { x: UNIT as u32, y: UNIT as u32 },
    }
}

fn carries_player_projectile(c: &Components) -> (r: bool)
    ensures
        r == is_player_projectile(*c),
{
    let role = match c.role {
        Some(Role::Projectile) => true,
        _ => false,
    };
    let owner = match c.ownership {
        Some(Ownership::Player) => true,
        _ => false,
    };
    role && owner && c.position.is_some() && c.size.is_some()
}

fn carries_target(c: &Components) -> (r: bool)
    ensures
        r == is_target(*c),
{
    let role = match c.role {
        Some(Role::Target) => true,
        _ => false,
    };
    role && c.position.is_some() && c.size.is_some()
}

/// Tells whether a projectile of the player with components `a` hits a
/// target with components `b`.
pub fn collides(a: &Components, b: &Components) -> (r: bool)
    ensures
        r == hits(*a, *b),
{
    if carries_player_projectile(a) && carries_target(b) {
        match (a.position, a.size, b.position, b.size) {
            (Some(a_pos), Some(a_size), Some(b_pos), Some(b_size)) => overlaps(
                a_pos,
                a_size,
                scale_or_unit(a),
                b_pos,
                b_size,
                scale_or_unit(b),
            ),
            _ => false,
        }
    } else {
        false
    }
}

/// Finds the oldest live entity that `a` hits.
pub fn find_first_hit(store: &Store, a: &Components) -> (r: Option<usize>)
    ensures
        match r {
            Some(j) => first_hit(*a, store@.live) == Some(j as int) && j < store@.live.len(),
            None => first_hit(*a, store@.live) is None,
        },
{
    let n: usize = store.len();
    let mut j: usize = 0;
    while j < n
        invariant
            j <= n,
            n == store@.live.len(),
            first_hit(*a, store@.live) == first_hit_from(*a, store@.live, j as int),
        decreases n - j,
    {
        let b = store.entity_at(j);
        if collides(a, &b.components) {
            return Some(j);
        }
        j = j + 1;
    }
    None
}

/// Makes the components of an explosion at `at`.
pub fn make_explosion(at: Vec2, cfg: &Params) -> (c: Components)
    ensures
        c == explosion(at, *cfg),
{
    let mut c = Components::empty();
    c.position = Some(at);
    c.role = Some(Role::Explosion);
    c.animation = Some(Animation::new(cfg.frame_count, cfg.frame_period));
    c.sprite = Some(cfg.explosion_sheet);
    c
}

/// Runs the collision system once over the store.
pub fn run_collision(store: &mut Store, cfg: &Config)
    requires
        old(store)@.can_issue(old(store)@.live.len()),
    ensures
        final(store)@ == collision(old(store)@, cfg@),
        old(store).wf() ==> final(store).wf(),
{
    let params = cfg.params();
    let n: usize = store.len();
    let ghost before = store@;
    let mut i: usize = 0;
    while i < n
        invariant
            i <= n,
            n == before.live.len(),
            before.can_issue(n as nat),
            before == old(store)@,
            before.wf() ==> store.wf(),
            store@ == strike_upto(before, i as int, params),
            store@.live == before.live,
            store@.next_id <= before.next_id + i,
        decreases n - i,
    {
        let a = store.entity_at(i);
        match find_first_hit(store, &a.components) {
            Some(j) => {
                let b = store.entity_at(j);
                proof {
                    lemma_first_hit_from(a.components, store@.live, 0);
                }
                match b.components.position {
                    Some(at) => {
                        store.request_destroy_at(j);
                        store.request_destroy_at(i);
                        store.spawn(make_explosion(at, &params));
                    },
                    None => {},
                }
            },
            None => {},
        }
        i = i + 1;
    }
}

} // verus!
