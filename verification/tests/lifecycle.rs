use invadrust::command::{apply, find};
use invadrust::{
    AssetHandle, Command, CommandBuffer, Component, Components, Config, Entity, EntityId, Extent, Filter,
    Movable, Ownership, Params, Role, Simulation, Store, Vec2, WinSize,
};

fn tagged(role: Role) -> Components {
    let mut c = Components::empty();
    c.role = Some(role);
    c
}

fn entity(id: u64, role: Role) -> Entity {
    Entity { id: EntityId(id), components: tagged(role) }
}

fn config() -> Config {
    Config::new(Params::defaults(WinSize { w: 598_000, h: 676_000 }, AssetHandle(4))).unwrap()
}

#[test]
fn find_gives_the_place_of_an_entity() {
    let live = vec![entity(4, Role::Target), entity(2, Role::Projectile), entity(9, Role::Explosion)];
    assert_eq!(find(&live, EntityId(4)), Some(0));
    assert_eq!(find(&live, EntityId(2)), Some(1));
    assert_eq!(find(&live, EntityId(9)), Some(2));
    assert_eq!(find(&live, EntityId(3)), None);
    assert_eq!(find(&Vec::new(), EntityId(0)), None);
}

#[test]
fn create_adds_at_the_end() {
    let mut live = vec![entity(1, Role::Target)];
    apply(&mut live, Command::Create(entity(5, Role::Projectile)));
    assert_eq!(live, vec![entity(1, Role::Target), entity(5, Role::Projectile)]);
}

#[test]
fn create_under_a_taken_identifier_does_nothing() {
    let mut live = vec![entity(1, Role::Target)];
    apply(&mut live, Command::Create(entity(1, Role::Projectile)));
    assert_eq!(live, vec![entity(1, Role::Target)]);
}

#[test]
fn create_without_components_does_nothing() {
    let mut live = vec![entity(1, Role::Target)];
    apply(&mut live, Command::Create(Entity { id: EntityId(2), components: Components::empty() }));
    assert_eq!(live, vec![entity(1, Role::Target)]);
}

#[test]
fn destroy_removes_and_keeps_the_order() {
    let mut live = vec![entity(1, Role::Target), entity(2, Role::Projectile), entity(3, Role::Explosion)];
    apply(&mut live, Command::Destroy(EntityId(2)));
    assert_eq!(live, vec![entity(1, Role::Target), entity(3, Role::Explosion)]);
    apply(&mut live, Command::Destroy(EntityId(2)));
    assert_eq!(live, vec![entity(1, Role::Target), entity(3, Role::Explosion)]);
    apply(&mut live, Command::Destroy(EntityId(1)));
    apply(&mut live, Command::Destroy(EntityId(3)));
    assert!(live.is_empty());
    apply(&mut live, Command::Destroy(EntityId(3)));
    assert!(live.is_empty());
}

#[test]
fn attach_replaces_a_component_of_the_same_kind() {
    let mut live = vec![entity(1, Role::Target), entity(2, Role::Projectile)];
    apply(&mut live, Command::Attach(EntityId(2), Component::Role(Role::Explosion)));
    apply(&mut live, Command::Attach(EntityId(2), Component::Ownership(Ownership::Enemy)));
    let mut expected = tagged(Role::Explosion);
    expected.ownership = Some(Ownership::Enemy);
    assert_eq!(live, vec![entity(1, Role::Target), Entity { id: EntityId(2), components: expected }]);
}

#[test]
fn attach_brings_an_entity_into_being() {
    let mut live = vec![entity(1, Role::Target)];
    apply(&mut live, Command::Attach(EntityId(7), Component::Movable(Movable { auto_despawn: true })));
    let mut expected = Components::empty();
    expected.movable = Some(Movable { auto_despawn: true });
    assert_eq!(live, vec![entity(1, Role::Target), Entity { id: EntityId(7), components: expected }]);
}

#[test]
fn each_kind_of_component_is_attached_in_its_place() {
    let mut c = Components::empty();
    assert!(c.is_empty());
    c.attach(Component::Position(Vec2 { x: 1, y: 2 }));
    assert!(!c.is_empty());
    c.attach(Component::Velocity(Vec2 { x: 3, y: 4 }));
    c.attach(Component::Size(Extent { x: 5, y: 6 }));
    c.attach(Component::Scale(Extent { x: 7, y: 8 }));
    c.attach(Component::Movable(Movable { auto_despawn: false }));
    c.attach(Component::Ownership(Ownership::Player));
    c.attach(Component::Role(Role::Projectile));
    c.attach(Component::Sprite(AssetHandle(9)));
    assert_eq!(c.position, Some(Vec2 { x: 1, y: 2 }));
    assert_eq!(c.velocity, Some(Vec2 { x: 3, y: 4 }));
    assert_eq!(c.size, Some(Extent { x: 5, y: 6 }));
    assert_eq!(c.scale, Some(Extent { x: 7, y: 8 }));
    assert_eq!(c.movable, Some(Movable { auto_despawn: false }));
    assert_eq!(c.ownership, Some(Ownership::Player));
    assert_eq!(c.role, Some(Role::Projectile));
    assert_eq!(c.sprite, Some(AssetHandle(9)));
    assert_eq!(c.animation, None);
    let mut f = Filter::any();
    assert!(f.matches(&c));
    assert!(f.matches(&Components::empty()));
    f.scale = true;
    f.sprite = true;
    f.size = true;
    f.ownership = Some(Ownership::Player);
    assert!(f.matches(&c));
    f.ownership = Some(Ownership::Enemy);
    assert!(!f.matches(&c));
    f.ownership = None;
    f.animation = true;
    assert!(!f.matches(&c));
}

#[test]
fn buffer_flushes_in_the_order_asked() {
    let mut buffer = CommandBuffer::new();
    let mut live: Vec<Entity> = Vec::new();
    buffer.enqueue_create(entity(1, Role::Target));
    buffer.enqueue_create(entity(2, Role::Projectile));
    buffer.enqueue_destroy(EntityId(1));
    buffer.enqueue_attach(EntityId(2), Component::Ownership(Ownership::Player));
    buffer.enqueue_destroy(EntityId(3));
    buffer.enqueue_create(entity(3, Role::Explosion));
    assert_eq!(buffer.len(), 6);
    assert_eq!(buffer.get(2), Command::Destroy(EntityId(1)));
    buffer.flush(&mut live);
    assert_eq!(buffer.len(), 0);
    let mut shot = tagged(Role::Projectile);
    shot.ownership = Some(Ownership::Player);
    assert_eq!(live, vec![Entity { id: EntityId(2), components: shot }, entity(3, Role::Explosion)]);
    buffer.flush(&mut live);
    assert_eq!(live.len(), 2);
}

#[test]
fn repeated_destroy_in_one_flush_is_harmless() {
    let mut buffer = CommandBuffer::new();
    let mut live = vec![entity(1, Role::Target), entity(2, Role::Target)];
    buffer.enqueue_destroy(EntityId(1));
    buffer.enqueue_destroy(EntityId(1));
    buffer.flush(&mut live);
    assert_eq!(live, vec![entity(2, Role::Target)]);
}

#[test]
fn two_projectiles_on_one_target_leave_two_explosions() {
    let mut sim = Simulation::new(config());
    let mut shot = tagged(Role::Projectile);
    shot.ownership = Some(Ownership::Player);
    shot.position = Some(Vec2 { x: 0, y: 0 });
    shot.size = Some(Extent { x: 6_000, y: 36_000 });
    let mut foe = tagged(Role::Target);
    foe.position = Some(Vec2 { x: 2_000, y: 0 });
    foe.size = Some(Extent { x: 93_000, y: 84_000 });
    let a = sim.store.spawn(shot);
    let b = sim.store.spawn(shot);
    let t = sim.store.spawn(foe);
    sim.store.apply_pending();
    sim.tick(16_666_667);
    assert!(!sim.store.contains(a));
    assert!(!sim.store.contains(b));
    assert!(!sim.store.contains(t));
    let all = sim.store.query(&Filter::any());
    assert_eq!(all.len(), 2);
    assert_eq!(all[0].id, EntityId(3));
    assert_eq!(all[1].id, EntityId(4));
    assert_eq!(all[0].components.position, Some(Vec2 { x: 2_000, y: 0 }));
    assert_eq!(all[1].components.position, Some(Vec2 { x: 2_000, y: 0 }));
    assert_eq!(all[0].components.role, Some(Role::Explosion));
}

#[test]
fn new_explosion_is_animated_in_the_tick_that_made_it() {
    let mut params = Params::defaults(WinSize { w: 598_000, h: 676_000 }, AssetHandle(4));
    params.frame_count = 3;
    params.frame_period = 100;
    let mut sim = Simulation::new(Config::new(params).unwrap());
    let mut shot = tagged(Role::Projectile);
    shot.ownership = Some(Ownership::Player);
    shot.position = Some(Vec2 { x: 0, y: 0 });
    shot.size = Some(Extent { x: 1, y: 1 });
    let mut foe = tagged(Role::Target);
    foe.position = Some(Vec2 { x: 0, y: 0 });
    foe.size = Some(Extent { x: 1, y: 1 });
    sim.store.spawn(shot);
    sim.store.spawn(foe);
    sim.store.apply_pending();
    sim.tick(30);
    let burst = sim.store.get(EntityId(2)).unwrap().animation.unwrap();
    assert_eq!(burst.frame_index, 0);
    assert_eq!(burst.time_in_frame, 30);
    assert_eq!(burst.frame_count, 3);
    assert_eq!(burst.frame_period, 100);
    sim.tick(70);
    sim.tick(100);
    assert!(sim.store.contains(EntityId(2)));
    sim.tick(100);
    assert!(sim.store.contains(EntityId(2)));
    assert_eq!(sim.store.pending_len(), 1);
    sim.tick(100);
    assert_eq!(sim.store.len(), 0);
}

#[test]
fn store_knows_how_many_identifiers_are_left() {
    let mut store = Store::new();
    assert!(store.has_room(0));
    assert!(store.has_room(1));
    assert!(store.has_room(usize::MAX));
    store.create();
    assert!(store.has_room(usize::MAX - 1));
    assert!(!store.has_room(usize::MAX));
    assert_eq!(store.issued(), 1);
}

#[test]
fn try_tick_ticks_while_identifiers_are_left() {
    let mut sim = Simulation::new(config());
    let mut c = Components::empty();
    c.position = Some(Vec2 { x: 0, y: 0 });
    c.velocity = Some(Vec2 { x: -1_000, y: 2_000 });
    c.movable = Some(Movable { auto_despawn: false });
    let id = sim.store.spawn(c);
    sim.store.apply_pending();
    assert!(sim.ready());
    assert!(sim.try_tick(5));
    assert_eq!(sim.store.get(id).unwrap().position, Some(Vec2 { x: -8_333, y: 16_666 }));
    assert_eq!(sim.store.entity_at(0).id, id);
}
