use invadrust::animation::run_animation;
use invadrust::collision::run_collision;
use invadrust::movement::run_movement;
use invadrust::{
    Animation, AnimationState, AssetHandle, Command, Component, Components, Config, EntityId, Extent,
    Filter, Movable, Ownership, Params, Role, Simulation, Vec2, WinSize,
};

const SHEET: AssetHandle = AssetHandle(7);

fn playfield() -> WinSize {
    WinSize { w: 598_000, h: 676_000 }
}

fn standard_config() -> Config {
    Config::new(Params::defaults(playfield(), SHEET)).unwrap()
}

fn config_with_frames(frame_count: u32, frame_period: u64) -> Config {
    let mut params = Params::defaults(playfield(), SHEET);
    params.frame_count = frame_count;
    params.frame_period = frame_period;
    Config::new(params).unwrap()
}

fn projectile(at: Vec2) -> Components {
    let mut c = Components::empty();
    c.position = Some(at);
    c.size = Some(Extent { x: 6_000, y: 36_000 });
    c.role = Some(Role::Projectile);
    c.ownership = Some(Ownership::Player);
    c
}

fn target(at: Vec2) -> Components {
    let mut c = Components::empty();
    c.position = Some(at);
    c.size = Some(Extent { x: 93_000, y: 84_000 });
    c.role = Some(Role::Target);
    c
}

fn mover(at: Vec2, velocity: Vec2, auto_despawn: bool) -> Components {
    let mut c = Components::empty();
    c.position = Some(at);
    c.velocity = Some(velocity);
    c.movable = Some(Movable { auto_despawn });
    c
}

fn explosions() -> Filter {
    let mut f = Filter::any();
    f.role = Some(Role::Explosion);
    f
}

#[test]
fn entity_leaving_the_playfield_is_removed() {
    let mut sim = Simulation::new(standard_config());
    let id = sim.store.spawn(mover(Vec2 { x: 400_000, y: 0 }, Vec2 { x: 1_000, y: 0 }, true));
    sim.store.apply_pending();
    assert!(sim.store.contains(id));
    sim.tick(16_666_667);
    assert!(!sim.store.contains(id));
    assert_eq!(sim.store.len(), 0);
}

#[test]
fn entity_inside_the_margin_stays() {
    let mut sim = Simulation::new(standard_config());
    let id = sim.store.spawn(mover(Vec2 { x: 380_000, y: 0 }, Vec2 { x: 1_000, y: 0 }, true));
    sim.store.apply_pending();
    sim.tick(16_666_667);
    assert_eq!(sim.store.get(id).unwrap().position, Some(Vec2 { x: 388_333, y: 0 }));
    sim.tick(16_666_667);
    assert_eq!(sim.store.get(id).unwrap().position, Some(Vec2 { x: 396_666, y: 0 }));
    sim.tick(16_666_667);
    assert!(!sim.store.contains(id));
}

#[test]
fn entity_without_auto_despawn_keeps_going() {
    let mut sim = Simulation::new(standard_config());
    let id = sim.store.spawn(mover(Vec2 { x: 400_000, y: 0 }, Vec2 { x: 1_000, y: 0 }, false));
    sim.store.apply_pending();
    sim.tick(16_666_667);
    assert_eq!(sim.store.get(id).unwrap().position, Some(Vec2 { x: 408_333, y: 0 }));
    assert_eq!(sim.store.pending_len(), 0);
}

#[test]
fn overlapping_projectile_and_target_leave_one_explosion() {
    let mut sim = Simulation::new(standard_config());
    let shot = sim.store.spawn(projectile(Vec2 { x: 0, y: 0 }));
    let foe = sim.store.spawn(target(Vec2 { x: 0, y: 0 }));
    sim.store.apply_pending();
    sim.tick(16_666_667);
    assert!(!sim.store.contains(shot));
    assert!(!sim.store.contains(foe));
    let found = sim.store.query(&explosions());
    assert_eq!(found.len(), 1);
    assert_eq!(found[0].components.position, Some(Vec2 { x: 0, y: 0 }));
    assert_eq!(found[0].components.sprite, Some(SHEET));
    assert_eq!(sim.store.len(), 1);
}

#[test]
fn distant_projectile_and_target_do_not_collide() {
    let mut sim = Simulation::new(standard_config());
    let shot = sim.store.spawn(projectile(Vec2 { x: 0, y: 0 }));
    let foe = sim.store.spawn(target(Vec2 { x: 500_000, y: 500_000 }));
    sim.store.apply_pending();
    sim.tick(16_666_667);
    assert!(sim.store.contains(shot));
    assert!(sim.store.contains(foe));
    assert_eq!(sim.store.query(&explosions()).len(), 0);
    assert_eq!(sim.store.len(), 2);
    assert_eq!(sim.store.pending_len(), 0);
}

#[test]
fn projectile_over_two_targets_hits_the_older_one_only() {
    let mut sim = Simulation::new(standard_config());
    let first = sim.store.spawn(target(Vec2 { x: 10_000, y: 0 }));
    let shot = sim.store.spawn(projectile(Vec2 { x: 0, y: 0 }));
    let second = sim.store.spawn(target(Vec2 { x: -10_000, y: 0 }));
    sim.store.apply_pending();
    sim.tick(16_666_667);
    assert!(!sim.store.contains(first));
    assert!(!sim.store.contains(shot));
    assert!(sim.store.contains(second));
    let found = sim.store.query(&explosions());
    assert_eq!(found.len(), 1);
    assert_eq!(found[0].components.position, Some(Vec2 { x: 10_000, y: 0 }));
}

#[test]
fn enemy_projectile_does_not_hit_targets() {
    let mut sim = Simulation::new(standard_config());
    let mut c = projectile(Vec2 { x: 0, y: 0 });
    c.ownership = Some(Ownership::Enemy);
    let shot = sim.store.spawn(c);
    let foe = sim.store.spawn(target(Vec2 { x: 0, y: 0 }));
    sim.store.apply_pending();
    sim.tick(16_666_667);
    assert!(sim.store.contains(shot));
    assert!(sim.store.contains(foe));
}

#[test]
fn explosion_ends_after_its_last_frame_and_not_before() {
    let mut sim = Simulation::new(config_with_frames(16, 100_000_000));
    let mut c = Components::empty();
    c.position = Some(Vec2 { x: 0, y: 0 });
    c.role = Some(Role::Explosion);
    c.animation = Some(Animation::new(16, 100_000_000));
    let id = sim.store.spawn(c);
    sim.store.apply_pending();
    let mut n: u32 = 0;
    while n < 15 {
        sim.tick(100_000_000);
        n += 1;
        let a = sim.store.get(id).unwrap().animation.unwrap();
        assert_eq!(a.current_state(), AnimationState::Playing { frame_index: n, time_in_frame: 0 });
        assert_eq!(sim.store.pending_len(), 0);
    }
    sim.store.apply_pending();
    assert!(sim.store.contains(id));
    sim.tick(100_000_000);
    let a = sim.store.get(id).unwrap().animation.unwrap();
    assert_eq!(a.current_state(), AnimationState::Despawned);
    assert_eq!(sim.store.pending_len(), 1);
    assert_eq!(sim.store.pending_at(0), Command::Destroy(id));
    sim.store.apply_pending();
    assert!(!sim.store.contains(id));
}

#[test]
fn finished_explosion_is_gone_after_the_next_tick() {
    let mut sim = Simulation::new(config_with_frames(2, 100_000_000));
    let mut c = Components::empty();
    c.animation = Some(Animation::new(2, 100_000_000));
    let id = sim.store.spawn(c);
    sim.store.apply_pending();
    sim.tick(100_000_000);
    sim.tick(100_000_000);
    assert!(sim.store.contains(id));
    sim.tick(100_000_000);
    assert!(!sim.store.contains(id));
}

#[test]
fn animation_keeps_time_within_a_frame() {
    let mut a = Animation::new(3, 100);
    assert!(!a.advance(40));
    assert_eq!(a.current_state(), AnimationState::Playing { frame_index: 0, time_in_frame: 40 });
    assert!(!a.advance(59));
    assert_eq!(a.current_state(), AnimationState::Playing { frame_index: 0, time_in_frame: 99 });
    assert!(!a.advance(1));
    assert_eq!(a.current_state(), AnimationState::Playing { frame_index: 1, time_in_frame: 0 });
    assert!(!a.advance(1_000));
    assert_eq!(a.current_state(), AnimationState::Playing { frame_index: 2, time_in_frame: 0 });
    assert!(a.advance(u64::MAX));
    assert_eq!(a.current_state(), AnimationState::Despawned);
    let before = a;
    assert!(a.advance(5));
    assert_eq!(a, before);
    assert!(a.finished());
}

#[test]
fn animation_time_does_not_wrap() {
    let mut a = Animation { frame_index: 0, time_in_frame: u64::MAX - 1, frame_count: 2, frame_period: u64::MAX };
    assert!(!a.advance(u64::MAX));
    assert_eq!(a.current_state(), AnimationState::Playing { frame_index: 1, time_in_frame: 0 });
}

#[test]
fn destroying_twice_removes_once() {
    let mut sim = Simulation::new(standard_config());
    let keep = sim.store.spawn(target(Vec2 { x: 0, y: 0 }));
    let gone = sim.store.spawn(target(Vec2 { x: 1, y: 1 }));
    sim.store.apply_pending();
    sim.store.request_destroy(gone);
    sim.store.request_destroy(gone);
    assert_eq!(sim.store.pending_len(), 2);
    sim.store.apply_pending();
    assert!(!sim.store.contains(gone));
    assert!(sim.store.contains(keep));
    assert_eq!(sim.store.len(), 1);
    assert_eq!(sim.store.pending_len(), 0);
}

#[test]
fn destroying_an_unknown_entity_changes_nothing() {
    let mut sim = Simulation::new(standard_config());
    let keep = sim.store.spawn(target(Vec2 { x: 0, y: 0 }));
    sim.store.apply_pending();
    sim.store.request_destroy(EntityId(99));
    sim.store.apply_pending();
    assert!(sim.store.contains(keep));
    assert_eq!(sim.store.len(), 1);
}

#[test]
fn destruction_is_not_seen_before_the_flush() {
    let mut sim = Simulation::new(standard_config());
    let shot = sim.store.spawn(projectile(Vec2 { x: 0, y: 0 }));
    let foe = sim.store.spawn(target(Vec2 { x: 0, y: 0 }));
    sim.store.apply_pending();
    let config = sim.config;
    run_movement(&mut sim.store, &config);
    run_collision(&mut sim.store, &config);
    let all = sim.store.query(&Filter::any());
    assert_eq!(all.len(), 2);
    assert_eq!(all[0].id, shot);
    assert_eq!(all[1].id, foe);
    assert_eq!(sim.store.pending_len(), 3);
    assert_eq!(sim.store.pending_at(0), Command::Destroy(foe));
    assert_eq!(sim.store.pending_at(1), Command::Destroy(shot));
    assert_eq!(sim.store.query(&explosions()).len(), 0);
    sim.store.apply_pending();
    let all = sim.store.query(&Filter::any());
    assert_eq!(all.len(), 1);
    assert_eq!(all[0].components.role, Some(Role::Explosion));
    assert!(!sim.store.contains(shot));
    assert!(!sim.store.contains(foe));
}

#[test]
fn creation_is_not_seen_before_the_flush() {
    let mut sim = Simulation::new(standard_config());
    let id = sim.store.spawn(target(Vec2 { x: 0, y: 0 }));
    assert!(!sim.store.contains(id));
    assert_eq!(sim.store.query(&Filter::any()).len(), 0);
    sim.store.apply_pending();
    assert!(sim.store.contains(id));
    assert_eq!(sim.store.get(id), Some(target(Vec2 { x: 0, y: 0 })));
}

#[test]
fn requests_take_effect_in_the_order_made() {
    let mut sim = Simulation::new(standard_config());
    let id = sim.store.spawn(target(Vec2 { x: 0, y: 0 }));
    sim.store.request_destroy(id);
    assert_eq!(sim.store.attach(id, Component::Role(Role::Explosion)), Ok(()));
    sim.store.apply_pending();
    let mut only_role = Components::empty();
    only_role.role = Some(Role::Explosion);
    assert_eq!(sim.store.get(id), Some(only_role));
}

#[test]
fn identifier_becomes_an_entity_with_its_first_component() {
    let mut sim = Simulation::new(standard_config());
    let id = sim.store.create();
    sim.store.apply_pending();
    assert!(!sim.store.contains(id));
    assert_eq!(sim.store.attach(id, Component::Position(Vec2 { x: 3, y: 4 })), Ok(()));
    assert_eq!(sim.store.attach(id, Component::Velocity(Vec2 { x: 1, y: 0 })), Ok(()));
    assert!(!sim.store.contains(id));
    sim.store.apply_pending();
    let c = sim.store.get(id).unwrap();
    assert_eq!(c.position, Some(Vec2 { x: 3, y: 4 }));
    assert_eq!(c.velocity, Some(Vec2 { x: 1, y: 0 }));
    assert_eq!(c.role, None);
    assert_eq!(sim.store.attach(id, Component::Position(Vec2 { x: 5, y: 6 })), Ok(()));
    sim.store.apply_pending();
    assert_eq!(sim.store.get(id).unwrap().position, Some(Vec2 { x: 5, y: 6 }));
    assert_eq!(sim.store.len(), 1);
}

#[test]
fn attaching_to_a_foreign_identifier_is_turned_down() {
    let mut sim = Simulation::new(standard_config());
    let r = sim.store.attach(EntityId(0), Component::Role(Role::Target));
    assert_eq!(r, Err(invadrust::StoreError::UnknownEntity));
    assert_eq!(sim.store.pending_len(), 0);
}

#[test]
fn entity_without_components_is_not_created() {
    let mut sim = Simulation::new(standard_config());
    let id = sim.store.spawn(Components::empty());
    sim.store.apply_pending();
    assert!(!sim.store.contains(id));
    assert_eq!(sim.store.len(), 0);
}

#[test]
fn identifiers_are_handed_out_once() {
    let mut sim = Simulation::new(standard_config());
    let a = sim.store.create();
    let b = sim.store.spawn(target(Vec2 { x: 0, y: 0 }));
    let c = sim.store.create();
    assert_eq!(a, EntityId(0));
    assert_eq!(b, EntityId(1));
    assert_eq!(c, EntityId(2));
    assert_eq!(sim.store.issued(), 3);
}

#[test]
fn query_selects_by_components() {
    let mut sim = Simulation::new(standard_config());
    let shot = sim.store.spawn(projectile(Vec2 { x: 0, y: 300_000 }));
    let foe = sim.store.spawn(target(Vec2 { x: 0, y: -300_000 }));
    let ship = sim.store.spawn(mover(Vec2 { x: 0, y: 0 }, Vec2 { x: 0, y: 0 }, false));
    sim.store.apply_pending();
    let mut f = Filter::any();
    f.role = Some(Role::Target);
    let found = sim.store.query(&f);
    assert_eq!(found.len(), 1);
    assert_eq!(found[0].id, foe);
    let mut f = Filter::any();
    f.position = true;
    let found = sim.store.query(&f);
    assert_eq!(found.len(), 3);
    assert_eq!(found[0].id, shot);
    assert_eq!(found[2].id, ship);
    let mut f = Filter::any();
    f.velocity = true;
    f.movable = true;
    let found = sim.store.query(&f);
    assert_eq!(found.len(), 1);
    assert_eq!(found[0].id, ship);
    let mut f = Filter::any();
    f.ownership = Some(Ownership::Enemy);
    assert_eq!(sim.store.query(&f).len(), 0);
    let mut f = Filter::any();
    f.animation = true;
    assert_eq!(sim.store.query(&f).len(), 0);
}

#[test]
fn same_inputs_give_the_same_run() {
    let mut left = Simulation::new(standard_config());
    let mut right = Simulation::new(standard_config());
    for sim in [&mut left, &mut right] {
        sim.store.spawn(projectile(Vec2 { x: 0, y: -200_000 }));
        let mut shot = projectile(Vec2 { x: 0, y: -40_000 });
        shot.velocity = Some(Vec2 { x: 0, y: 1_000 });
        shot.movable = Some(Movable { auto_despawn: true });
        sim.store.spawn(shot);
        sim.store.spawn(target(Vec2 { x: 0, y: 100_000 }));
        sim.store.spawn(mover(Vec2 { x: 390_000, y: 0 }, Vec2 { x: 700, y: -300 }, true));
        sim.store.apply_pending();
    }
    let dts: [u64; 6] = [16_666_667, 20_000_000, 1, 50_000_000, 16_666_667, 33_000_000];
    let mut round: u32 = 0;
    while round < 20 {
        for dt in dts {
            left.tick(dt);
            right.tick(dt);
            assert_eq!(left.store.query(&Filter::any()), right.store.query(&Filter::any()));
            assert_eq!(left.store.pending_len(), right.store.pending_len());
            assert_eq!(left.store.issued(), right.store.issued());
        }
        round += 1;
    }
    assert_eq!(left.store.query(&explosions()).len(), 0);
    assert_eq!(left.store.len(), 1);
}

#[test]
fn animation_system_advances_only_animated_entities() {
    let mut sim = Simulation::new(standard_config());
    let plain = sim.store.spawn(target(Vec2 { x: 0, y: 0 }));
    let mut c = Components::empty();
    c.animation = Some(Animation::new(2, 10));
    let lit = sim.store.spawn(c);
    sim.store.apply_pending();
    run_animation(&mut sim.store, 4);
    assert_eq!(sim.store.get(plain), Some(target(Vec2 { x: 0, y: 0 })));
    let a = sim.store.get(lit).unwrap().animation.unwrap();
    assert_eq!(a, Animation { frame_index: 0, time_in_frame: 4, frame_count: 2, frame_period: 10 });
    run_animation(&mut sim.store, 6);
    run_animation(&mut sim.store, 10);
    assert_eq!(sim.store.pending_len(), 1);
    assert_eq!(sim.store.pending_at(0), Command::Destroy(lit));
}
