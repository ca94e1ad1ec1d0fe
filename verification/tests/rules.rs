use conway_duel::app::{plan_fixed_steps, respawn_dead_ships, GameLoop, PendingRespawn};
use conway_duel::config::Faction;
use conway_duel::ecs::components::{
    AiBehaviorState, AiState, CollisionLayer, EntityId, RenderLayer, RespawnTimer, Weapon,
};
use conway_duel::ecs::events::EventBus;
use conway_duel::game::ai::{ai_decide, nearest_enemy, Contact, EnemyRange, Maneuver, Sighting};
use conway_duel::game::combat::{cleanup_system, collect_hits, weapon_system, Armed, BulletRef, Timed};
use conway_duel::game::modes::{mode_system, GameMode, ModeConfig};
use conway_duel::game::physics::collision_pairs;
use conway_duel::game::render::{shape_for, Shape};
use conway_duel::game::skills::{Skill, SkillType};
use conway_duel::time::Span;

fn ms(n: u128) -> Span {
    Span::from_nanos(n * 1_000_000)
}

fn id(n: u64) -> EntityId {
    EntityId { bits: n }
}

#[test]
fn factions_are_enemies_exactly_when_they_differ() {
    let all = [Faction::Red, Faction::Green, Faction::Blue];
    for a in all.iter() {
        for b in all.iter() {
            assert_eq!(a.is_enemy(b), a != b);
            assert_eq!(a.is_enemy(b), b.is_enemy(a));
        }
        assert!(!a.is_enemy(a));
    }
    assert!(Faction::Red.is_enemy(&Faction::Blue));
}

#[test]
fn span_arithmetic() {
    assert!(Span::zero().is_zero());
    assert!(!ms(1).is_zero());
    assert_eq!(ms(5).saturating_sub(ms(3)), ms(2));
    assert_eq!(ms(3).saturating_sub(ms(5)), Span::zero());
    assert_eq!(ms(3).saturating_sub(ms(3)), Span::zero());
    assert_eq!(Span::from_nanos(7).nanos, 7);
    // two steps of subtraction are one step of the sum
    assert_eq!(ms(10).saturating_sub(ms(4)).saturating_sub(ms(3)), ms(10).saturating_sub(ms(7)));
}

#[test]
fn event_bus_keeps_push_order_and_clears() {
    let mut bus: EventBus<u32> = EventBus::new();
    assert!(bus.events().is_empty());
    bus.push(7);
    bus.push(3);
    bus.push(7);
    assert_eq!(bus.events(), &[7, 3, 7]);
    bus.clear();
    assert!(bus.events().is_empty());
    let d: EventBus<&str> = EventBus::default();
    assert_eq!(d.events().len(), 0);
}

#[test]
fn skill_lifecycle() {
    let mut s = Skill::new(SkillType::Shield, ms(1000), ms(300));
    assert_eq!(s.skill_type, SkillType::Shield);
    assert_eq!(s.remaining_cooldown, Span::zero());
    assert_eq!(s.duration, ms(300));
    assert!(!s.active);
    assert!(s.is_ready());
    s.activate();
    assert!(s.active);
    assert_eq!(s.remaining_cooldown, ms(1000));
    assert!(!s.is_ready());
    let before = s.clone();
    s.activate();
    assert_eq!(s, before);
    s.update(ms(400));
    assert_eq!(s.remaining_cooldown, ms(600));
    s.update(ms(700));
    assert_eq!(s.remaining_cooldown, Span::zero());
    // still in use: nothing turns a skill off
    assert!(s.active);
    assert!(!s.is_ready());
}

#[test]
fn skill_not_ready_while_cooling_down() {
    let mut s = Skill::new(SkillType::SpeedBoost, ms(500), ms(100));
    s.remaining_cooldown = ms(10);
    assert!(!s.is_ready());
    s.activate();
    assert!(!s.active);
    assert_eq!(s.remaining_cooldown, ms(10));
    s.update(ms(10));
    assert!(s.is_ready());
    s.activate();
    assert!(s.active);
    assert_eq!(s.remaining_cooldown, ms(500));
}

#[test]
fn defaults_and_constructors() {
    let ai = AiState::default();
    assert_eq!(ai.current_state, AiBehaviorState::Idle);
    assert_eq!(ai.target, None);
    assert!(ai.target_lock_timer.is_zero());
    let m = ModeConfig::default();
    assert_eq!(m.mode, GameMode::FreeForAll);
    assert_eq!(m.time_limit, None);
    assert_eq!(m.score_limit, None);
    assert!(m.respawn_enabled);
    assert_eq!(RespawnTimer::new(ms(3000)).remaining, ms(3000));
    assert!(RenderLayer::Background < RenderLayer::Boundary);
    assert!(RenderLayer::Ship < RenderLayer::Effect);
    assert_ne!(CollisionLayer::Ship, CollisionLayer::Bullet);
}

#[test]
fn mode_system_leaves_the_world_alone() {
    let mut world = hecs::World::new();
    let e = world.spawn((1u32,));
    mode_system(&mut world, &ModeConfig::default());
    assert_eq!(world.len(), 1);
    assert_eq!(*world.get::<&u32>(e).unwrap(), 1);
}

fn attacking(target: u64) -> AiState {
    AiState { current_state: AiBehaviorState::Attacking, target: Some(id(target)), target_lock_timer: Span::zero() }
}

fn gun(cooldown: u128, remaining: u128) -> Weapon {
    Weapon { cooldown: ms(cooldown), remaining_cooldown: ms(remaining), active: false }
}

#[test]
fn weapons_fire_when_ready_and_attacking() {
    let mut units = vec![
        Armed { entity: id(1), weapon: gun(500, 10), ai: attacking(9) },
        Armed { entity: id(2), weapon: gun(500, 100), ai: attacking(9) },
        Armed { entity: id(3), weapon: gun(500, 0), ai: AiState::default() },
        Armed {
            entity: id(4),
            weapon: gun(500, 0),
            ai: AiState { current_state: AiBehaviorState::Attacking, target: None, target_lock_timer: Span::zero() },
        },
        Armed { entity: id(5), weapon: gun(250, 0), ai: attacking(1) },
    ];
    let shooters = weapon_system(&mut units, ms(16));
    assert_eq!(shooters, vec![id(1), id(5)]);
    assert_eq!(units[0].weapon.remaining_cooldown, ms(500));
    assert_eq!(units[1].weapon.remaining_cooldown, ms(84));
    assert_eq!(units[2].weapon.remaining_cooldown, Span::zero());
    assert_eq!(units[3].weapon.remaining_cooldown, Span::zero());
    assert_eq!(units[4].weapon.remaining_cooldown, ms(250));
    assert_eq!(units[0].entity, id(1));
    assert_eq!(units[0].ai, attacking(9));
}

#[test]
fn shots_are_a_cooldown_apart() {
    let mut units = vec![Armed { entity: id(1), weapon: gun(100, 0), ai: attacking(2) }];
    let mut shots = Vec::new();
    for tick in 0..50u32 {
        if !weapon_system(&mut units, ms(16)).is_empty() {
            shots.push(tick);
        }
    }
    assert_eq!(shots[0], 0);
    for w in shots.windows(2) {
        assert!((w[1] - w[0]) as u128 * 16 >= 100);
    }
    assert_eq!(shots, vec![0, 7, 14, 21, 28, 35, 42, 49]);
}

#[test]
fn hits_are_sorted_out_of_collisions() {
    let bullets = vec![
        BulletRef { entity: id(10), shooter: id(1) },
        BulletRef { entity: id(11), shooter: id(2) },
    ];
    let ships = vec![id(1), id(2), id(3)];
    let collisions = vec![
        (id(10), id(2)),  // bullet first: hit
        (id(3), id(11)),  // ship first: hit
        (id(10), id(1)),  // own shooter: no hit
        (id(10), id(11)), // bullet on bullet: no hit
        (id(1), id(2)),   // ship on ship: no hit
        (id(11), id(99)), // target is no ship: no hit
        (id(99), id(10)), // unknown entity struck: no hit
        (id(11), id(1)),  // hit
    ];
    let hits = collect_hits(&collisions, &bullets, &ships);
    assert_eq!(hits, vec![(id(10), id(2)), (id(11), id(3)), (id(11), id(1))]);
    assert!(collect_hits(&Vec::new(), &bullets, &ships).is_empty());
}

#[test]
fn first_bullet_entry_decides_the_shooter() {
    let bullets = vec![
        BulletRef { entity: id(10), shooter: id(1) },
        BulletRef { entity: id(10), shooter: id(2) },
    ];
    let ships = vec![id(1), id(2)];
    assert_eq!(collect_hits(&vec![(id(10), id(2))], &bullets, &ships), vec![(id(10), id(2))]);
    assert_eq!(collect_hits(&vec![(id(10), id(1))], &bullets, &ships), vec![]);
}

#[test]
fn cleanup_ages_and_removes() {
    let mut bullets = vec![
        Timed { entity: id(1), lifetime: ms(10) },
        Timed { entity: id(2), lifetime: ms(100) },
        Timed { entity: id(3), lifetime: ms(16) },
    ];
    let mut effects = vec![Timed { entity: id(4), lifetime: ms(5) }, Timed { entity: id(5), lifetime: ms(500) }];
    let removed = cleanup_system(&mut bullets, &mut effects, ms(16));
    assert_eq!(removed, vec![id(1), id(3), id(4)]);
    assert_eq!(bullets[0].lifetime, ms(10));
    assert_eq!(bullets[1].lifetime, ms(84));
    assert_eq!(bullets[2].lifetime, ms(16));
    assert_eq!(effects[0].lifetime, ms(5));
    assert_eq!(effects[1].lifetime, ms(484));
}

#[test]
fn a_bullet_lives_out_its_lifetime() {
    let mut bullets = vec![Timed { entity: id(1), lifetime: ms(100) }];
    let mut effects = Vec::new();
    let mut removed_at = None;
    for tick in 1..20u32 {
        let removed = cleanup_system(&mut bullets, &mut effects, ms(16));
        if !removed.is_empty() {
            removed_at = Some(tick);
            break;
        }
    }
    // 6 ticks make 96 ms, the 7th reaches 112 ms
    assert_eq!(removed_at, Some(7));
}

#[test]
fn respawn_timers_run_down() {
    let mut pending = vec![
        PendingRespawn { entity: id(1), timer: RespawnTimer::new(ms(10)), ship_faction: None },
        PendingRespawn { entity: id(2), timer: RespawnTimer::new(ms(3000)), ship_faction: None },
        PendingRespawn { entity: id(3), timer: RespawnTimer::new(ms(16)), ship_faction: Some(Faction::Blue) },
    ];
    let due = respawn_dead_ships(&mut pending, ms(16));
    assert_eq!(due, vec![(id(1), Faction::Red), (id(3), Faction::Blue)]);
    assert_eq!(pending[1].timer.remaining, ms(2984));
    assert_eq!(pending[0].timer.remaining, ms(10));
}

#[test]
fn fixed_steps_split_the_frame() {
    let fixed = Span::from_nanos(16_666_666);
    let max = ms(250);
    let (steps, rest) = plan_fixed_steps(Span::zero(), ms(20), fixed, max);
    assert_eq!(steps, 1);
    assert_eq!(rest, Span::from_nanos(20_000_000 - 16_666_666));
    let (steps, rest) = plan_fixed_steps(rest, ms(20), fixed, max);
    assert_eq!(steps, 1);
    assert_eq!(rest, Span::from_nanos(40_000_000 - 2 * 16_666_666));
    let (steps, rest) = plan_fixed_steps(Span::zero(), ms(5), fixed, max);
    assert_eq!(steps, 0);
    assert_eq!(rest, ms(5));
}

#[test]
fn long_frames_are_capped() {
    let fixed = Span::from_nanos(16_666_666);
    let (steps, rest) = plan_fixed_steps(ms(10), ms(5000), fixed, ms(250));
    assert_eq!(steps, 15);
    assert_eq!(rest, Span::from_nanos(250_000_000 - 15 * 16_666_666));
    assert!(rest.nanos < fixed.nanos);
}

fn seen(entity: u64, faction: Faction, distance_key: u32) -> Sighting {
    Sighting { contact: Contact { entity: id(entity), faction }, distance_key }
}

#[test]
fn pilots_go_for_the_nearest_enemy_in_range() {
    let me = Contact { entity: id(1), faction: Faction::Red };
    let others = vec![
        seen(1, Faction::Red, 0),    // itself
        seen(2, Faction::Red, 1),    // a friend
        seen(3, Faction::Green, 20), // an enemy
        seen(4, Faction::Blue, 9),   // the nearest enemy
        seen(5, Faction::Green, 9),  // as near, but listed later
        seen(6, Faction::Blue, 40),  // out of range
    ];
    assert_eq!(nearest_enemy(me, &others, 30), Some(3));
    assert_eq!(nearest_enemy(me, &others, 9), None);
    assert_eq!(nearest_enemy(me, &others, 21), Some(3));
    assert_eq!(nearest_enemy(me, &others[..3].to_vec(), 30), Some(2));
    assert_eq!(nearest_enemy(me, &Vec::new(), 30), None);
}

#[test]
fn float_distance_keys_keep_their_order() {
    // distances are handed over as the bits of nonnegative f32 values
    let me = Contact { entity: id(1), faction: Faction::Green };
    let others = vec![
        seen(2, Faction::Red, 12.5f32.to_bits()),
        seen(3, Faction::Blue, 3.25f32.to_bits()),
        seen(4, Faction::Red, 7.0f32.to_bits()),
    ];
    assert_eq!(nearest_enemy(me, &others, 30.0f32.to_bits()), Some(1));
    assert_eq!(nearest_enemy(me, &others, 3.0f32.to_bits()), None);
}

#[test]
fn pilots_decide() {
    let old = AiState {
        current_state: AiBehaviorState::Chasing,
        target: Some(id(7)),
        target_lock_timer: ms(42),
    };
    let (s, m) = ai_decide(&old, None, false);
    assert_eq!(s, AiState { current_state: AiBehaviorState::Idle, ..old });
    assert_eq!(m, Maneuver::Wander);
    let (s, m) = ai_decide(&old, Some((id(3), EnemyRange::PointBlank)), true);
    assert_eq!(s, AiState { current_state: AiBehaviorState::Retreating, ..old });
    assert_eq!(m, Maneuver::Flee);
    let (s, m) = ai_decide(&old, Some((id(3), EnemyRange::PointBlank)), false);
    assert_eq!(s, AiState { current_state: AiBehaviorState::Attacking, target: Some(id(3)), ..old });
    assert_eq!(m, Maneuver::BackOff);
    let (s, m) = ai_decide(&old, Some((id(3), EnemyRange::Close)), false);
    assert_eq!(s, AiState { current_state: AiBehaviorState::Attacking, target: Some(id(3)), ..old });
    assert_eq!(m, Maneuver::Approach);
    let (s, m) = ai_decide(&old, Some((id(3), EnemyRange::Far)), false);
    assert_eq!(s, AiState { current_state: AiBehaviorState::Chasing, target: Some(id(3)), ..old });
    assert_eq!(m, Maneuver::Pursue);
}

#[test]
fn collision_pairs_visit_each_pair_once() {
    assert_eq!(collision_pairs(4), vec![(0, 1), (0, 2), (0, 3), (1, 2), (1, 3), (2, 3)]);
    assert!(collision_pairs(0).is_empty());
    assert!(collision_pairs(1).is_empty());
    assert_eq!(collision_pairs(10).len(), 45);
}

#[test]
fn shapes_by_layer() {
    assert_eq!(shape_for(RenderLayer::Ship, true), Some(Shape::Hull));
    assert_eq!(shape_for(RenderLayer::Bullet, true), Some(Shape::Round));
    assert_eq!(shape_for(RenderLayer::Effect, true), Some(Shape::Burst));
    assert_eq!(shape_for(RenderLayer::Background, true), None);
    assert_eq!(shape_for(RenderLayer::Boundary, true), None);
    assert_eq!(shape_for(RenderLayer::Nebula, true), None);
    assert_eq!(shape_for(RenderLayer::Ship, false), None);
    assert_eq!(shape_for(RenderLayer::Effect, false), None);
}

#[test]
fn a_fleeing_pilot_never_shoots() {
    // the pilot decides first, then the gun runs: a low hull means no shot
    let old = attacking(3);
    let (state, _) = ai_decide(&old, Some((id(3), EnemyRange::Close)), true);
    let mut units = vec![Armed { entity: id(1), weapon: gun(100, 0), ai: state }];
    assert!(weapon_system(&mut units, ms(16)).is_empty());
    let (state, _) = ai_decide(&old, Some((id(3), EnemyRange::Far)), false);
    let mut units = vec![Armed { entity: id(1), weapon: gun(100, 0), ai: state }];
    assert!(weapon_system(&mut units, ms(16)).is_empty());
    let (state, _) = ai_decide(&old, Some((id(3), EnemyRange::Close)), false);
    let mut units = vec![Armed { entity: id(1), weapon: gun(100, 0), ai: state }];
    assert_eq!(weapon_system(&mut units, ms(16)), vec![id(1)]);
}

#[test]
fn the_frame_loop_runs_between_start_and_destroy() {
    let fixed = Span::from_nanos(16_666_666);
    let max = ms(250);
    let mut game = GameLoop::new();
    assert!(!game.running);
    assert_eq!(game.animation_handle, None);
    assert_eq!(game.frame(ms(20), fixed, max), None);
    assert!(game.accumulated.is_zero());
    assert!(game.start());
    assert!(!game.start());
    assert!(game.running);
    assert_eq!(game.frame(ms(20), fixed, max), Some(1));
    assert_eq!(game.accumulated, Span::from_nanos(20_000_000 - 16_666_666));
    assert_eq!(game.frame(ms(1000), fixed, max), Some(15));
    game.animation_handle = Some(7);
    assert_eq!(game.destroy(), Some(7));
    assert!(!game.running);
    let kept = game;
    for _ in 0..5 {
        assert_eq!(game.frame(ms(100), fixed, max), None);
    }
    assert_eq!(game, kept);
}

fn remove_expired(items: &mut Vec<Timed>, removed: &[EntityId]) {
    items.retain(|t| !removed.contains(&t.entity));
}

#[test]
fn two_cleanup_ticks_equal_one_of_their_sum() {
    let start = vec![
        Timed { entity: id(1), lifetime: ms(10) },
        Timed { entity: id(2), lifetime: ms(30) },
        Timed { entity: id(3), lifetime: ms(25) },
        Timed { entity: id(4), lifetime: ms(100) },
    ];
    let mut twice = start.clone();
    let mut none = Vec::new();
    let removed = cleanup_system(&mut twice, &mut none, ms(12));
    remove_expired(&mut twice, &removed);
    let removed = cleanup_system(&mut twice, &mut none, ms(13));
    remove_expired(&mut twice, &removed);
    let mut once = start.clone();
    let removed = cleanup_system(&mut once, &mut none, ms(25));
    remove_expired(&mut once, &removed);
    assert_eq!(twice, once);
    assert_eq!(once, vec![Timed { entity: id(2), lifetime: ms(5) }, Timed { entity: id(4), lifetime: ms(75) }]);
}

#[test]
fn a_zero_cleanup_tick_removes_only_spent_entities() {
    let mut bullets = vec![Timed { entity: id(1), lifetime: Span::zero() }, Timed { entity: id(2), lifetime: ms(3) }];
    let mut effects = vec![Timed { entity: id(3), lifetime: ms(1) }];
    let removed = cleanup_system(&mut bullets, &mut effects, Span::zero());
    assert_eq!(removed, vec![id(1)]);
    assert_eq!(bullets[1].lifetime, ms(3));
    assert_eq!(effects[0].lifetime, ms(1));
}

#[test]
fn a_stopped_loop_ignores_the_step() {
    let mut game = GameLoop::new();
    assert_eq!(game.frame(ms(20), Span::zero(), ms(250)), None);
    assert_eq!(game, GameLoop::new());
}
