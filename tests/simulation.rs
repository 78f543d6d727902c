use sheep_herd::battle::{
    check_end_battle, init_level, move_and_attack, remove_dead_sheep, setup_level1, GameState,
    Level, PhaseState, PursuitType, WarMachine, BATTLEFIELD_X_MAX, BATTLEFIELD_X_MIN,
    BATTLEFIELD_Y_MAX, BATTLEFIELD_Y_MIN,
};
use sheep_herd::geometry::{isqrt, step_toward, unit_direction, Bounds, Position};
use sheep_herd::sheep::{
    drop_sheep, find_merge, init_sheep, merge_with, nearest_sheep, release_sheep, select_sheep,
    update_sheep, Sheep, SheepEntity, SheepTint, Speed, Timer, Wander, WanderState,
    COUNT_INIT_SHEEP, IDLE_TIME_MS, MAX_WANDER_TIME_DEVIANCE_PERMILLE, SHEEP_HEALTH, SHEEP_SCALE,
    WANDER_TIME_MS, X_MAX_POS_OFFSET, Y_MAX_POS_OFFSET,
};
use sheep_herd::world::{BattlePlugin, SheepPlugin, World};

fn field() -> Bounds {
    Bounds { x_min: -100_000, x_max: 100_000, y_min: -100_000, y_max: 100_000 }
}

fn resting(duration_ms: u64) -> Wander {
    Wander {
        wander_time_ms: WANDER_TIME_MS,
        idle_time_ms: IDLE_TIME_MS,
        time_deviance: MAX_WANDER_TIME_DEVIANCE_PERMILLE,
        state: WanderState::Idling,
        timer: Timer { duration_ms, elapsed_ms: 0 },
        wander_dir: Position { x: 0, y: 0 },
    }
}

fn sheep_at(id: u64, x: i64, y: i64, state: u8, health: i64) -> SheepEntity {
    SheepEntity {
        id,
        sheep: Sheep { state },
        position: Position { x, y },
        health,
        speed: Speed(1000),
        wander: resting(100_000),
        bounds: field(),
        dragged: false,
    }
}

fn machine_at(id: u64, x: i64, y: i64) -> WarMachine {
    WarMachine {
        id,
        position: Position { x, y },
        speed: Speed(6000),
        health: 10,
        attack_range: 1000,
        attack_value: 1,
        spotting_range: 1_000_000,
        pursuit: PursuitType::ChasingClosest,
        bounds: field(),
    }
}

fn battle_world(flock: Vec<SheepEntity>, war_machines: Vec<WarMachine>) -> World {
    World {
        flock,
        war_machines,
        phase: PhaseState { state: GameState::Battle, level: Level(1) },
        next_id: 100,
    }
}

fn d2(a: Position, b: Position) -> i64 {
    (a.x - b.x) * (a.x - b.x) + (a.y - b.y) * (a.y - b.y)
}

#[test]
fn scenario_machine_strikes_sheep_in_reach() {
    let mut world = battle_world(vec![sheep_at(1, 500, 0, 0, 5)], vec![machine_at(2, 0, 0)]);
    BattlePlugin.update(&mut world, 1000);
    assert_eq!(world.flock.len(), 1);
    assert_eq!(world.flock[0].health, 4);
}

#[test]
fn scenario_sheep_at_zero_health_is_removed() {
    let mut world = battle_world(
        vec![sheep_at(1, 500, 0, 0, 1), sheep_at(3, 50_000, 50_000, 0, 5)],
        vec![machine_at(2, 0, 0)],
    );
    BattlePlugin.update(&mut world, 1000);
    assert_eq!(world.flock.len(), 1);
    assert_eq!(world.flock[0].id, 3);
    assert_eq!(world.phase.state, GameState::Battle);
}

#[test]
fn scenario_last_machine_gone_wins_battle() {
    let mut world = battle_world(vec![sheep_at(1, 0, 0, 0, 5)], vec![machine_at(2, 5000, 0)]);
    world.war_machines.clear();
    BattlePlugin.update(&mut world, 16);
    assert_eq!(world.phase.state, GameState::Herding);
    assert_eq!(world.phase.level, Level(2));
    assert_eq!(world.flock.len(), 1);
}

#[test]
fn lost_battle_keeps_level_and_clears_machines() {
    let mut world = battle_world(vec![sheep_at(1, 500, 0, 0, 1)], vec![machine_at(2, 0, 0)]);
    BattlePlugin.update(&mut world, 1000);
    assert_eq!(world.flock.len(), 0);
    assert_eq!(world.phase.state, GameState::Herding);
    assert_eq!(world.phase.level, Level(1));
    assert_eq!(world.war_machines.len(), 0);
}

#[test]
fn scenario_merge_of_levels_zero_and_one() {
    let mut flock = vec![sheep_at(1, 0, 0, 0, 5), sheep_at(2, 400, 300, 1, 5), sheep_at(3, 9000, 0, 0, 5)];
    let merged = merge_with(&mut flock, 2, SHEEP_SCALE, 10, resting(4000));
    assert!(merged);
    assert_eq!(flock.len(), 2);
    let born = flock[1];
    assert_eq!(born.id, 10);
    assert_eq!(born.sheep.state, 2);
    assert_eq!(born.position, Position { x: 0, y: 0 });
    assert_eq!(born.health, SHEEP_HEALTH);
    assert_eq!(flock[0].id, 3);
}

#[test]
fn drop_sheep_merges_with_fresh_controller() {
    let mut flock = vec![sheep_at(1, 0, 0, 0, 5), sheep_at(2, 400, 300, 1, 5)];
    assert!(drop_sheep(&mut flock, 2, SHEEP_SCALE, 7));
    assert_eq!(flock.len(), 1);
    assert_eq!(flock[0].sheep.state, 2);
    assert_eq!(flock[0].wander.timer.elapsed_ms, 0);
    let base = match flock[0].wander.state {
        WanderState::Wandering => WANDER_TIME_MS,
        WanderState::Idling => IDLE_TIME_MS,
    };
    let d = flock[0].wander.timer.duration_ms;
    assert!(d >= base * 800 / 1000 && d <= base * 1200 / 1000);
}

#[test]
fn merge_needs_a_partner_in_reach() {
    let mut flock = vec![sheep_at(1, 0, 0, 0, 5), sheep_at(2, 1001, 0, 1, 5)];
    let before = flock.clone();
    assert!(!merge_with(&mut flock, 2, SHEEP_SCALE, 10, resting(4000)));
    assert_eq!(flock, before);
    assert!(!merge_with(&mut flock, 9, SHEEP_SCALE, 10, resting(4000)));
    assert_eq!(flock, before);
}

#[test]
fn merge_takes_first_partner_in_flock_order() {
    let flock = vec![sheep_at(1, 900, 0, 0, 5), sheep_at(2, 0, 0, 0, 5), sheep_at(3, 100, 0, 0, 5)];
    assert_eq!(find_merge(&flock, 2, SHEEP_SCALE), Some((1, 0)));
}

#[test]
fn merge_shrinks_flock_by_one() {
    let mut world = World {
        flock: vec![sheep_at(1, 0, 0, 0, 5), sheep_at(2, 300, 0, 0, 5), sheep_at(3, 20_000, 0, 0, 5)],
        war_machines: vec![],
        phase: PhaseState { state: GameState::Herding, level: Level(1) },
        next_id: 50,
    };
    world.select(Position { x: 290, y: 10 });
    assert!(world.flock[1].dragged);
    let merges = world.release();
    assert_eq!(merges, 1);
    assert_eq!(world.flock.len(), 2);
    assert_eq!(world.flock[1].id, 50);
    assert_eq!(world.flock[1].sheep.state, 1);
    assert_eq!(world.next_id, 51);
}

#[test]
fn scenario_idle_sheep_stays_put() {
    let mut world = World {
        flock: vec![sheep_at(1, 1234, -567, 0, 5)],
        war_machines: vec![],
        phase: PhaseState { state: GameState::Herding, level: Level(1) },
        next_id: 2,
    };
    SheepPlugin.update(&mut world, 99_999);
    assert_eq!(world.flock[0].position, Position { x: 1234, y: -567 });
    assert_eq!(world.flock[0].wander.state, WanderState::Idling);
    assert_eq!(world.flock[0].wander.timer.elapsed_ms, 99_999);
}

#[test]
fn wandering_sheep_moves_and_is_clamped() {
    let mut e = sheep_at(1, 99_500, 0, 0, 5);
    e.wander.state = WanderState::Wandering;
    e.wander.wander_dir = Position { x: 1000, y: 0 };
    let mut world = World {
        flock: vec![e, { let mut f = e; f.id = 2; f.position = Position { x: 0, y: 0 }; f }],
        war_machines: vec![],
        phase: PhaseState { state: GameState::Herding, level: Level(1) },
        next_id: 3,
    };
    SheepPlugin.update(&mut world, 2000);
    assert_eq!(world.flock[0].position, Position { x: 100_000, y: 0 });
    assert_eq!(world.flock[1].position, Position { x: 2000, y: 0 });
}

#[test]
fn timer_expiry_flips_mode() {
    let mut e = sheep_at(1, 0, 0, 0, 5);
    e.wander = resting(500);
    e.wander_with(600, {
        let mut w = resting(3000);
        w.state = WanderState::Wandering;
        w.wander_dir = Position { x: 0, y: -1000 };
        w
    });
    assert_eq!(e.wander.state, WanderState::Wandering);
    assert_eq!(e.position, Position { x: 0, y: -600 });
}

#[test]
fn dragged_sheep_does_not_wander() {
    let mut e = sheep_at(1, 0, 0, 0, 5);
    e.wander.state = WanderState::Wandering;
    e.wander.wander_dir = Position { x: 1000, y: 0 };
    e.dragged = true;
    let before = e;
    e.wander(5000);
    assert_eq!(e, before);
}

#[test]
fn phase_check_twice_raises_level_once() {
    let ps = PhaseState { state: GameState::Battle, level: Level(1) };
    let once = check_end_battle(ps, 3, 0);
    let twice = check_end_battle(once, 3, 0);
    assert_eq!(once, PhaseState { state: GameState::Herding, level: Level(2) });
    assert_eq!(twice, once);
    assert_eq!(check_end_battle(ps, 0, 2), PhaseState { state: GameState::Herding, level: Level(1) });
    assert_eq!(check_end_battle(ps, 2, 2), ps);
}

#[test]
fn pursuit_closes_in_on_nearest_sheep() {
    let mut flock = vec![sheep_at(1, 30_000, 40_000, 0, 5), sheep_at(2, -3000, -4000, 0, 5)];
    let mut machines = vec![machine_at(9, 0, 0)];
    move_and_attack(&mut flock, &mut machines, 500);
    assert_eq!(machines[0].position, Position { x: -1800, y: -2400 });
    assert!(d2(machines[0].position, flock[1].position) < 25_000_000);
    assert_eq!(flock[1].health, 5);
}

#[test]
fn machine_without_sheep_in_sight_waits() {
    let mut flock = vec![sheep_at(1, 30_000, 40_000, 0, 5)];
    let mut machines = vec![machine_at(9, 0, 0)];
    machines[0].spotting_range = 49_999;
    move_and_attack(&mut flock, &mut machines, 500);
    assert_eq!(machines[0].position, Position { x: 0, y: 0 });
    assert_eq!(flock[0].health, 5);
}

#[test]
fn nearest_prefers_earliest_on_tie() {
    let flock = vec![sheep_at(1, 3000, 0, 0, 5), sheep_at(2, -3000, 0, 0, 5), sheep_at(3, 0, 2000, 0, 5)];
    assert_eq!(nearest_sheep(&flock, Position { x: 0, y: 0 }, 10_000), Some(2));
    assert_eq!(nearest_sheep(&flock, Position { x: 0, y: -2000 }, 10_000), Some(0));
    assert_eq!(nearest_sheep(&flock, Position { x: 0, y: 0 }, 1999), None);
}

#[test]
fn dead_sheep_are_removed_in_order() {
    let mut flock = vec![sheep_at(1, 0, 0, 0, 0), sheep_at(2, 0, 0, 0, 3), sheep_at(3, 0, 0, 0, -2), sheep_at(4, 0, 0, 0, 1)];
    remove_dead_sheep(&mut flock);
    let ids: Vec<u64> = flock.iter().map(|e| e.id).collect();
    assert_eq!(ids, vec![2, 4]);
}

#[test]
fn select_and_release_marks() {
    let mut flock = vec![sheep_at(1, 0, 0, 0, 5), sheep_at(2, 5000, 0, 0, 5)];
    select_sheep(&mut flock, Position { x: 4800, y: 100 }, SHEEP_SCALE / 2);
    assert!(flock[1].dragged && !flock[0].dragged);
    select_sheep(&mut flock, Position { x: 2500, y: 0 }, SHEEP_SCALE / 2);
    assert!(!flock[0].dragged);
    assert_eq!(release_sheep(&mut flock), vec![2]);
    assert!(!flock[1].dragged);
}

#[test]
fn tint_follows_merge_count() {
    assert_eq!(update_sheep(&Sheep { state: 0 }), SheepTint::White);
    assert_eq!(update_sheep(&Sheep { state: 1 }), SheepTint::Red);
    assert_eq!(update_sheep(&Sheep { state: 2 }), SheepTint::Green);
    assert_eq!(update_sheep(&Sheep { state: 3 }), SheepTint::Blue);
    assert_eq!(update_sheep(&Sheep { state: 4 }), SheepTint::Purple);
}

#[test]
fn geometry_exact_values() {
    assert_eq!(isqrt(0), 0);
    assert_eq!(isqrt(24), 4);
    assert_eq!(isqrt(25), 5);
    assert_eq!(isqrt(u64::MAX), 4_294_967_295);
    assert_eq!(unit_direction(3, 4), Position { x: 600, y: 800 });
    assert_eq!(unit_direction(0, 0), Position { x: 0, y: 0 });
    assert_eq!(unit_direction(-1000, 0), Position { x: -1000, y: 0 });
    assert_eq!(unit_direction(1, 1), Position { x: 707, y: 707 });
    assert_eq!(step_toward(Position { x: 0, y: 0 }, Position { x: 3, y: 4 }, 10), Position { x: 6, y: 8 });
    assert_eq!(step_toward(Position { x: 7, y: 7 }, Position { x: 7, y: 7 }, 10), Position { x: 7, y: 7 });
    assert_eq!(step_toward(Position { x: 0, y: 0 }, Position { x: -3000, y: 0 }, 1), Position { x: -1, y: 0 });
}

#[test]
fn starting_flock_is_scattered_in_pen() {
    let flock = init_sheep(40);
    assert_eq!(flock.len(), COUNT_INIT_SHEEP);
    for (i, e) in flock.iter().enumerate() {
        assert_eq!(e.id, 40 + i as u64);
        assert_eq!(e.sheep.state, 0);
        assert!(e.position.x.abs() <= X_MAX_POS_OFFSET && e.position.y.abs() <= Y_MAX_POS_OFFSET);
        assert!(e.wander.wander_dir.x.abs() <= 1000 && e.wander.wander_dir.y.abs() <= 1000);
    }
    let world = World::new();
    assert_eq!(world.flock.len(), 10);
    assert_eq!(world.snapshot(), PhaseState { state: GameState::Herding, level: Level(1) });
}

#[test]
fn wander_controller_draws_in_range() {
    for _ in 0..50 {
        let w = Wander::new(3000, 5000, 200, WanderState::Idling);
        assert!(w.timer.duration_ms >= 4000 && w.timer.duration_ms <= 6000);
        let n = w.wander_dir.x * w.wander_dir.x + w.wander_dir.y * w.wander_dir.y;
        assert!(n == 0 || (n >= 990_000 && n <= 1_010_000));
    }
    let w = Wander::from_draws(3000, 5000, 200, WanderState::Wandering, -200, 0, 7);
    assert_eq!(w.timer, Timer { duration_ms: 2400, elapsed_ms: 0 });
    assert_eq!(w.wander_dir, Position { x: 0, y: 1000 });
}

#[test]
fn first_level_has_one_machine_on_battlefield() {
    let ms = setup_level1(77);
    assert_eq!(ms.len(), 1);
    let m = ms[0];
    assert_eq!(m.id, 77);
    assert_eq!((m.speed, m.health, m.attack_value, m.attack_range, m.spotting_range), (Speed(6000), 10, 1, 1000, 1_000_000));
    assert!(m.position.x >= BATTLEFIELD_X_MIN && m.position.x <= BATTLEFIELD_X_MAX);
    assert!(m.position.y >= BATTLEFIELD_Y_MIN && m.position.y <= BATTLEFIELD_Y_MAX);
    assert_eq!(init_level(&Level(2), 1).len(), 0);
    let mut world = World::new();
    world.enter_battle();
    assert_eq!(world.war_machines.len(), 1);
    assert_eq!(world.phase.state, GameState::Battle);
}

#[test]
fn machines_stay_on_battlefield() {
    let mut m = machine_at(2, 99_000, 0);
    m.speed = Speed(1_000_000);
    let mut world = battle_world(vec![sheep_at(1, 99_900, 0, 0, 5)], vec![m]);
    BattlePlugin.update(&mut world, 1000);
    assert_eq!(world.war_machines[0].position, Position { x: 100_000, y: 0 });
    assert_eq!(world.flock[0].health, 4);
}

#[test]
fn merge_level_saturates() {
    let mut flock = vec![sheep_at(1, 0, 0, 0, 5), sheep_at(2, 0, 0, 255, 5)];
    assert!(merge_with(&mut flock, 2, SHEEP_SCALE, 3, resting(4000)));
    assert_eq!(flock[0].sheep.state, 255);
}

#[test]
fn random_draws_vary() {
    let flock = init_sheep(0);
    let first = flock[0].position;
    assert!(flock.iter().any(|e| e.position != first));
    let mut wandering = 0;
    let mut idling = 0;
    for i in 0..64 {
        let e = sheep_herd::sheep::spawn_sheep(i, Position { x: 0, y: 0 }, Sheep { state: 0 }, field());
        match e.wander.state {
            WanderState::Wandering => wandering += 1,
            WanderState::Idling => idling += 1,
        }
    }
    assert!(wandering > 0 && idling > 0);
}

#[test]
fn pursuit_from_corner_keeps_distance_after_clamp() {
    let mut m = machine_at(2, 100_000, 100_000);
    m.attack_range = 0;
    let mut e = sheep_at(1, 103_000, 104_000, 0, 5);
    e.bounds = Bounds { x_min: 0, x_max: 200_000, y_min: 0, y_max: 200_000 };
    let mut world = battle_world(vec![e], vec![m]);
    BattlePlugin.update(&mut world, 500);
    assert_eq!(world.war_machines[0].position, Position { x: 100_000, y: 100_000 });
    assert_eq!(world.flock[0].health, 5);
}

#[test]
fn zero_spotting_range_never_engages() {
    let mut flock = vec![sheep_at(1, 0, 0, 0, 5), sheep_at(3, 400, 0, 0, 5)];
    let mut m = machine_at(2, 0, 0);
    m.spotting_range = 0;
    let mut machines = vec![m];
    move_and_attack(&mut flock, &mut machines, 1000);
    assert_eq!(machines[0].position, Position { x: 0, y: 0 });
    assert_eq!(flock[0].health, 5);
    assert_eq!(flock[1].health, 5);
}

#[test]
fn zero_length_timer_flips_mode() {
    let mut e = sheep_at(1, 0, 0, 0, 5);
    e.wander = resting(0);
    e.wander(16);
    assert_eq!(e.wander.state, WanderState::Wandering);
    assert_eq!(e.wander.timer.elapsed_ms, 0);

    let mut flock = vec![sheep_at(2, 0, 0, 0, 5)];
    flock[0].wander = Wander::new(0, 0, 200, WanderState::Idling);
    assert_eq!(flock[0].wander.timer.duration_ms, 0);
    sheep_herd::sheep::wander(&mut flock, 16);
    assert_eq!(flock[0].wander.state, WanderState::Wandering);
}

#[test]
fn finished_timer_reports_run_out() {
    let mut t = Timer { duration_ms: 500, elapsed_ms: 0 };
    assert!(!t.tick(499));
    assert!(t.tick(1));
    assert_eq!(t.elapsed_ms, 500);
    assert!(t.tick(0));
    let mut z = Timer::from_millis(0);
    assert!(z.tick(0));
}
