use defense_sim::attack::{Attack, Base};
use defense_sim::enemy::{Distance, Enemy, EnemyAfterTick, EnemySpawner, DISTANCE_SCALE, START_DISTANCE};
use defense_sim::game::GameState;
use defense_sim::hit_points::HitPoints;
use defense_sim::ordering::sort_by_distance;
use defense_sim::timer::Timer;

fn enemy_at(units: i64, hp: i64) -> Enemy {
    Enemy {
        hp: HitPoints::new_full(hp),
        damage: 2,
        speed: 5,
        distance: Distance(units * DISTANCE_SCALE),
    }
}

fn ready_attack(damage: u32, range_units: i64, max_targets: usize) -> Attack {
    let mut cooldown_timer = Timer::new(1000);
    cooldown_timer.remaining = 1;
    Attack { cooldown_timer, damage, range: range_units * DISTANCE_SCALE, max_targets }
}

fn idle_attack() -> Attack {
    Attack { cooldown_timer: Timer::new(1_000_000), damage: 1, range: 0, max_targets: 1 }
}

#[test]
fn timer_wraps_after_one_period() {
    let mut t = Timer::new(2000);
    t.tick(2000);
    assert!(t.has_just_finished());
    assert_eq!(t.remaining, 2000);
    t.tick(500);
    assert!(!t.has_just_finished());
    assert_eq!(t.remaining, 1500);
}

#[test]
fn timer_keeps_overshoot() {
    let mut t = Timer::new(1000);
    t.tick(1200);
    assert!(t.has_just_finished());
    assert_eq!(t.remaining, 800);
}

#[test]
fn timer_paused_is_unchanged() {
    let mut t = Timer::new(1000);
    t.paused = true;
    t.remaining = 300;
    let before = t;
    for delta in [0u32, 100, 300, 5000] {
        t.tick(delta);
        assert_eq!(t, before);
    }
}

#[test]
fn one_shot_fires_once() {
    let mut t = Timer::new(1000);
    t.one_shot = true;
    t.tick(600);
    assert!(!t.has_just_finished());
    assert!(!t.paused);
    t.tick(600);
    assert!(t.has_just_finished());
    assert!(t.paused);
    assert_eq!(t.remaining, 800);
    let fired = t;
    for _ in 0..5 {
        t.tick(1000);
        assert_eq!(t, fired);
    }
}

#[test]
fn timer_can_tick_near_limit() {
    let mut t = Timer::new(1000);
    assert!(t.can_tick(u32::MAX));
    t.remaining = i64::MIN + 10;
    assert!(t.can_tick(10));
    assert!(!t.can_tick(11));
    t.paused = true;
    assert!(t.can_tick(u32::MAX));
}

#[test]
fn hit_points_damage_and_reset() {
    let mut hp = HitPoints::new_full(10);
    hp.take_damage(4);
    assert_eq!(hp.current, 6);
    hp.take_damage(9);
    assert_eq!(hp.current, -3);
    hp.reset();
    assert_eq!(hp, HitPoints { maximum: 10, current: 10 });
}

#[test]
fn enemy_arrival() {
    let mut e = Enemy { hp: HitPoints::new_full(10), damage: 7, speed: 10, distance: Distance(5 * DISTANCE_SCALE) };
    assert_eq!(e.tick(1000), EnemyAfterTick::ReachedBase);
    assert_eq!(e.distance, Distance(-5 * DISTANCE_SCALE));
}

#[test]
fn enemy_still_moving() {
    let mut e = enemy_at(100, 10);
    assert_eq!(e.tick(500), EnemyAfterTick::Normal);
    assert_eq!(e.distance.0, 97_500);
}

#[test]
fn arrival_damages_base() {
    let mut g = GameState::new();
    g.enemies.push(Enemy { hp: HitPoints::new_full(10), damage: 7, speed: 10, distance: Distance(5 * DISTANCE_SCALE) });
    assert!(g.can_tick(1000));
    g.tick(1000);
    assert_eq!(g.base.hp.current, 93);
    assert_eq!(g.base.hp.maximum, 100);
    assert!(g.enemies.iter().all(|e| e.distance.0 > 0));
}

#[test]
fn spawn_then_sort() {
    let mut g = GameState::new();
    assert!(g.enemies.is_empty());
    g.tick(1000);
    assert_eq!(g.enemies.len(), 1);
    assert_eq!(g.enemies[0].distance, Distance::start());
    assert_eq!(g.enemies[0].distance.0, START_DISTANCE);
    assert_eq!(START_DISTANCE, 100 * DISTANCE_SCALE);
    assert_eq!(g.enemies[0].hp, HitPoints { maximum: 10, current: 10 });
    assert_eq!((g.enemies[0].speed, g.enemies[0].damage), (5, 2));
}

#[test]
fn spawner_emits_on_fire_only() {
    let mut s = EnemySpawner { timer: Timer::new(1000), maximum_hp: 12, speed: 3, damage: 4 };
    assert_eq!(s.tick(400), None);
    let e = s.tick(600).unwrap();
    assert_eq!(e, Enemy { hp: HitPoints::new_full(12), damage: 4, speed: 3, distance: Distance::start() });
}

#[test]
fn attack_target_cap() {
    let enemies: Vec<Enemy> = (1..=5).map(|u| enemy_at(u, 10)).collect();
    let mut a = ready_attack(4, 35, 3);
    let out = a.fire(10, enemies.clone());
    assert!(a.cooldown_timer.has_just_finished());
    assert_eq!(out.len(), 5);
    for i in 0..3 {
        assert_eq!(out[i].hp.current, 6);
        assert_eq!(out[i].distance, enemies[i].distance);
    }
    assert_eq!(out[3], enemies[3]);
    assert_eq!(out[4], enemies[4]);
}

#[test]
fn attack_skips_out_of_range() {
    let enemies = vec![enemy_at(10, 10), enemy_at(40, 10), enemy_at(20, 10)];
    let a = ready_attack(4, 35, 5);
    let out = a.resolve(enemies.clone());
    assert_eq!(out[0].hp.current, 6);
    assert_eq!(out[1], enemies[1]);
    assert_eq!(out[2].hp.current, 6);
}

#[test]
fn attack_waits_for_cooldown() {
    let enemies = vec![enemy_at(10, 10)];
    let mut a = Attack { cooldown_timer: Timer::new(2000), damage: 4, range: 35 * DISTANCE_SCALE, max_targets: 3 };
    let out = a.fire(500, enemies.clone());
    assert_eq!(out, enemies);
    assert_eq!(a.cooldown_timer.remaining, 1500);
}

#[test]
fn kill_removal() {
    let enemies = vec![enemy_at(5, 4), enemy_at(6, 3), enemy_at(7, 10)];
    let a = ready_attack(4, 35, 3);
    let out = a.resolve(enemies.clone());
    assert_eq!(out.len(), 1);
    assert_eq!(out[0].hp.current, 6);
    assert_eq!(out[0].distance, enemies[2].distance);
}

#[test]
fn killed_enemies_still_use_up_targets() {
    let enemies = vec![enemy_at(5, 4), enemy_at(6, 10), enemy_at(7, 10)];
    let a = ready_attack(4, 35, 2);
    let out = a.resolve(enemies.clone());
    assert_eq!(out.len(), 2);
    assert_eq!(out[0].hp.current, 6);
    assert_eq!(out[1], enemies[2]);
}

#[test]
fn sort_is_stable_and_ascending() {
    let mut a = enemy_at(30, 1);
    let mut b = enemy_at(10, 2);
    let c = enemy_at(30, 3);
    let d = enemy_at(20, 4);
    a.damage = 1;
    b.damage = 2;
    let out = sort_by_distance(vec![a, b, c, d]);
    assert_eq!(out, vec![b, d, a, c]);
}

#[test]
fn basic_attack_resolves_before_big() {
    let mut g = GameState::new();
    g.enemy_spawner.timer = Timer::new(1_000_000);
    g.base = Base {
        hp: HitPoints::new_full(100),
        basic_attack: ready_attack(10, 50, 1),
        big_attack: ready_attack(1, 50, 1),
    };
    g.enemies = vec![enemy_at(30, 10), enemy_at(20, 10)];
    g.tick(10);
    assert_eq!(g.enemies.len(), 1);
    assert_eq!(g.enemies[0].hp.current, 9);
    assert_eq!(g.enemies[0].distance.0, 30 * DISTANCE_SCALE - 50);
}

#[test]
fn tick_sorts_enemies() {
    let mut g = GameState::new();
    g.base.basic_attack = idle_attack();
    g.base.big_attack = idle_attack();
    g.enemies = vec![enemy_at(50, 10), enemy_at(20, 10), enemy_at(40, 10)];
    g.tick(1000);
    let d: Vec<i64> = g.enemies.iter().map(|e| e.distance.0).collect();
    assert_eq!(d, vec![15_000, 35_000, 45_000, 100_000]);
}

#[test]
fn can_tick_rejects_overflow() {
    let mut g = GameState::new();
    assert!(g.can_tick(500));
    g.enemies.push(Enemy { hp: HitPoints::new_full(1), damage: 1, speed: u32::MAX, distance: Distance(i64::MIN / 2) });
    assert!(!g.can_tick(u32::MAX));
    let mut h = GameState::new();
    h.base.hp.current = i64::MIN + 1;
    h.enemies.push(Enemy { hp: HitPoints::new_full(1), damage: 2, speed: 1, distance: Distance(1) });
    assert!(!h.can_tick(10));
    h.enemies[0].damage = 1;
    assert!(h.can_tick(10));
}

#[test]
fn default_matches_new() {
    let a = GameState::default();
    let b = GameState::new();
    assert_eq!(a.base, b.base);
    assert_eq!(a.enemy_spawner, b.enemy_spawner);
    assert!(a.enemies.is_empty());
    assert_eq!(b.base.basic_attack.max_targets, 3);
    assert_eq!(b.base.big_attack.cooldown_timer.total, 10_000);
}

#[test]
fn end_to_end_scenario() {
    let mut g = GameState::new();
    let mut previous = 0usize;
    for _ in 0..80 {
        assert!(g.can_tick(500));
        g.tick(500);
        assert!(g.enemies.len() <= previous + 1);
        assert!(g.base.hp.current <= 100);
        assert!(g.enemies.iter().all(|e| e.hp.current > 0 && e.distance.0 > 0));
        previous = g.enemies.len();
    }
    assert!(g.enemies.len() <= 80);
    g.base.hp.reset();
    assert_eq!(g.base.hp.current, 100);
}
