use vstd::prelude::*;
use crate::attack::{lemma_strike_keeps_order, Attack, Base};
use crate::enemy::{Enemy, EnemyAfterTick, EnemySpawner};
use crate::hit_points::HitPoints;
use crate::ordering::{by_distance, is_by_distance, lemma_by_distance_permutes, sort_by_distance};
use crate::enemy::DISTANCE_SCALE;
use crate::timer::Timer;
use vstd::seq_lib::to_multiset_contains;

verus! {

/// Every enemy in `s` has hit points left.
pub open spec fn all_alive(s: Seq<Enemy>) -> bool {
    forall|i: int| 0 <= i < s.len() ==> s[i].hp.current > 0
}

/// The enemies of `s` that are still on the track after moving for `delta`
/// milliseconds, moved, in their order.
pub open spec fn moved_on(s: Seq<Enemy>, delta: int) -> Seq<Enemy>
    decreases s.len(),
{
    if s.len() == 0 {
        s
    } else {
        let kept = moved_on(s.drop_last(), delta);
        let m = s.last().advanced(delta);
        if m.arrived() {
            kept
        } else {
            kept.push(m)
        }
    }
}

/// The damage dealt to the base by the enemies of `s` that arrive within `delta`.
pub open spec fn arrival_damage(s: Seq<Enemy>, delta: int) -> int
    decreases s.len(),
{
    if s.len() == 0 {
        0
    } else {
        arrival_damage(s.drop_last(), delta) + if s.last().advanced(delta).arrived() {
            s.last().damage as int
        } else {
            0
        }
    }
}

/// The base a new game starts with.
pub open spec fn starting_base() -> Base {
    Base {
        hp: HitPoints { maximum: 100, current: 100 },
        basic_attack: Attack {
            cooldown_timer: Timer::full(2000),
            damage: 4,
            range: (35 * DISTANCE_SCALE) as i64,
            max_targets: 3,
        },
        big_attack: Attack {
            cooldown_timer: Timer::full(10000),
            damage: 30,
            range: (20 * DISTANCE_SCALE) as i64,
            max_targets: 10,
        },
    }
}

/// The spawner a new game starts with.
pub open spec fn starting_spawner() -> EnemySpawner {
    EnemySpawner { timer: Timer::full(1000), maximum_hp: 10, speed: 5, damage: 2 }
}

/// The whole simulation: the base, the live enemies, and the spawner.
///
/// There is no terminal state: a base at zero hit points or below keeps
/// taking ticks, and its hit points keep falling.
#[derive(Debug)]
pub struct GameState {
    pub base: Base,
    pub enemies: Vec<Enemy>,
    pub enemy_spawner: EnemySpawner,
}

impl GameState {
    /// Every period is positive, spawned enemies start alive, and every live enemy is alive.
    pub open spec fn wf(&self) -> bool {
        &&& self.base.basic_attack.cooldown_timer.wf()
        &&& self.base.big_attack.cooldown_timer.wf()
        &&& self.enemy_spawner.wf()
        &&& all_alive(self.enemies@)
    }

    /// Whether a tick of `delta` milliseconds keeps every quantity within `i64`.
    pub open spec fn tick_fits(&self, delta: int) -> bool {
        &&& forall|i: int| 0 <= i < self.enemies@.len() ==> #[trigger] self.enemies@[i].move_fits(delta)
        &&& self.base.hp.current - arrival_damage(self.enemies@, delta) >= i64::MIN
        &&& self.enemy_spawner.timer.tick_fits(delta)
        &&& self.base.basic_attack.cooldown_timer.tick_fits(delta)
        &&& self.base.big_attack.cooldown_timer.tick_fits(delta)
    }

    /// The enemies before sorting: those still moving, then the new one if the spawner fired.
    pub open spec fn gathered(&self, delta: int) -> Seq<Enemy> {
        let kept = moved_on(self.enemies@, delta);
        if self.enemy_spawner.ticked(delta).timer.has_just_finished {
            kept.push(self.enemy_spawner.spawned())
        } else {
            kept
        }
    }

    /// The live enemies after a tick of `delta` milliseconds.
    pub open spec fn next_enemies(&self, delta: int) -> Seq<Enemy> {
        let after_basic = self.base.basic_attack.ticked(delta).attacked(
            by_distance(self.gathered(delta)),
        );
        self.base.big_attack.ticked(delta).attacked(after_basic)
    }

    /// The base after a tick of `delta` milliseconds.
    pub open spec fn next_base(&self, delta: int) -> Base {
        Base {
            hp: self.base.hp.damaged(arrival_damage(self.enemies@, delta)),
            basic_attack: self.base.basic_attack.ticked(delta),
            big_attack: self.base.big_attack.ticked(delta),
        }
    }

    /// The starting state: a base of 100 hit points with a basic attack
    /// (every 2 s, 4 damage, range 35, 3 targets) and a big attack (every
    /// 10 s, 30 damage, range 20, 10 targets), no enemies, and a spawner that
    /// emits an enemy of 10 hit points, speed 5 and damage 2 every second.
    pub fn new() -> (r: GameState)
        ensures
            r.wf(),
            r.base == starting_base(),
            r.enemies@ == Seq::<Enemy>::empty(),
            r.enemy_spawner == starting_spawner(),
    {
        GameState {
            base: Base {
                hp: HitPoints::new_full(100),
                basic_attack: Attack {
                    cooldown_timer: Timer::new(2000),
                    damage: 4,
                    range: 35 * DISTANCE_SCALE,
                    max_targets: 3,
                },
                big_attack: Attack {
                    cooldown_timer: Timer::new(10000),
                    damage: 30,
                    range: 20 * DISTANCE_SCALE,
                    max_targets: 10,
                },
            },
            enemies: Vec::new(),
            enemy_spawner: EnemySpawner {
                timer: Timer::new(1000),
                maximum_hp: 10,
                speed: 5,
                damage: 2,
            },
        }
    }

    /// Whether `tick(delta)` may be called on this state: every quantity it
    /// computes stays within `i64`.
    pub fn can_tick(&self, delta: u32) -> (r: bool)
        ensures
            r == self.tick_fits(delta as int),
    {
        let ghost d = delta as int;
        let mut arrived: i128 = 0;
        let mut i: usize = 0;
        while i < self.enemies.len()
            invariant
                i <= self.enemies.len(),
                d == delta,
                forall|j: int| 0 <= j < i ==> #[trigger] self.enemies@[j].move_fits(d),
                arrived == arrival_damage(self.enemies@.take(i as int), d),
                0 <= arrived <= i * 4294967295,
            decreases self.enemies.len() - i,
        {
            let e = self.enemies[i];
            proof {
                let (sp, de) = (e.speed as int, delta as int);
                assert(0 <= sp * de <= 4294967295 * 4294967295) by (nonlinear_arith)
                    requires
                        0 <= sp <= 4294967295,
                        0 <= de <= 4294967295,
                ;
            }
            let next: i128 = e.distance.0 as i128 - (e.speed as i128) * (delta as i128);
            if next < i64::MIN as i128 {
                proof {
                    assert(!self.enemies@[i as int].move_fits(d));
                }
                return false;
            }
            proof {
                assert(self.enemies@.take(i + 1).drop_last() =~= self.enemies@.take(i as int));
                assert(self.enemies@.take(i + 1).last() == e);
            }
            if next <= 0 {
                arrived = arrived + e.damage as i128;
            }
            i = i + 1;
        }
        proof {
            assert(self.enemies@.take(i as int) =~= self.enemies@);
        }
        self.base.hp.current as i128 - arrived >= i64::MIN as i128 && self.enemy_spawner.timer.can_tick(
            delta,
        ) && self.base.basic_attack.cooldown_timer.can_tick(delta)
            && self.base.big_attack.cooldown_timer.can_tick(delta)
    }

    /// Runs one step of the simulation over `delta` milliseconds: move, let
    /// arrivals hit the base, spawn, sort by distance, then the basic attack
    /// and the big attack.
    pub fn tick(&mut self, delta: u32)
        requires
            old(self).wf(),
            old(self).tick_fits(delta as int),
        ensures
            final(self).enemies@ == old(self).next_enemies(delta as int),
            final(self).base == old(self).next_base(delta as int),
            final(self).enemy_spawner == old(self).enemy_spawner.ticked(delta as int),
            final(self).wf(),
    {
        let ghost start = *self;
        let ghost d = delta as int;
        let mut kept: Vec<Enemy> = Vec::new();
        let mut i: usize = 0;
        while i < self.enemies.len()
            invariant
                i <= self.enemies.len(),
                self.enemies@ == start.enemies@,
                self.enemy_spawner == start.enemy_spawner,
                self.base == (Base {
                    hp: start.base.hp.damaged(arrival_damage(start.enemies@.take(i as int), d)),
                    ..start.base
                }),
                kept@ == moved_on(start.enemies@.take(i as int), d),
                start.tick_fits(d),
                d == delta,
            decreases self.enemies.len() - i,
        {
            proof {
                assert(start.enemies@.take(i + 1).drop_last() =~= start.enemies@.take(i as int));
                assert(start.enemies@.take(i + 1).last() == start.enemies@[i as int]);
                lemma_arrival_damage_prefix(start.enemies@, i + 1, d);
                lemma_arrival_damage_prefix(start.enemies@, i as int, d);
                assert(self.enemies@[i as int].move_fits(d));
            }
            let mut enemy = self.enemies[i];
            match enemy.tick(delta) {
                EnemyAfterTick::Normal => kept.push(enemy),
                EnemyAfterTick::ReachedBase => self.base.hp.take_damage(enemy.damage),
            }
            i = i + 1;
        }
        proof {
            assert(start.enemies@.take(i as int) =~= start.enemies@);
            lemma_moved_on_alive(start.enemies@, d);
        }
        if let Some(enemy) = self.enemy_spawner.tick(delta) {
            kept.push(enemy);
        }
        proof {
            assert(kept@ == start.gathered(d));
            assert(all_alive(kept@));
        }
        let sorted = sort_by_distance(kept);
        proof {
            lemma_by_distance_alive(kept@);
            lemma_strike_alive(self.base.basic_attack, sorted@);
        }
        let after_basic = self.base.basic_attack.fire(delta, sorted);
        proof {
            lemma_strike_alive(self.base.basic_attack, sorted@);
            lemma_strike_alive(self.base.big_attack, after_basic@);
        }
        let after_big = self.base.big_attack.fire(delta, after_basic);
        proof {
            lemma_strike_alive(self.base.big_attack, after_basic@);
        }
        self.enemies = after_big;
    }
}

impl Default for GameState {
    fn default() -> (r: GameState)
        ensures
            r.wf(),
            r.base == starting_base(),
            r.enemies@ == Seq::<Enemy>::empty(),
            r.enemy_spawner == starting_spawner(),
    {
        GameState::new()
    }
}

/// A tick never raises the base's hit points, nor changes its maximum: a base
/// at or under its maximum stays there.
pub proof fn lemma_base_hp_capped(g: GameState, delta: u32)
    requires
        g.tick_fits(delta as int),
    ensures
        g.next_base(delta as int).hp.maximum == g.base.hp.maximum,
        g.next_base(delta as int).hp.current <= g.base.hp.current,
{
    lemma_arrival_damage_nonnegative(g.enemies@, delta as int);
}

/// A tick adds at most one enemy to the live set.
pub proof fn lemma_enemy_count(g: GameState, delta: u32)
    requires
        g.wf(),
    ensures
        g.next_enemies(delta as int).len() <= g.enemies@.len() + 1,
        all_alive(g.next_enemies(delta as int)),
{
    let d = delta as int;
    lemma_moved_on_alive(g.enemies@, d);
    let gathered = g.gathered(d);
    assert(all_alive(gathered));
    crate::ordering::lemma_by_distance_sorted(gathered);
    lemma_by_distance_alive(gathered);
    let sorted = by_distance(gathered);
    let basic = g.base.basic_attack.ticked(d);
    lemma_strike_alive(basic, sorted);
    let after_basic = basic.attacked(sorted);
    lemma_strike_alive(g.base.big_attack.ticked(d), after_basic);
}

/// After a tick the live enemies stand in ascending order of distance.
pub proof fn lemma_tick_orders_enemies(g: GameState, delta: u32)
    ensures
        is_by_distance(g.next_enemies(delta as int)),
{
    let d = delta as int;
    let sorted = by_distance(g.gathered(d));
    crate::ordering::lemma_by_distance_sorted(g.gathered(d));
    let basic = g.base.basic_attack.ticked(d);
    lemma_strike_keeps_order(basic, sorted);
    lemma_strike_keeps_order(g.base.big_attack.ticked(d), basic.attacked(sorted));
}

/// Arrivals within a prefix deal no more than arrivals within the whole.
proof fn lemma_arrival_damage_prefix(s: Seq<Enemy>, n: int, delta: int)
    requires
        0 <= n <= s.len(),
    ensures
        0 <= arrival_damage(s.take(n), delta) <= arrival_damage(s, delta),
    decreases s.len() - n,
{
    if n < s.len() {
        assert(s.take(n + 1).drop_last() =~= s.take(n));
        lemma_arrival_damage_prefix(s, n + 1, delta);
        lemma_arrival_damage_nonnegative(s.take(n), delta);
    } else {
        assert(s.take(n) =~= s);
        lemma_arrival_damage_nonnegative(s, delta);
    }
}

proof fn lemma_arrival_damage_nonnegative(s: Seq<Enemy>, delta: int)
    ensures
        arrival_damage(s, delta) >= 0,
    decreases s.len(),
{
    if s.len() > 0 {
        lemma_arrival_damage_nonnegative(s.drop_last(), delta);
    }
}

/// Moving keeps hit points, and never adds enemies.
proof fn lemma_moved_on_alive(s: Seq<Enemy>, delta: int)
    requires
        all_alive(s),
    ensures
        all_alive(moved_on(s, delta)),
        moved_on(s, delta).len() <= s.len(),
    decreases s.len(),
{
    if s.len() > 0 {
        assert(all_alive(s.drop_last())) by {
            assert forall|i: int| 0 <= i < s.drop_last().len() implies s.drop_last()[i].hp.current
                > 0 by {
                assert(s.drop_last()[i] == s[i]);
            }
        }
        lemma_moved_on_alive(s.drop_last(), delta);
    }
}

/// Sorting keeps every enemy alive that was alive.
proof fn lemma_by_distance_alive(s: Seq<Enemy>)
    requires
        all_alive(s),
    ensures
        all_alive(by_distance(s)),
{
    let r = by_distance(s);
    lemma_by_distance_permutes(s);
    assert forall|i: int| 0 <= i < r.len() implies r[i].hp.current > 0 by {
        to_multiset_contains(r, r[i]);
        to_multiset_contains(s, r[i]);
        assert(r.contains(r[i]));
        let j = choose|j: int| 0 <= j < s.len() && s[j] == r[i];
    }
}

/// On enemies that are all alive, an activation stays within range, and every
/// enemy it leaves is alive: those it brought to zero or less are gone.
pub proof fn lemma_strike_alive(a: Attack, s: Seq<Enemy>)
    requires
        all_alive(s),
    ensures
        a.strike_fits(s),
        all_alive(a.strike(s).0),
        a.strike(s).0.len() <= s.len(),
    decreases s.len(),
{
    if s.len() > 0 {
        assert(all_alive(s.drop_last())) by {
            assert forall|i: int| 0 <= i < s.drop_last().len() implies s.drop_last()[i].hp.current
                > 0 by {
                assert(s.drop_last()[i] == s[i]);
            }
        }
        lemma_strike_alive(a, s.drop_last());
    }
}

} // verus!
