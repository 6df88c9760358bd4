use vstd::prelude::*;
use crate::enemy::Enemy;
use crate::hit_points::HitPoints;
use crate::ordering::is_by_distance;
use crate::timer::Timer;

verus! {

/// A cooldown-gated attack that strikes up to `max_targets` enemies within `range`.
#[derive(Clone, Copy, Debug, PartialEq, Eq)]
pub struct Attack {
    pub cooldown_timer: Timer,
    pub damage: u32,
    pub range: i64,
    pub max_targets: usize,
}

/// The defended point: its health and its two attacks, resolved basic first.
#[derive(Clone, Copy, Debug, PartialEq, Eq)]
pub struct Base {
    pub hp: HitPoints,
    pub basic_attack: Attack,
    pub big_attack: Attack,
}

impl Attack {
    pub open spec fn ticked(self, delta: int) -> Attack {
        Attack { cooldown_timer: self.cooldown_timer.ticked(delta), ..self }
    }

    /// Whether the enemy would be struck after `hits` earlier enemies were.
    pub open spec fn targets(self, e: Enemy, hits: nat) -> bool {
        hits < self.max_targets && e.distance.0 <= self.range
    }

    /// One activation over `s`, walked in order: the enemies that remain, and
    /// how many were struck. A struck enemy left at zero or less is dropped.
    pub open spec fn strike(self, s: Seq<Enemy>) -> (Seq<Enemy>, nat)
        decreases s.len(),
    {
        if s.len() == 0 {
            (Seq::empty(), 0)
        } else {
            let (kept, hits) = self.strike(s.drop_last());
            let e = s.last();
            if self.targets(e, hits) {
                let hurt = e.damaged(self.damage as int);
                (if hurt.hp.current > 0 { kept.push(hurt) } else { kept }, hits + 1)
            } else {
                (kept.push(e), hits)
            }
        }
    }

    /// Whether every struck enemy's hit points stay within range.
    pub open spec fn strike_fits(self, s: Seq<Enemy>) -> bool
        decreases s.len(),
    {
        s.len() == 0 || (self.strike_fits(s.drop_last()) && (self.targets(
            s.last(),
            self.strike(s.drop_last()).1,
        ) ==> s.last().hp.current - self.damage >= i64::MIN))
    }

    /// The enemies after this attack's tick: struck if its cooldown fired.
    pub open spec fn attacked(self, s: Seq<Enemy>) -> Seq<Enemy> {
        if self.cooldown_timer.has_just_finished {
            self.strike(s).0
        } else {
            s
        }
    }

    /// Applies one activation to `enemies`, closest first.
    pub fn resolve(&self, enemies: Vec<Enemy>) -> (r: Vec<Enemy>)
        requires
            self.strike_fits(enemies@),
        ensures
            r@ == self.strike(enemies@).0,
    {
        let mut out: Vec<Enemy> = Vec::new();
        let mut targets_hit: usize = 0;
        let mut i: usize = 0;
        while i < enemies.len()
            invariant
                i <= enemies.len(),
                self.strike_fits(enemies@),
                (out@, targets_hit as nat) == self.strike(enemies@.take(i as int)),
            decreases enemies.len() - i,
        {
            proof {
                assert(enemies@.take(i + 1).drop_last() =~= enemies@.take(i as int));
                lemma_strike_fits_prefix(*self, enemies@, i + 1);
            }
            let mut enemy = enemies[i];
            if targets_hit < self.max_targets && enemy.distance.0 <= self.range {
                enemy.hp.take_damage(self.damage);
                targets_hit = targets_hit + 1;
                if enemy.hp.current > 0 {
                    out.push(enemy);
                }
            } else {
                out.push(enemy);
            }
            i = i + 1;
        }
        proof {
            assert(enemies@.take(i as int) =~= enemies@);
        }
        out
    }

    /// Advances the cooldown and, when it fires, strikes `enemies`.
    pub fn fire(&mut self, delta: u32, enemies: Vec<Enemy>) -> (r: Vec<Enemy>)
        requires
            old(self).cooldown_timer.wf(),
            old(self).cooldown_timer.tick_fits(delta as int),
            old(self).strike_fits(enemies@),
        ensures
            *final(self) == old(self).ticked(delta as int),
            final(self).cooldown_timer.wf(),
            r@ == final(self).attacked(enemies@),
    {
        self.cooldown_timer.tick(delta);
        proof {
            lemma_strike_ignores_cooldown(*old(self), *self, enemies@);
        }
        if self.cooldown_timer.has_just_finished() {
            self.resolve(enemies)
        } else {
            enemies
        }
    }
}

/// Striking does not depend on the state of the cooldown.
pub proof fn lemma_strike_ignores_cooldown(a: Attack, b: Attack, s: Seq<Enemy>)
    requires
        a.damage == b.damage,
        a.range == b.range,
        a.max_targets == b.max_targets,
    ensures
        a.strike(s) == b.strike(s),
        a.strike_fits(s) == b.strike_fits(s),
    decreases s.len(),
{
    if s.len() > 0 {
        lemma_strike_ignores_cooldown(a, b, s.drop_last());
    }
}

/// When every enemy is within range, an activation strikes exactly the first
/// `max_targets` of them (all, if fewer), drops those it brought to zero or
/// less, and leaves the rest untouched.
pub proof fn lemma_strike_cap(a: Attack, s: Seq<Enemy>)
    requires
        forall|i: int| 0 <= i < s.len() ==> #[trigger] s[i].distance.0 <= a.range,
    ensures
        ({
            let k = if s.len() < a.max_targets { s.len() as int } else { a.max_targets as int };
            &&& a.strike(s).1 == k
            &&& a.strike(s).0 == s.take(k).map_values(|e: Enemy| e.damaged(a.damage as int)).filter(
                |e: Enemy| e.hp.current > 0,
            ) + s.skip(k)
        }),
    decreases s.len(),
{
    let hurt = |e: Enemy| e.damaged(a.damage as int);
    let alive = |e: Enemy| e.hp.current > 0;
    if s.len() == 0 {
        assert(s.take(0).map_values(hurt) =~= Seq::<Enemy>::empty());
        assert(Seq::<Enemy>::empty().filter(alive) =~= Seq::<Enemy>::empty());
        assert(s.skip(0) =~= s);
    } else {
        let t = s.drop_last();
        let e = s.last();
        assert forall|i: int| 0 <= i < t.len() implies #[trigger] t[i].distance.0 <= a.range by {
            assert(t[i] == s[i]);
        }
        lemma_strike_cap(a, t);
        if t.len() < a.max_targets {
            let n = t.len() as int;
            assert(s.take(n + 1) =~= s);
            assert(t.take(n) =~= t);
            assert(s.map_values(hurt) =~= t.map_values(hurt).push(hurt(e)));
            t.map_values(hurt).lemma_filter_push(hurt(e), alive);
            assert(t.skip(n) =~= Seq::<Enemy>::empty());
            assert(s.skip(n + 1) =~= Seq::<Enemy>::empty());
            assert(t.map_values(hurt).filter(alive) + t.skip(n) =~= t.map_values(hurt).filter(alive));
            assert(s.map_values(hurt).filter(alive) + s.skip(n + 1) =~= s.map_values(hurt).filter(alive));
        } else {
            let k = a.max_targets as int;
            assert(s.take(k) =~= t.take(k));
            assert(s.skip(k) =~= t.skip(k).push(e));
            let head = t.take(k).map_values(hurt).filter(alive);
            assert((head + t.skip(k)).push(e) =~= head + t.skip(k).push(e));
        }
    }
}

/// Each enemy an activation leaves is at the distance of some enemy it was given.
proof fn lemma_strike_distances(a: Attack, s: Seq<Enemy>)
    ensures
        forall|i: int|
            0 <= i < a.strike(s).0.len() ==> exists|j: int|
                0 <= j < s.len() && #[trigger] a.strike(s).0[i].distance == s[j].distance,
    decreases s.len(),
{
    if s.len() > 0 {
        let t = s.drop_last();
        lemma_strike_distances(a, t);
        let r = a.strike(s).0;
        let q = a.strike(t).0;
        assert forall|i: int| 0 <= i < r.len() implies exists|j: int|
            0 <= j < s.len() && #[trigger] r[i].distance == s[j].distance by {
            if i < q.len() {
                assert(r[i] == q[i]);
                let j = choose|j: int| 0 <= j < t.len() && q[i].distance == t[j].distance;
                assert(t[j] == s[j]);
            } else {
                assert(r[i].distance == s[s.len() - 1].distance);
            }
        }
    }
}

/// An activation keeps enemies in ascending order of distance.
pub proof fn lemma_strike_keeps_order(a: Attack, s: Seq<Enemy>)
    requires
        is_by_distance(s),
    ensures
        is_by_distance(a.strike(s).0),
    decreases s.len(),
{
    if s.len() > 0 {
        let t = s.drop_last();
        assert(is_by_distance(t)) by {
            assert forall|i: int, j: int| 0 <= i < j < t.len() implies t[i].distance.0
                <= t[j].distance.0 by {
                assert(t[i] == s[i] && t[j] == s[j]);
            }
        }
        lemma_strike_keeps_order(a, t);
        lemma_strike_distances(a, t);
        let r = a.strike(s).0;
        let q = a.strike(t).0;
        assert forall|i: int, j: int| 0 <= i < j < r.len() implies r[i].distance.0
            <= r[j].distance.0 by {
            if j < q.len() {
                assert(r[i] == q[i] && r[j] == q[j]);
            } else {
                assert(r[i] == q[i]);
                let k = choose|k: int| 0 <= k < t.len() && #[trigger] q[i].distance == t[k].distance;
                assert(t[k] == s[k]);
                assert(r[j].distance == s[s.len() - 1].distance);
            }
        }
    }
}

/// The check on a prefix holds when it holds on the whole.
pub proof fn lemma_strike_fits_prefix(a: Attack, s: Seq<Enemy>, n: int)
    requires
        0 <= n <= s.len(),
        a.strike_fits(s),
    ensures
        a.strike_fits(s.take(n)),
    decreases s.len() - n,
{
    if n < s.len() {
        assert(s.take(n + 1).drop_last() =~= s.take(n));
        lemma_strike_fits_prefix(a, s, n + 1);
    } else {
        assert(s.take(n) =~= s);
    }
}

} // verus!
