use vstd::prelude::*;
use crate::hit_points::HitPoints;
use crate::timer::Timer;

verus! {

/// Distances are counted in thousandths of a unit of track.
pub const DISTANCE_SCALE: i64 = 1000;

/// Where a freshly spawned enemy starts: 100 units from the base.
pub const START_DISTANCE: i64 = 100 * DISTANCE_SCALE;

/// How far an enemy still has to go; zero or less means it has reached the base.
#[derive(Clone, Copy, Debug, PartialEq, Eq)]
pub struct Distance(pub i64);

impl Distance {
    pub fn start() -> (r: Distance)
        ensures
            r.0 == START_DISTANCE,
    {
        Distance(START_DISTANCE)
    }
}

/// An enemy on the track. `speed` is in thousandths of a unit per millisecond,
/// which is the same as units per second.
#[derive(Clone, Copy, Debug, PartialEq, Eq)]
pub struct Enemy {
    pub hp: HitPoints,
    pub damage: u32,
    pub speed: u32,
    pub distance: Distance,
}

/// What became of an enemy after it moved.
#[derive(Clone, Copy, Debug, PartialEq, Eq)]
pub enum EnemyAfterTick {
    Normal,
    ReachedBase,
}

impl Enemy {
    /// Whether moving for `delta` milliseconds stays within the range of a distance.
    pub open spec fn move_fits(self, delta: int) -> bool {
        self.distance.0 - self.speed * delta >= i64::MIN
    }

    /// The enemy after moving for `delta` milliseconds.
    pub open spec fn advanced(self, delta: int) -> Enemy {
        Enemy { distance: Distance((self.distance.0 - self.speed * delta) as i64), ..self }
    }

    /// The enemy after losing `amount` hit points.
    pub open spec fn damaged(self, amount: int) -> Enemy {
        Enemy { hp: self.hp.damaged(amount), ..self }
    }

    pub open spec fn arrived(self) -> bool {
        self.distance.0 <= 0
    }

    pub fn tick(&mut self, delta: u32) -> (r: EnemyAfterTick)
        requires
            old(self).move_fits(delta as int),
        ensures
            *final(self) == old(self).advanced(delta as int),
            r == (if final(self).arrived() {
                EnemyAfterTick::ReachedBase
            } else {
                EnemyAfterTick::Normal
            }),
    {
        let step: i128 = (self.speed as i128) * (delta as i128);
        self.distance.0 = (self.distance.0 as i128 - step) as i64;
        if self.distance.0 > 0 {
            EnemyAfterTick::Normal
        } else {
            EnemyAfterTick::ReachedBase
        }
    }
}

/// Emits one enemy, built from its template, each time its timer fires.
#[derive(Clone, Copy, Debug, PartialEq, Eq)]
pub struct EnemySpawner {
    pub timer: Timer,
    pub maximum_hp: i64,
    pub speed: u32,
    pub damage: u32,
}

impl EnemySpawner {
    pub open spec fn wf(self) -> bool {
        self.timer.wf() && self.maximum_hp > 0
    }

    /// The enemy this spawner emits: full health, at the start of the track.
    pub open spec fn spawned(self) -> Enemy {
        Enemy {
            hp: HitPoints { maximum: self.maximum_hp, current: self.maximum_hp },
            damage: self.damage,
            speed: self.speed,
            distance: Distance(START_DISTANCE),
        }
    }

    pub open spec fn ticked(self, delta: int) -> EnemySpawner {
        EnemySpawner { timer: self.timer.ticked(delta), ..self }
    }

    /// Advances the timer; returns the new enemy when it fired.
    pub fn tick(&mut self, delta: u32) -> (r: Option<Enemy>)
        requires
            old(self).wf(),
            old(self).timer.tick_fits(delta as int),
        ensures
            *final(self) == old(self).ticked(delta as int),
            final(self).wf(),
            r == (if final(self).timer.has_just_finished {
                Some(old(self).spawned())
            } else {
                None
            }),
    {
        self.timer.tick(delta);
        if self.timer.has_just_finished() {
            Some(
                Enemy {
                    hp: HitPoints::new_full(self.maximum_hp),
                    damage: self.damage,
                    speed: self.speed,
                    distance: Distance::start(),
                },
            )
        } else {
            None
        }
    }
}

} // verus!
