use vstd::prelude::*;

verus! {

/// A countdown that fires once per period, measured in milliseconds.
///
/// On a fire the period is added back onto `remaining`, which keeps any
/// overshoot. A tick fires at most once: a `delta` that spans several periods
/// is not caught up, and `remaining` may then stay at zero or below.
#[derive(Clone, Copy, Debug, PartialEq, Eq)]
pub struct Timer {
    pub total: i64,
    pub remaining: i64,
    /// Set by the tick that fired, cleared by the next tick that does not.
    pub has_just_finished: bool,
    /// A one-shot timer pauses itself when it fires; its flag then stays set.
    pub one_shot: bool,
    pub paused: bool,
}

impl Timer {
    /// A timer is usable when its period is positive.
    pub open spec fn wf(self) -> bool {
        self.total > 0
    }

    /// Whether ticking by `delta` stays within the range of `remaining`.
    pub open spec fn tick_fits(self, delta: int) -> bool {
        self.paused || self.remaining - delta >= i64::MIN
    }

    /// The timer after one tick of `delta` milliseconds.
    pub open spec fn ticked(self, delta: int) -> Timer {
        if self.paused {
            self
        } else if self.remaining - delta <= 0 {
            Timer {
                remaining: (self.remaining - delta + self.total) as i64,
                has_just_finished: true,
                paused: self.one_shot,
                ..self
            }
        } else {
            Timer { remaining: (self.remaining - delta) as i64, has_just_finished: false, ..self }
        }
    }

    /// The timer after a tick by each of `deltas`, in order.
    pub open spec fn ticked_all(self, deltas: Seq<u32>) -> Timer
        decreases deltas.len(),
    {
        if deltas.len() == 0 {
            self
        } else {
            self.ticked(deltas[0] as int).ticked_all(deltas.drop_first())
        }
    }

    /// A running, repeating timer with a full period ahead.
    pub open spec fn full(total: i64) -> Timer {
        Timer { total, remaining: total, has_just_finished: false, one_shot: false, paused: false }
    }

    /// A timer with a period of `total` milliseconds. A period of zero or
    /// less would fire on every tick, so it is not admitted.
    pub fn new(total: i64) -> (r: Timer)
        requires
            total > 0,
        ensures
            r.wf(),
            r == Timer::full(total),
    {
        Timer { total, remaining: total, has_just_finished: false, one_shot: false, paused: false }
    }

    pub fn tick(&mut self, delta: u32)
        requires
            old(self).wf(),
            old(self).tick_fits(delta as int),
        ensures
            *final(self) == old(self).ticked(delta as int),
            final(self).wf(),
    {
        if !self.paused {
            self.remaining = self.remaining - delta as i64;
            if self.remaining <= 0 {
                self.has_just_finished = true;
                self.remaining = self.remaining + self.total;
                if self.one_shot {
                    self.paused = true;
                }
            } else {
                self.has_just_finished = false;
            }
        }
    }

    /// Whether `tick(delta)` may be called: the subtraction stays within `i64`.
    pub fn can_tick(&self, delta: u32) -> (r: bool)
        ensures
            r == self.tick_fits(delta as int),
    {
        self.paused || self.remaining as i128 - delta as i128 >= i64::MIN as i128
    }

    pub fn has_just_finished(&self) -> (r: bool)
        ensures
            r == self.has_just_finished,
    {
        self.has_just_finished
    }
}

/// Ticking by exactly one period fires, and adds the period back so that
/// `remaining` is where it was: a fresh timer is full again.
pub proof fn lemma_wraparound(t: Timer)
    requires
        t.wf(),
        !t.paused,
        0 < t.remaining <= t.total,
    ensures
        t.ticked(t.total as int).has_just_finished,
        t.ticked(t.total as int).remaining == t.remaining,
{
}

/// A paused timer is left as it is by any sequence of ticks.
pub proof fn lemma_paused_unchanged(t: Timer, deltas: Seq<u32>)
    requires
        t.paused,
    ensures
        t.ticked_all(deltas) == t,
    decreases deltas.len(),
{
    if deltas.len() > 0 {
        lemma_paused_unchanged(t, deltas.drop_first());
    }
}

/// A one-shot timer that fires pauses itself with the flag set, and no later
/// sequence of ticks changes it: it fires once.
pub proof fn lemma_one_shot_fires_once(t: Timer, delta: u32, later: Seq<u32>)
    requires
        t.one_shot,
        t.ticked(delta as int).has_just_finished,
    ensures
        t.ticked(delta as int).paused,
        t.ticked(delta as int).ticked_all(later) == t.ticked(delta as int),
{
    lemma_paused_unchanged(t.ticked(delta as int), later);
}

} // verus!
