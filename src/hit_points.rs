use vstd::prelude::*;

verus! {

/// A health pool. `current` is not clamped: it may fall to zero or below.
#[derive(Clone, Copy, Debug, PartialEq, Eq)]
pub struct HitPoints {
    pub maximum: i64,
    pub current: i64,
}

impl HitPoints {
    /// The pool after losing `amount` points.
    pub open spec fn damaged(self, amount: int) -> HitPoints {
        HitPoints { current: (self.current - amount) as i64, ..self }
    }

    pub fn new_full(maximum: i64) -> (r: HitPoints)
        ensures
            r == (HitPoints { maximum, current: maximum }),
    {
        HitPoints { maximum, current: maximum }
    }

    /// Subtracts `amount` with no floor at zero.
    pub fn take_damage(&mut self, amount: u32)
        requires
            old(self).current - amount >= i64::MIN,
        ensures
            *final(self) == old(self).damaged(amount as int),
    {
        self.current = self.current - amount as i64;
    }

    pub fn reset(&mut self)
        ensures
            *final(self) == (HitPoints { maximum: old(self).maximum, current: old(self).maximum }),
    {
        self.current = self.maximum;
    }
}

} // verus!
