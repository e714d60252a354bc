//! The game clock: a fixed period, and the time gathered towards it.

use vstd::prelude::*;

verus! {

/// A clock that fires once for every `period` of gathered time, at most
/// once per look. Time is counted in whole units of the caller's choosing.
#[derive(Clone, Copy, Debug, PartialEq, Eq, Structural)]
pub struct Clock {
    /// Time gathered and not yet spent on a firing.
    pub elapsed: u64,
    /// Time that one firing costs.
    pub period: u64,
}

impl Clock {
    /// A clock of the given period with no time gathered.
    pub open spec fn spec_new(period: u64) -> Clock {
        Clock { elapsed: 0, period }
    }

    /// The time gathered once `delta` more has passed. The sum stops at the
    /// largest number the counter holds.
    pub open spec fn accumulated(self, delta: u64) -> u64 {
        self.elapsed.saturating_add(delta)
    }

    /// Whether the clock fires when `delta` more time has passed: the
    /// gathered time has reached the period.
    pub open spec fn fires(self, delta: u64) -> bool {
        self.accumulated(delta) >= self.period
    }

    /// The clock after `delta` more time has passed. A firing spends one
    /// period of the gathered time and keeps the rest, however much it is.
    pub open spec fn after(self, delta: u64) -> Clock {
        Clock {
            elapsed: if self.fires(delta) {
                (self.accumulated(delta) - self.period) as u64
            } else {
                self.accumulated(delta)
            },
            period: self.period,
        }
    }

    /// A clock of the given period with no time gathered.
    #[verifier::when_used_as_spec(spec_new)]
    pub fn new(period: u64) -> (clock: Clock)
        ensures
            clock == Self::spec_new(period),
    {
        Clock { elapsed: 0, period }
    }

    /// Lets `delta` time pass and says whether the clock fired. It fires at
    /// most once, even where several periods have gone by: the time beyond
    /// one period stays gathered for the next look.
    pub fn tick(&mut self, delta: u64) -> (fired: bool)
        ensures
            fired == old(self).fires(delta),
            *final(self) == old(self).after(delta),
    {
        let gathered: u64 = self.elapsed.saturating_add(delta);
        if gathered >= self.period {
            self.elapsed = gathered - self.period;
            true
        } else {
            self.elapsed = gathered;
            false
        }
    }

    /// A firing spends exactly one period; without a firing nothing is
    /// spent and the gathered time stays below the period.
    pub proof fn lemma_after(self, delta: u64)
        ensures
            self.after(delta).period == self.period,
            self.fires(delta) ==> self.after(delta).elapsed + self.period == self.accumulated(
                delta,
            ),
            !self.fires(delta) ==> self.after(delta).elapsed == self.accumulated(delta)
                && self.after(delta).elapsed < self.period,
            self.elapsed + delta <= u64::MAX ==> self.accumulated(delta) == self.elapsed + delta,
    {
    }
}

} // verus!
