//! Pacing of the tick loop: the time a run owes to sleep so that it does
//! not run faster than one instruction a millisecond.

use vstd::prelude::*;

verus! {

/// The shortest time one tick is meant to take, in nanoseconds.
pub const MIN_TICK_NANOS: u64 = 1_000_000;

/// Sleep is owed up to this many nanoseconds before it is taken.
pub const SLEEP_THRESHOLD_NANOS: u64 = 50_000_000;

/// How long a tick that took `tick_nanos` fell short of the minimum.
pub open spec fn shortfall(tick_nanos: u64) -> int {
    if tick_nanos < MIN_TICK_NANOS {
        MIN_TICK_NANOS - tick_nanos
    } else {
        0
    }
}

/// The sleep that fast ticks have accumulated and not yet taken.
pub struct Pacer {
    sleep_debt_nanos: u64,
}

impl Pacer {
    #[verifier::type_invariant]
    spec fn inv(&self) -> bool {
        self.sleep_debt_nanos <= SLEEP_THRESHOLD_NANOS
    }

    /// Sleep owed, in nanoseconds.
    pub closed spec fn debt(&self) -> int {
        self.sleep_debt_nanos as int
    }

    pub fn new() -> (r: Pacer)
        ensures
            r.debt() == 0,
    {
        Pacer { sleep_debt_nanos: 0 }
    }

    /// Records a tick that took `tick_nanos`. Returns the time to sleep now,
    /// if the owed sleep has grown past the threshold; the debt is then
    /// cleared.
    pub fn after_tick(&mut self, tick_nanos: u64) -> (r: Option<u64>)
        ensures
            old(self).debt() + shortfall(tick_nanos) > SLEEP_THRESHOLD_NANOS ==> r == Some(
                (old(self).debt() + shortfall(tick_nanos)) as u64,
            ) && final(self).debt() == 0,
            old(self).debt() + shortfall(tick_nanos) <= SLEEP_THRESHOLD_NANOS ==> r is None
                && final(self).debt() == old(self).debt() + shortfall(tick_nanos),
    {
        proof {
            use_type_invariant(&*self);
        }
        let mut debt = self.sleep_debt_nanos;
        if tick_nanos < MIN_TICK_NANOS {
            debt = debt + (MIN_TICK_NANOS - tick_nanos);
        }
        if debt > SLEEP_THRESHOLD_NANOS {
            self.sleep_debt_nanos = 0;
            Some(debt)
        } else {
            self.sleep_debt_nanos = debt;
            None
        }
    }
}

} // verus!
