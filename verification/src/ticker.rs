//! Keepalive ticker model: fires at a fixed period, measured on a caller
//! supplied clock. The first tick is suppressed (nothing fires before one
//! full period has elapsed after creation), and a late poll delivers at
//! most one pending tick with no backlog or burst.

use vstd::prelude::*;

verus! {

/// The per-connection keepalive schedule.
pub struct Ticker {
    /// The fixed period between ticks, in the caller's time unit.
    pub period: u64,
    /// The instant at or after which the next poll fires.
    pub deadline: u64,
}

impl Ticker {
    /// Well-formedness: the period is positive.
    pub open spec fn wf(&self) -> bool {
        self.period > 0
    }

    /// Creates a ticker at time `now`: the first tick is due only one full
    /// period later, so nothing fires at creation time.
    pub fn new(now: u64, period: u64) -> (t: Ticker)
        requires
            period > 0,
            now + period <= u64::MAX,
        ensures
            t.wf(),
            t.period == period,
            t.deadline == now + period,
    {
        Ticker { period, deadline: now + period }
    }

    /// Polls the ticker at time `now`: fires exactly when the deadline has
    /// been reached, and then schedules the next tick one full period after
    /// `now`, so that a consumer that was busy past several deadlines still
    /// receives at most one pending tick.
    pub fn poll(&mut self, now: u64) -> (fired: bool)
        requires
            old(self).wf(),
            now + old(self).period <= u64::MAX,
        ensures
            final(self).wf(),
            final(self).period == old(self).period,
            fired == (now >= old(self).deadline),
            fired ==> final(self).deadline == now + old(self).period,
            !fired ==> final(self).deadline == old(self).deadline,
    {
        if now >= self.deadline {
            self.deadline = now + self.period;
            true
        } else {
            false
        }
    }
}

/// Between consecutive ticks at least one full period elapses: once the
/// ticker has fired at `fire_time` (its deadline then stands one period
/// later), no poll strictly before `fire_time + period` fires again. With
/// the creation deadline this gives exactly one ping per keepalive period
/// and none at time zero.
pub proof fn lemma_one_tick_per_period(t: Ticker, fire_time: u64, later: u64)
    requires
        t.wf(),
        t.deadline == fire_time + t.period,
        later < fire_time + t.period,
    ensures
        later < t.deadline,
{
}

} // verus!
