//! A minimum-interval gate.
//!
//! An `IntervalEnsurer` remembers the earliest instant (in milliseconds on
//! some caller-chosen clock) at which it is next willing to fire.  Asked at
//! instant `now`, it either fires — and pushes that earliest instant to
//! `now + duration` — or reports that the interval has not passed yet.  The
//! very first ask always fires, because a fresh gate is willing from
//! instant zero.

use vstd::prelude::*;

verus! {

/// Gate that fires at most once per `duration` milliseconds.
pub struct IntervalEnsurer {
    /// The earliest instant of the next firing.
    pub end: u64,
    /// The minimum number of milliseconds between two firings.
    pub duration: u64,
}

impl IntervalEnsurer {
    /// A fresh gate that fires on the first ask, whatever the clock reads.
    pub fn new(duration: u64) -> (gate: Self)
        ensures
            gate.end == 0,
            gate.duration == duration,
    {
        Self { end: 0, duration }
    }

    /// Ask at instant `now`.  The ensurer fires exactly when `now` has
    /// reached the stored earliest instant; firing re-arms it for
    /// `now + duration`, and a refused ask changes nothing.
    pub fn poll_at(&mut self, now: u64) -> (ready: bool)
        requires
            now + old(self).duration <= u64::MAX,
        ensures
            ready == (now >= old(self).end),
            final(self).duration == old(self).duration,
            ready ==> final(self).end == now + old(self).duration,
            !ready ==> final(self).end == old(self).end,
    {
        if now >= self.end {
            self.end = now + self.duration;
            true
        } else {
            false
        }
    }
}

} // verus!
