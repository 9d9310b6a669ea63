//! The drift-corrected tick clock that paces scheduling passes.
//!
//! Elapsed wall-clock time is accumulated exactly, in milliseconds, and one
//! pass is owed for each whole tick period accumulated, so late or missed
//! wake-ups do not shift the cadence.

use crate::counter::MAX_INSTANT;
use vstd::prelude::*;

verus! {

/// The default tick period, in milliseconds.
pub const TICK_PERIOD_MS: i64 = 4000;

/// Accumulated time towards the next scheduling pass.
pub struct TickClock {
    period: i64,
    last_tick: i64,
    accumulated: i64,
}

impl TickClock {
    /// The length of one tick, in milliseconds.
    pub closed spec fn period(&self) -> int {
        self.period as int
    }

    /// The instant of the last wake-up.
    pub closed spec fn last_tick(&self) -> int {
        self.last_tick as int
    }

    /// Time accumulated and not yet consumed by a tick.
    pub closed spec fn accumulated(&self) -> int {
        self.accumulated as int
    }

    /// The period is positive, the instant in range, and no more time is
    /// accumulated than has passed since the clock's origin.
    pub closed spec fn wf(&self) -> bool {
        &&& 0 < self.period
        &&& 0 <= self.last_tick <= MAX_INSTANT
        &&& 0 <= self.accumulated <= self.last_tick
    }

    /// A clock started at `now` with nothing accumulated.
    pub fn new(period: i64, now: i64) -> (c: TickClock)
        requires
            0 < period,
            0 <= now <= MAX_INSTANT,
        ensures
            c.wf(),
            c.period() == period,
            c.last_tick() == now,
            c.accumulated() == 0,
    {
        TickClock { period, last_tick: now, accumulated: 0 }
    }

    /// Adds the time elapsed since the last wake-up. A clock reading earlier
    /// than the last one adds nothing.
    pub fn advance(&mut self, now: i64)
        requires
            old(self).wf(),
            0 <= now <= MAX_INSTANT,
        ensures
            final(self).wf(),
            final(self).period() == old(self).period(),
            now >= old(self).last_tick() ==> final(self).last_tick() == now
                && final(self).accumulated() == old(self).accumulated() + (now - old(self).last_tick()),
            now < old(self).last_tick() ==> *final(self) == *old(self),
    {
        if now >= self.last_tick {
            self.accumulated = self.accumulated + (now - self.last_tick);
            self.last_tick = now;
        }
    }

    /// Consumes one whole tick if one has accumulated, telling whether a pass is owed.
    pub fn take_tick(&mut self) -> (owed: bool)
        requires
            old(self).wf(),
        ensures
            final(self).wf(),
            owed == (old(self).accumulated() >= old(self).period()),
            final(self).period() == old(self).period(),
            final(self).last_tick() == old(self).last_tick(),
            final(self).accumulated() == if owed {
                old(self).accumulated() - old(self).period()
            } else {
                old(self).accumulated()
            },
    {
        if self.accumulated >= self.period {
            self.accumulated = self.accumulated - self.period;
            true
        } else {
            false
        }
    }
}

} // verus!
