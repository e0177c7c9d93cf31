//! Time-gated triggers, driven by the caller's clock in milliseconds.

use vstd::prelude::*;

verus! {

/// Fires at most once per check, when a full period has passed since it last fired.
pub struct Ticker {
    pub period_ms: u64,
    pub last_ms: u64,
}

/// A full period has passed between `last` and `now`.
pub open spec fn period_elapsed(last: u64, now: u64, period: u64) -> bool {
    now >= last && now - last >= period
}

impl Ticker {
    /// A ticker whose first period starts at `now_ms`.
    pub fn new(period_ms: u64, now_ms: u64) -> (r: Ticker)
        ensures
            r.period_ms == period_ms,
            r.last_ms == now_ms,
    {
        Ticker { period_ms, last_ms: now_ms }
    }

    /// Whether the ticker fires at `now_ms`; when it does, its next period
    /// starts at `now_ms`, whatever number of periods has elapsed.
    pub fn tick(&mut self, now_ms: u64) -> (r: bool)
        ensures
            r == period_elapsed(old(self).last_ms, now_ms, old(self).period_ms),
            final(self).period_ms == old(self).period_ms,
            final(self).last_ms == if r {
                now_ms
            } else {
                old(self).last_ms
            },
    {
        if now_ms >= self.last_ms && now_ms - self.last_ms >= self.period_ms {
            self.last_ms = now_ms;
            true
        } else {
            false
        }
    }
}

} // verus!
