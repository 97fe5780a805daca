//! Tick-driven timers: the snapshot period and the rate limits on outbound
//! input. Time is in whole milliseconds of the owning tick loop.
use vstd::prelude::*;

verus! {

/// Period of snapshot broadcasts.
pub const SNAPSHOT_PERIOD_MS: u64 = 100;

/// Minimum spacing of continuous input reports: at most 20 per second.
pub const INPUT_INTERVAL_MS: u64 = 50;

/// Minimum spacing of interaction triggers.
pub const INTERACT_INTERVAL_MS: u64 = 500;

/// Lifetime of a projectile.
pub const PROJECTILE_LIFETIME_MS: u64 = 1500;

/// Period of a bot's automatic volley.
pub const BOT_CAST_PERIOD_MS: u64 = 3000;

/// A timer that finishes every `period` milliseconds and starts over.
#[derive(Clone, Copy, PartialEq, Eq, Structural, Debug)]
pub struct RepeatingTimer {
    period_ms: u64,
    elapsed_ms: u64,
}

impl RepeatingTimer {
    pub closed spec fn period(&self) -> u64 {
        self.period_ms
    }

    /// Time since the timer last finished.
    pub closed spec fn elapsed(&self) -> u64 {
        self.elapsed_ms
    }

    pub open spec fn wf(&self) -> bool {
        0 < self.period() && self.elapsed() < self.period()
    }

    /// A timer with the given period, nothing elapsed.
    pub fn new(period_ms: u64) -> (r: RepeatingTimer)
        requires
            period_ms > 0,
        ensures
            r.wf(),
            r.period() == period_ms,
            r.elapsed() == 0,
    {
        RepeatingTimer { period_ms, elapsed_ms: 0 }
    }

    /// Advances the timer by `delta_ms`; the result says whether it finished
    /// during this tick.
    pub fn tick(&mut self, delta_ms: u64) -> (finished: bool)
        requires
            old(self).wf(),
        ensures
            final(self).wf(),
            final(self).period() == old(self).period(),
            finished == (old(self).elapsed() + delta_ms >= old(self).period()),
            final(self).elapsed() == (old(self).elapsed() + delta_ms) % (old(self).period() as int),
    {
        let left = self.period_ms - self.elapsed_ms;
        if delta_ms >= left {
            let over = delta_ms - left;
            self.elapsed_ms = over % self.period_ms;
            proof {
                let p = old(self).period_ms as int;
                let e = old(self).elapsed_ms as int;
                let d = delta_ms as int;
                assert((e + d) % p == (d - (p - e)) % p) by {
                    vstd::arithmetic::div_mod::lemma_mod_sub_multiples_vanish(e + d, p);
                }
            }
            true
        } else {
            self.elapsed_ms = self.elapsed_ms + delta_ms;
            proof {
                vstd::arithmetic::div_mod::lemma_small_mod(
                    (old(self).elapsed_ms + delta_ms) as nat,
                    old(self).period_ms as nat,
                );
            }
            false
        }
    }
}

/// Lets an action through only when more than `min_interval` milliseconds
/// have passed since it last went through; the clock starts at zero.
#[derive(Clone, Copy, PartialEq, Eq, Structural, Debug)]
pub struct RateLimiter {
    min_interval_ms: u64,
    last_ms: u64,
}

impl RateLimiter {
    pub closed spec fn min_interval(&self) -> u64 {
        self.min_interval_ms
    }

    /// When the action last went through.
    pub closed spec fn last(&self) -> u64 {
        self.last_ms
    }

    pub fn new(min_interval_ms: u64) -> (r: RateLimiter)
        ensures
            r.min_interval() == min_interval_ms,
            r.last() == 0,
    {
        RateLimiter { min_interval_ms, last_ms: 0 }
    }

    /// At time `now_ms`: whether the action may go now; if so, the time is
    /// recorded.
    pub fn try_acquire(&mut self, now_ms: u64) -> (allowed: bool)
        ensures
            final(self).min_interval() == old(self).min_interval(),
            allowed == (now_ms > old(self).last() && now_ms - old(self).last() > old(
                self,
            ).min_interval()),
            final(self).last() == (if allowed {
                now_ms
            } else {
                old(self).last()
            }),
    {
        if now_ms > self.last_ms && now_ms - self.last_ms > self.min_interval_ms {
            self.last_ms = now_ms;
            true
        } else {
            false
        }
    }
}

} // verus!
