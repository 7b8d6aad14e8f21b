//! Pacing of repeated polling cycles.
//!
//! A limiter built from a requests-per-second ceiling `R` enforces a minimum
//! interval of `1000 / R` milliseconds between cycle starts.  Pacing spans
//! the whole cycle (query plus processing): the caller measures the time a
//! cycle took and sleeps for the remaining part of the interval, so slow
//! processing never lets the next request fire early.

use vstd::prelude::*;
use vstd::math::max;

verus! {

/// Rejected configuration: a zero rate would make the interval undefined.
#[derive(PartialEq, Eq, Structural, Clone, Copy, Debug)]
pub enum ConfigError {
    ZeroRate,
}

pub struct RateLimiter {
    interval_ms: u64,
}

impl RateLimiter {
    /// The minimum number of milliseconds between cycle starts.
    pub closed spec fn interval(&self) -> nat {
        self.interval_ms as nat
    }

    /// Build a limiter for at most `rate` cycles per second.  A zero rate is
    /// rejected here, at configuration time, never at pacing time.
    pub fn new(rate: u32) -> (r: Result<RateLimiter, ConfigError>)
        ensures
            r is Err <==> rate == 0,
            r matches Ok(l) ==> l.interval() == 1000nat / rate as nat,
    {
        if rate == 0 {
            Err(ConfigError::ZeroRate)
        } else {
            Ok(RateLimiter { interval_ms: (1000 / rate) as u64 })
        }
    }

    pub fn interval_ms(&self) -> (n: u64)
        ensures
            n == self.interval(),
    {
        self.interval_ms
    }

    /// How long the caller must still sleep, given that `elapsed_ms` of the
    /// interval has already passed while the cycle ran.  The sum of elapsed
    /// time and returned wait never falls short of the interval, so two
    /// consecutive cycle starts are at least one interval apart.
    pub fn remaining_wait(&self, elapsed_ms: u64) -> (wait: u64)
        ensures
            elapsed_ms < self.interval() ==> wait == self.interval() - elapsed_ms,
            elapsed_ms >= self.interval() ==> wait == 0,
            elapsed_ms + wait >= self.interval(),
    {
        if elapsed_ms < self.interval_ms {
            self.interval_ms - elapsed_ms
        } else {
            0
        }
    }
}

/// The cycle start times that pacing produces: the first cycle starts at
/// `start`; each later cycle starts when its predecessor's processing time
/// and the remaining wait (together `max(p, interval)`) have passed.
pub open spec fn cycle_starts(interval: int, start: int, times: Seq<int>) -> Seq<int>
    decreases times.len(),
{
    if times.len() == 0 {
        seq![start]
    } else {
        seq![start] + cycle_starts(interval, start + max(times[0], interval), times.drop_first())
    }
}

/// The wait that `remaining_wait` prescribes after a cycle that took `p`
/// milliseconds advances the clock by exactly `max(p, interval)`: the step
/// the schedule `cycle_starts` takes.
pub proof fn lemma_wait_matches_schedule(interval: int, p: int)
    requires
        0 <= interval,
        0 <= p,
    ensures
        p + (if p < interval {
            interval - p
        } else {
            0
        }) == max(p, interval),
{
}

/// Law: pacing keeps consecutive cycle starts at least one interval apart,
/// whatever the per-cycle processing times are.
pub proof fn lemma_rate_pacing(interval: int, start: int, times: Seq<int>)
    requires
        interval >= 0,
        forall|k: int| 0 <= k < times.len() ==> times[k] >= 0,
    ensures
        cycle_starts(interval, start, times).len() == times.len() + 1,
        cycle_starts(interval, start, times)[0] == start,
        forall|i: int|
            0 <= i < times.len() ==> #[trigger] cycle_starts(interval, start, times)[i + 1]
                - cycle_starts(interval, start, times)[i] >= interval,
    decreases times.len(),
{
    if times.len() > 0 {
        let next = start + max(times[0], interval);
        let rest = times.drop_first();
        lemma_rate_pacing(interval, next, rest);
        let s = cycle_starts(interval, start, times);
        let sr = cycle_starts(interval, next, rest);
        assert forall|i: int| 0 <= i < times.len() implies #[trigger] s[i + 1] - s[i]
            >= interval by {
            if i == 0 {
                assert(s[0] == start);
                assert(s[1] == sr[0]);
                assert(sr[0] == next);
                assert(max(times[0], interval) >= interval);
            } else {
                assert(s[i] == sr[i - 1]);
                assert(s[i + 1] == sr[i]);
                assert(sr[i - 1 + 1] - sr[i - 1] >= interval);
            }
        }
    }
}

} // verus!
