//! The global clock pair and the drift guard: a serialized monotonicity
//! check over wall-clock readings that turns a backward clock jump into a
//! detectable event.
use vstd::prelude::*;

verus! {

/// Fifty years in milliseconds: the offset that makes the post-drift
/// sentinel timestamp dominate anything a client could have cached.
pub const FIFTY_YEARS_MS: i64 = 50 * 365 * 24 * 60 * 60 * 1000;

/// One day in milliseconds.
pub const ONE_DAY_MS: i64 = 24 * 60 * 60 * 1000;

/// The least wall-clock reading the time source can hand out, with margin.
pub const MIN_CLOCK_MS: i64 = -10_000_000_000_000_000;

/// The greatest wall-clock reading the time source can hand out, with margin.
pub const MAX_CLOCK_MS: i64 = 10_000_000_000_000_000;

/// A millisecond value that the wall clock could have produced.
pub open spec fn clock_in_range(t: int) -> bool {
    MIN_CLOCK_MS <= t <= MAX_CLOCK_MS
}

/// Drift is a wall-clock reading strictly behind the recorded baseline,
/// once a baseline exists.
pub open spec fn spec_drift_detected(prev: int, now: int) -> bool {
    prev > 0 && now < prev
}

/// The far-future sentinel written over every stored timestamp after drift.
pub open spec fn spec_sentinel(drift_now: int) -> int {
    drift_now + FIFTY_YEARS_MS
}

/// The current wall clock in milliseconds since the epoch.
///
/// Relies on chrono's `Utc::now` and `DateTime::timestamp_millis`: every
/// `DateTime<Utc>` lies between `DateTime::MIN_UTC` and `DateTime::MAX_UTC`
/// (years -262144 to 262142), whose millisecond counts are well within
/// ten quadrillion either way.
#[verifier::external_body]
pub fn now_millis() -> (r: i64)
    ensures
        clock_in_range(r as int),
{
    chrono::Utc::now().timestamp_millis()
}

/// The process-wide clock state: the last wall-clock value an invalidation
/// observed, the time of the last detected drift (or the server start), and
/// the server start time itself.
pub struct GlobalClock {
    pub last_observed: i64,
    pub last_drift: i64,
    pub server_start: i64,
}

impl GlobalClock {
    /// Every field is a value the wall clock could have produced, or zero.
    pub open spec fn wf(&self) -> bool {
        &&& (self.last_observed == 0 || clock_in_range(self.last_observed as int))
        &&& clock_in_range(self.last_drift as int)
        &&& clock_in_range(self.server_start as int)
    }

    pub fn new(server_start: i64) -> (r: GlobalClock)
        requires
            clock_in_range(server_start as int),
        ensures
            r.wf(),
            r.last_observed == 0,
            r.last_drift == server_start,
            r.server_start == server_start,
    {
        GlobalClock { last_observed: 0, last_drift: server_start, server_start }
    }

    /// The drift guard's critical section: compare the reading against the
    /// recorded baseline, then either advance the baseline or reset it to
    /// zero so the next request re-baselines instead of re-triggering.
    pub fn observe(&mut self, now: i64) -> (drift_detected: bool)
        requires
            old(self).wf(),
            clock_in_range(now as int),
        ensures
            final(self).wf(),
            drift_detected == spec_drift_detected(old(self).last_observed as int, now as int),
            final(self).last_observed == if drift_detected {
                0i64
            } else {
                now
            },
            final(self).last_drift == old(self).last_drift,
            final(self).server_start == old(self).server_start,
    {
        if self.last_observed > 0 && now < self.last_observed {
            self.last_observed = 0;
            true
        } else {
            self.last_observed = now;
            false
        }
    }

    /// Record the moment a drift was detected; it is attached to every later
    /// normal invalidation as provenance until the next drift.
    pub fn record_drift(&mut self, drift_now: i64)
        requires
            old(self).wf(),
            clock_in_range(drift_now as int),
        ensures
            final(self).wf(),
            final(self).last_drift == drift_now,
            final(self).last_observed == old(self).last_observed,
            final(self).server_start == old(self).server_start,
    {
        self.last_drift = drift_now;
    }
}

} // verus!
