//! Configuration of the policy, and the passage of time.

use vstd::prelude::*;

verus! {

/// How often (at most) the request path refreshes a worker's last-seen stamp, in seconds.
pub const KNOWN_TOUCH_INTERVAL_SECS: u64 = 1;

/// The shortest time after which an unseen worker is dropped from the known set, in seconds.
pub const KNOWN_TTL_FLOOR_SECS: u64 = 90;

/// Moments are counted in nanoseconds since a moment of the caller's choice.
pub const NANOS_PER_SEC: u64 = 1_000_000_000;

/// Configuration for the truncation-aware policy.
///
/// The settings of the embedded sticky policy, and the ratio of in-flight averages above which
/// the truncation pool counts as pressured, are the caller's.
#[derive(Debug, Clone, Copy)]
pub struct TruncationAwareConfig {
    /// EWMA window for the truncated-request share (seconds).
    pub ewma_window_secs: u64,
    /// Controller tick interval (seconds).
    pub tick_secs: u64,
    /// Minimum time between two K adjustments (seconds).
    pub cooldown_secs: u64,
    /// Minimum number of workers that must stay in the sticky pool.
    pub sticky_min: usize,
    /// |K* - K| must exceed this to trigger a resize (0 = any difference).
    pub deadband: usize,
}

impl Default for TruncationAwareConfig {
    fn default() -> (config: TruncationAwareConfig)
        ensures
            config.ewma_window_secs == 60,
            config.tick_secs == 30,
            config.cooldown_secs == 300,
            config.sticky_min == 1,
            config.deadband == 0,
    {
        TruncationAwareConfig {
            ewma_window_secs: 60,
            tick_secs: 30,
            cooldown_secs: 300,
            sticky_min: 1,
            deadband: 0,
        }
    }
}

impl TruncationAwareConfig {
    /// Whether the time after which an unseen worker is dropped can be counted in seconds.
    pub open spec fn ttl_fits(&self) -> bool {
        3 * self.tick_secs <= u64::MAX
    }

    /// The time after which an unseen worker is dropped from the known set, in seconds.
    pub open spec fn ttl_secs(&self) -> int {
        if 3 * self.tick_secs > KNOWN_TTL_FLOOR_SECS {
            3 * self.tick_secs
        } else {
            KNOWN_TTL_FLOOR_SECS as int
        }
    }

    /// The largest truncation pool that leaves `sticky_min` of `n` workers to the sticky pool.
    pub open spec fn k_limit(&self, n: nat) -> nat {
        if n > self.sticky_min {
            (n - self.sticky_min) as nat
        } else {
            0
        }
    }

    /// TTL after which an unseen worker is dropped from the known set, in seconds (approximates
    /// registry removal without registry access).
    pub fn known_ttl(&self) -> (secs: u64)
        requires
            self.ttl_fits(),
        ensures
            secs == self.ttl_secs(),
            secs >= 90,
            secs >= 3 * self.tick_secs,
            secs == 90 || secs == 3 * self.tick_secs,
    {
        let ticks = 3 * self.tick_secs;
        if ticks > KNOWN_TTL_FLOOR_SECS {
            ticks
        } else {
            KNOWN_TTL_FLOOR_SECS
        }
    }
}

/// Whether less than `secs` seconds have passed from `at` to `now`; no time has passed from a
/// later moment to an earlier one.
pub open spec fn within(at: u64, now: u64, secs: int) -> bool {
    if now > at {
        now - at < secs * NANOS_PER_SEC
    } else {
        0 < secs
    }
}

/// Whether less than `secs` seconds have passed from `at` to `now`.
pub fn is_within(at: u64, now: u64, secs: u64) -> (recent: bool)
    ensures
        recent == within(at, now, secs as int),
        recent <==> secs > 0 && now < at + secs * 1_000_000_000,
{
    let elapsed: u64 = now.saturating_sub(at);
    assert(secs as u128 * NANOS_PER_SEC as u128 <= u128::MAX) by (nonlinear_arith)
        requires
            secs <= u64::MAX,
            NANOS_PER_SEC <= u64::MAX,
    ;
    (elapsed as u128) < secs as u128 * NANOS_PER_SEC as u128
}

// ---- laws ----

/// Less than `secs` seconds have passed from `at` exactly if the moment `secs` billion
/// nanoseconds after it is still to come; and no span of zero seconds is ever open.
pub proof fn law_time_runs_in_nanoseconds(at: u64, now: u64, secs: u64)
    ensures
        within(at, now, secs as int) <==> secs > 0 && now < at + secs * 1_000_000_000,
{
}

/// A worker that is not seen is kept for three ticks or ninety seconds, whichever is longer.
pub proof fn law_ttl_is_three_ticks_or_ninety_seconds(config: TruncationAwareConfig)
    ensures
        config.ttl_fits() <==> 3 * config.tick_secs <= u64::MAX,
        config.ttl_secs() >= 90,
        config.ttl_secs() >= 3 * config.tick_secs,
        config.ttl_secs() == 90 || config.ttl_secs() == 3 * config.tick_secs,
{
}

/// A truncation pool of `k` leaves `sticky_min` of `n` workers over exactly if it is within the
/// limit; where there are no more than `sticky_min` workers the limit is an empty pool.
pub proof fn law_limit_leaves_the_minimum(config: TruncationAwareConfig, n: nat, k: nat)
    ensures
        k + config.sticky_min <= n ==> k <= config.k_limit(n),
        0 < k <= config.k_limit(n) ==> k + config.sticky_min <= n,
        n <= config.sticky_min ==> config.k_limit(n) == 0,
{
}

} // verus!
