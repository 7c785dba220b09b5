//! Per-endpoint health state and exponential backoff.
//!
//! Counts consecutive failures and gates retries on an exponentially-growing
//! cooldown. One success resets the counter.

use vstd::arithmetic::power2::{lemma_pow2_strictly_increases, lemma_pow2_unfold, pow2};
use vstd::bits::{lemma_u32_pow2_no_overflow, lemma_u32_shl_is_mul};
use vstd::prelude::*;

use crate::time::{elapsed, Duration, Instant};

verus! {

/// Parameters for the backoff curve.
#[derive(Debug, Clone, Copy)]
pub struct BackoffPolicy {
    /// Failures at or below this count do NOT trigger demotion.
    pub demotion_threshold: u32,
    /// Retry gap at the demotion threshold; it doubles with each failure
    /// beyond.
    pub base_delay: Duration,
    /// Upper bound on the retry gap.
    pub max_delay: Duration,
}

/// How often the base delay is taken `over` failures past the threshold:
/// doubled with each, as far as 32 bits reach.
pub open spec fn backoff_factor(over: nat) -> nat {
    if over < 32 {
        pow2(over)
    } else {
        u32::MAX as nat
    }
}

impl BackoffPolicy {
    /// The failures beyond the demotion threshold.
    pub open spec fn over(self, failures: nat) -> nat {
        if failures > self.demotion_threshold {
            (failures - self.demotion_threshold) as nat
        } else {
            0
        }
    }

    /// The cooldown, in nanoseconds, after `failures` failures in a row.
    pub open spec fn cooldown(self, failures: nat) -> nat {
        if failures == 0 {
            0
        } else {
            let scaled = self.base_delay.nanos as nat * backoff_factor(self.over(failures));
            if scaled <= self.max_delay.nanos {
                scaled
            } else {
                self.max_delay.nanos as nat
            }
        }
    }

    /// Fast variant. 10ms base, 200ms cap, threshold of one failure.
    pub fn tight() -> (r: Self)
        ensures
            r.demotion_threshold == 1,
            r.base_delay.nanos == 10_000_000,
            r.max_delay.nanos == 200_000_000,
    {
        BackoffPolicy {
            demotion_threshold: 1,
            base_delay: Duration::from_millis(10),
            max_delay: Duration::from_millis(200),
        }
    }

    /// Current cooldown for a given failure count. Pure function of the policy
    /// plus the counter. No failures mean no cooldown.
    pub fn delay_for(&self, consecutive_failures: u32) -> (r: Duration)
        ensures
            r.nanos == self.cooldown(consecutive_failures as nat),
    {
        if consecutive_failures == 0 {
            return Duration::zero();
        }
        let over: u32 = consecutive_failures.saturating_sub(self.demotion_threshold);
        let factor: u32 = if over < 32 {
            proof {
                lemma_u32_pow2_no_overflow(over as nat);
                lemma_u32_shl_is_mul(1, over);
            }
            1u32 << over
        } else {
            u32::MAX
        };
        match self.base_delay.nanos.checked_mul(factor as u128) {
            Some(scaled) => if scaled <= self.max_delay.nanos {
                Duration { nanos: scaled }
            } else {
                self.max_delay
            },
            None => self.max_delay,
        }
    }
}

impl Default for BackoffPolicy {
    fn default() -> (r: Self)
        ensures
            r.demotion_threshold == 2,
            r.base_delay.nanos == 2_000_000_000,
            r.max_delay.nanos == 300_000_000_000,
    {
        BackoffPolicy {
            demotion_threshold: 2,
            base_delay: Duration::from_secs(2),
            max_delay: Duration::from_secs(300),
        }
    }
}

/// The backoff factor never falls as failures mount.
proof fn lemma_factor_monotone(a: nat, b: nat)
    requires
        a <= b,
    ensures
        1 <= backoff_factor(a) <= backoff_factor(b),
{
    broadcast use vstd::arithmetic::power2::lemma_pow2_pos;

    if b < 32 {
        if a < b {
            lemma_pow2_strictly_increases(a, b);
        }
    } else if a < 32 {
        lemma_u32_pow2_no_overflow(a);
    }
}

/// More failures never mean a shorter cooldown, and no cooldown exceeds the
/// cap.
pub proof fn law_cooldown_grows_to_cap(policy: BackoffPolicy, fewer: nat, more: nat)
    requires
        fewer <= more,
    ensures
        policy.cooldown(fewer) <= policy.cooldown(more) <= policy.max_delay.nanos,
{
    let base = policy.base_delay.nanos as nat;
    let a = backoff_factor(policy.over(fewer));
    let b = backoff_factor(policy.over(more));
    lemma_factor_monotone(policy.over(fewer), policy.over(more));
    assert(base * a <= base * b) by (nonlinear_arith)
        requires
            a <= b,
    ;
}

/// From the threshold on, each further failure doubles the cooldown, up to the
/// cap, until the factor leaves 32 bits.
pub proof fn law_cooldown_doubles(policy: BackoffPolicy, failures: nat)
    requires
        failures > 0,
        failures >= policy.demotion_threshold,
        failures - policy.demotion_threshold < 31,
    ensures
        policy.cooldown(failures + 1) == if 2 * policy.cooldown(failures)
            <= policy.max_delay.nanos {
            2 * policy.cooldown(failures)
        } else {
            policy.max_delay.nanos as nat
        },
{
    let base = policy.base_delay.nanos as nat;
    let over = policy.over(failures);
    lemma_pow2_unfold(over + 1);
    assert(base * (2 * pow2(over)) == 2 * (base * pow2(over))) by (nonlinear_arith);
}

/// What is known of an endpoint's health.
pub struct HealthState {
    pub policy: BackoffPolicy,
    pub consecutive_failures: nat,
    pub last_success_at: Option<Instant>,
    pub last_failure_at: Option<Instant>,
    pub last_error: Option<Seq<char>>,
    pub total_requests: nat,
    pub total_successes: nat,
    pub total_failures: nat,
    pub total_latency_ms: nat,
}

/// `a + b`, held at the largest 128-bit number.
pub open spec fn latency_sum(a: nat, b: nat) -> nat {
    if a + b <= u128::MAX {
        a + b
    } else {
        u128::MAX as nat
    }
}

impl HealthState {
    /// Nothing recorded yet.
    pub open spec fn fresh(policy: BackoffPolicy) -> Self {
        HealthState {
            policy,
            consecutive_failures: 0,
            last_success_at: None,
            last_failure_at: None,
            last_error: None,
            total_requests: 0,
            total_successes: 0,
            total_failures: 0,
            total_latency_ms: 0,
        }
    }

    /// Every request counted is counted once as a success or a failure.
    pub open spec fn wf(self) -> bool {
        self.total_requests == self.total_successes + self.total_failures
    }

    /// Whether the endpoint may be dispatched to at `now`: its run of failures
    /// is within the threshold, or it has cooled down since the last of them.
    pub open spec fn available_at(self, now: Instant) -> bool {
        ||| self.consecutive_failures <= self.policy.demotion_threshold
        ||| self.last_failure_at matches None
        ||| elapsed(self.last_failure_at->0, now) >= self.policy.cooldown(self.consecutive_failures)
    }

    /// One more success, which took `latency` and was seen at `now`.
    pub open spec fn after_success(self, latency: Duration, now: Instant) -> Self {
        HealthState {
            consecutive_failures: 0,
            last_success_at: Some(now),
            last_error: None,
            total_requests: self.total_requests + 1,
            total_successes: self.total_successes + 1,
            total_latency_ms: latency_sum(self.total_latency_ms, latency.millis()),
            ..self
        }
    }

    /// One more failure, which took `latency` and was seen at `now`.
    pub open spec fn after_failure(
        self,
        error: Seq<char>,
        latency: Duration,
        now: Instant,
    ) -> Self {
        HealthState {
            consecutive_failures: if self.consecutive_failures < u32::MAX {
                self.consecutive_failures + 1
            } else {
                u32::MAX as nat
            },
            last_failure_at: Some(now),
            last_error: Some(error),
            total_requests: self.total_requests + 1,
            total_failures: self.total_failures + 1,
            total_latency_ms: latency_sum(self.total_latency_ms, latency.millis()),
            ..self
        }
    }
}

/// Health state for a single endpoint.
#[derive(Debug)]
pub struct EndpointHealth {
    policy: BackoffPolicy,
    consecutive_failures: u32,
    last_success_at: Option<Instant>,
    last_failure_at: Option<Instant>,
    last_error: Option<String>,
    total_requests: u64,
    total_successes: u64,
    total_failures: u64,
    total_latency_ms: u128,
}

impl View for EndpointHealth {
    type V = HealthState;

    closed spec fn view(&self) -> HealthState {
        HealthState {
            policy: self.policy,
            consecutive_failures: self.consecutive_failures as nat,
            last_success_at: self.last_success_at,
            last_failure_at: self.last_failure_at,
            last_error: match self.last_error {
                Some(e) => Some(e@),
                None => None,
            },
            total_requests: self.total_requests as nat,
            total_successes: self.total_successes as nat,
            total_failures: self.total_failures as nat,
            total_latency_ms: self.total_latency_ms as nat,
        }
    }
}

/// Milliseconds since `at`, if anything happened then, in 64 bits.
pub open spec fn age_ms(at: Option<Instant>, now: Instant) -> Option<u64> {
    match at {
        Some(t) => Some((elapsed(t, now) / 1_000_000) as u64),
        None => None,
    }
}

fn age(at: Option<Instant>, now: Instant) -> (r: Option<u64>)
    ensures
        r == age_ms(at, now),
{
    match at {
        Some(t) => Some(
            #[verifier::truncate]
            (now.saturating_duration_since(t).as_millis() as u64),
        ),
        None => None,
    }
}

impl EndpointHealth {
    /// Fresh health with a given backoff policy.
    pub fn new(policy: BackoffPolicy) -> (r: Self)
        ensures
            r@ == HealthState::fresh(policy),
            r@.wf(),
    {
        EndpointHealth {
            policy,
            consecutive_failures: 0,
            last_success_at: None,
            last_failure_at: None,
            last_error: None,
            total_requests: 0,
            total_successes: 0,
            total_failures: 0,
            total_latency_ms: 0,
        }
    }

    /// Whether the endpoint is eligible for dispatch at `now`.
    pub fn is_available_at(&self, now: Instant) -> (r: bool)
        ensures
            r == self@.available_at(now),
    {
        if self.consecutive_failures <= self.policy.demotion_threshold {
            return true;
        }
        match self.last_failure_at {
            None => true,
            Some(last_failure) => {
                let cooldown = self.policy.delay_for(self.consecutive_failures);
                now.saturating_duration_since(last_failure).nanos >= cooldown.nanos
            },
        }
    }

    /// Record a successful request, seen at `now`. Resets the run of failures.
    pub fn record_success(&mut self, latency: Duration, now: Instant)
        requires
            old(self)@.wf(),
            old(self)@.total_requests < u64::MAX,
        ensures
            final(self)@ == old(self)@.after_success(latency, now),
            final(self)@.wf(),
    {
        self.consecutive_failures = 0;
        self.last_success_at = Some(now);
        self.last_error = None;
        self.total_requests = self.total_requests + 1;
        self.total_successes = self.total_successes + 1;
        self.total_latency_ms = self.total_latency_ms.saturating_add(latency.as_millis());
    }

    /// Record a failed request, seen at `now`. Lengthens the run of failures.
    pub fn record_failure(&mut self, error: String, latency: Duration, now: Instant)
        requires
            old(self)@.wf(),
            old(self)@.total_requests < u64::MAX,
        ensures
            final(self)@ == old(self)@.after_failure(error@, latency, now),
            final(self)@.wf(),
    {
        self.consecutive_failures = self.consecutive_failures.saturating_add(1);
        self.last_failure_at = Some(now);
        self.last_error = Some(error);
        self.total_requests = self.total_requests + 1;
        self.total_failures = self.total_failures + 1;
        self.total_latency_ms = self.total_latency_ms.saturating_add(latency.as_millis());
    }

    /// Snapshot of the state at `now`.
    pub fn snapshot(&self, now: Instant) -> (r: EndpointStatus)
        ensures
            r.reports(self@, now),
    {
        EndpointStatus {
            consecutive_failures: self.consecutive_failures,
            total_requests: self.total_requests,
            total_successes: self.total_successes,
            total_failures: self.total_failures,
            total_latency_ms: self.total_latency_ms,
            last_error: self.last_error.clone(),
            last_success_age_ms: age(self.last_success_at, now),
            last_failure_age_ms: age(self.last_failure_at, now),
        }
    }

    /// Whether another request can be counted.
    pub fn has_room(&self) -> (r: bool)
        ensures
            r == (self@.total_requests < u64::MAX),
    {
        self.total_requests < u64::MAX
    }

    /// Borrow the policy.
    pub fn policy(&self) -> (r: &BackoffPolicy)
        ensures
            *r == self@.policy,
    {
        &self.policy
    }
}

/// Snapshot of endpoint health. The average latency is the total over the
/// requests.
#[derive(Debug, Clone)]
pub struct EndpointStatus {
    pub consecutive_failures: u32,
    pub total_requests: u64,
    pub total_successes: u64,
    pub total_failures: u64,
    /// Sum of the latencies of all requests.
    pub total_latency_ms: u128,
    pub last_error: Option<String>,
    /// Milliseconds since the last successful request (None = never).
    pub last_success_age_ms: Option<u64>,
    /// Milliseconds since the last failed request (None = never).
    pub last_failure_age_ms: Option<u64>,
}

impl EndpointStatus {
    /// This is the snapshot of `health` at `now`.
    pub open spec fn reports(self, health: HealthState, now: Instant) -> bool {
        &&& self.consecutive_failures == health.consecutive_failures
        &&& self.total_requests == health.total_requests
        &&& self.total_successes == health.total_successes
        &&& self.total_failures == health.total_failures
        &&& self.total_latency_ms == health.total_latency_ms
        &&& match (self.last_error, health.last_error) {
            (Some(mine), Some(theirs)) => mine@ == theirs,
            (None, None) => true,
            _ => false,
        }
        &&& self.last_success_age_ms == age_ms(health.last_success_at, now)
        &&& self.last_failure_age_ms == age_ms(health.last_failure_at, now)
    }
}

/// One success makes an endpoint available at any time, whatever came before.
pub proof fn law_success_restores(
    health: HealthState,
    latency: Duration,
    seen: Instant,
    now: Instant,
)
    ensures
        health.after_success(latency, seen).available_at(now),
        health.after_success(latency, seen).consecutive_failures == 0,
{
}

/// An endpoint that fails past the threshold is passed over until its cooldown
/// has run out, and not after.
pub proof fn law_failure_past_threshold_cools_down(
    health: HealthState,
    error: Seq<char>,
    latency: Duration,
    seen: Instant,
    now: Instant,
)
    requires
        health.policy.demotion_threshold <= health.consecutive_failures < u32::MAX,
    ensures
        health.after_failure(error, latency, seen).available_at(now) <==> elapsed(seen, now)
            >= health.policy.cooldown(health.consecutive_failures + 1),
{
}

/// A run of failures within the threshold leaves an endpoint available.
pub proof fn law_failure_within_threshold_keeps_available(
    health: HealthState,
    error: Seq<char>,
    latency: Duration,
    seen: Instant,
    now: Instant,
)
    requires
        health.consecutive_failures < health.policy.demotion_threshold,
    ensures
        health.after_failure(error, latency, seen).available_at(now),
{
}

/// The cooldown in numbers: none without failures; the base up to the
/// threshold; beyond it the base times two to the number of failures past it,
/// up to 31 of them, and from there on the base times the largest 32-bit
/// number. Never more than the cap.
pub proof fn law_cooldown_in_numbers(policy: BackoffPolicy, failures: nat, past: nat)
    ensures
        policy.cooldown(0) == 0,
        0 < failures <= policy.demotion_threshold ==> policy.cooldown(failures) == if policy
            .base_delay.nanos <= policy.max_delay.nanos {
            policy.base_delay.nanos as nat
        } else {
            policy.max_delay.nanos as nat
        },
        past < 32 && failures == policy.demotion_threshold + past && failures > 0
            ==> policy.cooldown(failures) == if policy.base_delay.nanos * pow2(past)
            <= policy.max_delay.nanos {
            policy.base_delay.nanos * pow2(past)
        } else {
            policy.max_delay.nanos as int
        },
        failures >= policy.demotion_threshold + 32 ==> policy.cooldown(failures) == if policy
            .base_delay.nanos * 4_294_967_295 <= policy.max_delay.nanos {
            policy.base_delay.nanos * 4_294_967_295
        } else {
            policy.max_delay.nanos as int
        },
{
    vstd::arithmetic::power2::lemma2_to64();
    assert(policy.base_delay.nanos * 1 == policy.base_delay.nanos) by (nonlinear_arith);
}

/// Availability by the clock: an endpoint is out only while its run of failures
/// is past the threshold and its cooldown, counted from the last failure, has
/// not run out.
pub proof fn law_availability_by_the_clock(health: HealthState, now: Instant)
    ensures
        health.consecutive_failures <= health.policy.demotion_threshold ==> health.available_at(
            now,
        ),
        health.last_failure_at is None ==> health.available_at(now),
        health.consecutive_failures > health.policy.demotion_threshold ==> (
        health.last_failure_at matches Some(failed) ==> (health.available_at(now) <==> now.nanos
            >= failed.nanos + health.policy.cooldown(health.consecutive_failures)
            || health.policy.cooldown(health.consecutive_failures) == 0)),
{
}

/// What a success leaves behind: the run of failures and the last error are
/// gone, the time of the success is kept, one more request and one more success
/// are counted, its whole milliseconds are added, and all else stays.
pub proof fn law_success_is_recorded(health: HealthState, latency: Duration, now: Instant)
    ensures
        ({
            let after = health.after_success(latency, now);
            &&& after.consecutive_failures == 0
            &&& after.last_error is None
            &&& after.last_success_at == Some(now)
            &&& after.last_failure_at == health.last_failure_at
            &&& after.total_requests == health.total_requests + 1
            &&& after.total_successes == health.total_successes + 1
            &&& after.total_failures == health.total_failures
            &&& after.policy == health.policy
            &&& health.total_latency_ms + latency.nanos / 1_000_000 <= u128::MAX
                ==> after.total_latency_ms == health.total_latency_ms + latency.nanos / 1_000_000
            &&& health.total_latency_ms + latency.nanos / 1_000_000 > u128::MAX
                ==> after.total_latency_ms == u128::MAX
        }),
{
}

/// What a failure leaves behind: the run is one longer, its error and time are
/// kept, one more request and one more failure are counted, its whole
/// milliseconds are added, and all else stays.
pub proof fn law_failure_is_recorded(
    health: HealthState,
    error: Seq<char>,
    latency: Duration,
    now: Instant,
)
    ensures
        ({
            let after = health.after_failure(error, latency, now);
            &&& health.consecutive_failures < u32::MAX ==> after.consecutive_failures
                == health.consecutive_failures + 1
            &&& health.consecutive_failures == u32::MAX ==> after.consecutive_failures == u32::MAX
            &&& after.last_error == Some(error)
            &&& after.last_failure_at == Some(now)
            &&& after.last_success_at == health.last_success_at
            &&& after.total_requests == health.total_requests + 1
            &&& after.total_failures == health.total_failures + 1
            &&& after.total_successes == health.total_successes
            &&& after.policy == health.policy
            &&& health.total_latency_ms + latency.nanos / 1_000_000 <= u128::MAX
                ==> after.total_latency_ms == health.total_latency_ms + latency.nanos / 1_000_000
            &&& health.total_latency_ms + latency.nanos / 1_000_000 > u128::MAX
                ==> after.total_latency_ms == u128::MAX
        }),
{
}

/// A fresh endpoint has nothing on record, and is available at any time.
pub proof fn law_fresh_endpoint_is_clean(policy: BackoffPolicy, now: Instant)
    ensures
        ({
            let fresh = HealthState::fresh(policy);
            &&& fresh.available_at(now)
            &&& fresh.policy == policy
            &&& fresh.consecutive_failures == 0
            &&& fresh.total_requests == 0
            &&& fresh.total_successes == 0
            &&& fresh.total_failures == 0
            &&& fresh.total_latency_ms == 0
            &&& fresh.last_error is None
            &&& fresh.last_success_at is None
            &&& fresh.last_failure_at is None
        }),
{
}

/// A snapshot shows the counters as they are, the last error in its own words,
/// and ages in whole milliseconds since the event.
pub proof fn law_snapshot_is_faithful(
    status: EndpointStatus,
    health: HealthState,
    now: Instant,
    at: Instant,
    wait: nat,
)
    requires
        status.reports(health, now),
    ensures
        status.consecutive_failures == health.consecutive_failures,
        status.total_requests == health.total_requests,
        status.total_successes == health.total_successes,
        status.total_failures == health.total_failures,
        status.total_latency_ms == health.total_latency_ms,
        status.last_error is Some <==> health.last_error is Some,
        status.last_error matches Some(mine) ==> health.last_error == Some(mine@),
        status.last_success_age_ms is Some <==> health.last_success_at is Some,
        status.last_failure_age_ms is Some <==> health.last_failure_at is Some,
        health.last_success_at == Some(at) && now.nanos == at.nanos + wait && wait / 1_000_000
            <= u64::MAX ==> (status.last_success_age_ms matches Some(age) && age == wait
            / 1_000_000),
        health.last_failure_at == Some(at) && now.nanos == at.nanos + wait && wait / 1_000_000
            <= u64::MAX ==> (status.last_failure_age_ms matches Some(age) && age == wait
            / 1_000_000),
{
}

/// The two policies in numbers, for any run of failures: the usual one waits two
/// seconds, from the third failure on twice as long with each, and never more
/// than five minutes; the tight one ten milliseconds, from the second failure on
/// twice as long with each, and never more than a fifth of a second.
pub proof fn law_policies_in_numbers(
    usual: BackoffPolicy,
    tight: BackoffPolicy,
    failures: nat,
    past: nat,
)
    requires
        call_ensures(BackoffPolicy::default, (), usual),
        call_ensures(BackoffPolicy::tight, (), tight),
        past < 32,
    ensures
        usual.cooldown(0) == 0,
        usual.cooldown(1) == 2_000_000_000,
        usual.cooldown(2 + past) == if 2_000_000_000 * pow2(past) <= 300_000_000_000 {
            2_000_000_000 * pow2(past)
        } else {
            300_000_000_000
        },
        usual.cooldown(failures) <= 300_000_000_000,
        failures >= 10 ==> usual.cooldown(failures) == 300_000_000_000,
        tight.cooldown(0) == 0,
        tight.cooldown(1 + past) == if 10_000_000 * pow2(past) <= 200_000_000 {
            10_000_000 * pow2(past)
        } else {
            200_000_000
        },
        tight.cooldown(failures) <= 200_000_000,
        failures >= 6 ==> tight.cooldown(failures) == 200_000_000,
{
    vstd::arithmetic::power2::lemma2_to64();
    if failures >= 10 {
        law_cooldown_grows_to_cap(usual, 10, failures);
    }
    if failures >= 6 {
        law_cooldown_grows_to_cap(tight, 6, failures);
    }
}

} // verus!
