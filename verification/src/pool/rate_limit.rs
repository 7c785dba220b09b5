//! A minimal per-endpoint token-bucket governor.
//!
//! Enforces `max_rps`. The bucket holds up to `rps` tokens and refills
//! continuously at `rps` tokens/second. `try_acquire_at` never waits: if no
//! token is available the caller should skip the endpoint and fail over.

use vstd::prelude::*;

use crate::time::{elapsed, Instant};

verus! {

/// What a bucket holds. Tokens are counted in billionths, so that a bucket of
/// `rps` tokens per second gains `rps` of them each nanosecond.
pub struct LimiterState {
    pub rps: nat,
    pub tokens: nat,
    pub last_refill: Instant,
}

/// One token, in billionths.
pub open spec fn whole_token() -> nat {
    1_000_000_000
}

impl LimiterState {
    /// A full bucket at `now`. A rate of zero counts as one.
    pub open spec fn full(rps: u32, now: Instant) -> Self {
        let rate: nat = if rps == 0 {
            1
        } else {
            rps as nat
        };
        LimiterState { rps: rate, tokens: rate * whole_token(), last_refill: now }
    }

    /// The most that the bucket holds.
    pub open spec fn capacity(self) -> nat {
        self.rps * whole_token()
    }

    pub open spec fn wf(self) -> bool {
        &&& 1 <= self.rps <= u32::MAX
        &&& self.tokens <= self.capacity()
    }

    /// The bucket with what it has gained by `now`.
    pub open spec fn refilled(self, now: Instant) -> Self {
        let gained = self.tokens + elapsed(self.last_refill, now) * self.rps;
        LimiterState {
            tokens: if gained <= self.capacity() {
                gained
            } else {
                self.capacity()
            },
            last_refill: if elapsed(self.last_refill, now) > 0 {
                now
            } else {
                self.last_refill
            },
            ..self
        }
    }

    /// Whether a token can be had at `now`.
    pub open spec fn grants(self, now: Instant) -> bool {
        self.refilled(now).tokens >= whole_token()
    }

    /// The bucket after a token was asked for at `now`.
    pub open spec fn after_try(self, now: Instant) -> Self {
        let refilled = self.refilled(now);
        if self.grants(now) {
            LimiterState { tokens: (refilled.tokens - whole_token()) as nat, ..refilled }
        } else {
            refilled
        }
    }
}

/// The gain of a bucket is at most its capacity unless a second has passed.
proof fn lemma_gain_within_second(span: nat, rps: nat)
    requires
        1 <= rps <= u32::MAX,
    ensures
        span < 1_000_000_000 ==> span * rps <= 1_000_000_000 * u32::MAX,
        span >= 1_000_000_000 ==> span * rps >= rps * 1_000_000_000,
{
    if span < 1_000_000_000 {
        assert(span * rps <= 1_000_000_000 * u32::MAX) by (nonlinear_arith)
            requires
                span < 1_000_000_000,
                rps <= u32::MAX,
        ;
    } else {
        assert(span * rps >= rps * 1_000_000_000) by (nonlinear_arith)
            requires
                span >= 1_000_000_000,
        ;
    }
}

/// A token bucket.
#[derive(Debug)]
pub struct RateLimiter {
    /// Tokens per second, and the most that the bucket holds.
    rps: u32,
    /// In billionths.
    tokens: u64,
    last_refill: Instant,
}

impl View for RateLimiter {
    type V = LimiterState;

    closed spec fn view(&self) -> LimiterState {
        LimiterState {
            rps: self.rps as nat,
            tokens: self.tokens as nat,
            last_refill: self.last_refill,
        }
    }
}

impl RateLimiter {
    /// Construct a limiter allowing `rps` requests per second (burst = `rps`),
    /// full at `now`. A zero `rps` is clamped to 1 to avoid a
    /// permanently-closed bucket.
    pub fn per_second(rps: u32, now: Instant) -> (r: Self)
        ensures
            r@ == LimiterState::full(rps, now),
            r@.wf(),
    {
        let rate: u32 = if rps == 0 {
            1
        } else {
            rps
        };
        RateLimiter { rps: rate, tokens: rate as u64 * 1_000_000_000, last_refill: now }
    }

    /// Try to consume one token at `now`. Returns `true` if granted.
    pub fn try_acquire_at(&mut self, now: Instant) -> (r: bool)
        requires
            old(self)@.wf(),
        ensures
            r == old(self)@.grants(now),
            final(self)@ == old(self)@.after_try(now),
            final(self)@.wf(),
    {
        let span: u128 = now.saturating_duration_since(self.last_refill).nanos;
        if span > 0 {
            let capacity: u64 = self.rps as u64 * 1_000_000_000;
            proof {
                lemma_gain_within_second(span as nat, self.rps as nat);
            }
            if span >= 1_000_000_000 {
                self.tokens = capacity;
            } else {
                let gained: u64 = self.tokens + span as u64 * self.rps as u64;
                self.tokens = if gained <= capacity {
                    gained
                } else {
                    capacity
                };
            }
            self.last_refill = now;
        }
        if self.tokens >= 1_000_000_000 {
            self.tokens = self.tokens - 1_000_000_000;
            true
        } else {
            false
        }
    }
}

/// The bucket after tokens were asked for at each of `times` in turn.
pub open spec fn after_tries(state: LimiterState, times: Seq<Instant>) -> LimiterState
    decreases times.len(),
{
    if times.len() == 0 {
        state
    } else {
        after_tries(state, times.drop_last()).after_try(times.last())
    }
}

/// How many of the requests at `times` are granted.
pub open spec fn granted(state: LimiterState, times: Seq<Instant>) -> nat
    decreases times.len(),
{
    if times.len() == 0 {
        0
    } else if after_tries(state, times.drop_last()).grants(times.last()) {
        granted(state, times.drop_last()) + 1
    } else {
        granted(state, times.drop_last())
    }
}

/// Tokens come only from the start and from the time that has passed.
proof fn lemma_tokens_conserved(state: LimiterState, times: Seq<Instant>)
    requires
        state.wf(),
    ensures
        after_tries(state, times).wf(),
        after_tries(state, times).rps == state.rps,
        after_tries(state, times).last_refill.nanos >= state.last_refill.nanos,
        times.len() > 0 && after_tries(state, times).last_refill != state.last_refill ==> exists|
            i: int,
        |
            0 <= i < times.len() && after_tries(state, times).last_refill == times[i],
        granted(state, times) * whole_token() + after_tries(state, times).tokens <= state.tokens
            + state.rps * (after_tries(state, times).last_refill.nanos - state.last_refill.nanos),
    decreases times.len(),
{
    if times.len() == 0 {
        assert(state.rps * 0 == 0) by (nonlinear_arith);
    } else {
        let before = after_tries(state, times.drop_last());
        let now = times.last();
        lemma_tokens_conserved(state, times.drop_last());
        let span = elapsed(before.last_refill, now);
        let waited = before.last_refill.nanos - state.last_refill.nanos;
        assert(span * state.rps + state.rps * waited == state.rps * (waited + span)) by (
        nonlinear_arith);
        if span > 0 {
            assert(times[times.len() - 1] == now);
        } else {
            assert(span * state.rps == 0) by (nonlinear_arith)
                requires
                    span == 0,
            ;
            if before.last_refill != state.last_refill {
                let i = choose|i: int|
                    0 <= i < times.drop_last().len() && before.last_refill == times.drop_last()[i];
                assert(times[i] == before.last_refill);
            }
        }
        let count = granted(state, times.drop_last());
        assert((count + 1) * whole_token() == count * whole_token() + whole_token())
            by (nonlinear_arith);
    }
}

/// Over a window that starts after the last refill, tokens come only from one
/// full bucket and from the time since the window's start.
proof fn lemma_tokens_within_window(state: LimiterState, times: Seq<Instant>, start: nat)
    requires
        state.wf(),
        state.last_refill.nanos <= start,
        forall|i: int| 0 <= i < times.len() ==> start <= (#[trigger] times[i]).nanos,
    ensures
        times.len() > 0 ==> after_tries(state, times).last_refill.nanos >= start,
        times.len() > 0 ==> granted(state, times) * whole_token() + after_tries(
            state,
            times,
        ).tokens <= state.capacity() + state.rps * (after_tries(state, times).last_refill.nanos
            - start),
    decreases times.len(),
{
    if times.len() > 0 {
        let shorter = times.drop_last();
        let before = after_tries(state, shorter);
        let now = times.last();
        assert(times[times.len() - 1] == now);
        assert forall|i: int| 0 <= i < shorter.len() implies start <= (
        #[trigger] shorter[i]).nanos by {
            assert(shorter[i] == times[i]);
        }
        lemma_tokens_conserved(state, shorter);
        lemma_tokens_within_window(state, shorter, start);
        let span = elapsed(before.last_refill, now);
        let count = granted(state, shorter);
        assert((count + 1) * whole_token() == count * whole_token() + whole_token())
            by (nonlinear_arith);
        if shorter.len() > 0 {
            let waited = before.last_refill.nanos - start;
            assert(span * state.rps + state.rps * waited == state.rps * (waited + span)) by (
            nonlinear_arith);
        } else {
            let waited = now.nanos - start;
            assert(count == 0);
            assert(state.rps * waited >= 0) by (nonlinear_arith)
                requires
                    waited >= 0,
            ;
        }
    }
}

/// However requests are spread over a window, wherever it starts, no more are
/// granted than a full bucket and the refill over the window allow: the burst
/// plus `rps` for each second.
pub proof fn law_rate_is_bounded(
    state: LimiterState,
    times: Seq<Instant>,
    start: nat,
    window: nat,
)
    requires
        state.wf(),
        forall|i: int|
            0 <= i < times.len() ==> start <= (#[trigger] times[i]).nanos <= start + window,
    ensures
        granted(state, times) * whole_token() <= state.rps * whole_token() + state.rps * window,
{
    lemma_tokens_conserved(state, times);
    let last = after_tries(state, times);
    if times.len() > 0 && last.last_refill != state.last_refill {
        let i = choose|i: int| 0 <= i < times.len() && last.last_refill == times[i];
        assert(times[i].nanos <= start + window);
    }
    assert(state.rps * window >= 0) by (nonlinear_arith);
    if times.len() > 0 {
        let passed = if state.last_refill.nanos <= start {
            lemma_tokens_within_window(state, times, start);
            last.last_refill.nanos - start
        } else {
            last.last_refill.nanos - state.last_refill.nanos
        };
        assert(state.rps * passed <= state.rps * window) by (nonlinear_arith)
            requires
                passed <= window,
        ;
    }
}

/// `n` requests at one instant.
pub open spec fn burst(n: nat, now: Instant) -> Seq<Instant> {
    Seq::new(n, |i: int| now)
}

/// The rate that a limit of `rps` requests per second stands for: itself, and
/// one for zero.
pub open spec fn at_least_one(rps: u32) -> nat {
    if rps >= 1 {
        rps as nat
    } else {
        1
    }
}

/// The smaller of two numbers.
pub open spec fn smaller(a: int, b: int) -> int {
    if a <= b {
        a
    } else {
        b
    }
}

/// Of `n` requests at the instant a limiter for `rps` is made, `rps` are let
/// through and no more: all of them when there are no more than that. A limit
/// of zero lets one through.
pub proof fn law_full_bucket_allows_a_burst(rps: u32, now: Instant, n: nat)
    ensures
        rps >= 1 && n <= rps ==> granted(LimiterState::full(rps, now), burst(n, now)) == n,
        rps >= 1 && n >= rps ==> granted(LimiterState::full(rps, now), burst(n, now)) == rps,
        rps == 0 && n >= 1 ==> granted(LimiterState::full(rps, now), burst(n, now)) == 1,
        n == 0 ==> granted(LimiterState::full(rps, now), burst(n, now)) == 0,
{
    lemma_burst(rps, now, n);
}

proof fn lemma_burst(rps: u32, now: Instant, n: nat)
    ensures
        ({
            let full = LimiterState::full(rps, now);
            let let_through: nat = if n <= full.rps {
                n
            } else {
                full.rps
            };
            &&& granted(full, burst(n, now)) == let_through
            &&& after_tries(full, burst(n, now)).rps == full.rps
            &&& after_tries(full, burst(n, now)).last_refill == now
            &&& after_tries(full, burst(n, now)).tokens == (full.rps - let_through)
                * whole_token()
        }),
    decreases n,
{
    let full = LimiterState::full(rps, now);
    if n > 0 {
        let fewer = (n - 1) as nat;
        lemma_burst(rps, now, fewer);
        assert(burst(n, now).drop_last() =~= burst(fewer, now));
        let before = after_tries(full, burst(fewer, now));
        assert(elapsed(now, now) * before.rps == 0) by (nonlinear_arith)
            requires
                elapsed(now, now) == 0,
        ;
        if n <= full.rps {
            assert((full.rps - fewer) * whole_token() - whole_token() == (full.rps - n)
                * whole_token()) by (nonlinear_arith)
                requires
                    fewer == n - 1,
            ;
            assert((full.rps - fewer) * whole_token() >= whole_token()) by (nonlinear_arith)
                requires
                    full.rps - fewer >= 1,
                    whole_token() > 0,
            ;
            assert((full.rps - fewer) * whole_token() <= full.rps * whole_token())
                by (nonlinear_arith)
                requires
                    full.rps - fewer <= full.rps,
                    whole_token() > 0,
            ;
        }
    }
}

/// A second without requests fills any bucket.
pub proof fn law_one_second_refills(state: LimiterState, now: Instant)
    requires
        state.wf(),
        elapsed(state.last_refill, now) >= 1_000_000_000,
    ensures
        state.refilled(now).tokens == state.capacity(),
{
    lemma_gain_within_second(elapsed(state.last_refill, now), state.rps);
}

/// A bucket that holds a whole token grants the next request, whatever the
/// clock reads.
pub proof fn law_token_in_hand_is_granted(state: LimiterState, now: Instant)
    requires
        state.wf(),
        state.tokens >= whole_token(),
    ensures
        state.grants(now),
{
    assert(elapsed(state.last_refill, now) * state.rps >= 0) by (nonlinear_arith);
}

/// Requests in two runs are granted one run after the other.
proof fn lemma_granted_in_runs(state: LimiterState, first: Seq<Instant>, second: Seq<Instant>)
    ensures
        after_tries(state, first + second) == after_tries(after_tries(state, first), second),
        granted(state, first + second) == granted(state, first) + granted(
            after_tries(state, first),
            second,
        ),
    decreases second.len(),
{
    if second.len() == 0 {
        assert(first + second =~= first);
    } else {
        lemma_granted_in_runs(state, first, second.drop_last());
        assert((first + second).drop_last() =~= first + second.drop_last());
        assert((first + second).last() == second.last());
    }
}

/// A burst gets the whole tokens that the bucket holds by then.
proof fn lemma_burst_gets_whole_tokens(state: LimiterState, now: Instant, n: nat)
    requires
        state.wf(),
    ensures
        ({
            let held = state.refilled(now).tokens;
            let let_through = smaller(n as int, held as int / 1_000_000_000);
            &&& granted(state, burst(n, now)) == let_through
            &&& n > 0 ==> {
                let left = after_tries(state, burst(n, now));
                &&& left.tokens == held - let_through * 1_000_000_000
                &&& left.rps == state.rps
                &&& elapsed(left.last_refill, now) == 0
            }
        }),
    decreases n,
{
    let held = state.refilled(now).tokens;
    if n > 0 {
        let fewer = (n - 1) as nat;
        lemma_burst_gets_whole_tokens(state, now, fewer);
        assert(burst(n, now).drop_last() =~= burst(fewer, now));
        let before = after_tries(state, burst(fewer, now));
        if fewer > 0 {
            assert(elapsed(before.last_refill, now) * before.rps == 0) by (nonlinear_arith)
                requires
                    elapsed(before.last_refill, now) == 0,
            ;
            assert(before.tokens <= before.capacity());
        } else {
            assert(burst(fewer, now) =~= seq![]);
        }
        assert(before.refilled(now).tokens == held - smaller(
            fewer as int,
            held as int / 1_000_000_000,
        ) * 1_000_000_000);
    }
}

/// The bucket refills at `rps` tokens per second. Of `n` requests at the start
/// and `m` more `wait` nanoseconds later, the second lot gets what the first
/// left and `wait` has brought, in whole tokens and up to a full bucket.
pub proof fn law_bucket_refills_at_its_rate(
    rps: u32,
    made: Instant,
    n: nat,
    later: Instant,
    wait: nat,
    m: nat,
)
    requires
        later.nanos == made.nanos + wait,
    ensures
        ({
            let rate = at_least_one(rps);
            let first = smaller(n as int, rate as int);
            let held = smaller(
                rate as int * 1_000_000_000,
                (rate - first) * 1_000_000_000 + wait * rate,
            );
            granted(LimiterState::full(rps, made), burst(n, made) + burst(m, later)) == first
                + smaller(m as int, held / 1_000_000_000)
        }),
{
    let rate = at_least_one(rps);
    let full = LimiterState::full(rps, made);
    let left = after_tries(full, burst(n, made));
    lemma_burst(rps, made, n);
    lemma_granted_in_runs(full, burst(n, made), burst(m, later));
    lemma_tokens_conserved(full, burst(n, made));
    lemma_burst_gets_whole_tokens(left, later, m);
}

/// Refilling is continuous: a bucket that is looked at on the way holds in the
/// end what it would have held unseen.
pub proof fn law_refilling_is_continuous(state: LimiterState, midway: Instant, end: Instant)
    requires
        state.wf(),
        state.last_refill.nanos <= midway.nanos <= end.nanos,
    ensures
        state.refilled(midway).refilled(end).tokens == state.refilled(end).tokens,
{
    let a = elapsed(state.last_refill, midway);
    let b = elapsed(midway, end);
    let rps = state.rps;
    assert((a + b) * rps == a * rps + b * rps) by (nonlinear_arith);
    assert(elapsed(state.last_refill, end) == a + b);
    assert(b * rps >= 0) by (nonlinear_arith);
    assert(a * rps >= 0) by (nonlinear_arith);
    if a == 0 {
        assert(state.refilled(midway).last_refill == state.last_refill);
        assert(a * rps == 0) by (nonlinear_arith)
            requires
                a == 0,
        ;
        assert(elapsed(state.last_refill, end) == b);
    }
}

/// A new limiter lets as many requests through at once as its rate says, for any
/// rate, and one more for each part of a second in which it gains a token.
pub proof fn law_new_limiter_keeps_its_rate(
    rps: u32,
    now: Instant,
    limiter: RateLimiter,
    n: nat,
    later: Instant,
    wait: nat,
    m: nat,
)
    requires
        call_ensures(RateLimiter::per_second, (rps, now), limiter),
        rps >= 1,
        later.nanos == now.nanos + wait,
    ensures
        n <= rps ==> granted(limiter@, burst(n, now)) == n,
        n >= rps ==> granted(limiter@, burst(n, now)) == rps,
        n >= rps && wait * rps < 1_000_000_000 ==> granted(
            limiter@,
            burst(n, now) + burst(m, later),
        ) == rps,
        n >= rps && m >= 1 && 1_000_000_000 <= wait * rps < 2_000_000_000 && rps >= 2 ==> granted(
            limiter@,
            burst(n, now) + burst(m, later),
        ) == rps + 1,
{
    law_full_bucket_allows_a_burst(rps, now, n);
    law_bucket_refills_at_its_rate(rps, now, n, later, wait, m);
    assert(at_least_one(rps) == rps);
    if n >= rps {
        let rate = rps as int;
        assert(smaller(n as int, rate) == rate);
        assert((rate - rate) * 1_000_000_000 + wait * rate == wait * rate);
    }
}

} // verus!
