//! What a pool holds and how it changes, as mathematics.

use vstd::prelude::*;

use crate::config::{CapabilityView, EndpointView};
use crate::health::{BackoffPolicy, HealthState};
use crate::metrics::MetricView;
use crate::pool::rate_limit::LimiterState;
use crate::text::decimal;
use crate::time::{Duration, Instant};

verus! {

/// One endpoint of a pool, with all that is kept about it.
pub struct EntryState {
    pub endpoint: EndpointView,
    /// The headers that its authentication adds to each request.
    pub headers: Seq<(Seq<char>, Seq<char>)>,
    pub health: HealthState,
    /// The throttle, where the endpoint has one.
    pub limiter: Option<LimiterState>,
    /// Requests sent and not answered yet.
    pub in_flight: u64,
}

impl EntryState {
    /// An entry that nothing was sent to yet.
    pub open spec fn fresh(endpoint: EndpointView, backoff: BackoffPolicy, now: Instant) -> Self {
        EntryState {
            endpoint,
            headers: endpoint.auth.headers(),
            health: HealthState::fresh(backoff),
            limiter: match endpoint.max_rps {
                Some(rps) => Some(LimiterState::full(rps, now)),
                None => None,
            },
            in_flight: 0,
        }
    }

    /// The counters add up, the throttle is sound, and the headers are those of
    /// the endpoint's own authentication.
    pub open spec fn wf(self) -> bool {
        &&& self.headers == self.endpoint.auth.headers()
        &&& self.health.wf()
        &&& self.limiter matches Some(limiter) ==> limiter.wf()
    }

    /// As many requests are in flight as the soft cap allows.
    pub open spec fn saturated(self) -> bool {
        match self.endpoint.max_in_flight {
            Some(cap) => self.in_flight >= cap,
            None => false,
        }
    }

    /// The throttle lets one more request through at `now`.
    pub open spec fn grants(self, now: Instant) -> bool {
        match self.limiter {
            Some(limiter) => limiter.grants(now),
            None => true,
        }
    }

    /// The entry after its throttle was asked at `now`.
    pub open spec fn asked(self, now: Instant) -> Self {
        EntryState {
            limiter: match self.limiter {
                Some(limiter) => Some(limiter.after_try(now)),
                None => None,
            },
            ..self
        }
    }

    /// The entry with one more request in flight.
    pub open spec fn sent(self) -> Self {
        EntryState {
            in_flight: if self.in_flight < u64::MAX {
                (self.in_flight + 1) as u64
            } else {
                u64::MAX
            },
            ..self
        }
    }

    /// The entry with one request in flight less.
    pub open spec fn landed(self) -> Self {
        EntryState {
            in_flight: if self.in_flight > 0 {
                (self.in_flight - 1) as u64
            } else {
                0
            },
            ..self
        }
    }

    /// The entry after a request came back with the error `failure`, or with an
    /// answer when there is none.
    pub open spec fn answered(
        self,
        failure: Option<Seq<char>>,
        latency: Duration,
        now: Instant,
    ) -> Self {
        EntryState {
            health: match failure {
                Some(words) => self.health.after_failure(words, latency, now),
                None => self.health.after_success(latency, now),
            },
            ..self.landed()
        }
    }
}

/// A pool: its entries by rank, the id of the next request, and how many
/// endpoints one call may try (zero for all).
pub struct PoolState {
    pub entries: Seq<EntryState>,
    pub request_id: u64,
    pub max_retries: u32,
}

impl PoolState {
    /// The invariant of a pool: every entry is sound, and entries stand in
    /// order of priority.
    pub open spec fn wf(self) -> bool {
        &&& forall|i: int| 0 <= i < self.entries.len() ==> (#[trigger] self.entries[i]).wf()
        &&& forall|i: int, j: int|
            0 <= i <= j < self.entries.len() ==> (#[trigger] self.entries[i]).endpoint.priority <= (
            #[trigger] self.entries[j]).endpoint.priority
    }

    /// The endpoint that `call` awaits an answer from can count it.
    pub open spec fn has_room_for(self, call: DispatchState) -> bool {
        call.pending matches Some((i, _)) ==> self.entries[i].health.total_requests < u64::MAX
    }

    /// `a` is to be tried before `b`: endpoints below their cap first, then the
    /// lower priority value, then fewer requests in flight, then the better
    /// rank.
    pub open spec fn before(self, a: int, b: int) -> bool {
        let x = self.entries[a];
        let y = self.entries[b];
        if x.saturated() != y.saturated() {
            y.saturated()
        } else if x.endpoint.priority != y.endpoint.priority {
            x.endpoint.priority < y.endpoint.priority
        } else if x.in_flight != y.in_flight {
            x.in_flight < y.in_flight
        } else {
            a < b
        }
    }

    /// `order` lists every entry once, in the order in which a call that
    /// starts now tries them.
    pub open spec fn is_dispatch_order(self, order: Seq<int>) -> bool {
        &&& lists_all(order, self.entries.len())
        &&& forall|i: int, j: int|
            0 <= i < j < order.len() ==> self.before(#[trigger] order[i], #[trigger] order[j])
    }

    /// The pool with another entry at `i`.
    pub open spec fn with_entry(self, i: int, entry: EntryState) -> Self {
        PoolState { entries: self.entries.update(i, entry), ..self }
    }
}

/// `order` lists the numbers below `n`, each once.
pub open spec fn lists_all(order: Seq<int>, n: nat) -> bool {
    &&& order.len() == n
    &&& order.no_duplicates()
    &&& forall|i: int| 0 <= i < order.len() ==> 0 <= #[trigger] order[i] < n
    &&& forall|e: int| 0 <= e < n ==> #[trigger] order.contains(e)
}

/// A call under way.
pub struct DispatchState {
    pub method: Seq<char>,
    pub capability: CapabilityView,
    /// When the call began. Cooldowns are judged by this time.
    pub started: Instant,
    /// The entries in the order in which they are tried.
    pub order: Seq<int>,
    /// How many of them have been looked at.
    pub considered: nat,
    pub incapable: nat,
    pub in_cooldown: nat,
    pub rate_limited: nat,
    /// The endpoints that failed, with what each of them failed with.
    pub attempts: Seq<(Seq<char>, Seq<char>)>,
    /// The entry that an answer is awaited from, and the request's id.
    pub pending: Option<(int, u64)>,
}

/// What becomes of an endpoint when its turn comes.
pub enum Fate {
    /// It does not serve the method.
    Incapable,
    /// It is cooling down from failures.
    CoolingDown,
    /// Its throttle has no token.
    Throttled,
    /// It could be asked, but the call has tried as many as it may.
    OverBudget,
    /// The request goes to it.
    Chosen,
}

impl DispatchState {
    /// A call of `method` that begins at `now` and tries entries in `order`.
    pub open spec fn begun(
        method: Seq<char>,
        capability: CapabilityView,
        now: Instant,
        order: Seq<int>,
    ) -> Self {
        DispatchState {
            method,
            capability,
            started: now,
            order,
            considered: 0,
            incapable: 0,
            in_cooldown: 0,
            rate_limited: 0,
            attempts: seq![],
            pending: None,
        }
    }

    /// The call is one of a pool with `n` entries. Every entry looked at is
    /// accounted for once.
    pub open spec fn fits(self, n: nat) -> bool {
        &&& lists_all(self.order, n)
        &&& self.considered <= n
        &&& self.considered >= self.incapable + self.in_cooldown + self.rate_limited
            + self.attempts.len() + if self.pending is Some {
            1int
        } else {
            0int
        }
        &&& self.pending matches Some((i, _)) ==> 0 <= i < n
    }

    /// Every entry has been looked at.
    pub open spec fn exhausted(self) -> bool {
        self.considered >= self.order.len()
    }

    /// The entry whose turn it is.
    pub open spec fn next(self) -> int {
        self.order[self.considered as int]
    }

    /// The call has tried as many endpoints as `max_retries` allows.
    pub open spec fn over_budget(self, max_retries: u32) -> bool {
        max_retries != 0 && self.attempts.len() >= max_retries
    }

    /// The reason given when nothing could be asked.
    pub open spec fn reason(self) -> Seq<char> {
        "considered="@ + decimal(self.considered) + " incapable="@ + decimal(self.incapable)
            + " in_cooldown="@ + decimal(self.in_cooldown) + " rate_limited="@ + decimal(
            self.rate_limited,
        )
    }
}

/// What becomes of the entry whose turn it is, at `now`.
pub open spec fn fate(pool: PoolState, call: DispatchState, now: Instant) -> Fate {
    let entry = pool.entries[call.next()];
    if !entry.endpoint.supports(call.capability) {
        Fate::Incapable
    } else if !entry.health.available_at(call.started) {
        Fate::CoolingDown
    } else if !entry.grants(now) {
        Fate::Throttled
    } else if call.over_budget(pool.max_retries) {
        Fate::OverBudget
    } else {
        Fate::Chosen
    }
}

/// The pool after the entry whose turn it is was looked at. Its throttle is
/// asked last of all conditions but the budget.
pub open spec fn pool_after_look(pool: PoolState, call: DispatchState, now: Instant) -> PoolState {
    let i = call.next();
    let entry = pool.entries[i];
    match fate(pool, call, now) {
        Fate::Incapable | Fate::CoolingDown => pool,
        Fate::Throttled | Fate::OverBudget => pool.with_entry(i, entry.asked(now)),
        Fate::Chosen => PoolState {
            request_id: if pool.request_id < u64::MAX {
                (pool.request_id + 1) as u64
            } else {
                0
            },
            ..pool.with_entry(i, entry.asked(now).sent())
        },
    }
}

/// The call after the entry whose turn it is was looked at.
pub open spec fn call_after_look(
    pool: PoolState,
    call: DispatchState,
    now: Instant,
) -> DispatchState {
    let seen = DispatchState { considered: call.considered + 1, ..call };
    match fate(pool, call, now) {
        Fate::Incapable => DispatchState { incapable: call.incapable + 1, ..seen },
        Fate::CoolingDown => DispatchState { in_cooldown: call.in_cooldown + 1, ..seen },
        Fate::Throttled => DispatchState { rate_limited: call.rate_limited + 1, ..seen },
        Fate::OverBudget => seen,
        Fate::Chosen => DispatchState { pending: Some((call.next(), pool.request_id)), ..seen },
    }
}

/// What metrics are told of the look. A throttled endpoint is passed over
/// silently.
pub open spec fn look_events(pool: PoolState, call: DispatchState, now: Instant) -> Seq<
    MetricView,
> {
    let tag = pool.entries[call.next()].endpoint.tag();
    match fate(pool, call, now) {
        Fate::Incapable => seq![MetricView::SkippedIncapable { tag, method: call.method }],
        Fate::CoolingDown => seq![MetricView::SkippedCooldown { tag, method: call.method }],
        Fate::Throttled | Fate::OverBudget => seq![],
        Fate::Chosen => seq![MetricView::Request { tag, method: call.method }],
    }
}

/// Where a step leaves the pool and the call, and what metrics are told.
pub struct Progress {
    pub pool: PoolState,
    pub call: DispatchState,
    pub events: Seq<MetricView>,
}

/// Look at entries in turn until one is chosen, the budget is spent, or all
/// have been looked at.
pub open spec fn walk(pool: PoolState, call: DispatchState, now: Instant) -> Progress
    decreases call.order.len() - call.considered,
{
    if call.exhausted() {
        Progress { pool, call, events: seq![] }
    } else {
        let pool2 = pool_after_look(pool, call, now);
        let call2 = call_after_look(pool, call, now);
        let events = look_events(pool, call, now);
        match fate(pool, call, now) {
            Fate::OverBudget | Fate::Chosen => Progress { pool: pool2, call: call2, events },
            _ => {
                let rest = walk(pool2, call2, now);
                Progress { events: events + rest.events, ..rest }
            },
        }
    }
}

/// A look keeps the pool and the call sound.
pub proof fn lemma_look_keeps_sound(pool: PoolState, call: DispatchState, now: Instant)
    requires
        pool.wf(),
        call.fits(pool.entries.len()),
        !call.exhausted(),
        call.pending is None,
    ensures
        pool_after_look(pool, call, now).wf(),
        pool_after_look(pool, call, now).entries.len() == pool.entries.len(),
        pool_after_look(pool, call, now).max_retries == pool.max_retries,
        call_after_look(pool, call, now).fits(pool.entries.len()),
{
    let i = call.next();
    let entry = pool.entries[i];
    let after = pool_after_look(pool, call, now);
    assert(0 <= i < pool.entries.len());
    assert(entry.wf());
    assert(entry.asked(now).wf());
    assert forall|k: int| 0 <= k < after.entries.len() implies (#[trigger] after.entries[k]).wf()
        && after.entries[k].endpoint == pool.entries[k].endpoint by {
        assert(pool.entries[k].wf());
    }
    assert forall|a: int, b: int| 0 <= a <= b < after.entries.len() implies (
    #[trigger] after.entries[a]).endpoint.priority <= (
    #[trigger] after.entries[b]).endpoint.priority by {
        assert(pool.entries[a].endpoint.priority <= pool.entries[b].endpoint.priority);
    }
}

/// A walk keeps the pool and the call sound.
pub proof fn lemma_walk_keeps_sound(pool: PoolState, call: DispatchState, now: Instant)
    requires
        pool.wf(),
        call.fits(pool.entries.len()),
        call.pending is None,
    ensures
        walk(pool, call, now).pool.wf(),
        walk(pool, call, now).pool.entries.len() == pool.entries.len(),
        walk(pool, call, now).pool.max_retries == pool.max_retries,
        walk(pool, call, now).call.fits(pool.entries.len()),
    decreases call.order.len() - call.considered,
{
    if !call.exhausted() {
        lemma_look_keeps_sound(pool, call, now);
        match fate(pool, call, now) {
            Fate::OverBudget | Fate::Chosen => {},
            _ => {
                lemma_walk_keeps_sound(
                    pool_after_look(pool, call, now),
                    call_after_look(pool, call, now),
                    now,
                );
            },
        }
    }
}

/// The pool and the call after the awaited request came back.
pub open spec fn settle(
    pool: PoolState,
    call: DispatchState,
    failure: Option<Seq<char>>,
    latency: Duration,
    now: Instant,
) -> Progress {
    let i = (call.pending->0).0;
    let entry = pool.entries[i];
    let tag = entry.endpoint.tag();
    Progress {
        pool: pool.with_entry(i, entry.answered(failure, latency, now)),
        call: DispatchState {
            pending: None,
            attempts: match failure {
                Some(words) => call.attempts.push((entry.endpoint.url, words)),
                None => call.attempts,
            },
            ..call
        },
        events: match failure {
            Some(words) => seq![
                MetricView::Failure { tag, method: call.method, latency, error: words },
            ],
            None => seq![MetricView::Success { tag, method: call.method, latency }],
        },
    }
}

/// Counting a reply keeps the pool and the call sound.
pub proof fn lemma_settle_keeps_sound(
    pool: PoolState,
    call: DispatchState,
    failure: Option<Seq<char>>,
    latency: Duration,
    now: Instant,
)
    requires
        pool.wf(),
        call.fits(pool.entries.len()),
        call.pending is Some,
    ensures
        settle(pool, call, failure, latency, now).pool.wf(),
        settle(pool, call, failure, latency, now).pool.entries.len() == pool.entries.len(),
        settle(pool, call, failure, latency, now).pool.max_retries == pool.max_retries,
        settle(pool, call, failure, latency, now).call.fits(pool.entries.len()),
{
    let i = (call.pending->0).0;
    let after = settle(pool, call, failure, latency, now).pool;
    assert(pool.entries[i].wf());
    assert forall|k: int| 0 <= k < after.entries.len() implies (#[trigger] after.entries[k]).wf()
        && after.entries[k].endpoint == pool.entries[k].endpoint by {
        assert(pool.entries[k].wf());
    }
    assert forall|a: int, b: int| 0 <= a <= b < after.entries.len() implies (
    #[trigger] after.entries[a]).endpoint.priority <= (
    #[trigger] after.entries[b]).endpoint.priority by {
        assert(pool.entries[a].endpoint.priority <= pool.entries[b].endpoint.priority);
    }
}

/// A whole step after a reply: the reply is counted, and after a failure the
/// walk goes on.
pub open spec fn reply_step(
    pool: PoolState,
    call: DispatchState,
    failure: Option<Seq<char>>,
    latency: Duration,
    now: Instant,
) -> Progress {
    let settled = settle(pool, call, failure, latency, now);
    if failure is Some {
        let rest = walk(settled.pool, settled.call, now);
        Progress { events: settled.events + rest.events, ..rest }
    } else {
        settled
    }
}

/// The pool after the awaited request was given up: only its slot is freed.
pub open spec fn given_up(pool: PoolState, call: DispatchState) -> PoolState {
    match call.pending {
        Some((i, _)) => pool.with_entry(i, pool.entries[i].landed()),
        None => pool,
    }
}

/// Giving a call up keeps the pool and the call sound.
pub proof fn lemma_given_up_keeps_sound(pool: PoolState, call: DispatchState)
    requires
        pool.wf(),
        call.fits(pool.entries.len()),
    ensures
        given_up(pool, call).wf(),
        given_up(pool, call).entries.len() == pool.entries.len(),
        (DispatchState { pending: None, ..call }).fits(pool.entries.len()),
{
    let after = given_up(pool, call);
    assert forall|k: int| 0 <= k < after.entries.len() implies (#[trigger] after.entries[k]).wf()
        && after.entries[k].endpoint == pool.entries[k].endpoint by {
        assert(pool.entries[k].wf());
    }
    assert forall|a: int, b: int| 0 <= a <= b < after.entries.len() implies (
    #[trigger] after.entries[a]).endpoint.priority <= (
    #[trigger] after.entries[b]).endpoint.priority by {
        assert(pool.entries[a].endpoint.priority <= pool.entries[b].endpoint.priority);
    }
}

} // verus!
