//! What holds of every call through a pool.

use vstd::prelude::*;

use crate::config::{pairs_view, CapabilityView};
use crate::error::RpcError;
use crate::json::Json;
use crate::metrics::MetricView;
use crate::pool::dispatch::{
    answers, call_verdict, ends_with, failure_of, forward_verdict, judged_by_call,
    judged_by_forward, lemma_step_keeps_sound, progress_of, ready, Attempt, Event, Reply, Step,
};
use crate::pool::state::{
    call_after_look, fate, given_up, lemma_look_keeps_sound, lemma_settle_keeps_sound,
    lemma_walk_keeps_sound, look_events, pool_after_look, reply_step, settle, walk, DispatchState, EntryState,
    Fate, PoolState,
};
use crate::pool::wire::{JsonRpcErrorBody, JsonRpcResponse};
use crate::pool::ForwardResult;
use crate::text::{decimal, signed_decimal};
use crate::time::{Duration, Instant};

verus! {

/// A strict order leaves one order of dispatch.
pub proof fn law_dispatch_order_is_determined(pool: PoolState, one: Seq<int>, other: Seq<int>)
    requires
        pool.is_dispatch_order(one),
        pool.is_dispatch_order(other),
    ensures
        one == other,
{
    assert forall|k: int| 0 <= k < one.len() implies one[k] == other[k] by {
        lemma_same_at(pool, one, other, k);
    }
    assert(one =~= other);
}

proof fn lemma_same_at(pool: PoolState, one: Seq<int>, other: Seq<int>, k: int)
    requires
        pool.is_dispatch_order(one),
        pool.is_dispatch_order(other),
        0 <= k < one.len(),
    ensures
        one[k] == other[k],
    decreases k,
{
    assert forall|j: int| 0 <= j < k implies one[j] == other[j] by {
        lemma_same_at(pool, one, other, j);
    }
    let x = one[k];
    let y = other[k];
    assert(other.contains(x));
    assert(one.contains(y));
    let m = choose|m: int| 0 <= m < other.len() && other[m] == x;
    let n = choose|n: int| 0 <= n < one.len() && one[n] == y;
    if m < k {
        assert(one[m] == other[m]);
        assert(one[m] == one[k]);
    }
    if n < k {
        assert(one[n] == other[n]);
        assert(other[n] == other[k]);
    }
    if x != y {
        assert(pool.before(one[k], one[n]));
        assert(pool.before(other[k], other[m]));
    }
}

/// Load-aware dispatch: an endpoint at its cap is tried after every endpoint
/// below its own; among the rest a lower priority value goes first, and among
/// peers of one priority the one with fewer requests in flight.
pub proof fn law_load_decides_among_peers(pool: PoolState, order: Seq<int>, i: int, j: int)
    requires
        pool.is_dispatch_order(order),
        0 <= i < j < order.len(),
    ensures
        pool.entries[order[i]].saturated() ==> pool.entries[order[j]].saturated(),
        pool.entries[order[i]].saturated() == pool.entries[order[j]].saturated()
            ==> pool.entries[order[i]].endpoint.priority
            <= pool.entries[order[j]].endpoint.priority,
        pool.entries[order[i]].saturated() == pool.entries[order[j]].saturated()
            && pool.entries[order[i]].endpoint.priority
            == pool.entries[order[j]].endpoint.priority ==> pool.entries[order[i]].in_flight
            <= pool.entries[order[j]].in_flight,
{
    assert(pool.before(order[i], order[j]));
}

/// With nothing in flight and no endpoint capped at zero, calls go by rank:
/// lower priority first, ties in the order of the configuration.
pub proof fn law_idle_pool_goes_by_rank(pool: PoolState, order: Seq<int>)
    requires
        pool.wf(),
        pool.is_dispatch_order(order),
        forall|i: int|
            0 <= i < pool.entries.len() ==> (#[trigger] pool.entries[i]).in_flight == 0
                && !pool.entries[i].saturated(),
    ensures
        order == Seq::new(pool.entries.len(), |i: int| i),
{
    let rank = Seq::new(pool.entries.len(), |i: int| i);
    assert(pool.is_dispatch_order(rank)) by {
        assert forall|e: int| 0 <= e < pool.entries.len() implies #[trigger] rank.contains(e) by {
            assert(rank[e] == e);
        }
        assert forall|i: int, j: int| 0 <= i < j < rank.len() implies pool.before(
            #[trigger] rank[i],
            #[trigger] rank[j],
        ) by {
            assert(pool.entries[i].endpoint.priority <= pool.entries[j].endpoint.priority);
            assert(pool.entries[i].in_flight == 0 && pool.entries[j].in_flight == 0);
        }
    }
    law_dispatch_order_is_determined(pool, order, rank);
}

/// The entry is as it was but for its throttle and its load.
pub open spec fn only_load_differs(before: EntryState, after: EntryState) -> bool {
    &&& after.endpoint == before.endpoint
    &&& after.headers == before.headers
    &&& after.health == before.health
}

/// What a walk leaves alone: endpoints and health, every entry it does not
/// reach, the call's method, time, order and failures.
pub proof fn lemma_walk_frame(pool: PoolState, call: DispatchState, now: Instant)
    requires
        pool.wf(),
        call.fits(pool.entries.len()),
        call.pending is None,
    ensures
        ({
            let end = walk(pool, call, now);
            &&& end.pool.entries.len() == pool.entries.len()
            &&& end.pool.max_retries == pool.max_retries
            &&& call.considered <= end.call.considered <= call.order.len()
            &&& end.call.method == call.method
            &&& end.call.capability == call.capability
            &&& end.call.started == call.started
            &&& end.call.order == call.order
            &&& end.call.attempts == call.attempts
            &&& forall|k: int|
                0 <= k < pool.entries.len() ==> only_load_differs(
                    pool.entries[k],
                    #[trigger] end.pool.entries[k],
                )
            &&& forall|p: int|
                #![trigger call.order[p]]
                (0 <= p < call.considered || end.call.considered <= p < call.order.len())
                    ==> end.pool.entries[call.order[p]] == pool.entries[call.order[p]]
            &&& end.call.pending matches Some((i, _)) ==> end.call.considered > call.considered && i
                == call.order[end.call.considered - 1]
            &&& end.call.pending is None ==> end.call.exhausted() || call.over_budget(
                pool.max_retries,
            )
        }),
    decreases call.order.len() - call.considered,
{
    if !call.exhausted() {
        lemma_look_keeps_sound(pool, call, now);
        let pool2 = pool_after_look(pool, call, now);
        let call2 = call_after_look(pool, call, now);
        let i = call.next();
        assert forall|p: int|
            #![trigger call.order[p]]
            0 <= p < call.order.len() && p != call.considered implies pool2.entries[call.order[p]]
            == pool.entries[call.order[p]] by {
            assert(call.order[p] != i);
        }
        match fate(pool, call, now) {
            Fate::OverBudget | Fate::Chosen => {},
            _ => {
                lemma_walk_frame(pool2, call2, now);
                let end = walk(pool2, call2, now);
                assert forall|k: int| 0 <= k < pool.entries.len() implies only_load_differs(
                    pool.entries[k],
                    #[trigger] end.pool.entries[k],
                ) by {
                    assert(only_load_differs(pool2.entries[k], end.pool.entries[k]));
                }
            },
        }
    }
}

/// A request only goes to an endpoint that serves the method, is not cooling
/// down as of the start of the call, and has a token left; and only while the
/// call is within its budget. Its number is the pool's next one.
pub proof fn law_requests_go_to_usable_endpoints(
    pool: PoolState,
    call: DispatchState,
    now: Instant,
)
    requires
        pool.wf(),
        call.fits(pool.entries.len()),
        call.pending is None,
    ensures
        walk(pool, call, now).call.pending matches Some((i, id)) ==> {
            &&& 0 <= i < pool.entries.len()
            &&& pool.entries[i].endpoint.supports(call.capability)
            &&& pool.entries[i].health.available_at(call.started)
            &&& pool.entries[i].grants(now)
            &&& !call.over_budget(pool.max_retries)
            &&& id == pool.request_id
            &&& pool.entries[i].endpoint.capabilities.len() == 0
                || pool.entries[i].endpoint.capabilities.contains(call.capability)
            &&& pool.entries[i].limiter matches Some(limiter) ==> limiter.grants(now)
            &&& pool.max_retries == 0 || call.attempts.len() < pool.max_retries
        },
    decreases call.order.len() - call.considered,
{
    if !call.exhausted() {
        lemma_look_keeps_sound(pool, call, now);
        match fate(pool, call, now) {
            Fate::OverBudget | Fate::Chosen => {},
            _ => {
                let pool2 = pool_after_look(pool, call, now);
                let call2 = call_after_look(pool, call, now);
                law_requests_go_to_usable_endpoints(pool2, call2, now);
                lemma_walk_frame(pool2, call2, now);
                if let Some((i, id)) = walk(pool, call, now).call.pending {
                    let p = walk(pool2, call2, now).call.considered - 1;
                    assert(i == call.order[p] && p != call.considered);
                    assert(i != call.next());
                }
            },
        }
    }
}

/// Every request goes to the URL of the endpoint it is meant for, with exactly
/// the headers of that endpoint's authentication: no endpoint ever sees the
/// secret of another, and none is asked without its own.
pub proof fn law_requests_carry_their_endpoints_auth<T>(
    pool: PoolState,
    call: DispatchState,
    event: Event,
    verdict: Option<Result<T, Seq<char>>>,
    now: Instant,
    attempt: Attempt,
)
    requires
        ready(pool, call, event),
        answers(Step::<T>::Send(attempt), verdict, progress_of(pool, call, event, verdict, now)),
    ensures
        progress_of(pool, call, event, verdict, now).call.pending matches Some((i, id)) && {
            &&& 0 <= i < pool.entries.len()
            &&& attempt.id == id
            &&& attempt.method@ == call.method
            &&& attempt.url@ == pool.entries[i].endpoint.url
            &&& pairs_view(attempt.headers@) == pool.entries[i].endpoint.auth.headers()
        },
{
    let end = progress_of(pool, call, event, verdict, now);
    lemma_step_keeps_sound(pool, call, event, verdict, now);
    let (i, _) = end.call.pending->0;
    assert(end.pool.entries[i].wf());
    match event {
        Event::Start => {
            lemma_walk_frame(pool, call, now);
            assert(only_load_differs(pool.entries[i], end.pool.entries[i]));
        },
        Event::Reply { latency, .. } => {
            let failure = failure_of(verdict->0);
            let settled = settle(pool, call, failure, latency, now);
            lemma_settle_keeps_sound(pool, call, failure, latency, now);
            if failure is Some {
                lemma_walk_frame(settled.pool, settled.call, now);
                assert(only_load_differs(settled.pool.entries[i], end.pool.entries[i]));
            }
        },
    }
}

/// Passing endpoints over costs them nothing: a walk leaves every endpoint's
/// health as it was.
pub proof fn law_skipping_leaves_health_alone(pool: PoolState, call: DispatchState, now: Instant)
    requires
        pool.wf(),
        call.fits(pool.entries.len()),
        call.pending is None,
    ensures
        walk(pool, call, now).pool.entries.len() == pool.entries.len(),
        forall|k: int|
            0 <= k < pool.entries.len() ==> (#[trigger] walk(
                pool,
                call,
                now,
            ).pool.entries[k]).health == pool.entries[k].health,
{
    lemma_walk_frame(pool, call, now);
    let end = walk(pool, call, now);
    assert forall|k: int| 0 <= k < pool.entries.len() implies (
    #[trigger] end.pool.entries[k]).health == pool.entries[k].health by {
        assert(only_load_differs(pool.entries[k], end.pool.entries[k]));
    }
}

/// Requests are numbered one after the other: a walk takes the next number
/// when it sends and none when it does not.
pub proof fn law_requests_are_numbered_in_turn(pool: PoolState, call: DispatchState, now: Instant)
    requires
        pool.wf(),
        call.fits(pool.entries.len()),
        call.pending is None,
    ensures
        walk(pool, call, now).pool.request_id == match walk(pool, call, now).call.pending {
            Some(_) => if pool.request_id < u64::MAX {
                (pool.request_id + 1) as u64
            } else {
                0
            },
            None => pool.request_id,
        },
    decreases call.order.len() - call.considered,
{
    if !call.exhausted() {
        lemma_look_keeps_sound(pool, call, now);
        match fate(pool, call, now) {
            Fate::OverBudget | Fate::Chosen => {},
            _ => {
                law_requests_are_numbered_in_turn(
                    pool_after_look(pool, call, now),
                    call_after_look(pool, call, now),
                    now,
                );
            },
        }
    }
}

/// A walk moves forward, and not past the end of the order.
pub proof fn lemma_walk_moves_on(pool: PoolState, call: DispatchState, now: Instant)
    ensures
        walk(pool, call, now).call.order == call.order,
        !call.exhausted() ==> call.considered < walk(pool, call, now).call.considered
            <= call.order.len(),
    decreases call.order.len() - call.considered,
{
    if !call.exhausted() {
        match fate(pool, call, now) {
            Fate::OverBudget | Fate::Chosen => {},
            _ => {
                lemma_walk_moves_on(
                    pool_after_look(pool, call, now),
                    call_after_look(pool, call, now),
                    now,
                );
            },
        }
    }
}

/// The world a call meets: how each endpoint fails, if it does, how long it
/// takes, and what the clock reads once so many endpoints have been looked at.
pub struct Upstreams {
    pub failure: spec_fn(int) -> Option<Seq<char>>,
    pub latency: spec_fn(int) -> Duration,
    pub clock: spec_fn(nat) -> Instant,
}

/// How a call ends: where it leaves the pool, and which entry answered.
pub struct Outcome {
    pub pool: PoolState,
    pub call: DispatchState,
    pub winner: Option<int>,
}

/// A call that nothing interferes with, step after step to its end.
pub open spec fn run(pool: PoolState, call: DispatchState, world: Upstreams) -> Outcome
    decreases call.order.len() - call.considered,
{
    if call.exhausted() {
        Outcome { pool, call, winner: None }
    } else {
        proof {
            lemma_walk_moves_on(pool, call, (world.clock)(call.considered));
        }
        let sent = walk(pool, call, (world.clock)(call.considered));
        match sent.call.pending {
            None => Outcome { pool: sent.pool, call: sent.call, winner: None },
            Some((i, _)) => {
                let failure = (world.failure)(i);
                let settled = settle(
                    sent.pool,
                    sent.call,
                    failure,
                    (world.latency)(i),
                    (world.clock)(sent.call.considered),
                );
                if failure is Some {
                    run(settled.pool, settled.call, world)
                } else {
                    Outcome { pool: settled.pool, call: settled.call, winner: Some(i) }
                }
            },
        }
    }
}

/// A call that awaits an answer, or that is over, step after step to its end:
/// each reply is handed to the pool as it comes.
pub open spec fn replies_until_done(
    pool: PoolState,
    call: DispatchState,
    world: Upstreams,
) -> Outcome
    decreases call.order.len() - call.considered,
{
    match call.pending {
        None => Outcome { pool, call, winner: None },
        Some((i, _)) => {
            let failure = (world.failure)(i);
            let now = (world.clock)(call.considered);
            let next = reply_step(pool, call, failure, (world.latency)(i), now);
            if failure is None {
                Outcome { pool: next.pool, call: next.call, winner: Some(i) }
            } else if call.exhausted() {
                Outcome { pool: next.pool, call: next.call, winner: None }
            } else {
                proof {
                    let settled = settle(pool, call, failure, (world.latency)(i), now);
                    lemma_walk_moves_on(settled.pool, settled.call, now);
                }
                replies_until_done(next.pool, next.call, world)
            }
        },
    }
}

/// `run` is what the steps of `call` and `forward` come to: a start, and then a
/// reply to each request that the pool asks for.
pub proof fn law_run_is_the_steps(pool: PoolState, call: DispatchState, world: Upstreams)
    requires
        call.pending is None,
    ensures
        ({
            let started = walk(pool, call, (world.clock)(call.considered));
            run(pool, call, world) == replies_until_done(started.pool, started.call, world)
        }),
    decreases call.order.len() - call.considered,
{
    if !call.exhausted() {
        let started = walk(pool, call, (world.clock)(call.considered));
        lemma_walk_moves_on(pool, call, (world.clock)(call.considered));
        if let Some((i, _)) = started.call.pending {
            let failure = (world.failure)(i);
            let now = (world.clock)(started.call.considered);
            let settled = settle(started.pool, started.call, failure, (world.latency)(i), now);
            if failure is Some {
                law_run_is_the_steps(settled.pool, settled.call, world);
            }
        }
    }
}

/// The entry at `i` can answer the call: it serves the method, is not cooling
/// down, and has a token left whatever the time.
pub open spec fn usable(pool: PoolState, call: DispatchState, i: int) -> bool {
    &&& pool.entries[i].endpoint.capabilities.len() == 0
        || pool.entries[i].endpoint.capabilities.contains(call.capability)
    &&& pool.entries[i].health.available_at(call.started)
    &&& pool.entries[i].limiter matches Some(limiter) ==> forall|t: Instant| #[trigger]
        limiter.grants(t)
}

/// A walk gets no further than the first usable endpoint.
proof fn lemma_walk_stops_at_usable(
    pool: PoolState,
    call: DispatchState,
    now: Instant,
    position: int,
)
    requires
        pool.wf(),
        call.fits(pool.entries.len()),
        call.pending is None,
        call.considered <= position < call.order.len(),
        usable(pool, call, call.order[position]),
        !call.over_budget(pool.max_retries),
    ensures
        walk(pool, call, now).call.pending is Some,
        walk(pool, call, now).call.considered <= position + 1,
    decreases call.order.len() - call.considered,
{
    lemma_look_keeps_sound(pool, call, now);
    let i = call.order[position];
    assert(pool.entries[i].grants(now));
    match fate(pool, call, now) {
        Fate::OverBudget | Fate::Chosen => {},
        _ => {
            assert(position != call.considered);
            assert(i != call.next());
            let pool2 = pool_after_look(pool, call, now);
            assert(pool2.entries[i] == pool.entries[i]);
            lemma_walk_stops_at_usable(pool2, call_after_look(pool, call, now), now, position);
        },
    }
}

/// First success wins, and a call succeeds if any endpoint is healthy: with a
/// usable endpoint that answers, and a budget that reaches as far, the call is
/// answered, by that endpoint or by one that comes before it in the order.
pub proof fn law_succeeds_if_any_endpoint_is_healthy(
    pool: PoolState,
    call: DispatchState,
    world: Upstreams,
    position: int,
)
    requires
        pool.wf(),
        call.fits(pool.entries.len()),
        call.pending is None,
        call.considered <= position < call.order.len(),
        usable(pool, call, call.order[position]),
        (world.failure)(call.order[position]) is None,
        pool.max_retries == 0 || call.attempts.len() + (position - call.considered)
            < pool.max_retries,
    ensures
        call.considered < run(pool, call, world).call.considered <= position + 1,
        run(pool, call, world).winner == Some(
            call.order[run(pool, call, world).call.considered - 1],
        ),
        (world.failure)(run(pool, call, world).winner->0) is None,
    decreases call.order.len() - call.considered,
{
    let now = (world.clock)(call.considered);
    let sent = walk(pool, call, now);
    lemma_walk_stops_at_usable(pool, call, now, position);
    lemma_walk_frame(pool, call, now);
    lemma_walk_keeps_sound(pool, call, now);
    let (i, _) = sent.call.pending->0;
    let failure = (world.failure)(i);
    let later = (world.clock)(sent.call.considered);
    if failure is Some {
        let settled = settle(sent.pool, sent.call, failure, (world.latency)(i), later);
        lemma_settle_keeps_sound(sent.pool, sent.call, failure, (world.latency)(i), later);
        let h = call.order[position];
        assert(i != h);
        assert(sent.call.considered <= position);
        assert(sent.pool.entries[h] == pool.entries[h]);
        assert(settled.pool.entries[h] == pool.entries[h]);
        law_succeeds_if_any_endpoint_is_healthy(settled.pool, settled.call, world, position);
    }
}

/// Failover goes in order: every usable endpoint that stands before the one
/// that answered has failed.
pub proof fn law_answer_comes_from_the_first_that_can(
    pool: PoolState,
    call: DispatchState,
    world: Upstreams,
    position: int,
)
    requires
        pool.wf(),
        call.fits(pool.entries.len()),
        call.pending is None,
        pool.max_retries == 0,
        run(pool, call, world).winner is Some,
        call.considered <= position < run(pool, call, world).call.considered - 1,
        position < call.order.len(),
        usable(pool, call, call.order[position]),
    ensures
        (world.failure)(call.order[position]) is Some,
{
    if (world.failure)(call.order[position]) is None {
        law_succeeds_if_any_endpoint_is_healthy(pool, call, world, position);
    }
}

/// Priority order is respected: of all endpoints that can answer, the one that
/// does is the first in dispatch order.
pub proof fn law_winner_comes_before_every_other_candidate(
    pool: PoolState,
    call: DispatchState,
    world: Upstreams,
    other: int,
)
    requires
        pool.wf(),
        call.fits(pool.entries.len()),
        call.pending is None,
        call.considered == 0,
        pool.is_dispatch_order(call.order),
        pool.max_retries == 0,
        0 <= other < pool.entries.len(),
        usable(pool, call, other),
        (world.failure)(other) is None,
    ensures
        run(pool, call, world).winner matches Some(winner) && (winner == other || pool.before(
            winner,
            other,
        )),
{
    assert(call.order.contains(other));
    let position = choose|p: int| 0 <= p < call.order.len() && call.order[p] == other;
    law_succeeds_if_any_endpoint_is_healthy(pool, call, world, position);
    let at = run(pool, call, world).call.considered - 1;
    if at < position {
        assert(pool.before(call.order[at], call.order[position]));
    }
}

/// The call has tried no more endpoints than it may.
pub open spec fn within_budget(pool: PoolState, call: DispatchState) -> bool {
    pool.max_retries != 0 ==> call.attempts.len() + (if call.pending is Some {
        1int
    } else {
        0int
    }) <= pool.max_retries
}

/// No call ever tries more than `max_retries` endpoints, unless that is zero.
pub proof fn law_retry_budget_is_kept(
    pool: PoolState,
    call: DispatchState,
    failure: Option<Seq<char>>,
    latency: Duration,
    now: Instant,
)
    requires
        pool.wf(),
        call.fits(pool.entries.len()),
        within_budget(pool, call),
    ensures
        call.pending is None ==> within_budget(walk(pool, call, now).pool, walk(pool, call, now).call),
        call.pending is Some ==> within_budget(
            reply_step(pool, call, failure, latency, now).pool,
            reply_step(pool, call, failure, latency, now).call,
        ),
{
    if call.pending is None {
        lemma_walk_frame(pool, call, now);
        law_requests_go_to_usable_endpoints(pool, call, now);
    } else {
        let settled = settle(pool, call, failure, latency, now);
        lemma_settle_keeps_sound(pool, call, failure, latency, now);
        if failure is Some {
            lemma_walk_frame(settled.pool, settled.call, now);
            law_requests_go_to_usable_endpoints(settled.pool, settled.call, now);
        }
    }
}

/// Every endpoint looked at is counted once: as incapable, cooling down,
/// throttled, failed, or asked right now.
pub open spec fn accounted(call: DispatchState) -> bool {
    call.considered == call.incapable + call.in_cooldown + call.rate_limited + call.attempts.len()
        + if call.pending is Some {
        1int
    } else {
        0int
    }
}

proof fn lemma_walk_accounts(pool: PoolState, call: DispatchState, now: Instant)
    requires
        pool.wf(),
        call.fits(pool.entries.len()),
        call.pending is None,
        accounted(call),
        pool.max_retries == 0,
    ensures
        accounted(walk(pool, call, now).call),
        walk(pool, call, now).call.pending is None ==> walk(pool, call, now).call.exhausted(),
    decreases call.order.len() - call.considered,
{
    if !call.exhausted() {
        lemma_look_keeps_sound(pool, call, now);
        match fate(pool, call, now) {
            Fate::OverBudget | Fate::Chosen => {},
            _ => {
                lemma_walk_accounts(
                    pool_after_look(pool, call, now),
                    call_after_look(pool, call, now),
                    now,
                );
            },
        }
    }
}

/// Without a retry budget a call gives up only when every endpoint of the pool
/// is accounted for: as incapable, cooling down, throttled or failed. So it
/// reports that there were no candidates only if none of them could be asked.
pub proof fn law_failure_accounts_for_every_endpoint(
    pool: PoolState,
    call: DispatchState,
    failure: Seq<char>,
    latency: Duration,
    now: Instant,
)
    requires
        pool.wf(),
        call.fits(pool.entries.len()),
        accounted(call),
        pool.max_retries == 0,
    ensures
        ({
            let end = match call.pending {
                None => walk(pool, call, now).call,
                Some(_) => reply_step(pool, call, Some(failure), latency, now).call,
            };
            &&& accounted(end)
            &&& end.pending is None ==> end.considered == pool.entries.len()
        }),
{
    if call.pending is None {
        lemma_walk_accounts(pool, call, now);
        lemma_walk_frame(pool, call, now);
    } else {
        let settled = settle(pool, call, Some(failure), latency, now);
        lemma_settle_keeps_sound(pool, call, Some(failure), latency, now);
        lemma_walk_accounts(settled.pool, settled.call, now);
        lemma_walk_frame(settled.pool, settled.call, now);
    }
}

/// All successes that the entries have counted.
pub open spec fn successes(entries: Seq<EntryState>) -> nat
    decreases entries.len(),
{
    if entries.len() == 0 {
        0
    } else {
        successes(entries.drop_last()) + entries.last().health.total_successes
    }
}

/// All failures that the entries have counted.
pub open spec fn failures(entries: Seq<EntryState>) -> nat
    decreases entries.len(),
{
    if entries.len() == 0 {
        0
    } else {
        failures(entries.drop_last()) + entries.last().health.total_failures
    }
}

/// The same health gives the same totals.
pub proof fn lemma_same_health_same_sums(before: Seq<EntryState>, after: Seq<EntryState>)
    requires
        before.len() == after.len(),
        forall|k: int|
            0 <= k < before.len() ==> (#[trigger] after[k]).health == before[k].health,
    ensures
        successes(after) == successes(before),
        failures(after) == failures(before),
    decreases before.len(),
{
    if before.len() > 0 {
        let b = before.drop_last();
        let a = after.drop_last();
        assert forall|k: int| 0 <= k < b.len() implies (#[trigger] a[k]).health == b[k].health by {
            assert(after[k].health == before[k].health);
        }
        lemma_same_health_same_sums(b, a);
        assert(after[after.len() - 1].health == before[before.len() - 1].health);
    }
}

proof fn lemma_sums_after_update(entries: Seq<EntryState>, i: int, entry: EntryState)
    requires
        0 <= i < entries.len(),
    ensures
        successes(entries.update(i, entry)) == successes(entries)
            - entries[i].health.total_successes + entry.health.total_successes,
        failures(entries.update(i, entry)) == failures(entries) - entries[i].health.total_failures
            + entry.health.total_failures,
    decreases entries.len(),
{
    let updated = entries.update(i, entry);
    if i == entries.len() - 1 {
        assert(updated.drop_last() =~= entries.drop_last());
    } else {
        lemma_sums_after_update(entries.drop_last(), i, entry);
        assert(updated.drop_last() =~= entries.drop_last().update(i, entry));
        assert(updated.last() == entries.last());
    }
}

/// Each reply is counted once, by the endpoint it came from: an answer as a
/// success, anything else as a failure. Looking for the next endpoint counts
/// nothing.
pub proof fn law_each_reply_counts_once(
    pool: PoolState,
    call: DispatchState,
    failure: Option<Seq<char>>,
    latency: Duration,
    now: Instant,
)
    requires
        pool.wf(),
        call.fits(pool.entries.len()),
        call.pending is Some,
    ensures
        ({
            let end = reply_step(pool, call, failure, latency, now).pool;
            &&& successes(end.entries) == successes(pool.entries) + if failure is None {
                1int
            } else {
                0int
            }
            &&& failures(end.entries) == failures(pool.entries) + if failure is Some {
                1int
            } else {
                0int
            }
        }),
{
    let i = (call.pending->0).0;
    let settled = settle(pool, call, failure, latency, now);
    lemma_settle_keeps_sound(pool, call, failure, latency, now);
    lemma_sums_after_update(
        pool.entries,
        i,
        pool.entries[i].answered(failure, latency, now),
    );
    if failure is Some {
        law_skipping_leaves_health_alone(settled.pool, settled.call, now);
        lemma_same_health_same_sums(
            settled.pool.entries,
            walk(settled.pool, settled.call, now).pool.entries,
        );
    }
}

/// Over a whole call the pool counts one success if the call was answered and
/// none if it was not, and one failure for each endpoint that failed.
pub proof fn law_call_counts_its_answer(pool: PoolState, call: DispatchState, world: Upstreams)
    requires
        pool.wf(),
        call.fits(pool.entries.len()),
        call.pending is None,
    ensures
        ({
            let end = run(pool, call, world);
            &&& successes(end.pool.entries) == successes(pool.entries) + if end.winner is Some {
                1int
            } else {
                0int
            }
            &&& failures(end.pool.entries) == failures(pool.entries) + (end.call.attempts.len()
                - call.attempts.len())
        }),
    decreases call.order.len() - call.considered,
{
    if !call.exhausted() {
        let now = (world.clock)(call.considered);
        let sent = walk(pool, call, now);
        lemma_walk_moves_on(pool, call, now);
        lemma_walk_frame(pool, call, now);
        lemma_walk_keeps_sound(pool, call, now);
        law_skipping_leaves_health_alone(pool, call, now);
        lemma_same_health_same_sums(pool.entries, sent.pool.entries);
        if let Some((i, _)) = sent.call.pending {
            let failure = (world.failure)(i);
            let latency = (world.latency)(i);
            let later = (world.clock)(sent.call.considered);
            let settled = settle(sent.pool, sent.call, failure, latency, later);
            lemma_settle_keeps_sound(sent.pool, sent.call, failure, latency, later);
            lemma_sums_after_update(
                sent.pool.entries,
                i,
                sent.pool.entries[i].answered(failure, latency, later),
            );
            if failure is Some {
                law_call_counts_its_answer(settled.pool, settled.call, world);
            }
        }
    }
}

/// A walk adds one to the load of the entry it chooses, and to no other.
pub proof fn lemma_walk_load(pool: PoolState, call: DispatchState, now: Instant)
    requires
        pool.wf(),
        call.fits(pool.entries.len()),
        call.pending is None,
    ensures
        forall|k: int|
            #![trigger walk(pool, call, now).pool.entries[k]]
            0 <= k < pool.entries.len() ==> walk(pool, call, now).pool.entries[k].in_flight == if (
            walk(pool, call, now).call.pending matches Some((i, _)) && i == k) {
                pool.entries[k].sent().in_flight
            } else {
                pool.entries[k].in_flight
            },
    decreases call.order.len() - call.considered,
{
    if !call.exhausted() {
        lemma_look_keeps_sound(pool, call, now);
        let pool2 = pool_after_look(pool, call, now);
        let call2 = call_after_look(pool, call, now);
        match fate(pool, call, now) {
            Fate::OverBudget | Fate::Chosen => {},
            _ => {
                lemma_walk_load(pool2, call2, now);
                let end = walk(pool2, call2, now);
                assert forall|k: int| 0 <= k < pool.entries.len() implies #[trigger] walk(
                    pool,
                    call,
                    now,
                ).pool.entries[k].in_flight == if (end.call.pending matches Some((i, _)) && i
                    == k) {
                    pool.entries[k].sent().in_flight
                } else {
                    pool.entries[k].in_flight
                } by {
                    assert(end.pool.entries[k].in_flight == if (end.call.pending matches Some(
                        (i, _),
                    ) && i == k) {
                        pool2.entries[k].sent().in_flight
                    } else {
                        pool2.entries[k].in_flight
                    });
                    assert(pool2.entries[k].in_flight == pool.entries[k].in_flight);
                }
            },
        }
    }
}

/// A call takes one slot at a time and gives each back: when it is over, every
/// endpoint has as many requests in flight as before.
pub proof fn law_call_gives_its_slots_back(pool: PoolState, call: DispatchState, world: Upstreams)
    requires
        pool.wf(),
        call.fits(pool.entries.len()),
        call.pending is None,
        forall|k: int|
            0 <= k < pool.entries.len() ==> (#[trigger] pool.entries[k]).in_flight < u64::MAX,
    ensures
        run(pool, call, world).pool.entries.len() == pool.entries.len(),
        forall|k: int|
            0 <= k < pool.entries.len() ==> (#[trigger] run(
                pool,
                call,
                world,
            ).pool.entries[k]).in_flight == pool.entries[k].in_flight,
    decreases call.order.len() - call.considered,
{
    if !call.exhausted() {
        let now = (world.clock)(call.considered);
        let sent = walk(pool, call, now);
        lemma_walk_moves_on(pool, call, now);
        lemma_walk_frame(pool, call, now);
        lemma_walk_keeps_sound(pool, call, now);
        lemma_walk_load(pool, call, now);
        if let Some((i, _)) = sent.call.pending {
            let failure = (world.failure)(i);
            let latency = (world.latency)(i);
            let later = (world.clock)(sent.call.considered);
            let settled = settle(sent.pool, sent.call, failure, latency, later);
            lemma_settle_keeps_sound(sent.pool, sent.call, failure, latency, later);
            assert forall|k: int| 0 <= k < pool.entries.len() implies (
            #[trigger] settled.pool.entries[k]).in_flight == pool.entries[k].in_flight by {
                assert(pool.entries[k].in_flight < u64::MAX);
                assert(sent.pool.entries[k].in_flight == if i == k {
                    pool.entries[k].sent().in_flight
                } else {
                    pool.entries[k].in_flight
                });
            }
            if failure is Some {
                law_call_gives_its_slots_back(settled.pool, settled.call, world);
            }
        }
    }
}

/// A call given up while it waits leaves the load as if it had not sent the
/// request, and no trace in the endpoint's health.
pub proof fn law_giving_up_leaves_no_trace(pool: PoolState, call: DispatchState, now: Instant)
    requires
        pool.wf(),
        call.fits(pool.entries.len()),
        call.pending is None,
        forall|k: int|
            0 <= k < pool.entries.len() ==> (#[trigger] pool.entries[k]).in_flight < u64::MAX,
    ensures
        ({
            let sent = walk(pool, call, now);
            let left = given_up(sent.pool, sent.call);
            &&& left.entries.len() == pool.entries.len()
            &&& forall|k: int|
                0 <= k < pool.entries.len() ==> {
                    &&& (#[trigger] left.entries[k]).in_flight == pool.entries[k].in_flight
                    &&& left.entries[k].health == pool.entries[k].health
                }
        }),
{
    let sent = walk(pool, call, now);
    let left = given_up(sent.pool, sent.call);
    lemma_walk_frame(pool, call, now);
    lemma_walk_keeps_sound(pool, call, now);
    lemma_walk_load(pool, call, now);
    assert forall|k: int| 0 <= k < pool.entries.len() implies (
    #[trigger] left.entries[k]).in_flight == pool.entries[k].in_flight && left.entries[k].health
        == pool.entries[k].health by {
        assert(pool.entries[k].in_flight < u64::MAX);
        assert(only_load_differs(pool.entries[k], sent.pool.entries[k]));
    }
}

/// An upstream's error envelope is a failure to `call`, which fails over, and
/// an answer to `forward`, which relays it verbatim.
pub proof fn law_error_envelope_is_relayed_by_forward_alone(
    result: Option<Json>,
    body: JsonRpcErrorBody,
)
    ensures
        ({
            let reply = Reply::Body(Ok(JsonRpcResponse { result, error: Some(body) }));
            &&& call_verdict(reply) is Err
            &&& forward_verdict(reply) == Ok::<ForwardResult, Seq<char>>(
                ForwardResult::Error { code: body.code, message: body.message, data: body.data },
            )
        }),
{
}

/// On everything but an error envelope `call` and `forward` agree: a result is
/// the answer, and a transport failure, a body that is no JSON-RPC response,
/// and one without a result fail over with the same words.
pub proof fn law_call_and_forward_agree_otherwise(reply: Reply)
    requires
        reply matches Reply::Body(Ok(response)) ==> response.error is None,
    ensures
        match call_verdict(reply) {
            Ok(value) => forward_verdict(reply) == Ok::<ForwardResult, Seq<char>>(
                ForwardResult::Result(value),
            ),
            Err(words) => forward_verdict(reply) == Err::<ForwardResult, Seq<char>>(words),
        },
{
}

/// The first upstream's result is what `call` returns, exactly as it came: an
/// array stays an array and null stays null.
pub proof fn law_call_returns_the_upstream_result(
    pool: PoolState,
    call: DispatchState,
    value: Json,
    latency: Duration,
    now: Instant,
    step: Step<Json>,
)
    requires
        ({
            let reply = Reply::Body(Ok(JsonRpcResponse { result: Some(value), error: None }));
            let event = Event::Reply { reply, latency };
            answers(
                step,
                judged_by_call(event),
                progress_of(pool, call, event, judged_by_call(event), now),
            )
        }),
    ensures
        step matches Step::Done(Ok(returned)) && returned == value,
        call_verdict(Reply::Body(Ok(JsonRpcResponse { result: Some(value), error: None }))) == Ok::<
            Json,
            Seq<char>,
        >(value),
{
}

/// The first upstream's answer is what `forward` returns, exactly as it came: a
/// result as a result, and an error with its code, message and data.
pub proof fn law_forward_returns_the_upstream_answer(
    pool: PoolState,
    call: DispatchState,
    result: Option<Json>,
    error: Option<JsonRpcErrorBody>,
    latency: Duration,
    now: Instant,
    step: Step<ForwardResult>,
)
    requires
        result is Some || error is Some,
        ({
            let reply = Reply::Body(Ok(JsonRpcResponse { result, error }));
            let event = Event::Reply { reply, latency };
            answers(
                step,
                judged_by_forward(event),
                progress_of(pool, call, event, judged_by_forward(event), now),
            )
        }),
    ensures
        match error {
            Some(body) => {
                &&& step matches Step::Done(Ok(ForwardResult::Error { code, message, data }))
                &&& code == body.code
                &&& message == body.message
                &&& data == body.data
            },
            None => {
                &&& step matches Step::Done(Ok(ForwardResult::Result(returned)))
                &&& Some(returned) == result
            },
        },
{
}

/// What makes a reply a failure, and in which words: a transport's own message,
/// the parser's complaint, a response that answers nothing, and to `call` an
/// error envelope too.
pub proof fn law_failures_keep_their_words(
    message: String,
    complaint: String,
    result: Option<Json>,
    body: JsonRpcErrorBody,
)
    ensures
        call_verdict(Reply::Failed(message)) == Err::<Json, Seq<char>>(message@),
        forward_verdict(Reply::Failed(message)) == Err::<ForwardResult, Seq<char>>(message@),
        call_verdict(Reply::Body(Err(complaint))) == Err::<Json, Seq<char>>(
            "invalid json: "@ + complaint@,
        ),
        forward_verdict(Reply::Body(Err(complaint))) == Err::<ForwardResult, Seq<char>>(
            "invalid json: "@ + complaint@,
        ),
        call_verdict(Reply::Body(Ok(JsonRpcResponse { result: None, error: None }))) == Err::<
            Json,
            Seq<char>,
        >("no result in response"@),
        forward_verdict(Reply::Body(Ok(JsonRpcResponse { result: None, error: None }))) == Err::<
            ForwardResult,
            Seq<char>,
        >("no result in response"@),
        call_verdict(Reply::Body(Ok(JsonRpcResponse { result, error: Some(body) }))) == Err::<
            Json,
            Seq<char>,
        >("rpc error "@ + signed_decimal(body.code as int) + " "@ + body.message@),
{
}

/// A reply is put on record where it belongs: the endpoint that was asked counts
/// it with its latency and time, no other endpoint's health changes, and a
/// failure is noted for the caller under the endpoint's URL, behind those that
/// came before. Metrics hear of it first, under the endpoint's label or URL.
pub proof fn law_reply_is_put_on_record(
    pool: PoolState,
    call: DispatchState,
    failure: Option<Seq<char>>,
    latency: Duration,
    now: Instant,
    k: int,
)
    requires
        pool.wf(),
        call.fits(pool.entries.len()),
        call.pending is Some,
        0 <= k < pool.entries.len(),
    ensures
        ({
            let asked = (call.pending->0).0;
            let endpoint = pool.entries[asked].endpoint;
            let tag = match endpoint.label {
                Some(label) => label,
                None => endpoint.url,
            };
            let end = reply_step(pool, call, failure, latency, now);
            &&& k != asked ==> end.pool.entries[k].health == pool.entries[k].health
            &&& k == asked ==> end.pool.entries[k].health == match failure {
                Some(words) => pool.entries[k].health.after_failure(words, latency, now),
                None => pool.entries[k].health.after_success(latency, now),
            }
            &&& failure is None ==> end.call.attempts == call.attempts
            &&& failure matches Some(words) ==> end.call.attempts == call.attempts.push(
                (endpoint.url, words),
            )
            &&& end.events.len() > 0
            &&& end.events[0] == match failure {
                Some(words) => MetricView::Failure {
                    tag,
                    method: call.method,
                    latency,
                    error: words,
                },
                None => MetricView::Success { tag, method: call.method, latency },
            }
            &&& failure is None ==> end.events.len() == 1 && end.call.pending is None
        }),
{
    let settled = settle(pool, call, failure, latency, now);
    lemma_settle_keeps_sound(pool, call, failure, latency, now);
    if failure is Some {
        lemma_walk_frame(settled.pool, settled.call, now);
        let end = walk(settled.pool, settled.call, now);
        assert(only_load_differs(settled.pool.entries[k], end.pool.entries[k]));
    }
}

/// How a call ends that no endpoint answered. With no endpoint asked, it says
/// how many were looked at and why each was passed over; otherwise it lists
/// every endpoint that was asked with what it failed with, in order.
pub proof fn law_failed_call_says_why(call: DispatchState, error: RpcError)
    requires
        ends_with(call, error),
    ensures
        call.attempts.len() == 0 ==> {
            &&& error matches RpcError::NoCandidates { method, reason }
            &&& method@ == call.method
            &&& reason@ == "considered="@ + decimal(call.considered) + " incapable="@ + decimal(
                call.incapable,
            ) + " in_cooldown="@ + decimal(call.in_cooldown) + " rate_limited="@ + decimal(
                call.rate_limited,
            )
        },
        call.attempts.len() > 0 ==> {
            &&& error matches RpcError::AllFailed { method, count, attempts }
            &&& method@ == call.method
            &&& count == call.attempts.len()
            &&& attempts@.len() == call.attempts.len()
            &&& forall|i: int|
                0 <= i < attempts@.len() ==> (#[trigger] attempts@[i]).0@ == call.attempts[i].0
                    && attempts@[i].1@ == call.attempts[i].1
        },
{
    if let RpcError::AllFailed { attempts, .. } = error {
        if call.attempts.len() > 0 {
            assert(pairs_view(attempts@).len() == attempts@.len());
            assert forall|i: int| 0 <= i < attempts@.len() implies (
            #[trigger] attempts@[i]).0@ == call.attempts[i].0 && attempts@[i].1@
                == call.attempts[i].1 by {
                assert(pairs_view(attempts@)[i] == call.attempts[i]);
            }
        }
    }
}

/// A call begins with nothing looked at, nothing tried and nothing in flight,
/// at its own time and in the order it was given.
pub proof fn law_call_begins_clean(
    method: Seq<char>,
    capability: CapabilityView,
    now: Instant,
    order: Seq<int>,
)
    ensures
        ({
            let call = DispatchState::begun(method, capability, now, order);
            &&& call.method == method
            &&& call.capability == capability
            &&& call.started == now
            &&& call.order == order
            &&& call.considered == 0
            &&& call.incapable == 0
            &&& call.in_cooldown == 0
            &&& call.rate_limited == 0
            &&& call.attempts.len() == 0
            &&& call.pending is None
        }),
{
}

/// The entry at `i` serves the call's method: it declares nothing, or this.
pub open spec fn capable(pool: PoolState, call: DispatchState, i: int) -> bool {
    let declared = pool.entries[i].endpoint.capabilities;
    declared.len() == 0 || declared.contains(call.capability)
}

/// The entry at `i` serves the method and is not cooling down.
pub open spec fn ready_to_ask(pool: PoolState, call: DispatchState, i: int) -> bool {
    capable(pool, call, i) && pool.entries[i].health.available_at(call.started)
}

/// The throttle of the entry at `i` lets a request through at `now`.
pub open spec fn throttle_open(pool: PoolState, i: int, now: Instant) -> bool {
    pool.entries[i].limiter matches Some(limiter) ==> limiter.grants(now)
}

/// How many entries from position `from` up to `to` of an order pass a test.
pub open spec fn how_many(order: Seq<int>, from: int, to: int, test: spec_fn(int) -> bool) -> nat
    decreases to - from,
{
    if from >= to {
        0
    } else {
        how_many(order, from + 1, to, test) + if test(order[from]) {
            1nat
        } else {
            0nat
        }
    }
}

proof fn lemma_how_many_alike(
    order: Seq<int>,
    from: int,
    to: int,
    one: spec_fn(int) -> bool,
    other: spec_fn(int) -> bool,
)
    requires
        forall|p: int| from <= p < to ==> one(#[trigger] order[p]) == other(order[p]),
    ensures
        how_many(order, from, to, one) == how_many(order, from, to, other),
    decreases to - from,
{
    if from < to {
        lemma_how_many_alike(order, from + 1, to, one, other);
        assert(one(order[from]) == other(order[from]));
    }
}

/// Every endpoint that is passed over is counted under its own cause: as
/// incapable if it does not serve the method, else as cooling down if it is,
/// and else as throttled.
pub proof fn law_passed_over_is_counted_by_cause(
    pool: PoolState,
    call: DispatchState,
    now: Instant,
)
    requires
        pool.wf(),
        call.fits(pool.entries.len()),
        call.pending is None,
    ensures
        ({
            let end = walk(pool, call, now).call;
            let from = call.considered as int;
            let to = end.considered as int;
            &&& end.incapable == call.incapable + how_many(
                call.order,
                from,
                to,
                |i: int| !capable(pool, call, i),
            )
            &&& end.in_cooldown == call.in_cooldown + how_many(
                call.order,
                from,
                to,
                |i: int| capable(pool, call, i) && !ready_to_ask(pool, call, i),
            )
            &&& end.rate_limited == call.rate_limited + how_many(
                call.order,
                from,
                to,
                |i: int| ready_to_ask(pool, call, i) && !throttle_open(pool, i, now),
            )
        }),
    decreases call.order.len() - call.considered,
{
    if !call.exhausted() {
        lemma_look_keeps_sound(pool, call, now);
        let pool2 = pool_after_look(pool, call, now);
        let call2 = call_after_look(pool, call, now);
        let from = call.considered as int;
        let first = call.order[from];
        let end = match fate(pool, call, now) {
            Fate::OverBudget | Fate::Chosen => call2,
            _ => {
                law_passed_over_is_counted_by_cause(pool2, call2, now);
                lemma_walk_frame(pool2, call2, now);
                walk(pool2, call2, now).call
            },
        };
        let to = end.considered as int;
        assert forall|p: int| from + 1 <= p < to implies pool2.entries[#[trigger] call.order[p]]
            == pool.entries[call.order[p]] by {
            assert(call.order[p] != first);
        }
        lemma_how_many_alike(
            call.order,
            from + 1,
            to,
            |i: int| !capable(pool, call, i),
            |i: int| !capable(pool2, call2, i),
        );
        lemma_how_many_alike(
            call.order,
            from + 1,
            to,
            |i: int| capable(pool, call, i) && !ready_to_ask(pool, call, i),
            |i: int| capable(pool2, call2, i) && !ready_to_ask(pool2, call2, i),
        );
        lemma_how_many_alike(
            call.order,
            from + 1,
            to,
            |i: int| ready_to_ask(pool, call, i) && !throttle_open(pool, i, now),
            |i: int| ready_to_ask(pool2, call2, i) && !throttle_open(pool2, i, now),
        );
    }
}

/// Metrics hear of every endpoint that is passed over as incapable or cooling
/// down, of the request that is sent, last, and of nothing else.
pub proof fn law_metrics_hear_of_every_look(pool: PoolState, call: DispatchState, now: Instant)
    requires
        pool.wf(),
        call.fits(pool.entries.len()),
        call.pending is None,
    ensures
        ({
            let end = walk(pool, call, now);
            &&& end.events.len() == (end.call.incapable - call.incapable) + (end.call.in_cooldown
                - call.in_cooldown) + if end.call.pending is Some {
                1int
            } else {
                0int
            }
            &&& end.call.pending matches Some((i, _)) ==> end.events.last() == (
            MetricView::Request { tag: pool.entries[i].endpoint.tag(), method: call.method })
            &&& forall|p: int|
                call.considered <= p < end.call.considered && !capable(
                    pool,
                    call,
                    #[trigger] call.order[p],
                ) ==> end.events.contains(
                    MetricView::SkippedIncapable {
                        tag: pool.entries[call.order[p]].endpoint.tag(),
                        method: call.method,
                    },
                )
            &&& forall|p: int|
                call.considered <= p < end.call.considered && capable(
                    pool,
                    call,
                    #[trigger] call.order[p],
                ) && !ready_to_ask(pool, call, call.order[p]) ==> end.events.contains(
                    MetricView::SkippedCooldown {
                        tag: pool.entries[call.order[p]].endpoint.tag(),
                        method: call.method,
                    },
                )
        }),
    decreases call.order.len() - call.considered,
{
    if !call.exhausted() {
        lemma_look_keeps_sound(pool, call, now);
        let pool2 = pool_after_look(pool, call, now);
        let call2 = call_after_look(pool, call, now);
        let seen = look_events(pool, call, now);
        let end = walk(pool, call, now);
        let first = call.order[call.considered as int];
        lemma_walk_frame(pool, call, now);
        if seen.len() > 0 {
            assert(end.events[0] == seen[0]);
            assert(end.events.contains(seen[0]));
        }
        match fate(pool, call, now) {
            Fate::OverBudget | Fate::Chosen => {},
            _ => {
                law_metrics_hear_of_every_look(pool2, call2, now);
                law_passed_over_is_counted_by_cause(pool2, call2, now);
                let rest = walk(pool2, call2, now);
                assert forall|e: MetricView| #[trigger]
                    rest.events.contains(e) implies end.events.contains(e) by {
                    let at = choose|at: int| 0 <= at < rest.events.len() && rest.events[at] == e;
                    assert(end.events[seen.len() + at] == e);
                }
                assert forall|p: int|
                    call.considered + 1 <= p < end.call.considered implies pool2.entries[
                    #[trigger] call.order[p]] == pool.entries[call.order[p]] by {
                    assert(call.order[p] != first);
                }
                if let Some((i, _)) = end.call.pending {
                    assert(0 <= i < pool.entries.len());
                    assert(pool2.entries[i].endpoint == pool.entries[i].endpoint);
                    assert(rest.events.len() > 0);
                    assert(end.events.last() == rest.events.last());
                }
                assert forall|p: int|
                    call.considered <= p < end.call.considered && !capable(
                        pool,
                        call,
                        #[trigger] call.order[p],
                    ) implies end.events.contains(
                    MetricView::SkippedIncapable {
                        tag: pool.entries[call.order[p]].endpoint.tag(),
                        method: call.method,
                    },
                ) by {
                    if p > call.considered {
                        assert(pool2.entries[call.order[p]] == pool.entries[call.order[p]]);
                        assert(!capable(pool2, call2, call2.order[p]));
                    }
                }
                assert forall|p: int|
                    call.considered <= p < end.call.considered && capable(
                        pool,
                        call,
                        #[trigger] call.order[p],
                    ) && !ready_to_ask(pool, call, call.order[p]) implies end.events.contains(
                    MetricView::SkippedCooldown {
                        tag: pool.entries[call.order[p]].endpoint.tag(),
                        method: call.method,
                    },
                ) by {
                    if p > call.considered {
                        assert(pool2.entries[call.order[p]] == pool.entries[call.order[p]]);
                        assert(capable(pool2, call2, call2.order[p]));
                        assert(!ready_to_ask(pool2, call2, call2.order[p]));
                    }
                }
            },
        }
    }
}

/// A token is asked for exactly at the endpoints that serve the method and are
/// not cooling down, as far as the walk goes; every other throttle is left
/// alone.
pub proof fn law_tokens_are_asked_for_where_due(
    pool: PoolState,
    call: DispatchState,
    now: Instant,
    p: int,
)
    requires
        pool.wf(),
        call.fits(pool.entries.len()),
        call.pending is None,
        0 <= p < call.order.len(),
    ensures
        ({
            let end = walk(pool, call, now);
            let i = call.order[p];
            end.pool.entries[i].limiter == match pool.entries[i].limiter {
                Some(limiter) => if call.considered <= p < end.call.considered && ready_to_ask(
                    pool,
                    call,
                    i,
                ) {
                    Some(limiter.after_try(now))
                } else {
                    Some(limiter)
                },
                None => None,
            }
        }),
    decreases call.order.len() - call.considered,
{
    lemma_walk_frame(pool, call, now);
    if !call.exhausted() {
        lemma_look_keeps_sound(pool, call, now);
        let pool2 = pool_after_look(pool, call, now);
        let call2 = call_after_look(pool, call, now);
        let first = call.order[call.considered as int];
        let i = call.order[p];
        if p != call.considered {
            assert(i != first);
            assert(pool2.entries[i] == pool.entries[i]);
        }
        match fate(pool, call, now) {
            Fate::OverBudget | Fate::Chosen => {},
            _ => {
                law_tokens_are_asked_for_where_due(pool2, call2, now, p);
                lemma_walk_frame(pool2, call2, now);
            },
        }
    }
}

/// Dispatch order in plain numbers, for any two endpoints of a pool: one at its
/// cap yields to one below; then the lower priority value goes first, then the
/// one with fewer requests in flight, then the better rank.
pub proof fn law_dispatch_order_in_numbers(pool: PoolState, a: int, b: int)
    requires
        a != b,
    ensures
        ({
            let x = pool.entries[a];
            let y = pool.entries[b];
            let x_full = x.endpoint.max_in_flight matches Some(cap) && x.in_flight >= cap;
            let y_full = y.endpoint.max_in_flight matches Some(cap) && y.in_flight >= cap;
            &&& pool.before(a, b) <==> !pool.before(b, a)
            &&& !x_full && y_full ==> pool.before(a, b)
            &&& x_full == y_full && x.endpoint.priority < y.endpoint.priority ==> pool.before(a, b)
            &&& x_full == y_full && x.endpoint.priority == y.endpoint.priority && x.in_flight
                < y.in_flight ==> pool.before(a, b)
            &&& x_full == y_full && x.endpoint.priority == y.endpoint.priority && x.in_flight
                == y.in_flight && a < b ==> pool.before(a, b)
        }),
{
}

} // verus!
