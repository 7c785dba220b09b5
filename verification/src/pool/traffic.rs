//! What holds of a pool over any number of calls, one after another or
//! interleaved.

use vstd::prelude::*;

use crate::config::{
    capability_of, endpoints_view, pairs_view, EndpointView, RpcEndpoint, RpcPoolConfig,
};
use crate::error::RpcError;
use crate::health::BackoffPolicy;
use crate::pool::dispatch::{answers, failure_of, progress_of, Attempt, Event, Step};
use crate::pool::laws::{
    failures, law_each_reply_counts_once, law_requests_are_numbered_in_turn,
    law_requests_go_to_usable_endpoints, law_skipping_leaves_health_alone,
    lemma_same_health_same_sums, lemma_walk_frame, lemma_walk_load, only_load_differs, successes,
};
use crate::pool::rank::{by_priority, law_ranking_is_a_stable_sort};
use crate::pool::rate_limit::LimiterState;
use crate::pool::state::{
    given_up, lemma_given_up_keeps_sound, lemma_settle_keeps_sound, lemma_walk_keeps_sound,
    reply_step, settle, walk, DispatchState, EntryState, PoolState, Progress,
};
use crate::pool::{pool_of, PoolEntryStatus, RpcPool};
use crate::time::{Duration, Instant};

verus! {

/// How far a call has come.
pub enum Phase {
    /// Begun, and nothing asked yet.
    Begun,
    /// A request is in flight.
    Waiting,
    /// An endpoint answered.
    Answered,
    /// No endpoint answered.
    Failed,
    /// Given up before its end.
    GivenUp,
}

/// A call that the pool has been asked to make.
pub struct Call {
    pub state: DispatchState,
    pub phase: Phase,
}

/// A request that was sent.
pub struct Post {
    pub entry: int,
    pub url: Seq<char>,
    pub headers: Seq<(Seq<char>, Seq<char>)>,
    pub id: u64,
    pub method: Seq<char>,
}

/// A pool, all calls made of it so far, and all requests sent for them.
pub struct Traffic {
    pub pool: PoolState,
    pub calls: Seq<Call>,
    pub posts: Seq<Post>,
}

/// Something done with a pool. Calls go by the order in which they began.
pub enum Action {
    Begin { method: Seq<char>, now: Instant, order: Seq<int> },
    Start { call: int, now: Instant },
    Reply { call: int, failure: Option<Seq<char>>, latency: Duration, now: Instant },
    Abandon { call: int },
}

/// The request that a step asks for, if any.
pub open spec fn post_of(progress: Progress) -> Seq<Post> {
    match progress.call.pending {
        Some((i, id)) => seq![
            Post {
                entry: i,
                url: progress.pool.entries[i].endpoint.url,
                headers: progress.pool.entries[i].headers,
                id,
                method: progress.call.method,
            },
        ],
        None => seq![],
    }
}

/// Where a walk leaves its call.
pub open spec fn phase_after_walk(call: DispatchState) -> Phase {
    if call.pending is Some {
        Phase::Waiting
    } else {
        Phase::Failed
    }
}

impl Traffic {
    /// A pool that no call was made of yet.
    pub open spec fn quiet(pool: PoolState) -> Self {
        Traffic { pool, calls: seq![], posts: seq![] }
    }

    /// The traffic after a step of one of its calls.
    pub open spec fn moved(self, call: int, progress: Progress, phase: Phase) -> Self {
        Traffic {
            pool: progress.pool,
            calls: self.calls.update(call, Call { state: progress.call, phase }),
            posts: self.posts + post_of(progress),
        }
    }

    /// Pool and calls are sound, and exactly the calls that wait have a request
    /// in flight.
    pub open spec fn wf(self) -> bool {
        &&& self.pool.wf()
        &&& forall|c: int|
            0 <= c < self.calls.len() ==> (#[trigger] self.calls[c]).state.fits(
                self.pool.entries.len(),
            ) && (self.calls[c].state.pending is Some <==> self.calls[c].phase is Waiting)
    }

    /// `action` can be done now: a call starts once, is replied to while it
    /// waits, and can be given up at any time.
    pub open spec fn enables(self, action: Action) -> bool {
        match action {
            Action::Begin { order, .. } => self.pool.is_dispatch_order(order),
            Action::Start { call, .. } => 0 <= call < self.calls.len()
                && self.calls[call].phase is Begun,
            Action::Reply { call, .. } => 0 <= call < self.calls.len()
                && self.calls[call].phase is Waiting,
            Action::Abandon { call } => 0 <= call < self.calls.len(),
        }
    }

    /// The traffic after `action`.
    pub open spec fn after(self, action: Action) -> Self {
        match action {
            Action::Begin { method, now, order } => Traffic {
                calls: self.calls.push(
                    Call {
                        state: DispatchState::begun(method, capability_of(method), now, order),
                        phase: Phase::Begun,
                    },
                ),
                ..self
            },
            Action::Start { call, now } => {
                let end = walk(self.pool, self.calls[call].state, now);
                self.moved(call, end, phase_after_walk(end.call))
            },
            Action::Reply { call, failure, latency, now } => {
                let end = reply_step(self.pool, self.calls[call].state, failure, latency, now);
                let phase = if failure is None {
                    Phase::Answered
                } else {
                    phase_after_walk(end.call)
                };
                self.moved(call, end, phase)
            },
            Action::Abandon { call } => {
                let given = self.calls[call];
                let phase = match given.phase {
                    Phase::Begun | Phase::Waiting => Phase::GivenUp,
                    done => done,
                };
                Traffic {
                    pool: given_up(self.pool, given.state),
                    calls: self.calls.update(
                        call,
                        Call { state: DispatchState { pending: None, ..given.state }, phase },
                    ),
                    ..self
                }
            },
        }
    }
}

/// The traffic of a pool after `actions`, in any order that calls allow.
pub open spec fn traffic(start: PoolState, actions: Seq<Action>) -> Traffic
    decreases actions.len(),
{
    if actions.len() == 0 {
        Traffic::quiet(start)
    } else {
        traffic(start, actions.drop_last()).after(actions.last())
    }
}

/// Each of `actions` can be done when its turn comes.
pub open spec fn possible(start: PoolState, actions: Seq<Action>) -> bool
    decreases actions.len(),
{
    actions.len() == 0 || {
        &&& possible(start, actions.drop_last())
        &&& traffic(start, actions.drop_last()).enables(actions.last())
    }
}

/// The action that a step of `call` or `forward` is, when a reply means
/// `verdict`.
pub open spec fn action_of<T>(
    call: int,
    event: Event,
    verdict: Option<Result<T, Seq<char>>>,
    now: Instant,
) -> Action {
    match event {
        Event::Start => Action::Start { call, now },
        Event::Reply { latency, .. } => Action::Reply {
            call,
            failure: failure_of(verdict->0),
            latency,
            now,
        },
    }
}

/// `attempt` is the request `post`.
pub open spec fn is_post(attempt: Attempt, post: Post) -> bool {
    &&& attempt.url@ == post.url
    &&& pairs_view(attempt.headers@) == post.headers
    &&& attempt.id == post.id
    &&& attempt.method@ == post.method
}

/// The steps of `call` and `forward` are the actions of traffic: a step that
/// asks for a request leaves its call waiting and sends that request, one that
/// returns `Ok` leaves it answered, and one that returns an error leaves it
/// failed.
pub proof fn law_steps_are_actions<T>(
    before: Traffic,
    call: int,
    event: Event,
    verdict: Option<Result<T, Seq<char>>>,
    now: Instant,
    step: Step<T>,
)
    requires
        before.wf(),
        verdict is Some <==> event is Reply,
        before.enables(action_of(call, event, verdict, now)),
        answers(
            step,
            verdict,
            progress_of(before.pool, before.calls[call].state, event, verdict, now),
        ),
    ensures
        ({
            let end = progress_of(before.pool, before.calls[call].state, event, verdict, now);
            let after = before.after(action_of(call, event, verdict, now));
            &&& after.pool == end.pool
            &&& after.calls[call].state == end.call
            &&& match step {
                Step::Send(attempt) => {
                    &&& after.calls[call].phase is Waiting
                    &&& after.posts.drop_last() == before.posts
                    &&& is_post(attempt, after.posts.last())
                },
                Step::Done(Ok(_)) => after.calls[call].phase is Answered && after.posts
                    == before.posts,
                Step::Done(Err(_)) => after.calls[call].phase is Failed && after.posts
                    == before.posts,
            }
        }),
{
    let end = progress_of(before.pool, before.calls[call].state, event, verdict, now);
    let after = before.after(action_of(call, event, verdict, now));
    assert(before.posts + seq![] =~= before.posts);
    if let Step::Send(_) = step {
        assert(end.call.pending is Some);
        assert(after.posts.drop_last() =~= before.posts);
    } else {
        assert(end.call.pending is None);
        assert(after.posts =~= before.posts);
    }
}

/// An action keeps traffic sound and endpoints as they are.
proof fn lemma_action_keeps_sound(before: Traffic, action: Action)
    requires
        before.wf(),
        before.enables(action),
    ensures
        before.after(action).wf(),
        before.after(action).pool.entries.len() == before.pool.entries.len(),
        forall|k: int|
            0 <= k < before.pool.entries.len() ==> (#[trigger] before.after(
                action,
            ).pool.entries[k]).endpoint == before.pool.entries[k].endpoint,
{
    let after = before.after(action);
    let n = before.pool.entries.len();
    match action {
        Action::Begin { .. } => {
            assert forall|c: int| 0 <= c < after.calls.len() implies (
            #[trigger] after.calls[c]).state.fits(n) && (after.calls[c].state.pending is Some
                <==> after.calls[c].phase is Waiting) by {
                if c < before.calls.len() {
                    assert(after.calls[c] == before.calls[c]);
                }
            }
        },
        Action::Start { call, now } => {
            let state = before.calls[call].state;
            assert(state.fits(n));
            lemma_walk_keeps_sound(before.pool, state, now);
            lemma_walk_frame(before.pool, state, now);
            assert forall|k: int| 0 <= k < n implies (#[trigger] after.pool.entries[k]).endpoint
                == before.pool.entries[k].endpoint by {
                assert(only_load_differs(before.pool.entries[k], after.pool.entries[k]));
            }
            lemma_one_call_moved(before, after, call);
        },
        Action::Reply { call, failure, latency, now } => {
            let state = before.calls[call].state;
            assert(state.fits(n));
            let settled = settle(before.pool, state, failure, latency, now);
            lemma_settle_keeps_sound(before.pool, state, failure, latency, now);
            if failure is Some {
                lemma_walk_keeps_sound(settled.pool, settled.call, now);
                lemma_walk_frame(settled.pool, settled.call, now);
            }
            assert forall|k: int| 0 <= k < n implies (#[trigger] after.pool.entries[k]).endpoint
                == before.pool.entries[k].endpoint by {
                assert(settled.pool.entries[k].endpoint == before.pool.entries[k].endpoint);
                if failure is Some {
                    assert(only_load_differs(settled.pool.entries[k], after.pool.entries[k]));
                }
            }
            lemma_one_call_moved(before, after, call);
        },
        Action::Abandon { call } => {
            assert(before.calls[call].state.fits(n));
            lemma_given_up_keeps_sound(before.pool, before.calls[call].state);
            lemma_one_call_moved(before, after, call);
        },
    }
}

/// Calls stay sound when one of them moves and is sound.
proof fn lemma_one_call_moved(before: Traffic, after: Traffic, call: int)
    requires
        before.wf(),
        0 <= call < before.calls.len(),
        after.pool.wf(),
        after.pool.entries.len() == before.pool.entries.len(),
        after.calls == before.calls.update(call, after.calls[call]),
        after.calls[call].state.fits(before.pool.entries.len()),
        after.calls[call].state.pending is Some <==> after.calls[call].phase is Waiting,
    ensures
        after.wf(),
{
    assert forall|c: int| 0 <= c < after.calls.len() implies (
    #[trigger] after.calls[c]).state.fits(after.pool.entries.len()) && (
    after.calls[c].state.pending is Some <==> after.calls[c].phase is Waiting) by {
        if c != call {
            assert(after.calls[c] == before.calls[c]);
        }
    }
}

/// Whatever is done, traffic stays sound, and every endpoint stays what it was.
pub proof fn law_traffic_stays_sound(start: PoolState, actions: Seq<Action>)
    requires
        start.wf(),
        possible(start, actions),
    ensures
        traffic(start, actions).wf(),
        traffic(start, actions).pool.entries.len() == start.entries.len(),
        forall|k: int|
            0 <= k < start.entries.len() ==> (#[trigger] traffic(
                start,
                actions,
            ).pool.entries[k]).endpoint == start.entries[k].endpoint,
    decreases actions.len(),
{
    if actions.len() > 0 {
        let before = traffic(start, actions.drop_last());
        law_traffic_stays_sound(start, actions.drop_last());
        lemma_action_keeps_sound(before, actions.last());
        assert forall|k: int| 0 <= k < start.entries.len() implies (#[trigger] traffic(
            start,
            actions,
        ).pool.entries[k]).endpoint == start.entries[k].endpoint by {
            assert(before.pool.entries[k].endpoint == start.entries[k].endpoint);
        }
    }
}

/// What an action sends: nothing, or one request with the pool's next number.
proof fn lemma_action_posts(before: Traffic, action: Action)
    requires
        before.wf(),
        before.enables(action),
    ensures
        ({
            let after = before.after(action);
            ||| after.posts == before.posts && after.pool.request_id == before.pool.request_id
            ||| {
                &&& after.posts.len() == before.posts.len() + 1
                &&& after.posts.drop_last() == before.posts
                &&& after.posts.last().id == before.pool.request_id
                &&& after.pool.request_id == if before.pool.request_id < u64::MAX {
                    before.pool.request_id + 1
                } else {
                    0
                }
                &&& 0 <= after.posts.last().entry < before.pool.entries.len()
                &&& after.posts.last().url
                    == before.pool.entries[after.posts.last().entry].endpoint.url
                &&& after.posts.last().headers
                    == before.pool.entries[after.posts.last().entry].endpoint.auth.headers()
            }
        }),
{
    let after = before.after(action);
    let n = before.pool.entries.len();
    lemma_action_keeps_sound(before, action);
    assert(before.posts + seq![] =~= before.posts);
    match action {
        Action::Begin { .. } | Action::Abandon { .. } => {},
        Action::Start { call, now } => {
            let state = before.calls[call].state;
            assert(state.fits(n));
            law_requests_are_numbered_in_turn(before.pool, state, now);
            law_requests_go_to_usable_endpoints(before.pool, state, now);
            if let Some((i, _)) = walk(before.pool, state, now).call.pending {
                assert(after.pool.entries[i].wf());
                assert(after.pool.entries[i].endpoint == before.pool.entries[i].endpoint);
                assert(after.posts.drop_last() =~= before.posts);
            }
        },
        Action::Reply { call, failure, latency, now } => {
            let state = before.calls[call].state;
            assert(state.fits(n));
            let settled = settle(before.pool, state, failure, latency, now);
            lemma_settle_keeps_sound(before.pool, state, failure, latency, now);
            if failure is Some {
                law_requests_are_numbered_in_turn(settled.pool, settled.call, now);
                law_requests_go_to_usable_endpoints(settled.pool, settled.call, now);
                if let Some((i, _)) = walk(settled.pool, settled.call, now).call.pending {
                    assert(after.pool.entries[i].wf());
                    assert(after.pool.entries[i].endpoint == before.pool.entries[i].endpoint);
                    assert(after.posts.drop_last() =~= before.posts);
                }
            }
        },
    }
}

/// Requests are numbered without a gap over all calls, as far as 64 bits reach,
/// so that no two share a number; and each goes to an endpoint's URL with the
/// headers of that endpoint's authentication.
pub proof fn law_no_two_requests_share_a_number(start: PoolState, actions: Seq<Action>)
    requires
        start.wf(),
        possible(start, actions),
        start.request_id + traffic(start, actions).posts.len() <= u64::MAX,
    ensures
        ({
            let end = traffic(start, actions);
            &&& end.pool.request_id == start.request_id + end.posts.len()
            &&& forall|k: int|
                0 <= k < end.posts.len() ==> (#[trigger] end.posts[k]).id == start.request_id + k
            &&& forall|j: int, k: int|
                0 <= j < k < end.posts.len() ==> (#[trigger] end.posts[j]).id != (
                #[trigger] end.posts[k]).id
            &&& forall|k: int|
                0 <= k < end.posts.len() ==> {
                    let post = #[trigger] end.posts[k];
                    &&& 0 <= post.entry < start.entries.len()
                    &&& post.url == start.entries[post.entry].endpoint.url
                    &&& post.headers == start.entries[post.entry].endpoint.auth.headers()
                }
        }),
    decreases actions.len(),
{
    if actions.len() > 0 {
        let before = traffic(start, actions.drop_last());
        let end = traffic(start, actions);
        law_traffic_stays_sound(start, actions.drop_last());
        lemma_action_posts(before, actions.last());
        law_no_two_requests_share_a_number(start, actions.drop_last());
        if end.posts != before.posts {
            assert forall|k: int| 0 <= k < end.posts.len() implies {
                let post = #[trigger] end.posts[k];
                &&& post.id == start.request_id + k
                &&& 0 <= post.entry < start.entries.len()
                &&& post.url == start.entries[post.entry].endpoint.url
                &&& post.headers == start.entries[post.entry].endpoint.auth.headers()
            } by {
                if k < before.posts.len() {
                    assert(end.posts.drop_last()[k] == before.posts[k]);
                } else {
                    let post = end.posts.last();
                    assert(before.pool.entries[post.entry].endpoint
                        == start.entries[post.entry].endpoint);
                }
            }
        }
    }
}

/// The sum of `measure` over calls.
pub open spec fn total(calls: Seq<Call>, measure: spec_fn(Call) -> nat) -> nat
    decreases calls.len(),
{
    if calls.len() == 0 {
        0
    } else {
        total(calls.drop_last(), measure) + measure(calls.last())
    }
}

proof fn lemma_total_update(
    calls: Seq<Call>,
    c: int,
    call: Call,
    measure: spec_fn(Call) -> nat,
)
    requires
        0 <= c < calls.len(),
    ensures
        total(calls.update(c, call), measure) == total(calls, measure) - measure(calls[c])
            + measure(call),
        total(calls, measure) >= measure(calls[c]),
    decreases calls.len(),
{
    let updated = calls.update(c, call);
    if c == calls.len() - 1 {
        assert(updated.drop_last() =~= calls.drop_last());
    } else {
        lemma_total_update(calls.drop_last(), c, call, measure);
        assert(updated.drop_last() =~= calls.drop_last().update(c, call));
        assert(updated.last() == calls.last());
    }
}

proof fn lemma_total_push(calls: Seq<Call>, call: Call, measure: spec_fn(Call) -> nat)
    ensures
        total(calls.push(call), measure) == total(calls, measure) + measure(call),
{
    assert(calls.push(call).drop_last() =~= calls);
}

/// One for a call that was answered.
pub open spec fn one_if_answered() -> spec_fn(Call) -> nat {
    |c: Call|
        if c.phase is Answered {
            1nat
        } else {
            0nat
        }
}

/// One for each request of a call that failed.
pub open spec fn one_per_failure() -> spec_fn(Call) -> nat {
    |c: Call| c.state.attempts.len()
}

/// One for a call that awaits the entry `k`.
pub open spec fn one_if_awaits(k: int) -> spec_fn(Call) -> nat {
    |c: Call|
        if (c.state.pending matches Some((i, _)) && i == k) {
            1nat
        } else {
            0nat
        }
}

/// How many of the calls were answered.
pub open spec fn answered(calls: Seq<Call>) -> nat {
    total(calls, one_if_answered())
}

/// How many requests failed, over all calls.
pub open spec fn failed_requests(calls: Seq<Call>) -> nat {
    total(calls, one_per_failure())
}

/// How many of the calls await the entry `k`.
pub open spec fn awaiting(calls: Seq<Call>, k: int) -> nat {
    total(calls, one_if_awaits(k))
}

/// An action adds to the pool's counters what it adds to the calls.
proof fn lemma_action_counts(before: Traffic, action: Action)
    requires
        before.wf(),
        before.enables(action),
    ensures
        ({
            let after = before.after(action);
            &&& successes(after.pool.entries) - successes(before.pool.entries) == answered(
                after.calls,
            ) - answered(before.calls)
            &&& failures(after.pool.entries) - failures(before.pool.entries) == failed_requests(
                after.calls,
            ) - failed_requests(before.calls)
        }),
{
    let after = before.after(action);
    let n = before.pool.entries.len();
    let ok = one_if_answered();
    let bad = one_per_failure();
    match action {
        Action::Begin { .. } => {
            lemma_total_push(before.calls, after.calls.last(), ok);
            lemma_total_push(before.calls, after.calls.last(), bad);
        },
        Action::Start { call, now } => {
            let state = before.calls[call].state;
            assert(state.fits(n));
            law_skipping_leaves_health_alone(before.pool, state, now);
            lemma_same_health_same_sums(before.pool.entries, after.pool.entries);
            lemma_walk_frame(before.pool, state, now);
            lemma_total_update(before.calls, call, after.calls[call], ok);
            lemma_total_update(before.calls, call, after.calls[call], bad);
        },
        Action::Reply { call, failure, latency, now } => {
            let state = before.calls[call].state;
            assert(state.fits(n));
            law_each_reply_counts_once(before.pool, state, failure, latency, now);
            let settled = settle(before.pool, state, failure, latency, now);
            lemma_settle_keeps_sound(before.pool, state, failure, latency, now);
            if failure is Some {
                lemma_walk_frame(settled.pool, settled.call, now);
            }
            lemma_total_update(before.calls, call, after.calls[call], ok);
            lemma_total_update(before.calls, call, after.calls[call], bad);
        },
        Action::Abandon { call } => {
            lemma_same_health_same_sums(before.pool.entries, after.pool.entries);
            lemma_total_update(before.calls, call, after.calls[call], ok);
            lemma_total_update(before.calls, call, after.calls[call], bad);
        },
    }
}

/// Over any number of calls, however they interleave and wherever they stand,
/// the pool has counted one success for each call that was answered and one
/// failure for each request that failed.
pub proof fn law_totals_count_calls_and_failed_requests(start: PoolState, actions: Seq<Action>)
    requires
        start.wf(),
        possible(start, actions),
    ensures
        ({
            let end = traffic(start, actions);
            &&& successes(end.pool.entries) == successes(start.entries) + answered(end.calls)
            &&& failures(end.pool.entries) == failures(start.entries) + failed_requests(end.calls)
        }),
    decreases actions.len(),
{
    if actions.len() > 0 {
        law_traffic_stays_sound(start, actions.drop_last());
        law_totals_count_calls_and_failed_requests(start, actions.drop_last());
        lemma_action_counts(traffic(start, actions.drop_last()), actions.last());
    }
}

/// Every entry has as many requests in flight as calls await it.
pub open spec fn load_is_live(traffic: Traffic) -> bool {
    forall|k: int|
        0 <= k < traffic.pool.entries.len() ==> (#[trigger] traffic.pool.entries[k]).in_flight
            == awaiting(traffic.calls, k)
}

/// Live load is an invariant of every action, as long as no counter is at its
/// end.
pub proof fn law_every_action_keeps_load_live(before: Traffic, action: Action)
    requires
        before.wf(),
        before.enables(action),
        load_is_live(before),
        forall|k: int|
            0 <= k < before.pool.entries.len() ==> (#[trigger] before.pool.entries[k]).in_flight
                < u64::MAX,
    ensures
        load_is_live(before.after(action)),
{
    let after = before.after(action);
    let n = before.pool.entries.len();
    lemma_action_keeps_sound(before, action);
    assert forall|k: int| 0 <= k < n implies (#[trigger] after.pool.entries[k]).in_flight
        == awaiting(after.calls, k) by {
        let measure = one_if_awaits(k);
        assert(before.pool.entries[k].in_flight == awaiting(before.calls, k));
        assert(before.pool.entries[k].in_flight < u64::MAX);
        match action {
            Action::Begin { .. } => {
                lemma_total_push(before.calls, after.calls.last(), measure);
            },
            Action::Start { call, now } => {
                let state = before.calls[call].state;
                assert(state.fits(n));
                lemma_walk_load(before.pool, state, now);
                lemma_total_update(before.calls, call, after.calls[call], measure);
                assert(walk(before.pool, state, now).pool.entries[k] == after.pool.entries[k]);
            },
            Action::Reply { call, failure, latency, now } => {
                let state = before.calls[call].state;
                assert(state.fits(n));
                let settled = settle(before.pool, state, failure, latency, now);
                lemma_settle_keeps_sound(before.pool, state, failure, latency, now);
                lemma_total_update(before.calls, call, after.calls[call], measure);
                assert(measure(before.calls[call]) == if (state.pending->0).0 == k {
                    1nat
                } else {
                    0nat
                });
                if failure is Some {
                    lemma_walk_load(settled.pool, settled.call, now);
                    assert(walk(settled.pool, settled.call, now).pool.entries[k]
                        == after.pool.entries[k]);
                }
            },
            Action::Abandon { call } => {
                lemma_total_update(before.calls, call, after.calls[call], measure);
            },
        }
    }
}

/// No more calls await an entry than there are.
proof fn lemma_awaiting_at_most_all(calls: Seq<Call>, k: int)
    ensures
        awaiting(calls, k) <= calls.len(),
    decreases calls.len(),
{
    if calls.len() > 0 {
        lemma_awaiting_at_most_all(calls.drop_last(), k);
    }
}

/// Live load: over any number of calls, however they interleave, an endpoint's
/// load is the number of calls that await it.
pub proof fn law_load_is_the_calls_that_wait(start: PoolState, actions: Seq<Action>)
    requires
        start.wf(),
        possible(start, actions),
        forall|k: int|
            0 <= k < start.entries.len() ==> (#[trigger] start.entries[k]).in_flight == 0,
        traffic(start, actions).calls.len() < u64::MAX,
    ensures
        load_is_live(traffic(start, actions)),
    decreases actions.len(),
{
    if actions.len() > 0 {
        let before = traffic(start, actions.drop_last());
        law_traffic_stays_sound(start, actions.drop_last());
        law_load_is_the_calls_that_wait(start, actions.drop_last());
        assert forall|k: int| 0 <= k < before.pool.entries.len() implies (
        #[trigger] before.pool.entries[k]).in_flight < u64::MAX by {
            lemma_awaiting_at_most_all(before.calls, k);
        }
        law_every_action_keeps_load_live(before, actions.last());
    }
}

/// When every call is over, no endpoint has any load.
pub proof fn law_finished_calls_leave_no_load(start: PoolState, actions: Seq<Action>)
    requires
        start.wf(),
        possible(start, actions),
        forall|k: int|
            0 <= k < start.entries.len() ==> (#[trigger] start.entries[k]).in_flight == 0,
        traffic(start, actions).calls.len() < u64::MAX,
        forall|c: int|
            0 <= c < traffic(start, actions).calls.len() ==> !((#[trigger] traffic(
                start,
                actions,
            ).calls[c]).phase is Waiting),
    ensures
        forall|k: int|
            0 <= k < start.entries.len() ==> (#[trigger] traffic(
                start,
                actions,
            ).pool.entries[k]).in_flight == 0,
{
    let end = traffic(start, actions);
    law_traffic_stays_sound(start, actions);
    law_load_is_the_calls_that_wait(start, actions);
    assert forall|k: int| 0 <= k < start.entries.len() implies (
    #[trigger] end.pool.entries[k]).in_flight == 0 by {
        lemma_none_awaiting(end.calls, k);
    }
}

proof fn lemma_none_awaiting(calls: Seq<Call>, k: int)
    requires
        forall|c: int| 0 <= c < calls.len() ==> (#[trigger] calls[c]).state.pending is None,
    ensures
        awaiting(calls, k) == 0,
    decreases calls.len(),
{
    if calls.len() > 0 {
        let shorter = calls.drop_last();
        assert forall|c: int| 0 <= c < shorter.len() implies (
        #[trigger] shorter[c]).state.pending is None by {
            assert(shorter[c] == calls[c]);
        }
        lemma_none_awaiting(shorter, k);
        assert(calls[calls.len() - 1].state.pending is None);
    }
}

/// A new pool starts from nothing: its first request has number 1, nothing is
/// in flight, and nothing is counted.
pub proof fn law_new_pool_starts_from_nothing(
    endpoints: Seq<EndpointView>,
    max_retries: u32,
    backoff: BackoffPolicy,
    now: Instant,
)
    ensures
        ({
            let start = pool_of(endpoints, max_retries, backoff, now);
            &&& start.wf()
            &&& start.request_id == 1
            &&& forall|k: int|
                0 <= k < start.entries.len() ==> (#[trigger] start.entries[k]).in_flight == 0
            &&& successes(start.entries) == 0
            &&& failures(start.entries) == 0
        }),
{
    let start = pool_of(endpoints, max_retries, backoff, now);
    let ranked = by_priority(endpoints);
    law_ranking_is_a_stable_sort(endpoints);
    assert forall|k: int| 0 <= k < start.entries.len() implies #[trigger] start.entries[k]
        == EntryState::fresh(ranked[k], backoff, now) by {}
    lemma_fresh_sums(start.entries);
}

proof fn lemma_fresh_sums(entries: Seq<EntryState>)
    requires
        forall|k: int|
            0 <= k < entries.len() ==> (#[trigger] entries[k]).health.total_successes == 0
                && entries[k].health.total_failures == 0,
    ensures
        successes(entries) == 0,
        failures(entries) == 0,
    decreases entries.len(),
{
    if entries.len() > 0 {
        let shorter = entries.drop_last();
        assert forall|k: int| 0 <= k < shorter.len() implies (
        #[trigger] shorter[k]).health.total_successes == 0 && shorter[k].health.total_failures
            == 0 by {
            assert(shorter[k] == entries[k]);
        }
        lemma_fresh_sums(shorter);
        assert(entries[entries.len() - 1].health.total_successes == 0);
    }
}

/// The successes that a status snapshot reports.
pub open spec fn reported_successes(statuses: Seq<PoolEntryStatus>) -> nat
    decreases statuses.len(),
{
    if statuses.len() == 0 {
        0
    } else {
        reported_successes(statuses.drop_last()) + statuses.last().health.total_successes as nat
    }
}

/// The failures that a status snapshot reports.
pub open spec fn reported_failures(statuses: Seq<PoolEntryStatus>) -> nat
    decreases statuses.len(),
{
    if statuses.len() == 0 {
        0
    } else {
        reported_failures(statuses.drop_last()) + statuses.last().health.total_failures as nat
    }
}

proof fn lemma_status_sums(statuses: Seq<PoolEntryStatus>, entries: Seq<EntryState>, now: Instant)
    requires
        statuses.len() == entries.len(),
        forall|i: int|
            0 <= i < statuses.len() ==> (#[trigger] statuses[i]).describes(entries[i], now),
    ensures
        reported_successes(statuses) == successes(entries),
        reported_failures(statuses) == failures(entries),
    decreases statuses.len(),
{
    if statuses.len() > 0 {
        let s = statuses.drop_last();
        let e = entries.drop_last();
        assert forall|i: int| 0 <= i < s.len() implies (#[trigger] s[i]).describes(e[i], now) by {
            assert(statuses[i].describes(entries[i], now));
        }
        lemma_status_sums(s, e, now);
        assert(statuses[statuses.len() - 1].describes(entries[entries.len() - 1], now));
    }
}

/// What `status` reports of a pool after any number of calls: one line for each
/// endpoint, by rank, whose successes add up to the calls that were answered
/// and whose failures to the requests that failed.
pub proof fn law_status_adds_up(
    endpoints: Seq<EndpointView>,
    max_retries: u32,
    backoff: BackoffPolicy,
    made: Instant,
    actions: Seq<Action>,
    statuses: Seq<PoolEntryStatus>,
    now: Instant,
)
    requires
        possible(pool_of(endpoints, max_retries, backoff, made), actions),
        ({
            let end = traffic(pool_of(endpoints, max_retries, backoff, made), actions);
            &&& statuses.len() == end.pool.entries.len()
            &&& forall|i: int|
                0 <= i < statuses.len() ==> (#[trigger] statuses[i]).describes(
                    end.pool.entries[i],
                    now,
                )
        }),
    ensures
        ({
            let end = traffic(pool_of(endpoints, max_retries, backoff, made), actions);
            &&& reported_successes(statuses) == answered(end.calls)
            &&& reported_failures(statuses) == failed_requests(end.calls)
            &&& statuses.len() == endpoints.len()
            &&& forall|i: int|
                0 <= i < statuses.len() ==> (#[trigger] statuses[i]).endpoint@ == by_priority(
                    endpoints,
                )[i]
        }),
{
    let start = pool_of(endpoints, max_retries, backoff, made);
    let end = traffic(start, actions);
    law_new_pool_starts_from_nothing(endpoints, max_retries, backoff, made);
    law_ranking_is_a_stable_sort(endpoints);
    law_traffic_stays_sound(start, actions);
    law_totals_count_calls_and_failed_requests(start, actions);
    lemma_status_sums(statuses, end.pool.entries, now);
    assert forall|i: int| 0 <= i < statuses.len() implies (#[trigger] statuses[i]).endpoint@
        == by_priority(endpoints)[i] by {
        assert(statuses[i].describes(end.pool.entries[i], now));
        assert(end.pool.entries[i].endpoint == start.entries[i].endpoint);
    }
}

/// A new pool is made of its configuration: the ranked endpoints, each with the
/// headers of its own authentication, a full throttle for its own rate if it has
/// one, no record yet under the given backoff, and the configured budget.
pub proof fn law_new_pool_takes_its_configuration(
    endpoints: Seq<EndpointView>,
    max_retries: u32,
    backoff: BackoffPolicy,
    now: Instant,
    k: int,
)
    requires
        0 <= k < endpoints.len(),
    ensures
        ({
            let pool = pool_of(endpoints, max_retries, backoff, now);
            let entry = pool.entries[k];
            &&& pool.max_retries == max_retries
            &&& pool.request_id == 1
            &&& pool.entries.len() == endpoints.len()
            &&& entry.endpoint == by_priority(endpoints)[k]
            &&& entry.headers == entry.endpoint.auth.headers()
            &&& entry.endpoint.max_rps is None ==> entry.limiter is None
            &&& entry.endpoint.max_rps matches Some(rps) ==> (entry.limiter matches Some(limiter)
                && limiter == LimiterState::full(rps, now))
            &&& entry.health.policy == backoff
            &&& entry.health.total_requests == 0
            &&& entry.health.consecutive_failures == 0
            &&& entry.health.last_failure_at is None
            &&& entry.health.last_success_at is None
            &&& entry.health.last_error is None
            &&& entry.in_flight == 0
        }),
{
    law_ranking_is_a_stable_sort(endpoints);
}

/// A configuration that is accepted gives the pool that is made of it, and one
/// with a fault gives none.
pub proof fn law_only_sound_configurations_make_a_pool(
    config: RpcPoolConfig,
    backoff: BackoffPolicy,
    now: Instant,
    made: Result<RpcPool, RpcError>,
    k: int,
)
    requires
        call_ensures(RpcPool::new, (config, backoff, now), made),
    ensures
        made is Ok <==> config@.fault() is None,
        made matches Err(failure) ==> (failure matches RpcError::Config(words) && Some(words@)
            == config@.fault()),
        made matches Ok(pool) ==> {
            &&& pool@.max_retries == config.max_retries
            &&& pool@.entries.len() == config.endpoints@.len()
            &&& 0 <= k < config.endpoints@.len() ==> pool@.entries[k].endpoint == by_priority(
                config@.endpoints,
            )[k]
        },
{
    if made is Ok && 0 <= k < config.endpoints@.len() {
        law_new_pool_takes_its_configuration(
            config@.endpoints,
            config.max_retries,
            backoff,
            now,
            k,
        );
    }
    law_ranking_is_a_stable_sort(config@.endpoints);
}

/// The endpoints that a pool shows are those of its entries, by rank, and it is
/// empty when there are none.
pub proof fn law_pool_shows_its_endpoints(
    pool: &RpcPool,
    shown: Vec<RpcEndpoint>,
    count: usize,
    none: bool,
    k: int,
)
    requires
        call_ensures(RpcPool::endpoints, (pool,), shown),
        call_ensures(RpcPool::len, (pool,), count),
        call_ensures(RpcPool::is_empty, (pool,), none),
    ensures
        count == shown@.len() == pool@.entries.len(),
        none <==> shown@.len() == 0,
        0 <= k < shown@.len() ==> shown@[k]@ == pool@.entries[k].endpoint,
{
    let views = endpoints_view(shown@);
    assert(views.len() == shown@.len());
    if 0 <= k < shown@.len() {
        assert(views[k] == shown@[k]@);
    }
}

/// The snapshot of a pool shows every entry, by rank, each with its own endpoint
/// and health.
pub proof fn law_pool_status_shows_every_entry(
    pool: &RpcPool,
    now: Instant,
    shown: Vec<PoolEntryStatus>,
    k: int,
)
    requires
        call_ensures(RpcPool::status, (pool, now), shown),
    ensures
        shown@.len() == pool@.entries.len(),
        0 <= k < shown@.len() ==> {
            let status = shown@[k];
            let entry = pool@.entries[k];
            &&& status.endpoint@ == entry.endpoint
            &&& status.health.total_requests == entry.health.total_requests
            &&& status.health.total_successes == entry.health.total_successes
            &&& status.health.total_failures == entry.health.total_failures
            &&& status.health.consecutive_failures == entry.health.consecutive_failures
            &&& status.health.reports(entry.health, now)
        },
{
    if 0 <= k < shown@.len() {
        assert(shown@[k].describes(pool@.entries[k], now));
    }
}

} // verus!
