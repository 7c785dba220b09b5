//! Calls through the pool, step by step.

use vstd::prelude::*;
use vstd::utf8::encode_utf8;

use crate::config::{capability_of, clone_pairs, optional_text, pairs_view, RpcCapability};
use crate::error::RpcError;
use crate::json::Json;
use crate::metrics::{events_view, MetricEvent, MetricView};
use crate::pool::state::{
    call_after_look, fate, given_up, lemma_given_up_keeps_sound, lemma_look_keeps_sound,
    lemma_settle_keeps_sound, lemma_walk_keeps_sound, look_events, pool_after_look, reply_step, settle, walk, DispatchState,
    EntryState, Fate, PoolState, Progress,
};
use crate::pool::wire::{
    answer, classify_response, encode_request, parse_rpc_response, relayed, request_text,
    JsonRpcResponse, RawOutcome,
};
use crate::pool::{entries_view, ForwardResult, RpcPool};
use crate::text::push_decimal;
use crate::time::{Duration, Instant};

verus! {

/// A call under way.
pub struct Dispatch {
    method: String,
    capability: RpcCapability,
    started: Instant,
    order: Vec<usize>,
    considered: usize,
    incapable: usize,
    in_cooldown: usize,
    rate_limited: usize,
    attempts: Vec<(String, String)>,
    pending: Option<(usize, u64)>,
}

/// The entries in a list, by number.
pub open spec fn indices(order: Seq<usize>) -> Seq<int> {
    order.map_values(|i: usize| i as int)
}

impl View for Dispatch {
    type V = DispatchState;

    closed spec fn view(&self) -> DispatchState {
        DispatchState {
            method: self.method@,
            capability: self.capability@,
            started: self.started,
            order: indices(self.order@),
            considered: self.considered as nat,
            incapable: self.incapable as nat,
            in_cooldown: self.in_cooldown as nat,
            rate_limited: self.rate_limited as nat,
            attempts: pairs_view(self.attempts@),
            pending: match self.pending {
                Some((i, id)) => Some((i as int, id)),
                None => None,
            },
        }
    }
}

proof fn lemma_before_is_an_order(pool: PoolState)
    ensures
        forall|a: int| !#[trigger] pool.before(a, a),
        forall|a: int, b: int| a != b && !#[trigger] pool.before(a, b) ==> pool.before(b, a),
        forall|a: int, b: int, c: int|
            #[trigger] pool.before(a, b) && #[trigger] pool.before(b, c) ==> pool.before(a, c),
{
}

impl RpcPool {
    /// Whether entry `a` is to be tried before entry `b`.
    fn tried_before(&self, a: usize, b: usize) -> (r: bool)
        requires
            a < self@.entries.len(),
            b < self@.entries.len(),
        ensures
            r == self@.before(a as int, b as int),
    {
        let x = &self.entries[a];
        let y = &self.entries[b];
        assert(self@.entries[a as int] == x@);
        assert(self@.entries[b as int] == y@);
        let x_saturated = x.saturated();
        let y_saturated = y.saturated();
        if x_saturated != y_saturated {
            y_saturated
        } else if x.endpoint.priority != y.endpoint.priority {
            x.endpoint.priority < y.endpoint.priority
        } else if x.in_flight != y.in_flight {
            x.in_flight < y.in_flight
        } else {
            a < b
        }
    }

    /// The order in which a call that starts now tries the entries.
    fn dispatch_order(&self) -> (r: Vec<usize>)
        ensures
            self@.is_dispatch_order(indices(r@)),
    {
        let mut order: Vec<usize> = Vec::new();
        let mut i: usize = 0;
        proof {
            lemma_before_is_an_order(self@);
        }
        while i < self.entries.len()
            invariant
                i <= self.entries@.len(),
                self@.entries.len() == self.entries@.len(),
                order@.len() == i,
                forall|k: int| 0 <= k < i ==> 0 <= #[trigger] order@[k] < i,
                forall|k: usize| 0 <= k < i ==> #[trigger] order@.contains(k),
                forall|j: int, k: int|
                    0 <= j < k < i ==> self@.before(
                        #[trigger] order@[j] as int,
                        #[trigger] order@[k] as int,
                    ),
                forall|a: int| !#[trigger] self@.before(a, a),
                forall|a: int, b: int|
                    a != b && !#[trigger] self@.before(a, b) ==> self@.before(b, a),
                forall|a: int, b: int, c: int|
                    #[trigger] self@.before(a, b) && #[trigger] self@.before(b, c) ==> self@.before(
                        a,
                        c,
                    ),
            decreases self.entries.len() - i,
        {
            let mut pos: usize = 0;
            while pos < order.len() && self.tried_before(order[pos], i)
                invariant
                    pos <= order@.len(),
                    order@.len() == i < self@.entries.len(),
                    forall|k: int| 0 <= k < i ==> 0 <= #[trigger] order@[k] < i,
                    forall|k: int|
                        0 <= k < pos ==> self@.before(#[trigger] order@[k] as int, i as int),
                decreases order.len() - pos,
            {
                pos += 1;
            }
            let ghost shorter = order@;
            assert forall|k: int| pos <= k < shorter.len() implies self@.before(
                i as int,
                #[trigger] shorter[k] as int,
            ) by {
                assert(self@.before(i as int, shorter[pos as int] as int));
                if k > pos {
                    assert(self@.before(shorter[pos as int] as int, shorter[k] as int));
                }
            }
            order.insert(pos, i);
            assert forall|k: usize| 0 <= k < i + 1 implies #[trigger] order@.contains(k) by {
                if k == i {
                    assert(order@[pos as int] == i);
                } else {
                    assert(shorter.contains(k));
                    let at = choose|at: int| 0 <= at < shorter.len() && shorter[at] == k;
                    if at < pos {
                        assert(order@[at] == k);
                    } else {
                        assert(order@[at + 1] == k);
                    }
                }
            }
            i += 1;
        }
        proof {
            let listed = indices(order@);
            assert forall|e: int| 0 <= e < self@.entries.len() implies #[trigger] listed.contains(
                e,
            ) by {
                assert(order@.contains(e as usize));
                let at = choose|at: int| 0 <= at < order@.len() && order@[at] == e as usize;
                assert(listed[at] == e);
            }
            assert forall|j: int, k: int| 0 <= j < k < listed.len() implies self@.before(
                #[trigger] listed[j],
                #[trigger] listed[k],
            ) by {
                assert(self@.before(order@[j] as int, order@[k] as int));
            }
            assert forall|j: int, k: int|
                0 <= j < listed.len() && 0 <= k < listed.len() && j != k implies listed[j]
                != listed[k] by {
                if j < k {
                    assert(self@.before(listed[j], listed[k]));
                } else {
                    assert(self@.before(listed[k], listed[j]));
                }
            }
            assert(listed.no_duplicates());
        }
        order
    }

    /// Begin a call of `method` at `now`.
    pub fn begin(&self, method: &str, now: Instant) -> (r: Dispatch)
        ensures
            self@.is_dispatch_order(r@.order),
            r@ == DispatchState::begun(method@, capability_of(method@), now, r@.order),
            r@.fits(self@.entries.len()),
    {
        let order = self.dispatch_order();
        let call = Dispatch {
            method: method.to_owned(),
            capability: RpcCapability::for_method(method),
            started: now,
            order,
            considered: 0,
            incapable: 0,
            in_cooldown: 0,
            rate_limited: 0,
            attempts: Vec::new(),
            pending: None,
        };
        assert(call@.attempts =~= seq![]);
        call
    }

    /// Look at the entry whose turn it is. Returns whether the walk stops here.
    fn look(&mut self, call: &mut Dispatch, now: Instant, events: &mut Vec<MetricEvent>) -> (r:
        bool)
        requires
            old(self)@.wf(),
            old(call)@.fits(old(self)@.entries.len()),
            !old(call)@.exhausted(),
            old(call)@.pending is None,
        ensures
            final(self)@ == pool_after_look(old(self)@, old(call)@, now),
            final(call)@ == call_after_look(old(self)@, old(call)@, now),
            events_view(final(events)@) == events_view(old(events)@) + look_events(
                old(self)@,
                old(call)@,
                now,
            ),
            r == match fate(old(self)@, old(call)@, now) {
                Fate::OverBudget | Fate::Chosen => true,
                _ => false,
            },
    {
        let i: usize = call.order[call.considered];
        assert(old(call)@.next() == i);
        assert(self@.entries[i as int] == self.entries@[i as int]@);
        assert(self@.entries[i as int].wf());
        assert(call.considered < call.order.len());
        call.considered = call.considered + 1;
        if !self.entries[i].endpoint.supports(&call.capability) {
            let event = MetricEvent::SkippedIncapable {
                tag: self.entries[i].endpoint.tag().to_owned(),
                method: call.method.clone(),
            };
            events.push(event);
            assert(events_view(events@) =~= events_view(old(events)@) + seq![event@]);
            call.incapable = call.incapable + 1;
            return false;
        }
        if !self.entries[i].health.is_available_at(call.started) {
            let event = MetricEvent::SkippedCooldown {
                tag: self.entries[i].endpoint.tag().to_owned(),
                method: call.method.clone(),
            };
            events.push(event);
            assert(events_view(events@) =~= events_view(old(events)@) + seq![event@]);
            call.in_cooldown = call.in_cooldown + 1;
            return false;
        }
        assert(events_view(events@) =~= events_view(old(events)@) + seq![]);
        // A throttled endpoint is skipped, not awaited, so that the call fails
        // over instead of stalling.
        let granted = self.entries[i].acquire(now);
        let ghost asked = self.entries@[i as int]@;
        assert(entries_view(self.entries@) =~= old(self)@.entries.update(i as int, asked));
        if !granted {
            call.rate_limited = call.rate_limited + 1;
            return false;
        }
        if self.max_retries != 0 && call.attempts.len() >= self.max_retries as usize {
            return true;
        }
        let id: u64 = self.request_id;
        self.request_id = self.request_id.wrapping_add(1);
        self.entries[i].in_flight = self.entries[i].in_flight.saturating_add(1);
        assert(entries_view(self.entries@) =~= old(self)@.entries.update(
            i as int,
            asked.sent(),
        ));
        call.pending = Some((i, id));
        let event = MetricEvent::Request {
            tag: self.entries[i].endpoint.tag().to_owned(),
            method: call.method.clone(),
        };
        events.push(event);
        assert(events_view(events@) =~= events_view(old(events)@) + seq![event@]);
        true
    }

    /// Look at entries in turn until one is chosen, the budget is spent, or all
    /// have been looked at.
    fn advance(&mut self, call: &mut Dispatch, now: Instant, events: &mut Vec<MetricEvent>)
        requires
            old(self)@.wf(),
            old(call)@.fits(old(self)@.entries.len()),
            old(call)@.pending is None,
        ensures
            final(self)@ == walk(old(self)@, old(call)@, now).pool,
            final(call)@ == walk(old(self)@, old(call)@, now).call,
            events_view(final(events)@) == events_view(old(events)@) + walk(
                old(self)@,
                old(call)@,
                now,
            ).events,
    {
        let ghost end = walk(self@, call@, now);
        let ghost told = events_view(events@);
        assert(told + end.events =~= events_view(old(events)@) + end.events);
        while call.considered < call.order.len()
            invariant
                self@.wf(),
                call@.fits(self@.entries.len()),
                call@.pending is None,
                told == events_view(old(events)@),
                end == walk(old(self)@, old(call)@, now),
                end.pool == walk(self@, call@, now).pool,
                end.call == walk(self@, call@, now).call,
                told + end.events == events_view(events@) + walk(self@, call@, now).events,
            decreases call.order.len() - call.considered,
        {
            let ghost pool_before = self@;
            let ghost call_before = call@;
            let ghost events_before = events_view(events@);
            proof {
                lemma_look_keeps_sound(self@, call@, now);
            }
            if self.look(call, now, events) {
                return;
            }
            proof {
                let seen = look_events(pool_before, call_before, now);
                let rest = walk(self@, call@, now).events;
                assert(events_before + (seen + rest) =~= (events_before + seen) + rest);
            }
        }
        assert(events_view(events@) + walk(self@, call@, now).events =~= events_view(events@));
    }
}

/// A request to be sent to one endpoint.
#[derive(Debug)]
pub struct Attempt {
    pub url: String,
    pub headers: Vec<(String, String)>,
    pub id: u64,
    pub method: String,
}

impl Attempt {
    /// This is the request of `call` with number `id` to `entry`.
    pub open spec fn is_for(self, entry: EntryState, id: u64, call: DispatchState) -> bool {
        &&& self.url@ == entry.endpoint.url
        &&& pairs_view(self.headers@) == entry.headers
        &&& self.id == id
        &&& self.method@ == call.method
    }

    /// The bytes of the request.
    pub fn body(&self, params: &Json) -> (r: Vec<u8>)
        ensures
            r@ == encode_utf8(request_text(self.id, self.method@, *params)),
    {
        encode_request(self.id, self.method.as_str(), params)
    }
}

/// What came back for a request.
#[derive(Debug)]
pub enum Reply {
    /// The transport failed, with this message.
    Failed(String),
    /// A body came back: the response it holds, or the parser's complaint.
    Body(Result<JsonRpcResponse, String>),
}

/// What a step of a call starts from.
#[derive(Debug)]
pub enum Event {
    Start,
    Reply { reply: Reply, latency: Duration },
}

/// What a step of a call leads to.
#[derive(Debug)]
pub enum Step<T> {
    /// The request is to be sent, and the call goes on with the reply.
    Send(Attempt),
    /// The call is over.
    Done(Result<T, RpcError>),
}

/// One step of a call, and what metrics are to be told of it.
#[derive(Debug)]
pub struct Turn<T> {
    pub step: Step<T>,
    pub events: Vec<MetricEvent>,
}

/// What a reply means for `call`: the answer, or why it is a failure.
pub open spec fn call_verdict(reply: Reply) -> Result<Json, Seq<char>> {
    match reply {
        Reply::Failed(message) => Err(message@),
        Reply::Body(parsed) => match answer(parsed) {
            Ok(value) => Ok(value),
            Err(error) => Err(error.words()),
        },
    }
}

/// What a reply means for `forward`: what is relayed, or why it is a failure.
pub open spec fn forward_verdict(reply: Reply) -> Result<ForwardResult, Seq<char>> {
    match reply {
        Reply::Failed(message) => Err(message@),
        Reply::Body(parsed) => match relayed(parsed) {
            Ok(RawOutcome::Result(value)) => Ok(ForwardResult::Result(value)),
            Ok(RawOutcome::RpcError(error)) => Ok(
                ForwardResult::Error {
                    code: error.code,
                    message: error.message,
                    data: error.data,
                },
            ),
            Err(error) => Err(error.words()),
        },
    }
}

/// The failure in a verdict.
pub open spec fn failure_of<T>(verdict: Result<T, Seq<char>>) -> Option<Seq<char>> {
    match verdict {
        Ok(_) => None,
        Err(words) => Some(words),
    }
}

/// `error` is what a call ends with that no endpoint answered.
pub open spec fn ends_with(call: DispatchState, error: RpcError) -> bool {
    if call.attempts.len() == 0 {
        &&& error matches RpcError::NoCandidates { method, reason }
        &&& method@ == call.method
        &&& reason@ == call.reason()
    } else {
        &&& error matches RpcError::AllFailed { method, count, attempts }
        &&& method@ == call.method
        &&& count == call.attempts.len()
        &&& pairs_view(attempts@) == call.attempts
    }
}

/// `step` is what a walk leads to: the request that it chose, or else the end.
pub open spec fn follows<T>(step: Step<T>, progress: Progress) -> bool {
    match progress.call.pending {
        Some((i, id)) => step matches Step::Send(attempt) && attempt.is_for(
            progress.pool.entries[i],
            id,
            progress.call,
        ),
        None => step matches Step::Done(Err(error)) && ends_with(progress.call, error),
    }
}

/// What the reply in `event` means for `call`, if there is one.
pub open spec fn judged_by_call(event: Event) -> Option<Result<Json, Seq<char>>> {
    match event {
        Event::Start => None,
        Event::Reply { reply, .. } => Some(call_verdict(reply)),
    }
}

/// What the reply in `event` means for `forward`, if there is one.
pub open spec fn judged_by_forward(event: Event) -> Option<Result<ForwardResult, Seq<char>>> {
    match event {
        Event::Start => None,
        Event::Reply { reply, .. } => Some(forward_verdict(reply)),
    }
}

/// Where a step of a call leaves pool and call, when a reply means `verdict`.
pub open spec fn progress_of<T>(
    pool: PoolState,
    call: DispatchState,
    event: Event,
    verdict: Option<Result<T, Seq<char>>>,
    now: Instant,
) -> Progress {
    match event {
        Event::Start => walk(pool, call, now),
        Event::Reply { latency, .. } => reply_step(
            pool,
            call,
            failure_of(verdict->0),
            latency,
            now,
        ),
    }
}

/// `step` is what an event leads to: an answer ends the call, and on anything
/// else it goes on.
pub open spec fn answers<T>(
    step: Step<T>,
    verdict: Option<Result<T, Seq<char>>>,
    progress: Progress,
) -> bool {
    match verdict {
        Some(Ok(value)) => step == Step::Done(Ok::<T, RpcError>(value)),
        _ => follows(step, progress),
    }
}

/// The step may be taken: pool and call are sound and belong together, and an
/// event is a reply exactly when one is awaited.
pub open spec fn ready(pool: PoolState, call: DispatchState, event: Event) -> bool {
    &&& pool.wf()
    &&& call.fits(pool.entries.len())
    &&& match event {
        Event::Start => call.pending is None,
        Event::Reply { .. } => call.pending is Some && pool.has_room_for(call),
    }
}

fn judge_call(reply: Reply) -> (r: Result<Json, String>)
    ensures
        match call_verdict(reply) {
            Ok(value) => r == Ok::<Json, String>(value),
            Err(words) => r matches Err(m) && m@ == words,
        },
{
    match reply {
        Reply::Failed(message) => Err(message),
        Reply::Body(parsed) => match parse_rpc_response(parsed) {
            Ok(value) => Ok(value),
            Err(error) => Err(error.to_string()),
        },
    }
}

fn judge_forward(reply: Reply) -> (r: Result<ForwardResult, String>)
    ensures
        match forward_verdict(reply) {
            Ok(value) => r == Ok::<ForwardResult, String>(value),
            Err(words) => r matches Err(m) && m@ == words,
        },
{
    match reply {
        Reply::Failed(message) => Err(message),
        Reply::Body(parsed) => match classify_response(parsed) {
            Ok(RawOutcome::Result(value)) => Ok(ForwardResult::Result(value)),
            Ok(RawOutcome::RpcError(error)) => Ok(
                ForwardResult::Error {
                    code: error.code,
                    message: error.message,
                    data: error.data,
                },
            ),
            Err(error) => Err(error.to_string()),
        },
    }
}

impl Dispatch {
    /// The error of a call that no endpoint answered.
    fn failure(&self) -> (r: RpcError)
        ensures
            ends_with(self@, r),
    {
        if self.attempts.len() == 0 {
            let mut reason = "considered=".to_owned();
            push_decimal(&mut reason, self.considered as u64);
            reason.append(" incapable=");
            push_decimal(&mut reason, self.incapable as u64);
            reason.append(" in_cooldown=");
            push_decimal(&mut reason, self.in_cooldown as u64);
            reason.append(" rate_limited=");
            push_decimal(&mut reason, self.rate_limited as u64);
            return RpcError::NoCandidates { method: self.method.clone(), reason };
        }
        RpcError::AllFailed {
            method: self.method.clone(),
            count: self.attempts.len(),
            attempts: clone_pairs(&self.attempts),
        }
    }
}

impl RpcPool {
    /// Whether the endpoint that `call` awaits an answer from can count it.
    pub fn has_room_for(&self, call: &Dispatch) -> (r: bool)
        requires
            call@.fits(self@.entries.len()),
        ensures
            r == self@.has_room_for(call@),
    {
        match call.pending {
            Some((i, _)) => {
                assert(self@.entries[i as int] == self.entries@[i as int]@);
                self.entries[i].health.has_room()
            },
            None => true,
        }
    }

    /// Count the reply that was awaited.
    fn settle(
        &mut self,
        call: &mut Dispatch,
        failure: Option<String>,
        latency: Duration,
        now: Instant,
        events: &mut Vec<MetricEvent>,
    )
        requires
            old(self)@.wf(),
            old(call)@.fits(old(self)@.entries.len()),
            old(call)@.pending is Some,
            old(self)@.has_room_for(old(call)@),
        ensures
            final(self)@ == settle(
                old(self)@,
                old(call)@,
                optional_text(failure),
                latency,
                now,
            ).pool,
            final(call)@ == settle(
                old(self)@,
                old(call)@,
                optional_text(failure),
                latency,
                now,
            ).call,
            events_view(final(events)@) == events_view(old(events)@) + settle(
                old(self)@,
                old(call)@,
                optional_text(failure),
                latency,
                now,
            ).events,
    {
        if let Some((i, _)) = call.pending {
            assert(self@.entries[i as int] == self.entries@[i as int]@);
            assert(self@.entries[i as int].wf());
            let tag = self.entries[i].endpoint.tag().to_owned();
            let method = call.method.clone();
            self.entries[i].in_flight = self.entries[i].in_flight.saturating_sub(1);
            let event = match failure {
                Some(words) => {
                    let ghost tried = call.attempts@;
                    let url = self.entries[i].endpoint.url.clone();
                    call.attempts.push((url, words.clone()));
                    assert(pairs_view(call.attempts@) =~= pairs_view(tried).push((url@, words@)));
                    self.entries[i].health.record_failure(words.clone(), latency, now);
                    MetricEvent::Failure { tag, method, latency, error: words }
                },
                None => {
                    self.entries[i].health.record_success(latency, now);
                    MetricEvent::Success { tag, method, latency }
                },
            };
            assert(entries_view(self.entries@) =~= old(self)@.entries.update(
                i as int,
                self.entries@[i as int]@,
            ));
            call.pending = None;
            events.push(event);
            assert(events_view(events@) =~= events_view(old(events)@) + seq![event@]);
        }
    }

    /// What the call awaits now, or its failure.
    fn next_step<T>(&self, call: &Dispatch) -> (r: Step<T>)
        requires
            call@.fits(self@.entries.len()),
        ensures
            forall|events: Seq<MetricView>|
                #![trigger follows(r, (Progress { pool: self@, call: call@, events }))]
                follows(r, (Progress { pool: self@, call: call@, events })),
    {
        match call.pending {
            Some((i, id)) => {
                let entry = &self.entries[i];
                assert(self@.entries[i as int] == entry@);
                Step::Send(
                    Attempt {
                        url: entry.endpoint.url.clone(),
                        headers: clone_pairs(&entry.auth_headers),
                        id,
                        method: call.method.clone(),
                    },
                )
            },
            None => Step::Done(Err(call.failure())),
        }
    }

    /// Begin the walk of a call, or resume it where nothing is awaited.
    fn start<T>(&mut self, call: &mut Dispatch, now: Instant) -> (r: Turn<T>)
        requires
            ready(old(self)@, old(call)@, Event::Start),
        ensures
            final(self)@ == walk(old(self)@, old(call)@, now).pool,
            final(call)@ == walk(old(self)@, old(call)@, now).call,
            events_view(r.events@) == walk(old(self)@, old(call)@, now).events,
            follows(r.step, walk(old(self)@, old(call)@, now)),
    {
        let mut events: Vec<MetricEvent> = Vec::new();
        let ghost end = walk(self@, call@, now);
        proof {
            lemma_walk_keeps_sound(self@, call@, now);
        }
        assert(events_view(events@) + end.events =~= end.events);
        self.advance(call, now, &mut events);
        let step = self.next_step(call);
        assert(follows(step, (Progress { pool: self@, call: call@, events: end.events })));
        Turn { step, events }
    }

    /// Go on with a call after a reply that means `verdict`.
    fn resume<T>(
        &mut self,
        call: &mut Dispatch,
        verdict: Result<T, String>,
        latency: Duration,
        now: Instant,
    ) -> (r: Turn<T>)
        requires
            old(self)@.wf(),
            old(call)@.fits(old(self)@.entries.len()),
            old(call)@.pending is Some,
            old(self)@.has_room_for(old(call)@),
        ensures
            match verdict {
                Ok(value) => {
                    let end = reply_step(old(self)@, old(call)@, None, latency, now);
                    &&& final(self)@ == end.pool
                    &&& final(call)@ == end.call
                    &&& events_view(r.events@) == end.events
                    &&& r.step == Step::Done(Ok::<T, RpcError>(value))
                },
                Err(words) => {
                    let end = reply_step(old(self)@, old(call)@, Some(words@), latency, now);
                    &&& final(self)@ == end.pool
                    &&& final(call)@ == end.call
                    &&& events_view(r.events@) == end.events
                    &&& follows(r.step, end)
                },
            },
    {
        let mut events: Vec<MetricEvent> = Vec::new();
        assert(events_view(events@) =~= seq![]);
        match verdict {
            Ok(value) => {
                let ghost settled = settle(self@, call@, None, latency, now);
                assert(events_view(events@) + settled.events =~= settled.events);
                self.settle(call, None, latency, now, &mut events);
                Turn { step: Step::Done(Ok(value)), events }
            },
            Err(words) => {
                let ghost settled = settle(self@, call@, Some(words@), latency, now);
                let ghost end = reply_step(self@, call@, Some(words@), latency, now);
                assert(events_view(events@) + settled.events =~= settled.events);
                proof {
                    lemma_settle_keeps_sound(self@, call@, Some(words@), latency, now);
                    lemma_walk_keeps_sound(settled.pool, settled.call, now);
                }
                self.settle(call, Some(words), latency, now, &mut events);
                self.advance(call, now, &mut events);
                let step = self.next_step(call);
                assert(follows(step, (Progress { pool: self@, call: call@, events: end.events })));
                Turn { step, events }
            },
        }
    }

    /// Take a JSON-RPC call one step further. Tries endpoints in dispatch
    /// order; first success wins. An error envelope counts as a failure, and
    /// the call fails over.
    pub fn call(&mut self, call: &mut Dispatch, event: Event, now: Instant) -> (r: Turn<Json>)
        requires
            ready(old(self)@, old(call)@, event),
        ensures
            ({
                let end = progress_of(
                    old(self)@,
                    old(call)@,
                    event,
                    judged_by_call(event),
                    now,
                );
                &&& final(self)@ == end.pool
                &&& final(call)@ == end.call
                &&& events_view(r.events@) == end.events
                &&& answers(r.step, judged_by_call(event), end)
            }),
            final(self)@.wf(),
            final(call)@.fits(final(self)@.entries.len()),
    {
        proof {
            lemma_step_keeps_sound(self@, call@, event, judged_by_call(event), now);
        }
        match event {
            Event::Start => self.start(call, now),
            Event::Reply { reply, latency } => {
                let verdict = judge_call(reply);
                self.resume(call, verdict, latency, now)
            },
        }
    }

    /// Take a JSON-RPC call for the proxy daemon one step further.
    ///
    /// Like `call` it tries endpoints in dispatch order with auth, capability
    /// routing, rate limiting, health and backoff. The one difference: a
    /// well-formed JSON-RPC *error envelope* from an upstream (a revert,
    /// "method not found", bad params) is a valid answer and is returned via
    /// `ForwardResult::Error` rather than triggering failover. Only transport
    /// failures, non-2xx HTTP, unparseable bodies, and responses with neither a
    /// result nor an error fail over. A result of null is an answer.
    pub fn forward(&mut self, call: &mut Dispatch, event: Event, now: Instant) -> (r: Turn<
        ForwardResult,
    >)
        requires
            ready(old(self)@, old(call)@, event),
        ensures
            ({
                let end = progress_of(
                    old(self)@,
                    old(call)@,
                    event,
                    judged_by_forward(event),
                    now,
                );
                &&& final(self)@ == end.pool
                &&& final(call)@ == end.call
                &&& events_view(r.events@) == end.events
                &&& answers(r.step, judged_by_forward(event), end)
            }),
            final(self)@.wf(),
            final(call)@.fits(final(self)@.entries.len()),
    {
        proof {
            lemma_step_keeps_sound(self@, call@, event, judged_by_forward(event), now);
        }
        match event {
            Event::Start => self.start(call, now),
            Event::Reply { reply, latency } => {
                let verdict = judge_forward(reply);
                self.resume(call, verdict, latency, now)
            },
        }
    }

    /// Give up a call. A request that is still in flight frees its slot; it
    /// counts neither as a success nor as a failure.
    pub fn abandon(&mut self, call: &mut Dispatch)
        requires
            old(self)@.wf(),
            old(call)@.fits(old(self)@.entries.len()),
        ensures
            final(self)@ == given_up(old(self)@, old(call)@),
            final(call)@ == (DispatchState { pending: None, ..old(call)@ }),
            final(self)@.wf(),
            final(call)@.fits(final(self)@.entries.len()),
    {
        if let Some((i, _)) = call.pending {
            assert(self@.entries[i as int] == self.entries@[i as int]@);
            self.entries[i].in_flight = self.entries[i].in_flight.saturating_sub(1);
            call.pending = None;
            assert(entries_view(self.entries@) =~= old(self)@.entries.update(
                i as int,
                self.entries@[i as int]@,
            ));
        }
        proof {
            lemma_given_up_keeps_sound(old(self)@, old(call)@);
        }
    }
}

/// A step keeps pool and call sound.
pub proof fn lemma_step_keeps_sound<T>(
    pool: PoolState,
    call: DispatchState,
    event: Event,
    verdict: Option<Result<T, Seq<char>>>,
    now: Instant,
)
    requires
        ready(pool, call, event),
    ensures
        progress_of(pool, call, event, verdict, now).pool.wf(),
        progress_of(pool, call, event, verdict, now).pool.entries.len() == pool.entries.len(),
        progress_of(pool, call, event, verdict, now).pool.max_retries == pool.max_retries,
        progress_of(pool, call, event, verdict, now).call.fits(pool.entries.len()),
{
    match event {
        Event::Start => {
            lemma_walk_keeps_sound(pool, call, now);
        },
        Event::Reply { latency, .. } => {
            let failure = failure_of(verdict->0);
            let settled = settle(pool, call, failure, latency, now);
            lemma_settle_keeps_sound(pool, call, failure, latency, now);
            if failure is Some {
                lemma_walk_keeps_sound(settled.pool, settled.call, now);
            }
        },
    }
}

} // verus!
