//! The RPC pool.
//!
//! Holds a ranked list of endpoints and their health state. A call goes through
//! candidates in dispatch order and returns on the first success. It skips
//! endpoints that do not declare the requested capability, endpoints that are
//! in cooldown, and endpoints whose throttle is empty.
//!
//! The pool decides and keeps count; sending is the caller's part. A call is a
//! `Dispatch`: each step either asks for a request to be sent or ends the call.

pub mod dispatch;
pub mod laws;
pub mod rank;
pub mod rate_limit;
pub mod state;
pub mod traffic;
pub mod wire;

use vstd::prelude::*;

use crate::config::{endpoints_view, pairs_view, EndpointView, RpcEndpoint, RpcPoolConfig};
use crate::error::RpcError;
use crate::health::{BackoffPolicy, EndpointHealth, EndpointStatus};
use crate::json::Json;
use crate::pool::rank::{by_priority, law_ranking_is_a_stable_sort, lemma_insert_ranked_at};
use crate::pool::rate_limit::RateLimiter;
use crate::pool::state::{EntryState, PoolState};
use crate::time::Instant;

verus! {

struct PoolEntry {
    endpoint: RpcEndpoint,
    health: EndpointHealth,
    /// Resolved auth headers, computed once at construction.
    auth_headers: Vec<(String, String)>,
    /// `None` when the endpoint has no `max_rps`.
    rate_limiter: Option<RateLimiter>,
    in_flight: u64,
}

impl View for PoolEntry {
    type V = EntryState;

    closed spec fn view(&self) -> EntryState {
        EntryState {
            endpoint: self.endpoint@,
            headers: pairs_view(self.auth_headers@),
            health: self.health@,
            limiter: match self.rate_limiter {
                Some(limiter) => Some(limiter@),
                None => None,
            },
            in_flight: self.in_flight,
        }
    }
}

spec fn entries_view(entries: Seq<PoolEntry>) -> Seq<EntryState> {
    entries.map_values(|e: PoolEntry| e@)
}

impl PoolEntry {
    /// An entry that nothing was sent to yet.
    fn new(endpoint: RpcEndpoint, backoff: BackoffPolicy, now: Instant) -> (r: Self)
        ensures
            r@ == EntryState::fresh(endpoint@, backoff, now),
            r@.wf(),
    {
        let auth_headers = endpoint.auth.headers();
        let rate_limiter = match endpoint.max_rps {
            Some(rps) => Some(RateLimiter::per_second(rps, now)),
            None => None,
        };
        PoolEntry {
            endpoint,
            health: EndpointHealth::new(backoff),
            auth_headers,
            rate_limiter,
            in_flight: 0,
        }
    }

    /// As many requests are in flight as the soft cap allows.
    fn saturated(&self) -> (r: bool)
        ensures
            r == self@.saturated(),
    {
        match self.endpoint.max_in_flight {
            Some(cap) => self.in_flight >= cap as u64,
            None => false,
        }
    }

    /// Ask the throttle for a token at `now`.
    fn acquire(&mut self, now: Instant) -> (r: bool)
        requires
            old(self)@.wf(),
        ensures
            r == old(self)@.grants(now),
            final(self)@ == old(self)@.asked(now),
            final(self)@.wf(),
    {
        match &mut self.rate_limiter {
            Some(limiter) => limiter.try_acquire_at(now),
            None => true,
        }
    }
}

/// The RPC pool.
pub struct RpcPool {
    entries: Vec<PoolEntry>,
    request_id: u64,
    /// Max endpoints to attempt per call. `0` = try all candidates.
    max_retries: u32,
}

impl View for RpcPool {
    type V = PoolState;

    closed spec fn view(&self) -> PoolState {
        PoolState {
            entries: entries_view(self.entries@),
            request_id: self.request_id,
            max_retries: self.max_retries,
        }
    }
}

/// The pool that a configuration gives at `now`.
pub open spec fn pool_of(
    endpoints: Seq<EndpointView>,
    max_retries: u32,
    backoff: BackoffPolicy,
    now: Instant,
) -> PoolState {
    PoolState {
        entries: by_priority(endpoints).map_values(
            |e: EndpointView| EntryState::fresh(e, backoff, now),
        ),
        request_id: 1,
        max_retries,
    }
}

impl RpcPool {
    /// Construct a pool from a configuration, with an explicit backoff. Fails
    /// on a configuration that does not validate.
    pub fn new(config: RpcPoolConfig, backoff: BackoffPolicy, now: Instant) -> (r: Result<
        Self,
        RpcError,
    >)
        ensures
            match config@.fault() {
                Some(words) => r matches Err(RpcError::Config(m)) && m@ == words,
                None => r matches Ok(pool) && pool@ == pool_of(
                    config@.endpoints,
                    config@.max_retries,
                    backoff,
                    now,
                ) && pool@.wf(),
            },
    {
        config.validate()?;
        let mut entries: Vec<PoolEntry> = Vec::new();
        let mut i: usize = 0;
        let ghost fresh = |e: EndpointView| EntryState::fresh(e, backoff, now);
        assert(entries_view(entries@) =~= by_priority(config@.endpoints.take(0)).map_values(fresh));
        while i < config.endpoints.len()
            invariant
                i <= config.endpoints@.len(),
                fresh == |e: EndpointView| EntryState::fresh(e, backoff, now),
                entries_view(entries@) == by_priority(
                    endpoints_view(config.endpoints@).take(i as int),
                ).map_values(fresh),
                forall|k: int| 0 <= k < entries@.len() ==> (#[trigger] entries@[k])@.wf(),
                entries@.len() == i,
            decreases config.endpoints.len() - i,
        {
            let endpoint = config.endpoints[i].clone();
            let ghost listed = endpoints_view(config.endpoints@);
            let ghost ranked = by_priority(listed.take(i as int));
            let ghost before = entries@;
            assert(entries_view(before).len() == ranked.len());
            assert forall|k: int| 0 <= k < ranked.len() implies #[trigger] ranked[k]
                == before[k].endpoint@ by {
                assert(entries_view(before)[k] == fresh(ranked[k]));
                assert(entries_view(before)[k] == before[k]@);
            }
            // Behind every entry that does not yield to it, so that ties stay
            // in the order of the configuration.
            let mut pos: usize = entries.len();
            while pos > 0 && entries[pos - 1].endpoint.priority > endpoint.priority
                invariant
                    pos <= entries@.len(),
                    entries@ == before,
                    ranked.len() == before.len(),
                    forall|k: int|
                        0 <= k < ranked.len() ==> #[trigger] ranked[k] == before[k].endpoint@,
                    forall|k: int|
                        pos <= k < ranked.len() ==> (#[trigger] ranked[k]).priority
                            > endpoint.priority,
                decreases pos,
            {
                assert(ranked[pos - 1] == before[pos - 1].endpoint@);
                pos -= 1;
            }
            proof {
                if pos > 0 {
                    assert(ranked[pos - 1] == before[pos - 1].endpoint@);
                }
                lemma_insert_ranked_at(ranked, endpoint@, pos as int);
                assert(listed.take(i + 1).drop_last() =~= listed.take(i as int));
                assert(listed.take(i + 1).last() == endpoint@);
            }
            let entry = PoolEntry::new(endpoint, backoff, now);
            entries.insert(pos, entry);
            assert(entries_view(entries@) =~= entries_view(before).insert(pos as int, entry@));
            assert(entries_view(entries@) =~= ranked.insert(pos as int, endpoint@).map_values(
                fresh,
            ));
            i += 1;
        }
        let pool = RpcPool { entries, request_id: 1, max_retries: config.max_retries };
        proof {
            let listed = endpoints_view(config.endpoints@);
            assert(listed.take(i as int) =~= listed);
            law_ranking_is_a_stable_sort(listed);
            assert forall|k: int| 0 <= k < pool@.entries.len() implies (
            #[trigger] pool@.entries[k]).wf() by {
                assert(entries@[k]@.wf());
            }
            assert(pool@.entries =~= by_priority(listed).map_values(fresh));
        }
        Ok(pool)
    }

    /// Total endpoint count.
    pub fn len(&self) -> (r: usize)
        ensures
            r == self@.entries.len(),
    {
        self.entries.len()
    }

    /// `true` if no endpoints are registered.
    pub fn is_empty(&self) -> (r: bool)
        ensures
            r == (self@.entries.len() == 0),
    {
        self.entries.len() == 0
    }

    /// Endpoint definitions (by rank).
    pub fn endpoints(&self) -> (r: Vec<RpcEndpoint>)
        ensures
            endpoints_view(r@) == self@.entries.map_values(|e: EntryState| e.endpoint),
    {
        let mut endpoints: Vec<RpcEndpoint> = Vec::new();
        let mut i: usize = 0;
        let ghost wanted = self@.entries.map_values(|e: EntryState| e.endpoint);
        while i < self.entries.len()
            invariant
                i <= self.entries@.len(),
                wanted == self@.entries.map_values(|e: EntryState| e.endpoint),
                endpoints_view(endpoints@) == wanted.take(i as int),
            decreases self.entries.len() - i,
        {
            let endpoint = self.entries[i].endpoint.clone();
            let ghost before = endpoints@;
            endpoints.push(endpoint);
            assert(endpoints_view(endpoints@) =~= endpoints_view(before).push(endpoint@));
            assert(endpoints_view(endpoints@) =~= wanted.take(i + 1));
            i += 1;
        }
        assert(wanted.take(i as int) =~= wanted);
        endpoints
    }

    /// Full status snapshot at `now` (endpoint definition + live health), by
    /// rank.
    pub fn status(&self, now: Instant) -> (r: Vec<PoolEntryStatus>)
        ensures
            r@.len() == self@.entries.len(),
            forall|i: int|
                0 <= i < r@.len() ==> (#[trigger] r@[i]).describes(self@.entries[i], now),
    {
        let mut statuses: Vec<PoolEntryStatus> = Vec::new();
        let mut i: usize = 0;
        while i < self.entries.len()
            invariant
                i <= self.entries@.len(),
                statuses@.len() == i,
                forall|k: int|
                    0 <= k < i ==> (#[trigger] statuses@[k]).describes(self@.entries[k], now),
            decreases self.entries.len() - i,
        {
            let entry = &self.entries[i];
            let status = PoolEntryStatus {
                endpoint: entry.endpoint.clone(),
                health: entry.health.snapshot(now),
            };
            assert(self@.entries[i as int] == entry@);
            statuses.push(status);
            i += 1;
        }
        statuses
    }
}

/// Pool-entry status for the settings UI.
#[derive(Debug)]
pub struct PoolEntryStatus {
    pub endpoint: RpcEndpoint,
    pub health: EndpointStatus,
}

impl PoolEntryStatus {
    /// This is the status of `entry` at `now`.
    pub open spec fn describes(self, entry: EntryState, now: Instant) -> bool {
        &&& self.endpoint@ == entry.endpoint
        &&& self.health.reports(entry.health, now)
    }
}

/// Result of `RpcPool::forward`: either an upstream `result` or a relayed
/// JSON-RPC error envelope.
#[derive(Debug)]
pub enum ForwardResult {
    /// Upstream returned a `result`.
    Result(Json),
    /// Upstream returned a well-formed JSON-RPC error (relay verbatim).
    Error { code: i64, message: String, data: Option<Json> },
}

} // verus!
