//! Configuration types for the RPC pool.

use vstd::hash_set::StringHashSet;
use vstd::prelude::*;

use crate::env::{
    expand_env, expanded, fault_words, law_plain_text_is_unchanged,
    law_unset_variable_is_an_error, opens_nothing, refers_to, Environment, TemplateFault,
};
use crate::error::RpcError;
use crate::text::{blank, is_blank, str_eq};
use crate::time::Duration;

verus! {

/// Names and values, as texts.
pub open spec fn pairs_view(pairs: Seq<(String, String)>) -> Seq<(Seq<char>, Seq<char>)> {
    pairs.map_values(|p: (String, String)| (p.0@, p.1@))
}

/// A copy of a list of names and values.
pub fn clone_pairs(pairs: &Vec<(String, String)>) -> (r: Vec<(String, String)>)
    ensures
        pairs_view(r@) == pairs_view(pairs@),
{
    let mut copy: Vec<(String, String)> = Vec::new();
    let mut i: usize = 0;
    while i < pairs.len()
        invariant
            i <= pairs@.len(),
            pairs_view(copy@) == pairs_view(pairs@).take(i as int),
        decreases pairs.len() - i,
    {
        let pair = (pairs[i].0.clone(), pairs[i].1.clone());
        let ghost before = copy@;
        copy.push(pair);
        assert(pairs_view(copy@) =~= pairs_view(before).push((pair.0@, pair.1@)));
        assert(pairs_view(copy@) =~= pairs_view(pairs@).take(i + 1));
        i += 1;
    }
    assert(pairs_view(pairs@).take(i as int) =~= pairs_view(pairs@));
    copy
}

/// The expansion of a template, or the words of the error it is rejected with.
pub open spec fn expansion(s: Seq<char>, env: Map<Seq<char>, Seq<char>>) -> Result<
    Seq<char>,
    Seq<char>,
> {
    match expanded(s, env) {
        Ok(text) => Ok(text),
        Err(fault) => Err(fault_words(s, fault)),
    }
}

/// `r` is a configuration error in the words of `fault`, or fine when there is
/// none.
pub open spec fn settles(r: Result<(), RpcError>, fault: Option<Seq<char>>) -> bool {
    match fault {
        None => r is Ok,
        Some(words) => r matches Err(RpcError::Config(m)) && m@ == words,
    }
}

/// Per-endpoint authentication. Every string value supports `${ENV_VAR}`
/// templating so secrets stay in the environment, never in the config file.
#[derive(Debug, PartialEq, Eq)]
pub enum Auth {
    /// No auth. The endpoint URL is used as-is.
    NoAuth,
    /// The API key is already baked into the URL (e.g. Alchemy/Infura style
    /// `https://.../v2/${ALCHEMY_KEY}`). No extra headers are added; this is a
    /// declarative marker that the URL itself carries the secret.
    UrlKey,
    /// A custom request header, e.g. `{ name = "X-API-Key", value = "${KEY}" }`.
    Header { name: String, value: String },
    /// `Authorization: Bearer <token>`.
    Bearer { token: String },
}

/// An authentication mode, as texts.
pub enum AuthView {
    NoAuth,
    UrlKey,
    Header { name: Seq<char>, value: Seq<char> },
    Bearer { token: Seq<char> },
}

impl View for Auth {
    type V = AuthView;

    open spec fn view(&self) -> AuthView {
        match self {
            Auth::NoAuth => AuthView::NoAuth,
            Auth::UrlKey => AuthView::UrlKey,
            Auth::Header { name, value } => AuthView::Header { name: name@, value: value@ },
            Auth::Bearer { token } => AuthView::Bearer { token: token@ },
        }
    }
}

impl AuthView {
    /// The request headers that this mode contributes.
    pub open spec fn headers(self) -> Seq<(Seq<char>, Seq<char>)> {
        match self {
            AuthView::NoAuth | AuthView::UrlKey => seq![],
            AuthView::Header { name, value } => seq![(name, value)],
            AuthView::Bearer { token } => seq![("Authorization"@, "Bearer "@ + token)],
        }
    }

    /// The mode with its templates expanded, from the first field to the last,
    /// up to the first that is rejected, and that field's fault.
    pub open spec fn resolved(self, env: Map<Seq<char>, Seq<char>>) -> (
        AuthView,
        Option<Seq<char>>,
    ) {
        match self {
            AuthView::NoAuth | AuthView::UrlKey => (self, None),
            AuthView::Header { name, value } => match expansion(name, env) {
                Err(fault) => (self, Some(fault)),
                Ok(n) => match expansion(value, env) {
                    Err(fault) => (AuthView::Header { name: n, value }, Some(fault)),
                    Ok(v) => (AuthView::Header { name: n, value: v }, None),
                },
            },
            AuthView::Bearer { token } => match expansion(token, env) {
                Err(fault) => (self, Some(fault)),
                Ok(t) => (AuthView::Bearer { token: t }, None),
            },
        }
    }
}

impl Clone for Auth {
    fn clone(&self) -> (r: Self)
        ensures
            r@ == self@,
    {
        match self {
            Auth::NoAuth => Auth::NoAuth,
            Auth::UrlKey => Auth::UrlKey,
            Auth::Header { name, value } => Auth::Header {
                name: name.clone(),
                value: value.clone(),
            },
            Auth::Bearer { token } => Auth::Bearer { token: token.clone() },
        }
    }
}

impl Default for Auth {
    fn default() -> (r: Self)
        ensures
            r == Auth::NoAuth,
    {
        Auth::NoAuth
    }
}

impl Auth {
    /// Resolve into the concrete request headers this auth mode contributes.
    /// `UrlKey`/`NoAuth` add no headers.
    pub fn headers(&self) -> (r: Vec<(String, String)>)
        ensures
            pairs_view(r@) == self@.headers(),
    {
        let mut headers: Vec<(String, String)> = Vec::new();
        match self {
            Auth::NoAuth | Auth::UrlKey => {},
            Auth::Header { name, value } => {
                headers.push((name.clone(), value.clone()));
            },
            Auth::Bearer { token } => {
                let mut value = "Bearer ".to_owned();
                value.append(token.as_str());
                headers.push(("Authorization".to_owned(), value));
            },
        }
        assert(pairs_view(headers@) =~= self@.headers());
        headers
    }

    /// Expand `${ENV_VAR}` references inside every string field.
    pub fn resolve_env(&mut self, env: &Environment) -> (r: Result<(), RpcError>)
        ensures
            final(self)@ == old(self)@.resolved(env@).0,
            settles(r, old(self)@.resolved(env@).1),
    {
        match self {
            Auth::NoAuth | Auth::UrlKey => {},
            Auth::Header { name, value } => {
                *name = expand_env(name.as_str(), env)?;
                *value = expand_env(value.as_str(), env)?;
            },
            Auth::Bearer { token } => {
                *token = expand_env(token.as_str(), env)?;
            },
        }
        Ok(())
    }
}

/// A single JSON-RPC endpoint.
///
/// `priority` is the sort key. Lower values are tried first. Ties go to the
/// endpoint with fewer requests in flight, then to the one listed first.
#[derive(Debug, PartialEq, Eq)]
pub struct RpcEndpoint {
    /// HTTP(S) URL for this endpoint.
    pub url: String,
    /// Human-readable label (e.g. `"alchemy-mainnet"`, `"llamarpc"`).
    /// Env-templatable in a configuration file.
    pub label: Option<String>,
    /// Sort key. Lower is tried first.
    pub priority: u32,
    /// Methods (or method families) this endpoint is known to support.
    /// Empty list = "assume it supports everything". Non-empty list = strict
    /// routing: only calls whose capability appears here will dispatch.
    pub capabilities: Vec<RpcCapability>,
    /// Client-side throttle in requests per second. `None` = unthrottled.
    pub max_rps: Option<u32>,
    /// Soft concurrency cap: once this many requests are in flight at this
    /// endpoint, new calls prefer a less-loaded peer (or the next priority
    /// tier) instead of piling on, and only fall back here if nothing else is
    /// available. `None` = uncapped. This is what turns a ranked pool adaptive:
    /// a primary carries load up to its cap, then the burst spills to failover
    /// endpoints rather than saturating the primary and stalling.
    pub max_in_flight: Option<u32>,
    /// Per-endpoint authentication.
    pub auth: Auth,
}

/// An endpoint, as texts and numbers.
#[verifier::ext_equal]
pub struct EndpointView {
    pub url: Seq<char>,
    pub label: Option<Seq<char>>,
    pub priority: u32,
    pub capabilities: Seq<CapabilityView>,
    pub max_rps: Option<u32>,
    pub max_in_flight: Option<u32>,
    pub auth: AuthView,
}

/// The capabilities in a list.
pub open spec fn capabilities_view(capabilities: Seq<RpcCapability>) -> Seq<CapabilityView> {
    capabilities.map_values(|c: RpcCapability| c@)
}

/// A text that may be missing.
pub open spec fn optional_text(text: Option<String>) -> Option<Seq<char>> {
    match text {
        Some(t) => Some(t@),
        None => None,
    }
}

impl View for RpcEndpoint {
    type V = EndpointView;

    open spec fn view(&self) -> EndpointView {
        EndpointView {
            url: self.url@,
            label: optional_text(self.label),
            priority: self.priority,
            capabilities: capabilities_view(self.capabilities@),
            max_rps: self.max_rps,
            max_in_flight: self.max_in_flight,
            auth: self.auth@,
        }
    }
}

impl EndpointView {
    /// An endpoint with nothing but a URL set.
    pub open spec fn plain(url: Seq<char>) -> Self {
        EndpointView {
            url,
            label: None,
            priority: 0,
            capabilities: seq![],
            max_rps: None,
            max_in_flight: None,
            auth: AuthView::NoAuth,
        }
    }

    /// The `i`-th of a ranked list of plain URLs.
    pub open spec fn ranked(i: int, url: Seq<char>) -> Self {
        EndpointView { priority: i as u32, ..EndpointView::plain(url) }
    }

    /// The label if there is one, else the URL.
    pub open spec fn tag(self) -> Seq<char> {
        match self.label {
            Some(label) => label,
            None => self.url,
        }
    }

    /// Whether the endpoint serves a capability: it declares none, or this one.
    pub open spec fn supports(self, capability: CapabilityView) -> bool {
        self.capabilities.len() == 0 || self.capabilities.contains(capability)
    }

    /// The endpoint with its label expanded, as far as it can be.
    pub open spec fn label_expanded(self, env: Map<Seq<char>, Seq<char>>) -> EndpointView {
        match label_expansion(self.label, env) {
            Ok(label) => EndpointView { label, ..self },
            Err(_) => self,
        }
    }

    /// The endpoint with its URL and then its auth expanded, up to the first
    /// template that is rejected, and that template's fault.
    pub open spec fn resolved(self, env: Map<Seq<char>, Seq<char>>) -> (
        EndpointView,
        Option<Seq<char>>,
    ) {
        match expansion(self.url, env) {
            Err(fault) => (self, Some(fault)),
            Ok(url) => {
                let (auth, fault) = self.auth.resolved(env);
                (EndpointView { url, auth, ..self }, fault)
            },
        }
    }
}

impl Clone for RpcEndpoint {
    fn clone(&self) -> (r: Self)
        ensures
            r@ == self@,
    {
        let mut capabilities: Vec<RpcCapability> = Vec::new();
        let mut i: usize = 0;
        while i < self.capabilities.len()
            invariant
                i <= self.capabilities@.len(),
                capabilities_view(capabilities@) == capabilities_view(self.capabilities@).take(
                    i as int,
                ),
            decreases self.capabilities.len() - i,
        {
            let capability = self.capabilities[i].clone();
            let ghost before = capabilities@;
            capabilities.push(capability);
            assert(capabilities_view(capabilities@) =~= capabilities_view(before).push(
                capability@,
            ));
            assert(capabilities_view(capabilities@) =~= capabilities_view(self.capabilities@).take(
                i + 1,
            ));
            i += 1;
        }
        let label = match &self.label {
            Some(label) => Some(label.clone()),
            None => None,
        };
        assert(capabilities_view(capabilities@) =~= capabilities_view(self.capabilities@));
        RpcEndpoint {
            url: self.url.clone(),
            label,
            priority: self.priority,
            capabilities,
            max_rps: self.max_rps,
            max_in_flight: self.max_in_flight,
            auth: self.auth.clone(),
        }
    }
}

impl RpcEndpoint {
    /// Construct a new endpoint with all-capable routing (empty `capabilities`).
    pub fn new(url: &str) -> (r: Self)
        ensures
            r@ == EndpointView::plain(url@),
    {
        let r = RpcEndpoint {
            url: url.to_owned(),
            label: None,
            priority: 0,
            capabilities: Vec::new(),
            max_rps: None,
            max_in_flight: None,
            auth: Auth::NoAuth,
        };
        assert(r@ =~= EndpointView::plain(url@));
        r
    }

    /// Builder: set the authentication mode.
    pub fn with_auth(self, auth: Auth) -> (r: Self)
        ensures
            r == (RpcEndpoint { auth, ..self }),
    {
        let mut endpoint = self;
        endpoint.auth = auth;
        endpoint
    }

    /// Expand `${ENV_VAR}` references in the URL and auth fields.
    pub fn resolve_env(&mut self, env: &Environment) -> (r: Result<(), RpcError>)
        ensures
            final(self)@ == old(self)@.resolved(env@).0,
            settles(r, old(self)@.resolved(env@).1),
    {
        self.url = expand_env(self.url.as_str(), env)?;
        self.auth.resolve_env(env)?;
        Ok(())
    }

    /// Short tag for logs and metrics - label if set, else URL.
    pub fn tag(&self) -> (r: &str)
        ensures
            r@ == self@.tag(),
    {
        match &self.label {
            Some(label) => label.as_str(),
            None => self.url.as_str(),
        }
    }

    /// Whether this endpoint can serve a given capability.
    ///
    /// An empty capability list is treated as "supports everything" - this
    /// matches operator intuition for minimally-configured endpoints.
    pub fn supports(&self, capability: &RpcCapability) -> (r: bool)
        ensures
            r == self@.supports(capability@),
    {
        if self.capabilities.is_empty() {
            return true;
        }
        let mut i: usize = 0;
        while i < self.capabilities.len()
            invariant
                i <= self.capabilities@.len(),
                self.capabilities@.len() > 0,
                forall|j: int| 0 <= j < i ==> self@.capabilities[j] != capability@,
            decreases self.capabilities.len() - i,
        {
            if self.capabilities[i].same(capability) {
                assert(self@.capabilities[i as int] == capability@);
                return true;
            }
            i += 1;
        }
        false
    }
}

/// The endpoints in a list.
pub open spec fn endpoints_view(endpoints: Seq<RpcEndpoint>) -> Seq<EndpointView> {
    endpoints.map_values(|e: RpcEndpoint| e@)
}

/// Default proxy listen address used when the config omits `listen`.
pub const DEFAULT_LISTEN: &'static str = "127.0.0.1:8545";

/// Unbounded pool configuration. Order matters only insofar as `priority` ties
/// are broken by it.
#[derive(Debug)]
pub struct RpcPoolConfig {
    /// Address the proxy daemon binds to (`host:port`). Ignored by library
    /// callers. Env-templatable.
    pub listen: String,
    /// Per-request timeout in milliseconds applied by the transport. `None`
    /// uses the transport default (15s).
    pub request_timeout_ms: Option<u64>,
    /// Maximum number of endpoints to attempt per call. `0` (default) = try
    /// every healthy, capable candidate (classic failover).
    pub max_retries: u32,
    pub endpoints: Vec<RpcEndpoint>,
}

/// A pool configuration, as texts and numbers.
#[verifier::ext_equal]
pub struct ConfigView {
    pub listen: Seq<char>,
    pub request_timeout_ms: Option<u64>,
    pub max_retries: u32,
    pub endpoints: Seq<EndpointView>,
}

impl View for RpcPoolConfig {
    type V = ConfigView;

    open spec fn view(&self) -> ConfigView {
        ConfigView {
            listen: self.listen@,
            request_timeout_ms: self.request_timeout_ms,
            max_retries: self.max_retries,
            endpoints: endpoints_view(self.endpoints@),
        }
    }
}

/// `endpoints` expanded one by one, up to the first that is rejected, and the
/// fault it is rejected for.
pub open spec fn all_resolved(
    endpoints: Seq<EndpointView>,
    env: Map<Seq<char>, Seq<char>>,
) -> (Seq<EndpointView>, Option<Seq<char>>)
    decreases endpoints.len(),
{
    if endpoints.len() == 0 {
        (endpoints, None)
    } else {
        let (first, fault) = endpoints[0].resolved(env);
        if fault is Some {
            (endpoints.update(0, first), fault)
        } else {
            let (rest, later) = all_resolved(endpoints.drop_first(), env);
            (seq![first] + rest, later)
        }
    }
}

/// The expansion of a label. A missing label stays missing.
pub open spec fn label_expansion(
    label: Option<Seq<char>>,
    env: Map<Seq<char>, Seq<char>>,
) -> Result<Option<Seq<char>>, Seq<char>> {
    match label {
        None => Ok(None),
        Some(l) => match expansion(l, env) {
            Ok(text) => Ok(Some(text)),
            Err(fault) => Err(fault),
        },
    }
}

/// The fault of the first label from `i` on that is rejected.
pub open spec fn label_fault(
    endpoints: Seq<EndpointView>,
    env: Map<Seq<char>, Seq<char>>,
    i: int,
) -> Option<Seq<char>>
    decreases endpoints.len() - i,
{
    if i >= endpoints.len() {
        None
    } else {
        match label_expansion(endpoints[i].label, env) {
            Err(fault) => Some(fault),
            Ok(_) => label_fault(endpoints, env, i + 1),
        }
    }
}

/// `url` is that of one of the first `i` endpoints.
pub open spec fn occurs_before(endpoints: Seq<EndpointView>, i: int, url: Seq<char>) -> bool {
    exists|j: int| 0 <= j < i && #[trigger] endpoints[j].url == url
}

/// The URL at `i` occurs earlier in the list too.
pub open spec fn repeats(endpoints: Seq<EndpointView>, i: int) -> bool {
    occurs_before(endpoints, i, endpoints[i].url)
}

/// What is wrong with the first faulty endpoint from `i` on.
pub open spec fn endpoint_fault(endpoints: Seq<EndpointView>, i: int) -> Option<Seq<char>>
    decreases endpoints.len() - i,
{
    if i >= endpoints.len() {
        None
    } else if is_blank(endpoints[i].url) {
        Some("endpoint URL is empty"@)
    } else if repeats(endpoints, i) {
        Some("duplicate endpoint URL: "@ + endpoints[i].url)
    } else {
        endpoint_fault(endpoints, i + 1)
    }
}

impl ConfigView {
    /// The configuration with these endpoints and the default for all else.
    pub open spec fn with_endpoints(endpoints: Seq<EndpointView>) -> Self {
        ConfigView {
            listen: DEFAULT_LISTEN@,
            request_timeout_ms: None,
            max_retries: 0,
            endpoints,
        }
    }

    /// The configuration with every template expanded, up to the first that is
    /// rejected, and that template's fault.
    pub open spec fn resolved(self, env: Map<Seq<char>, Seq<char>>) -> (
        ConfigView,
        Option<Seq<char>>,
    ) {
        match expansion(self.listen, env) {
            Err(fault) => (self, Some(fault)),
            Ok(listen) => {
                let (endpoints, fault) = all_resolved(self.endpoints, env);
                (ConfigView { listen, endpoints, ..self }, fault)
            },
        }
    }

    /// The configuration with every label expanded.
    pub open spec fn labels_expanded(self, env: Map<Seq<char>, Seq<char>>) -> ConfigView {
        ConfigView {
            endpoints: self.endpoints.map_values(|e: EndpointView| e.label_expanded(env)),
            ..self
        }
    }

    /// The configuration as it is loaded: with every template expanded, labels
    /// too.
    pub open spec fn loaded(self, env: Map<Seq<char>, Seq<char>>) -> ConfigView {
        self.resolved(env).0.labels_expanded(env)
    }

    /// What keeps the configuration from being loaded, if anything: a template
    /// that is rejected, labels last, or else a fault of the expanded
    /// configuration.
    pub open spec fn load_fault(self, env: Map<Seq<char>, Seq<char>>) -> Option<Seq<char>> {
        let (resolved, fault) = self.resolved(env);
        if fault is Some {
            fault
        } else if label_fault(resolved.endpoints, env, 0) is Some {
            label_fault(resolved.endpoints, env, 0)
        } else {
            self.loaded(env).fault()
        }
    }

    /// What is wrong with the configuration, if anything.
    pub open spec fn fault(self) -> Option<Seq<char>> {
        if self.endpoints.len() == 0 {
            Some("endpoint list is empty"@)
        } else {
            endpoint_fault(self.endpoints, 0)
        }
    }
}

impl Clone for RpcPoolConfig {
    fn clone(&self) -> (r: Self)
        ensures
            r@ == self@,
    {
        let mut endpoints: Vec<RpcEndpoint> = Vec::new();
        let mut i: usize = 0;
        while i < self.endpoints.len()
            invariant
                i <= self.endpoints@.len(),
                endpoints_view(endpoints@) == endpoints_view(self.endpoints@).take(i as int),
            decreases self.endpoints.len() - i,
        {
            let endpoint = self.endpoints[i].clone();
            let ghost before = endpoints@;
            endpoints.push(endpoint);
            assert(endpoints_view(endpoints@) =~= endpoints_view(before).push(endpoint@));
            assert(endpoints_view(endpoints@) =~= endpoints_view(self.endpoints@).take(i + 1));
            i += 1;
        }
        assert(endpoints_view(endpoints@) =~= endpoints_view(self.endpoints@));
        RpcPoolConfig {
            listen: self.listen.clone(),
            request_timeout_ms: self.request_timeout_ms,
            max_retries: self.max_retries,
            endpoints,
        }
    }
}

impl Default for RpcPoolConfig {
    fn default() -> (r: Self)
        ensures
            r@ == ConfigView::with_endpoints(seq![]),
    {
        let r = RpcPoolConfig {
            listen: DEFAULT_LISTEN.to_owned(),
            request_timeout_ms: None,
            max_retries: 0,
            endpoints: Vec::new(),
        };
        assert(r@ =~= ConfigView::with_endpoints(seq![]));
        r
    }
}

impl RpcPoolConfig {
    /// The configuration with these endpoints and the default for all else.
    pub fn with_endpoints(endpoints: Vec<RpcEndpoint>) -> (r: Self)
        ensures
            r@ == ConfigView::with_endpoints(endpoints_view(endpoints@)),
            r.endpoints == endpoints,
    {
        RpcPoolConfig {
            listen: DEFAULT_LISTEN.to_owned(),
            request_timeout_ms: None,
            max_retries: 0,
            endpoints,
        }
    }

    /// Quick constructor from a list of plain URLs. Endpoints get
    /// `priority = index` (the list is a ranked failover order, first
    /// preferred), no label, no capability list. Give two or more endpoints
    /// the *same* `priority` to make them peers - the pool then spreads
    /// concurrent load across that tier by least in-flight instead of always
    /// hitting the first.
    pub fn from_urls(urls: &[&str]) -> (r: Self)
        ensures
            r@ == ConfigView::with_endpoints(
                urls@.map(|i: int, url: &str| EndpointView::ranked(i, url@)),
            ),
    {
        let mut endpoints: Vec<RpcEndpoint> = Vec::new();
        let mut i: usize = 0;
        let ghost wanted = urls@.map(|i: int, url: &str| EndpointView::ranked(i, url@));
        while i < urls.len()
            invariant
                i <= urls@.len(),
                wanted == urls@.map(|i: int, url: &str| EndpointView::ranked(i, url@)),
                endpoints_view(endpoints@) == wanted.take(i as int),
            decreases urls.len() - i,
        {
            let mut endpoint = RpcEndpoint::new(urls[i]);
            endpoint.priority =
            #[verifier::truncate]
            (i as u32);
            let ghost before = endpoints@;
            endpoints.push(endpoint);
            assert(endpoints_view(endpoints@) =~= endpoints_view(before).push(endpoint@));
            assert(endpoints_view(endpoints@) =~= wanted.take(i + 1));
            i += 1;
        }
        assert(wanted.take(i as int) =~= wanted);
        RpcPoolConfig::with_endpoints(endpoints)
    }

    /// Expand `${ENV_VAR}` references across `listen` and all endpoints.
    pub fn resolve_env(&mut self, env: &Environment) -> (r: Result<(), RpcError>)
        ensures
            final(self)@ == old(self)@.resolved(env@).0,
            settles(r, old(self)@.resolved(env@).1),
    {
        self.listen = expand_env(self.listen.as_str(), env)?;
        let ghost start = endpoints_view(self.endpoints@);
        let ghost done: Seq<EndpointView> = seq![];
        let ghost listen = self.listen;
        let mut i: usize = 0;
        assert(start.skip(0) =~= start);
        while i < self.endpoints.len()
            invariant
                i <= self.endpoints@.len(),
                self.endpoints@.len() == start.len(),
                self.listen == listen,
                self.request_timeout_ms == old(self).request_timeout_ms,
                self.max_retries == old(self).max_retries,
                old(self)@.endpoints == start,
                expansion(old(self)@.listen, env@) == Ok::<Seq<char>, Seq<char>>(listen@),
                endpoints_view(self.endpoints@) == done + start.skip(i as int),
                done.len() == i,
                all_resolved(start, env@).0 == done + all_resolved(start.skip(i as int), env@).0,
                all_resolved(start, env@).1 == all_resolved(start.skip(i as int), env@).1,
            decreases self.endpoints.len() - i,
        {
            let ghost rest = start.skip(i as int);
            let ghost before = self.endpoints@;
            assert(endpoints_view(before)[i as int] == rest[0]);
            let outcome = self.endpoints[i].resolve_env(env);
            let ghost first = self.endpoints@[i as int]@;
            assert(endpoints_view(self.endpoints@) =~= endpoints_view(before).update(
                i as int,
                first,
            ));
            assert(rest.drop_first() =~= start.skip(i + 1));
            match outcome {
                Err(e) => {
                    assert(endpoints_view(self.endpoints@) =~= done + rest.update(0, first));
                    return Err(e);
                },
                Ok(()) => {},
            }
            proof {
                let later = all_resolved(start.skip(i + 1), env@).0;
                assert(done + (seq![first] + later) =~= done.push(first) + later);
                assert(endpoints_view(self.endpoints@) =~= done.push(first) + start.skip(i + 1));
                done = done.push(first);
            }
            i += 1;
        }
        assert(all_resolved(start.skip(i as int), env@).0 =~= seq![]);
        Ok(())
    }

    /// Reject empty or duplicate-URL configs.
    pub fn validate(&self) -> (r: Result<(), RpcError>)
        ensures
            settles(r, self@.fault()),
    {
        if self.endpoints.is_empty() {
            return Err(RpcError::Config("endpoint list is empty".to_owned()));
        }
        let mut seen = StringHashSet::new();
        let mut i: usize = 0;
        while i < self.endpoints.len()
            invariant
                i <= self.endpoints@.len(),
                self@.fault() == endpoint_fault(self@.endpoints, i as int),
                forall|url: Seq<char>| #[trigger]
                    seen@.contains(url) <==> occurs_before(self@.endpoints, i as int, url),
            decreases self.endpoints.len() - i,
        {
            let url = self.endpoints[i].url.as_str();
            let ghost before = seen@;
            assert(self@.endpoints[i as int].url == url@);
            if blank(url) {
                return Err(RpcError::Config("endpoint URL is empty".to_owned()));
            }
            if !seen.insert(url.to_owned()) {
                assert(repeats(self@.endpoints, i as int));
                let mut message = "duplicate endpoint URL: ".to_owned();
                message.append(url);
                return Err(RpcError::Config(message));
            }
            assert forall|u: Seq<char>| #[trigger] seen@.contains(u) <==> occurs_before(
                self@.endpoints,
                i + 1,
                u,
            ) by {
                if u == url@ {
                    assert(self@.endpoints[i as int].url == u);
                } else if before.contains(u) {
                    let j = choose|j: int|
                        0 <= j < i && #[trigger] self@.endpoints[j].url == u;
                    assert(self@.endpoints[j].url == u);
                }
            }
            i += 1;
        }
        Ok(())
    }

    /// Expand `${ENV_VAR}` references in every label.
    fn expand_labels(&mut self, env: &Environment) -> (r: Result<(), RpcError>)
        ensures
            settles(r, label_fault(old(self)@.endpoints, env@, 0)),
            r is Ok ==> final(self)@ == old(self)@.labels_expanded(env@),
    {
        let ghost start = endpoints_view(self.endpoints@);
        let ghost wanted = old(self)@.labels_expanded(env@).endpoints;
        let mut i: usize = 0;
        assert(wanted.take(0) + start.skip(0) =~= start);
        while i < self.endpoints.len()
            invariant
                i <= self.endpoints@.len() == start.len(),
                self.listen == old(self).listen,
                self.request_timeout_ms == old(self).request_timeout_ms,
                self.max_retries == old(self).max_retries,
                old(self)@.endpoints == start,
                wanted == old(self)@.labels_expanded(env@).endpoints,
                endpoints_view(self.endpoints@) == wanted.take(i as int) + start.skip(i as int),
                label_fault(start, env@, 0) == label_fault(start, env@, i as int),
            decreases self.endpoints.len() - i,
        {
            let ghost before = self.endpoints@;
            assert(endpoints_view(before)[i as int] == start[i as int]);
            let label = match &self.endpoints[i].label {
                Some(label) => Some(expand_env(label.as_str(), env)?),
                None => None,
            };
            self.endpoints[i].label = label;
            assert(self.endpoints@[i as int]@ =~= wanted[i as int]);
            assert(endpoints_view(self.endpoints@) =~= endpoints_view(before).update(
                i as int,
                wanted[i as int],
            ));
            assert(endpoints_view(self.endpoints@) =~= wanted.take(i + 1) + start.skip(i + 1));
            i += 1;
        }
        assert(endpoints_view(self.endpoints@) =~= wanted);
        Ok(())
    }

    /// Finish loading a configuration that was read from TOML: expand the
    /// templates in all its texts, then validate it. `parsed` holds the parser's complaint when
    /// the text was no configuration.
    pub fn from_parsed(parsed: Result<RpcPoolConfig, String>, env: &Environment) -> (r: Result<
        Self,
        RpcError,
    >)
        ensures
            match parsed {
                Err(complaint) => r matches Err(RpcError::Config(m)) && m@ == "TOML parse error: "@
                    + complaint@,
                Ok(config) => match config@.load_fault(env@) {
                    Some(words) => r matches Err(RpcError::Config(m)) && m@ == words,
                    None => r matches Ok(c) && c@ == config@.loaded(env@),
                },
            },
    {
        match parsed {
            Err(complaint) => {
                let mut message = "TOML parse error: ".to_owned();
                message.append(complaint.as_str());
                Err(RpcError::Config(message))
            },
            Ok(config) => {
                let mut config = config;
                config.resolve_env(env)?;
                config.expand_labels(env)?;
                config.validate()?;
                Ok(config)
            },
        }
    }

    /// The time a transport allows for each request: the configured timeout, or
    /// 15 seconds.
    pub fn request_timeout(&self) -> (r: Duration)
        ensures
            r.nanos == match self.request_timeout_ms {
                Some(ms) => ms * 1_000_000,
                None => 15_000_000_000,
            },
    {
        match self.request_timeout_ms {
            Some(ms) => Duration::from_millis(ms),
            None => Duration::from_secs(15),
        }
    }
}

/// Capabilities an endpoint may declare. Matched against method names inside
/// the pool.
///
/// Not every JSON-RPC method maps to a dedicated variant. The common methods
/// are enumerated; everything else falls into `Other`.
#[derive(Debug, PartialEq, Eq, Hash)]
pub enum RpcCapability {
    EthCall,
    EthGetLogs,
    EthBlockNumber,
    EthChainId,
    EthGetBalance,
    EthGetTransactionReceipt,
    EthGetTransactionCount,
    EthSendRawTransaction,
    EthEstimateGas,
    EthGasPrice,
    /// WebSocket/pub-sub subscription (implementation-defined).
    Subscribe,
    /// Anything else. Match by the wire method name, e.g. `"debug_traceCall"`.
    Other(String),
}

/// A capability, as texts.
pub enum CapabilityView {
    EthCall,
    EthGetLogs,
    EthBlockNumber,
    EthChainId,
    EthGetBalance,
    EthGetTransactionReceipt,
    EthGetTransactionCount,
    EthSendRawTransaction,
    EthEstimateGas,
    EthGasPrice,
    Subscribe,
    Other(Seq<char>),
}

impl View for RpcCapability {
    type V = CapabilityView;

    open spec fn view(&self) -> CapabilityView {
        match self {
            RpcCapability::EthCall => CapabilityView::EthCall,
            RpcCapability::EthGetLogs => CapabilityView::EthGetLogs,
            RpcCapability::EthBlockNumber => CapabilityView::EthBlockNumber,
            RpcCapability::EthChainId => CapabilityView::EthChainId,
            RpcCapability::EthGetBalance => CapabilityView::EthGetBalance,
            RpcCapability::EthGetTransactionReceipt => CapabilityView::EthGetTransactionReceipt,
            RpcCapability::EthGetTransactionCount => CapabilityView::EthGetTransactionCount,
            RpcCapability::EthSendRawTransaction => CapabilityView::EthSendRawTransaction,
            RpcCapability::EthEstimateGas => CapabilityView::EthEstimateGas,
            RpcCapability::EthGasPrice => CapabilityView::EthGasPrice,
            RpcCapability::Subscribe => CapabilityView::Subscribe,
            RpcCapability::Other(method) => CapabilityView::Other(method@),
        }
    }
}

/// The capability that a JSON-RPC method asks for.
pub open spec fn capability_of(method: Seq<char>) -> CapabilityView {
    if method == "eth_call"@ {
        CapabilityView::EthCall
    } else if method == "eth_getLogs"@ {
        CapabilityView::EthGetLogs
    } else if method == "eth_blockNumber"@ {
        CapabilityView::EthBlockNumber
    } else if method == "eth_chainId"@ {
        CapabilityView::EthChainId
    } else if method == "eth_getBalance"@ {
        CapabilityView::EthGetBalance
    } else if method == "eth_getTransactionReceipt"@ {
        CapabilityView::EthGetTransactionReceipt
    } else if method == "eth_getTransactionCount"@ {
        CapabilityView::EthGetTransactionCount
    } else if method == "eth_sendRawTransaction"@ {
        CapabilityView::EthSendRawTransaction
    } else if method == "eth_estimateGas"@ {
        CapabilityView::EthEstimateGas
    } else if method == "eth_gasPrice"@ {
        CapabilityView::EthGasPrice
    } else if method == "eth_subscribe"@ || method == "eth_unsubscribe"@ {
        CapabilityView::Subscribe
    } else {
        CapabilityView::Other(method)
    }
}

/// The name a capability has in a configuration file, where it has one of its
/// own.
pub open spec fn config_name_of(capability: CapabilityView) -> Option<Seq<char>> {
    match capability {
        CapabilityView::EthCall => Some("eth_call"@),
        CapabilityView::EthGetLogs => Some("eth_get_logs"@),
        CapabilityView::EthBlockNumber => Some("eth_block_number"@),
        CapabilityView::EthChainId => Some("eth_chain_id"@),
        CapabilityView::EthGetBalance => Some("eth_get_balance"@),
        CapabilityView::EthGetTransactionReceipt => Some("eth_get_transaction_receipt"@),
        CapabilityView::EthGetTransactionCount => Some("eth_get_transaction_count"@),
        CapabilityView::EthSendRawTransaction => Some("eth_send_raw_transaction"@),
        CapabilityView::EthEstimateGas => Some("eth_estimate_gas"@),
        CapabilityView::EthGasPrice => Some("eth_gas_price"@),
        CapabilityView::Subscribe => Some("subscribe"@),
        CapabilityView::Other(_) => None,
    }
}

/// `name` is the configuration name of `capability`.
pub open spec fn is_config_name(name: Seq<char>, capability: CapabilityView) -> bool {
    config_name_of(capability) == Some(name)
}

/// The capability that a configuration file means by `name`: a configuration
/// name, or else the wire method.
pub open spec fn named_capability(name: Seq<char>) -> CapabilityView {
    if is_config_name(name, CapabilityView::EthCall) {
        CapabilityView::EthCall
    } else if is_config_name(name, CapabilityView::EthGetLogs) {
        CapabilityView::EthGetLogs
    } else if is_config_name(name, CapabilityView::EthBlockNumber) {
        CapabilityView::EthBlockNumber
    } else if is_config_name(name, CapabilityView::EthChainId) {
        CapabilityView::EthChainId
    } else if is_config_name(name, CapabilityView::EthGetBalance) {
        CapabilityView::EthGetBalance
    } else if is_config_name(name, CapabilityView::EthGetTransactionReceipt) {
        CapabilityView::EthGetTransactionReceipt
    } else if is_config_name(name, CapabilityView::EthGetTransactionCount) {
        CapabilityView::EthGetTransactionCount
    } else if is_config_name(name, CapabilityView::EthSendRawTransaction) {
        CapabilityView::EthSendRawTransaction
    } else if is_config_name(name, CapabilityView::EthEstimateGas) {
        CapabilityView::EthEstimateGas
    } else if is_config_name(name, CapabilityView::EthGasPrice) {
        CapabilityView::EthGasPrice
    } else if is_config_name(name, CapabilityView::Subscribe) {
        CapabilityView::Subscribe
    } else {
        capability_of(name)
    }
}

impl Clone for RpcCapability {
    fn clone(&self) -> (r: Self)
        ensures
            r@ == self@,
    {
        match self {
            RpcCapability::EthCall => RpcCapability::EthCall,
            RpcCapability::EthGetLogs => RpcCapability::EthGetLogs,
            RpcCapability::EthBlockNumber => RpcCapability::EthBlockNumber,
            RpcCapability::EthChainId => RpcCapability::EthChainId,
            RpcCapability::EthGetBalance => RpcCapability::EthGetBalance,
            RpcCapability::EthGetTransactionReceipt => RpcCapability::EthGetTransactionReceipt,
            RpcCapability::EthGetTransactionCount => RpcCapability::EthGetTransactionCount,
            RpcCapability::EthSendRawTransaction => RpcCapability::EthSendRawTransaction,
            RpcCapability::EthEstimateGas => RpcCapability::EthEstimateGas,
            RpcCapability::EthGasPrice => RpcCapability::EthGasPrice,
            RpcCapability::Subscribe => RpcCapability::Subscribe,
            RpcCapability::Other(method) => RpcCapability::Other(method.clone()),
        }
    }
}

impl RpcCapability {
    /// Derive the capability for a given JSON-RPC method name. Unknown methods
    /// become `Other(method)`.
    pub fn for_method(method: &str) -> (r: Self)
        ensures
            r@ == capability_of(method@),
    {
        if str_eq(method, "eth_call") {
            RpcCapability::EthCall
        } else if str_eq(method, "eth_getLogs") {
            RpcCapability::EthGetLogs
        } else if str_eq(method, "eth_blockNumber") {
            RpcCapability::EthBlockNumber
        } else if str_eq(method, "eth_chainId") {
            RpcCapability::EthChainId
        } else if str_eq(method, "eth_getBalance") {
            RpcCapability::EthGetBalance
        } else if str_eq(method, "eth_getTransactionReceipt") {
            RpcCapability::EthGetTransactionReceipt
        } else if str_eq(method, "eth_getTransactionCount") {
            RpcCapability::EthGetTransactionCount
        } else if str_eq(method, "eth_sendRawTransaction") {
            RpcCapability::EthSendRawTransaction
        } else if str_eq(method, "eth_estimateGas") {
            RpcCapability::EthEstimateGas
        } else if str_eq(method, "eth_gasPrice") {
            RpcCapability::EthGasPrice
        } else if str_eq(method, "eth_subscribe") || str_eq(method, "eth_unsubscribe") {
            RpcCapability::Subscribe
        } else {
            RpcCapability::Other(method.to_owned())
        }
    }

    /// The name this capability has in a configuration file. `None` for a
    /// capability that goes by its wire method alone.
    pub fn config_name(&self) -> (r: Option<&'static str>)
        ensures
            r is Some <==> config_name_of(self@) is Some,
            r matches Some(name) ==> is_config_name(name@, self@),
    {
        match self {
            RpcCapability::EthCall => Some("eth_call"),
            RpcCapability::EthGetLogs => Some("eth_get_logs"),
            RpcCapability::EthBlockNumber => Some("eth_block_number"),
            RpcCapability::EthChainId => Some("eth_chain_id"),
            RpcCapability::EthGetBalance => Some("eth_get_balance"),
            RpcCapability::EthGetTransactionReceipt => Some("eth_get_transaction_receipt"),
            RpcCapability::EthGetTransactionCount => Some("eth_get_transaction_count"),
            RpcCapability::EthSendRawTransaction => Some("eth_send_raw_transaction"),
            RpcCapability::EthEstimateGas => Some("eth_estimate_gas"),
            RpcCapability::EthGasPrice => Some("eth_gas_price"),
            RpcCapability::Subscribe => Some("subscribe"),
            RpcCapability::Other(_) => None,
        }
    }

    /// The capability that a configuration file means by `name`: a
    /// configuration name such as `eth_get_logs`, or a wire method such as
    /// `eth_getLogs` or `debug_traceCall`.
    pub fn from_name(name: &str) -> (r: Self)
        ensures
            r@ == named_capability(name@),
    {
        if str_eq(name, "eth_call") {
            RpcCapability::EthCall
        } else if str_eq(name, "eth_get_logs") {
            RpcCapability::EthGetLogs
        } else if str_eq(name, "eth_block_number") {
            RpcCapability::EthBlockNumber
        } else if str_eq(name, "eth_chain_id") {
            RpcCapability::EthChainId
        } else if str_eq(name, "eth_get_balance") {
            RpcCapability::EthGetBalance
        } else if str_eq(name, "eth_get_transaction_receipt") {
            RpcCapability::EthGetTransactionReceipt
        } else if str_eq(name, "eth_get_transaction_count") {
            RpcCapability::EthGetTransactionCount
        } else if str_eq(name, "eth_send_raw_transaction") {
            RpcCapability::EthSendRawTransaction
        } else if str_eq(name, "eth_estimate_gas") {
            RpcCapability::EthEstimateGas
        } else if str_eq(name, "eth_gas_price") {
            RpcCapability::EthGasPrice
        } else if str_eq(name, "subscribe") {
            RpcCapability::Subscribe
        } else {
            RpcCapability::for_method(name)
        }
    }

    /// Whether two capabilities are the same.
    pub fn same(&self, other: &RpcCapability) -> (r: bool)
        ensures
            r == (self@ == other@),
    {
        match (self, other) {
            (RpcCapability::EthCall, RpcCapability::EthCall) => true,
            (RpcCapability::EthGetLogs, RpcCapability::EthGetLogs) => true,
            (RpcCapability::EthBlockNumber, RpcCapability::EthBlockNumber) => true,
            (RpcCapability::EthChainId, RpcCapability::EthChainId) => true,
            (RpcCapability::EthGetBalance, RpcCapability::EthGetBalance) => true,
            (RpcCapability::EthGetTransactionReceipt, RpcCapability::EthGetTransactionReceipt) => true,
            (RpcCapability::EthGetTransactionCount, RpcCapability::EthGetTransactionCount) => true,
            (RpcCapability::EthSendRawTransaction, RpcCapability::EthSendRawTransaction) => true,
            (RpcCapability::EthEstimateGas, RpcCapability::EthEstimateGas) => true,
            (RpcCapability::EthGasPrice, RpcCapability::EthGasPrice) => true,
            (RpcCapability::Subscribe, RpcCapability::Subscribe) => true,
            (RpcCapability::Other(a), RpcCapability::Other(b)) => *a == *b,
            _ => false,
        }
    }
}

proof fn lemma_no_endpoint_fault(endpoints: Seq<EndpointView>, i: int)
    requires
        0 <= i <= endpoints.len(),
    ensures
        endpoint_fault(endpoints, i) is None <==> forall|k: int|
            #![trigger endpoints[k]]
            i <= k < endpoints.len() ==> !is_blank(endpoints[k].url) && !repeats(endpoints, k),
    decreases endpoints.len() - i,
{
    if i < endpoints.len() {
        lemma_no_endpoint_fault(endpoints, i + 1);
        assert(endpoints[i] == endpoints[i]);
    }
}

/// A configuration is valid exactly when it has endpoints, none of their URLs
/// is blank, and no URL occurs twice.
pub proof fn law_valid_configuration(config: ConfigView)
    ensures
        config.fault() is None <==> {
            &&& config.endpoints.len() > 0
            &&& forall|k: int|
                0 <= k < config.endpoints.len() ==> !is_blank((#[trigger] config.endpoints[k]).url)
            &&& forall|j: int, k: int|
                0 <= j < k < config.endpoints.len() ==> (#[trigger] config.endpoints[j]).url != (
                #[trigger] config.endpoints[k]).url
        },
{
    lemma_no_endpoint_fault(config.endpoints, 0);
    if config.fault() is None {
        assert forall|j: int, k: int| 0 <= j < k < config.endpoints.len() implies (
        #[trigger] config.endpoints[j]).url != (#[trigger] config.endpoints[k]).url by {
            assert(!repeats(config.endpoints, k));
        }
    }
}

/// An endpoint that declares no capability serves every one, and an endpoint
/// that declares some serves those and no other.
pub proof fn law_capability_routing(endpoint: EndpointView, capability: CapabilityView)
    ensures
        endpoint.capabilities.len() == 0 ==> endpoint.supports(capability),
        endpoint.capabilities.len() > 0 ==> (endpoint.supports(capability)
            <==> endpoint.capabilities.contains(capability)),
{
}

/// Every configuration name is read back as the capability it was written for.
pub proof fn law_config_names_round_trip(capability: CapabilityView)
    requires
        config_name_of(capability) is Some,
    ensures
        named_capability(config_name_of(capability)->0) == capability,
{
    reveal_strlit("eth_call");
    reveal_strlit("eth_get_logs");
    reveal_strlit("eth_block_number");
    reveal_strlit("eth_chain_id");
    reveal_strlit("eth_get_balance");
    reveal_strlit("eth_get_transaction_receipt");
    reveal_strlit("eth_get_transaction_count");
    reveal_strlit("eth_send_raw_transaction");
    reveal_strlit("eth_estimate_gas");
    reveal_strlit("eth_gas_price");
    reveal_strlit("subscribe");
    assert("eth_call"@.len() == 8);
    assert("eth_get_logs"@.len() == 12);
    assert("eth_block_number"@.len() == 16);
    assert("eth_chain_id"@.len() == 12);
    assert("eth_get_balance"@.len() == 15);
    assert("eth_get_transaction_receipt"@.len() == 27);
    assert("eth_get_transaction_count"@.len() == 25);
    assert("eth_send_raw_transaction"@.len() == 24);
    assert("eth_estimate_gas"@.len() == 16);
    assert("eth_gas_price"@.len() == 13);
    assert("subscribe"@.len() == 9);
    assert("eth_get_logs"@[4] != "eth_chain_id"@[4]);
    assert("eth_block_number"@[4] != "eth_estimate_gas"@[4]);
}

impl EndpointView {
    /// The endpoint's texts, all of which are templates.
    pub open spec fn templates(self) -> Seq<Seq<char>> {
        let label = match self.label {
            Some(l) => seq![l],
            None => seq![],
        };
        match self.auth {
            AuthView::NoAuth | AuthView::UrlKey => seq![self.url] + label,
            AuthView::Header { name, value } => seq![self.url, name, value] + label,
            AuthView::Bearer { token } => seq![self.url, token] + label,
        }
    }
}

proof fn lemma_label_fault(
    endpoints: Seq<EndpointView>,
    env: Map<Seq<char>, Seq<char>>,
    from: int,
    i: int,
)
    requires
        from <= i < endpoints.len(),
        label_fault(endpoints, env, from) is None,
    ensures
        label_expansion(endpoints[i].label, env) is Ok,
    decreases i - from,
{
    if from < i {
        lemma_label_fault(endpoints, env, from + 1, i);
    }
}

proof fn lemma_all_resolved(endpoints: Seq<EndpointView>, env: Map<Seq<char>, Seq<char>>, i: int)
    requires
        0 <= i < endpoints.len(),
        all_resolved(endpoints, env).1 is None,
    ensures
        endpoints[i].resolved(env).1 is None,
        all_resolved(endpoints, env).0.len() == endpoints.len(),
        all_resolved(endpoints, env).0[i] == endpoints[i].resolved(env).0,
    decreases endpoints.len(),
{
    let rest = endpoints.drop_first();
    if i > 0 {
        lemma_all_resolved(rest, env, i - 1);
        assert(rest[i - 1] == endpoints[i]);
    } else if rest.len() > 0 {
        lemma_all_resolved(rest, env, 0);
    }
}

/// A reference to an unset variable, in the listen address or in any URL,
/// authentication or label of any endpoint, keeps the configuration from being loaded:
/// a missing key never degrades to an unauthenticated request.
pub proof fn law_unset_variable_refuses_the_configuration(
    config: ConfigView,
    env: Map<Seq<char>, Seq<char>>,
    name: Seq<char>,
    endpoint: int,
    field: int,
)
    requires
        !env.contains_key(name),
        refers_to(config.listen, name) || {
            &&& 0 <= endpoint < config.endpoints.len()
            &&& 0 <= field < config.endpoints[endpoint].templates().len()
            &&& refers_to(config.endpoints[endpoint].templates()[field], name)
        },
    ensures
        config.load_fault(env) is Some,
{
    if refers_to(config.listen, name) {
        law_unset_variable_is_an_error(config.listen, name, env);
    } else {
        let e = config.endpoints[endpoint];
        law_unset_variable_is_an_error(e.templates()[field], name, env);
        assert(e.resolved(env).1 is Some || label_expansion(e.label, env) is Err);
        if config.resolved(env).1 is None {
            lemma_all_resolved(config.endpoints, env, endpoint);
            let resolved = config.resolved(env).0.endpoints;
            assert(resolved[endpoint].label == e.label);
            if label_fault(resolved, env, 0) is None {
                lemma_label_fault(resolved, env, 0, endpoint);
            }
        }
    }
}

/// Loading changes templates and nothing else: routing, limits and order stay
/// as they were written, and a label becomes its expansion.
pub proof fn law_loading_keeps_routing(
    config: ConfigView,
    env: Map<Seq<char>, Seq<char>>,
    i: int,
)
    requires
        config.load_fault(env) is None,
        0 <= i < config.endpoints.len(),
    ensures
        config.loaded(env).max_retries == config.max_retries,
        config.loaded(env).request_timeout_ms == config.request_timeout_ms,
        config.loaded(env).endpoints.len() == config.endpoints.len(),
        ({
            let before = config.endpoints[i];
            let after = config.loaded(env).endpoints[i];
            &&& after.priority == before.priority
            &&& after.capabilities == before.capabilities
            &&& after.max_rps == before.max_rps
            &&& after.max_in_flight == before.max_in_flight
            &&& match before.label {
                None => after.label is None,
                Some(l) => after.label matches Some(t) && expansion(l, env) == Ok::<
                    Seq<char>,
                    Seq<char>,
                >(t),
            }
        }),
{
    lemma_all_resolved(config.endpoints, env, i);
    lemma_label_fault(config.resolved(env).0.endpoints, env, 0, i);
}

/// Different methods ask for different capabilities. Only subscribing and
/// unsubscribing share one.
pub proof fn law_methods_do_not_share_a_capability(one: Seq<char>, other: Seq<char>)
    requires
        capability_of(one) == capability_of(other),
    ensures
        one == other || {
            &&& one == "eth_subscribe"@ || one == "eth_unsubscribe"@
            &&& other == "eth_subscribe"@ || other == "eth_unsubscribe"@
        },
{
}

/// Which method each capability stands for: its own and no other. Any method
/// that none of them stands for is a capability by itself, under its own name.
pub proof fn law_capability_stands_for_its_method(method: Seq<char>)
    ensures
        capability_of(method) is EthCall <==> method == "eth_call"@,
        capability_of(method) is EthGetLogs <==> method == "eth_getLogs"@,
        capability_of(method) is EthBlockNumber <==> method == "eth_blockNumber"@,
        capability_of(method) is EthChainId <==> method == "eth_chainId"@,
        capability_of(method) is EthGetBalance <==> method == "eth_getBalance"@,
        capability_of(method) is EthGetTransactionReceipt <==> method == "eth_getTransactionReceipt"@,
        capability_of(method) is EthGetTransactionCount <==> method == "eth_getTransactionCount"@,
        capability_of(method) is EthSendRawTransaction <==> method == "eth_sendRawTransaction"@,
        capability_of(method) is EthEstimateGas <==> method == "eth_estimateGas"@,
        capability_of(method) is EthGasPrice <==> method == "eth_gasPrice"@,
        capability_of(method) is Subscribe <==> method == "eth_subscribe"@ || method
            == "eth_unsubscribe"@,
        capability_of(method) matches CapabilityView::Other(name) ==> name == method,
{
    reveal_strlit("eth_call");
    reveal_strlit("eth_getLogs");
    reveal_strlit("eth_blockNumber");
    reveal_strlit("eth_chainId");
    reveal_strlit("eth_getBalance");
    reveal_strlit("eth_getTransactionReceipt");
    reveal_strlit("eth_getTransactionCount");
    reveal_strlit("eth_sendRawTransaction");
    reveal_strlit("eth_estimateGas");
    reveal_strlit("eth_gasPrice");
    reveal_strlit("eth_subscribe");
    reveal_strlit("eth_unsubscribe");
    assert("eth_call"@.len() == 8);
    assert("eth_getLogs"@.len() == 11);
    assert("eth_blockNumber"@.len() == 15);
    assert("eth_chainId"@.len() == 11);
    assert("eth_getBalance"@.len() == 14);
    assert("eth_getTransactionReceipt"@.len() == 25);
    assert("eth_getTransactionCount"@.len() == 23);
    assert("eth_sendRawTransaction"@.len() == 22);
    assert("eth_estimateGas"@.len() == 15);
    assert("eth_gasPrice"@.len() == 12);
    assert("eth_subscribe"@.len() == 13);
    assert("eth_unsubscribe"@.len() == 15);
    assert("eth_getLogs"@[4] != "eth_chainId"@[4]);
    assert("eth_blockNumber"@[4] != "eth_estimateGas"@[4]);
    assert("eth_blockNumber"@[4] != "eth_unsubscribe"@[4]);
    assert("eth_estimateGas"@[4] != "eth_unsubscribe"@[4]);
}

/// A name with an underscore and a small letter for each capital.
pub open spec fn snake_case(name: Seq<char>) -> Seq<char>
    decreases name.len(),
{
    if name.len() == 0 {
        name
    } else {
        let last = name.last();
        let start = snake_case(name.drop_last());
        if 'A' <= last <= 'Z' {
            start + seq!['_', (last as u32 + 32) as char]
        } else {
            start.push(last)
        }
    }
}

proof fn lemma_snake_case_joins(a: Seq<char>, b: Seq<char>)
    ensures
        snake_case(a + b) == snake_case(a) + snake_case(b),
    decreases b.len(),
{
    if b.len() == 0 {
        assert(a + b =~= a);
        assert(snake_case(a) + snake_case(b) =~= snake_case(a));
    } else {
        lemma_snake_case_joins(a, b.drop_last());
        assert((a + b).drop_last() =~= a + b.drop_last());
        assert((a + b).last() == b.last());
        assert(snake_case(a + b) =~= snake_case(a) + snake_case(b));
    }
}

proof fn lemma_snake_case_plain(s: Seq<char>)
    requires
        forall|i: int| 0 <= i < s.len() ==> !('A' <= #[trigger] s[i] <= 'Z'),
    ensures
        snake_case(s) == s,
    decreases s.len(),
{
    if s.len() > 0 {
        assert forall|i: int| 0 <= i < s.drop_last().len() implies !('A'
            <= #[trigger] s.drop_last()[i] <= 'Z') by {
            assert(s[i] == s.drop_last()[i]);
        }
        lemma_snake_case_plain(s.drop_last());
        assert(!('A' <= s[s.len() - 1] <= 'Z'));
        assert(s.drop_last().push(s.last()) =~= s);
    }
}

/// A plain start, a capital, and whatever follows.
proof fn lemma_snake_case_capital(start: Seq<char>, capital: char, rest: Seq<char>)
    requires
        'A' <= capital <= 'Z',
        forall|i: int| 0 <= i < start.len() ==> !('A' <= #[trigger] start[i] <= 'Z'),
    ensures
        snake_case(start + seq![capital] + rest) == start + seq![
            '_',
            (capital as u32 + 32) as char,
        ] + snake_case(rest),
{
    lemma_snake_case_joins(start + seq![capital], rest);
    lemma_snake_case_joins(start, seq![capital]);
    lemma_snake_case_plain(start);
    assert(seq![capital].drop_last() =~= seq![]);
    assert(snake_case(seq![capital]) =~= seq!['_', (capital as u32 + 32) as char]) by {
        reveal_with_fuel(snake_case, 2);
    }
}

proof fn lemma_eth_call_in_snake_case()
    ensures
        snake_case("eth_call"@) == "eth_call"@,
{
    reveal_strlit("eth_call");
    let s = "eth_call"@;
    assert(s.len() == 8);
    lemma_snake_case_plain(s);
}

proof fn lemma_eth_get_logs_in_snake_case()
    ensures
        snake_case("eth_getLogs"@) == "eth_get_logs"@,
{
    reveal_strlit("eth_getLogs");
    reveal_strlit("eth_get_logs");
    let s = "eth_getLogs"@;
    assert(s.len() == 11);
    assert("eth_get_logs"@.len() == 12);
    let rest0 = s.skip(8);
    let start0 = s.subrange(0, 7);
    assert(s =~= start0 + seq!['L'] + rest0);
    lemma_snake_case_capital(start0, 'L', rest0);
    lemma_snake_case_plain(rest0);
    assert(snake_case(s) =~= "eth_get_logs"@);
}

proof fn lemma_eth_block_number_in_snake_case()
    ensures
        snake_case("eth_blockNumber"@) == "eth_block_number"@,
{
    reveal_strlit("eth_blockNumber");
    reveal_strlit("eth_block_number");
    let s = "eth_blockNumber"@;
    assert(s.len() == 15);
    assert("eth_block_number"@.len() == 16);
    let rest0 = s.skip(10);
    let start0 = s.subrange(0, 9);
    assert(s =~= start0 + seq!['N'] + rest0);
    lemma_snake_case_capital(start0, 'N', rest0);
    lemma_snake_case_plain(rest0);
    assert(snake_case(s) =~= "eth_block_number"@);
}

proof fn lemma_eth_chain_id_in_snake_case()
    ensures
        snake_case("eth_chainId"@) == "eth_chain_id"@,
{
    reveal_strlit("eth_chainId");
    reveal_strlit("eth_chain_id");
    let s = "eth_chainId"@;
    assert(s.len() == 11);
    assert("eth_chain_id"@.len() == 12);
    let rest0 = s.skip(10);
    let start0 = s.subrange(0, 9);
    assert(s =~= start0 + seq!['I'] + rest0);
    lemma_snake_case_capital(start0, 'I', rest0);
    lemma_snake_case_plain(rest0);
    assert(snake_case(s) =~= "eth_chain_id"@);
}

proof fn lemma_eth_get_balance_in_snake_case()
    ensures
        snake_case("eth_getBalance"@) == "eth_get_balance"@,
{
    reveal_strlit("eth_getBalance");
    reveal_strlit("eth_get_balance");
    let s = "eth_getBalance"@;
    assert(s.len() == 14);
    assert("eth_get_balance"@.len() == 15);
    let rest0 = s.skip(8);
    let start0 = s.subrange(0, 7);
    assert(s =~= start0 + seq!['B'] + rest0);
    lemma_snake_case_capital(start0, 'B', rest0);
    lemma_snake_case_plain(rest0);
    assert(snake_case(s) =~= "eth_get_balance"@);
}

proof fn lemma_eth_get_transaction_receipt_in_snake_case()
    ensures
        snake_case("eth_getTransactionReceipt"@) == "eth_get_transaction_receipt"@,
{
    reveal_strlit("eth_getTransactionReceipt");
    reveal_strlit("eth_get_transaction_receipt");
    let s = "eth_getTransactionReceipt"@;
    assert(s.len() == 25);
    assert("eth_get_transaction_receipt"@.len() == 27);
    let rest0 = s.skip(8);
    let start0 = s.subrange(0, 7);
    assert(s =~= start0 + seq!['T'] + rest0);
    lemma_snake_case_capital(start0, 'T', rest0);
    let rest1 = s.skip(19);
    let start1 = s.subrange(8, 18);
    assert(rest0 =~= start1 + seq!['R'] + rest1);
    lemma_snake_case_capital(start1, 'R', rest1);
    lemma_snake_case_plain(rest1);
    assert(snake_case(s) =~= "eth_get_transaction_receipt"@);
}

proof fn lemma_eth_get_transaction_count_in_snake_case()
    ensures
        snake_case("eth_getTransactionCount"@) == "eth_get_transaction_count"@,
{
    reveal_strlit("eth_getTransactionCount");
    reveal_strlit("eth_get_transaction_count");
    let s = "eth_getTransactionCount"@;
    assert(s.len() == 23);
    assert("eth_get_transaction_count"@.len() == 25);
    let rest0 = s.skip(8);
    let start0 = s.subrange(0, 7);
    assert(s =~= start0 + seq!['T'] + rest0);
    lemma_snake_case_capital(start0, 'T', rest0);
    let rest1 = s.skip(19);
    let start1 = s.subrange(8, 18);
    assert(rest0 =~= start1 + seq!['C'] + rest1);
    lemma_snake_case_capital(start1, 'C', rest1);
    lemma_snake_case_plain(rest1);
    assert(snake_case(s) =~= "eth_get_transaction_count"@);
}

proof fn lemma_eth_send_raw_transaction_in_snake_case()
    ensures
        snake_case("eth_sendRawTransaction"@) == "eth_send_raw_transaction"@,
{
    reveal_strlit("eth_sendRawTransaction");
    reveal_strlit("eth_send_raw_transaction");
    let s = "eth_sendRawTransaction"@;
    assert(s.len() == 22);
    assert("eth_send_raw_transaction"@.len() == 24);
    let rest0 = s.skip(9);
    let start0 = s.subrange(0, 8);
    assert(s =~= start0 + seq!['R'] + rest0);
    lemma_snake_case_capital(start0, 'R', rest0);
    let rest1 = s.skip(12);
    let start1 = s.subrange(9, 11);
    assert(rest0 =~= start1 + seq!['T'] + rest1);
    lemma_snake_case_capital(start1, 'T', rest1);
    lemma_snake_case_plain(rest1);
    assert(snake_case(s) =~= "eth_send_raw_transaction"@);
}

proof fn lemma_eth_estimate_gas_in_snake_case()
    ensures
        snake_case("eth_estimateGas"@) == "eth_estimate_gas"@,
{
    reveal_strlit("eth_estimateGas");
    reveal_strlit("eth_estimate_gas");
    let s = "eth_estimateGas"@;
    assert(s.len() == 15);
    assert("eth_estimate_gas"@.len() == 16);
    let rest0 = s.skip(13);
    let start0 = s.subrange(0, 12);
    assert(s =~= start0 + seq!['G'] + rest0);
    lemma_snake_case_capital(start0, 'G', rest0);
    lemma_snake_case_plain(rest0);
    assert(snake_case(s) =~= "eth_estimate_gas"@);
}

proof fn lemma_eth_gas_price_in_snake_case()
    ensures
        snake_case("eth_gasPrice"@) == "eth_gas_price"@,
{
    reveal_strlit("eth_gasPrice");
    reveal_strlit("eth_gas_price");
    let s = "eth_gasPrice"@;
    assert(s.len() == 12);
    assert("eth_gas_price"@.len() == 13);
    let rest0 = s.skip(8);
    let start0 = s.subrange(0, 7);
    assert(s =~= start0 + seq!['P'] + rest0);
    lemma_snake_case_capital(start0, 'P', rest0);
    lemma_snake_case_plain(rest0);
    assert(snake_case(s) =~= "eth_gas_price"@);
}

/// A capability's configuration name is its wire method in snake case, and a
/// configuration may use either: both name the same capability.
pub proof fn law_wire_and_configuration_names_agree(method: Seq<char>)
    requires
        !(capability_of(method) is Other),
        !(capability_of(method) is Subscribe),
    ensures
        config_name_of(capability_of(method)) == Some(snake_case(method)),
        named_capability(snake_case(method)) == capability_of(method),
        named_capability(method) == capability_of(method),
{
    law_capability_stands_for_its_method(method);
    lemma_eth_call_in_snake_case();
    lemma_eth_get_logs_in_snake_case();
    lemma_eth_block_number_in_snake_case();
    lemma_eth_chain_id_in_snake_case();
    lemma_eth_get_balance_in_snake_case();
    lemma_eth_get_transaction_receipt_in_snake_case();
    lemma_eth_get_transaction_count_in_snake_case();
    lemma_eth_send_raw_transaction_in_snake_case();
    lemma_eth_estimate_gas_in_snake_case();
    lemma_eth_gas_price_in_snake_case();
    law_config_names_round_trip(capability_of(method));
    lemma_wire_names_are_no_other_config_names(method);
}

/// A configuration that uses no configuration name means the wire method.
pub proof fn law_other_names_are_wire_methods(name: Seq<char>)
    requires
        forall|c: CapabilityView| !#[trigger] is_config_name(name, c),
    ensures
        named_capability(name) == capability_of(name),
{
}

proof fn lemma_wire_names_are_no_other_config_names(method: Seq<char>)
    requires
        !(capability_of(method) is Other),
        !(capability_of(method) is Subscribe),
    ensures
        named_capability(method) == capability_of(method),
{
    law_capability_stands_for_its_method(method);
    reveal_strlit("eth_blockNumber");
    reveal_strlit("eth_block_number");
    reveal_strlit("eth_call");
    reveal_strlit("eth_chainId");
    reveal_strlit("eth_chain_id");
    reveal_strlit("eth_estimateGas");
    reveal_strlit("eth_estimate_gas");
    reveal_strlit("eth_gasPrice");
    reveal_strlit("eth_gas_price");
    reveal_strlit("eth_getBalance");
    reveal_strlit("eth_getLogs");
    reveal_strlit("eth_getTransactionCount");
    reveal_strlit("eth_getTransactionReceipt");
    reveal_strlit("eth_get_balance");
    reveal_strlit("eth_get_logs");
    reveal_strlit("eth_get_transaction_count");
    reveal_strlit("eth_get_transaction_receipt");
    reveal_strlit("eth_sendRawTransaction");
    reveal_strlit("eth_send_raw_transaction");
    reveal_strlit("subscribe");
    assert("eth_blockNumber"@.len() == 15);
    assert("eth_block_number"@.len() == 16);
    assert("eth_call"@.len() == 8);
    assert("eth_chainId"@.len() == 11);
    assert("eth_chain_id"@.len() == 12);
    assert("eth_estimateGas"@.len() == 15);
    assert("eth_estimate_gas"@.len() == 16);
    assert("eth_gasPrice"@.len() == 12);
    assert("eth_gas_price"@.len() == 13);
    assert("eth_getBalance"@.len() == 14);
    assert("eth_getLogs"@.len() == 11);
    assert("eth_getTransactionCount"@.len() == 23);
    assert("eth_getTransactionReceipt"@.len() == 25);
    assert("eth_get_balance"@.len() == 15);
    assert("eth_get_logs"@.len() == 12);
    assert("eth_get_transaction_count"@.len() == 25);
    assert("eth_get_transaction_receipt"@.len() == 27);
    assert("eth_sendRawTransaction"@.len() == 22);
    assert("eth_send_raw_transaction"@.len() == 24);
    assert("subscribe"@.len() == 9);
    assert("eth_blockNumber"@[4] != "eth_get_balance"@[4]);
    assert("eth_getTransactionReceipt"@[7] != "eth_get_transaction_count"@[7]);
    assert("eth_estimateGas"@[4] != "eth_get_balance"@[4]);
    assert("eth_gasPrice"@[5] != "eth_get_logs"@[5]);
    assert("eth_gasPrice"@[4] != "eth_chain_id"@[4]);
}

/// What each way to authenticate adds to a request: nothing for a key that is
/// in the URL or for none at all, the one header that was named with the value
/// that was given, or the bearer token under `Authorization`.
pub proof fn law_auth_adds_its_own_header(auth: Auth)
    ensures
        match auth {
            Auth::NoAuth | Auth::UrlKey => auth@.headers().len() == 0,
            Auth::Header { name, value } => {
                &&& auth@.headers().len() == 1
                &&& auth@.headers()[0].0 == name@
                &&& auth@.headers()[0].1 == value@
            },
            Auth::Bearer { token } => {
                &&& auth@.headers().len() == 1
                &&& auth@.headers()[0].0 == "Authorization"@
                &&& auth@.headers()[0].1 == "Bearer "@ + token@
            },
        },
{
}

/// An endpoint shows every field it was written with, and in the logs its label
/// or else its URL.
pub proof fn law_endpoint_is_seen_whole(endpoint: RpcEndpoint)
    ensures
        endpoint@.url == endpoint.url@,
        endpoint@.priority == endpoint.priority,
        endpoint@.max_rps == endpoint.max_rps,
        endpoint@.max_in_flight == endpoint.max_in_flight,
        endpoint.label is None ==> endpoint@.label is None && endpoint@.tag() == endpoint.url@,
        endpoint.label matches Some(label) ==> endpoint@.label == Some(label@) && endpoint@.tag()
            == label@,
        endpoint@.capabilities.len() == endpoint.capabilities@.len(),
        forall|i: int|
            0 <= i < endpoint.capabilities@.len() ==> #[trigger] endpoint@.capabilities[i]
                == endpoint.capabilities@[i]@,
        endpoint.auth is NoAuth <==> endpoint@.auth is NoAuth,
        endpoint.auth is UrlKey <==> endpoint@.auth is UrlKey,
        endpoint.auth matches Auth::Header { name, value } ==> endpoint@.auth == (
        AuthView::Header { name: name@, value: value@ }),
        endpoint.auth matches Auth::Bearer { token } ==> endpoint@.auth == (AuthView::Bearer {
            token: token@,
        }),
{
}

/// A configuration shows every field it was written with.
pub proof fn law_configuration_is_seen_whole(config: RpcPoolConfig)
    ensures
        config@.listen == config.listen@,
        config@.request_timeout_ms == config.request_timeout_ms,
        config@.max_retries == config.max_retries,
        config@.endpoints.len() == config.endpoints@.len(),
        forall|i: int|
            0 <= i < config.endpoints@.len() ==> #[trigger] config@.endpoints[i]
                == config.endpoints@[i]@,
{
}

/// Two capabilities are seen alike only if they are the same.
pub proof fn law_capabilities_are_told_apart(one: RpcCapability, other: RpcCapability)
    requires
        one@ == other@,
    ensures
        one is EthCall <==> other is EthCall,
        one is EthGetLogs <==> other is EthGetLogs,
        one is EthBlockNumber <==> other is EthBlockNumber,
        one is EthChainId <==> other is EthChainId,
        one is EthGetBalance <==> other is EthGetBalance,
        one is EthGetTransactionReceipt <==> other is EthGetTransactionReceipt,
        one is EthGetTransactionCount <==> other is EthGetTransactionCount,
        one is EthSendRawTransaction <==> other is EthSendRawTransaction,
        one is EthEstimateGas <==> other is EthEstimateGas,
        one is EthGasPrice <==> other is EthGasPrice,
        one is Subscribe <==> other is Subscribe,
        one is Other <==> other is Other,
        one matches RpcCapability::Other(a) ==> (other matches RpcCapability::Other(b) && a@
            == b@),
{
}

/// A capability is declared under the variant that a method of its own asks
/// for.
pub proof fn law_capability_is_seen_as_itself(capability: RpcCapability)
    ensures
        capability is EthCall <==> capability@ is EthCall,
        capability is EthGetLogs <==> capability@ is EthGetLogs,
        capability is EthBlockNumber <==> capability@ is EthBlockNumber,
        capability is EthChainId <==> capability@ is EthChainId,
        capability is EthGetBalance <==> capability@ is EthGetBalance,
        capability is EthGetTransactionReceipt <==> capability@ is EthGetTransactionReceipt,
        capability is EthGetTransactionCount <==> capability@ is EthGetTransactionCount,
        capability is EthSendRawTransaction <==> capability@ is EthSendRawTransaction,
        capability is EthEstimateGas <==> capability@ is EthEstimateGas,
        capability is EthGasPrice <==> capability@ is EthGasPrice,
        capability is Subscribe <==> capability@ is Subscribe,
        capability matches RpcCapability::Other(name) ==> capability@ == CapabilityView::Other(
            name@,
        ),
{
}

/// An endpoint with nothing but a URL is free of every restriction: it serves
/// any method, has the first priority, no throttle, no cap and no headers, and
/// goes by its URL.
pub proof fn law_plain_endpoint_is_unrestricted(url: Seq<char>, capability: CapabilityView)
    ensures
        ({
            let plain = EndpointView::plain(url);
            &&& plain.url == url
            &&& plain.tag() == url
            &&& plain.supports(capability)
            &&& plain.priority == 0
            &&& plain.max_rps is None
            &&& plain.max_in_flight is None
            &&& plain.label is None
            &&& plain.auth.headers().len() == 0
        }),
{
}

/// A list of URLs is a ranking: the `i`-th has priority `i` and is otherwise
/// plain.
pub proof fn law_listed_urls_are_ranked(i: int, url: Seq<char>)
    requires
        0 <= i <= u32::MAX,
    ensures
        EndpointView::ranked(i, url).priority == i,
        (EndpointView { priority: 0, ..EndpointView::ranked(i, url) }) == EndpointView::plain(url),
{
}

/// What a configuration is when nothing but endpoints is given: it listens on
/// the local port 8545, leaves the timeout to the transport, and tries every
/// candidate.
pub proof fn law_default_configuration(endpoints: Seq<EndpointView>)
    ensures
        ({
            let config = ConfigView::with_endpoints(endpoints);
            &&& config.listen == "127.0.0.1:8545"@
            &&& config.request_timeout_ms is None
            &&& config.max_retries == 0
            &&& config.endpoints == endpoints
        }),
{
}

/// The endpoint at `i` is the first that is faulty.
pub open spec fn first_faulty(endpoints: Seq<EndpointView>, i: int) -> bool {
    &&& 0 <= i < endpoints.len()
    &&& forall|k: int|
        0 <= k < i ==> !is_blank((#[trigger] endpoints[k]).url) && forall|j: int|
            0 <= j < k ==> (#[trigger] endpoints[j]).url != endpoints[k].url
}

/// The first fault is the one that is told: an empty list, a blank URL, or else
/// a URL that was there before, by its name.
pub proof fn law_first_fault_is_told(config: ConfigView, i: int, earlier: int)
    ensures
        config.endpoints.len() == 0 ==> config.fault() == Some("endpoint list is empty"@),
        first_faulty(config.endpoints, i) && is_blank(config.endpoints[i].url) ==> config.fault()
            == Some("endpoint URL is empty"@),
        first_faulty(config.endpoints, i) && !is_blank(config.endpoints[i].url) && 0 <= earlier < i
            && config.endpoints[earlier].url == config.endpoints[i].url ==> config.fault() == Some(
            "duplicate endpoint URL: "@ + config.endpoints[i].url,
        ),
{
    if first_faulty(config.endpoints, i) {
        lemma_fault_from_first(config.endpoints, 0, i);
        if 0 <= earlier < i && config.endpoints[earlier].url == config.endpoints[i].url {
            assert(repeats(config.endpoints, i));
        }
    }
}

proof fn lemma_fault_from_first(endpoints: Seq<EndpointView>, from: int, i: int)
    requires
        first_faulty(endpoints, i),
        0 <= from <= i,
    ensures
        endpoint_fault(endpoints, from) == endpoint_fault(endpoints, i),
    decreases i - from,
{
    if from < i {
        assert(!is_blank(endpoints[from].url));
        assert(!repeats(endpoints, from)) by {
            if repeats(endpoints, from) {
                let j = choose|j: int|
                    0 <= j < from && #[trigger] endpoints[j].url == endpoints[from].url;
                assert(endpoints[j].url != endpoints[from].url);
            }
        }
        lemma_fault_from_first(endpoints, from + 1, i);
    }
}

/// A configuration that loads has every template replaced by its expansion: the
/// listen address, each URL, and each text of each authentication, which stays
/// of its kind.
pub proof fn law_loading_expands_every_template(
    config: ConfigView,
    env: Map<Seq<char>, Seq<char>>,
    i: int,
)
    requires
        config.load_fault(env) is None,
        0 <= i < config.endpoints.len(),
    ensures
        expanded(config.listen, env) == Ok::<Seq<char>, TemplateFault>(config.loaded(env).listen),
        ({
            let before = config.endpoints[i];
            let after = config.loaded(env).endpoints[i];
            &&& expanded(before.url, env) == Ok::<Seq<char>, TemplateFault>(after.url)
            &&& match before.auth {
                AuthView::NoAuth => after.auth is NoAuth,
                AuthView::UrlKey => after.auth is UrlKey,
                AuthView::Header { name, value } => {
                    &&& after.auth matches AuthView::Header { name: n, value: v }
                    &&& expanded(name, env) == Ok::<Seq<char>, TemplateFault>(n)
                    &&& expanded(value, env) == Ok::<Seq<char>, TemplateFault>(v)
                },
                AuthView::Bearer { token } => {
                    &&& after.auth matches AuthView::Bearer { token: t }
                    &&& expanded(token, env) == Ok::<Seq<char>, TemplateFault>(t)
                },
            }
            &&& match before.label {
                None => after.label is None,
                Some(label) => after.label matches Some(l) && expanded(label, env) == Ok::<
                    Seq<char>,
                    TemplateFault,
                >(l),
            }
        }),
        config.loaded(env).fault() is None,
{
    lemma_all_resolved(config.endpoints, env, i);
    lemma_label_fault(config.resolved(env).0.endpoints, env, 0, i);
}

/// A configuration without templates and without faults loads as it is
/// written.
pub proof fn law_plain_configuration_loads_as_written(
    config: ConfigView,
    env: Map<Seq<char>, Seq<char>>,
)
    requires
        config.fault() is None,
        opens_nothing(config.listen),
        forall|i: int, k: int|
            0 <= i < config.endpoints.len() && 0 <= k < config.endpoints[i].templates().len()
                ==> opens_nothing(#[trigger] config.endpoints[i].templates()[k]),
    ensures
        config.load_fault(env) is None,
        config.loaded(env) == config,
{
    law_plain_text_is_unchanged(config.listen, env);
    lemma_plain_endpoints(config.endpoints, env);
    let resolved = config.resolved(env).0;
    assert(resolved =~= config);
    lemma_plain_labels(config.endpoints, env, 0);
    assert(resolved.labels_expanded(env).endpoints =~= config.endpoints) by {
        assert forall|i: int| 0 <= i < config.endpoints.len() implies #[trigger] resolved.labels_expanded(
            env,
        ).endpoints[i] == config.endpoints[i] by {
            lemma_plain_endpoint(config.endpoints[i], env);
        }
    }
}

proof fn lemma_plain_endpoint(endpoint: EndpointView, env: Map<Seq<char>, Seq<char>>)
    requires
        forall|k: int|
            0 <= k < endpoint.templates().len() ==> opens_nothing(
                #[trigger] endpoint.templates()[k],
            ),
    ensures
        endpoint.resolved(env) == (endpoint, None::<Seq<char>>),
        label_expansion(endpoint.label, env) == Ok::<Option<Seq<char>>, Seq<char>>(endpoint.label),
        endpoint.label_expanded(env) == endpoint,
{
    let t = endpoint.templates();
    assert(t[0] == endpoint.url);
    law_plain_text_is_unchanged(endpoint.url, env);
    match endpoint.auth {
        AuthView::NoAuth | AuthView::UrlKey => {},
        AuthView::Header { name, value } => {
            assert(t[1] == name && t[2] == value);
            law_plain_text_is_unchanged(name, env);
            law_plain_text_is_unchanged(value, env);
        },
        AuthView::Bearer { token } => {
            assert(t[1] == token);
            law_plain_text_is_unchanged(token, env);
        },
    }
    if let Some(label) = endpoint.label {
        assert(t[t.len() - 1] == label);
        law_plain_text_is_unchanged(label, env);
    }
}

proof fn lemma_plain_endpoints(endpoints: Seq<EndpointView>, env: Map<Seq<char>, Seq<char>>)
    requires
        forall|i: int, k: int|
            0 <= i < endpoints.len() && 0 <= k < endpoints[i].templates().len() ==> opens_nothing(
                #[trigger] endpoints[i].templates()[k],
            ),
    ensures
        all_resolved(endpoints, env) == (endpoints, None::<Seq<char>>),
    decreases endpoints.len(),
{
    if endpoints.len() > 0 {
        let rest = endpoints.drop_first();
        assert forall|i: int, k: int|
            0 <= i < rest.len() && 0 <= k < rest[i].templates().len() implies opens_nothing(
            #[trigger] rest[i].templates()[k],
        ) by {
            assert(opens_nothing(endpoints[i + 1].templates()[k]));
        }
        lemma_plain_endpoint(endpoints[0], env);
        lemma_plain_endpoints(rest, env);
        assert(seq![endpoints[0]] + rest =~= endpoints);
    }
}

proof fn lemma_plain_labels(
    endpoints: Seq<EndpointView>,
    env: Map<Seq<char>, Seq<char>>,
    from: int,
)
    requires
        0 <= from <= endpoints.len(),
        forall|i: int, k: int|
            0 <= i < endpoints.len() && 0 <= k < endpoints[i].templates().len() ==> opens_nothing(
                #[trigger] endpoints[i].templates()[k],
            ),
    ensures
        label_fault(endpoints, env, from) is None,
    decreases endpoints.len() - from,
{
    if from < endpoints.len() {
        lemma_plain_endpoint(endpoints[from], env);
        lemma_plain_labels(endpoints, env, from + 1);
    }
}

/// The time allowed for each request is the one configured, in milliseconds, and
/// fifteen seconds where none is.
pub proof fn law_timeout_is_the_configured_one(config: &RpcPoolConfig, timeout: Duration)
    requires
        call_ensures(RpcPoolConfig::request_timeout, (config,), timeout),
    ensures
        config.request_timeout_ms matches Some(ms) ==> timeout.millis() == ms && timeout.nanos
            % 1_000_000 == 0,
        config.request_timeout_ms is None ==> timeout.millis() == 15_000 && timeout.nanos
            % 1_000_000 == 0,
{
}

/// Setting an endpoint's authentication sets nothing else.
pub proof fn law_auth_is_set_alone(endpoint: RpcEndpoint, auth: Auth, set: RpcEndpoint)
    requires
        call_ensures(RpcEndpoint::with_auth, (endpoint, auth), set),
    ensures
        set.auth == auth,
        set.url == endpoint.url,
        set.label == endpoint.label,
        set.priority == endpoint.priority,
        set.capabilities == endpoint.capabilities,
        set.max_rps == endpoint.max_rps,
        set.max_in_flight == endpoint.max_in_flight,
{
}

/// A configuration from plain URLs has them all, in order of preference.
pub proof fn law_plain_urls_are_ranked(urls: &[&str], config: RpcPoolConfig, i: int)
    requires
        call_ensures(RpcPoolConfig::from_urls, (urls,), config),
        0 <= i < urls@.len() <= u32::MAX,
    ensures
        config@.endpoints.len() == urls@.len(),
        config@.endpoints[i].url == urls@[i]@,
        config@.endpoints[i].priority == i,
        config@.endpoints[i].label is None,
        config@.endpoints[i].capabilities.len() == 0,
        config@.endpoints[i].max_rps is None,
        config@.endpoints[i].max_in_flight is None,
        config@.endpoints[i].auth.headers().len() == 0,
        config@.listen == "127.0.0.1:8545"@,
        config@.request_timeout_ms is None,
        config@.max_retries == 0,
{
}

/// Two methods are routed alike only where they are one method, or both belong
/// to subscriptions; and an endpoint that declares the one serves the other
/// only then.
pub proof fn law_methods_are_routed_apart(
    one: &str,
    other: &str,
    first: RpcCapability,
    second: RpcCapability,
    endpoint: EndpointView,
)
    requires
        call_ensures(RpcCapability::for_method, (one,), first),
        call_ensures(RpcCapability::for_method, (other,), second),
        one@ != other@,
        !(second@ is Subscribe),
        endpoint.capabilities == seq![first@],
    ensures
        first@ != second@,
        endpoint.supports(first@),
        !endpoint.supports(second@),
{
    law_capability_stands_for_its_method(one@);
    law_capability_stands_for_its_method(other@);
    if first@ == second@ {
        law_methods_do_not_share_a_capability(one@, other@);
        assert(capability_of(other@) is Subscribe);
    }
    assert(seq![first@][0] == first@);
}

} // verus!
