//! Dispatch, failover, routing and the proxy surface, driven by a scripted
//! upstream.

use drm3_rpc_pool::error::RpcError as PoolError;
use drm3_rpc_pool::metrics::MetricEvent;
use drm3_rpc_pool::pool::dispatch::{Dispatch, Event, Reply, Step};
use drm3_rpc_pool::pool::wire::{
    encode_request, parse_rpc_response, JsonRpcErrorBody, JsonRpcResponse, ResponseError,
};
use drm3_rpc_pool::proxy::{handle_one, health_report, respond, Exchange, Handled};
use drm3_rpc_pool::time::{Duration, Instant};
use drm3_rpc_pool::transport::http_outcome;
use drm3_rpc_pool::{
    Auth, BackoffPolicy, ForwardResult, Json, RpcCapability, RpcEndpoint, RpcError, RpcPool,
    RpcPoolConfig,
};
use serde_json::{Number, Value};

const SECOND: u128 = 1_000_000_000;

fn s(text: &str) -> Json {
    Json::Str(text.to_string())
}

fn to_json(value: &Value) -> Json {
    match value {
        Value::Null => Json::Null,
        Value::Bool(b) => Json::Bool(*b),
        Value::Number(n) => {
            if let Some(i) = n.as_i64() {
                Json::Int(i)
            } else if let Some(u) = n.as_u64() {
                Json::UInt(u)
            } else {
                Json::Float(n.to_string())
            }
        }
        Value::String(text) => Json::Str(text.clone()),
        Value::Array(items) => Json::Array(items.iter().map(to_json).collect()),
        Value::Object(members) => Json::Object(
            members
                .iter()
                .map(|(k, v)| (k.clone(), to_json(v)))
                .collect(),
        ),
    }
}

fn value(text: &str) -> Value {
    serde_json::from_str(text).unwrap()
}

fn json(text: &str) -> Json {
    to_json(&value(text))
}

fn shown(json: &Json) -> Value {
    value(&json.to_text())
}

/// What a transport's caller makes of a response body.
fn parse(bytes: &[u8]) -> Result<JsonRpcResponse, String> {
    let body: serde_json::Map<String, Value> = serde_json::from_slice(bytes).map_err(|e| e.to_string())?;
    Ok(JsonRpcResponse {
        result: body.get("result").map(to_json),
        error: body.get("error").filter(|e| !e.is_null()).map(|e| JsonRpcErrorBody {
            code: e["code"].as_i64().unwrap(),
            message: e["message"].as_str().unwrap().to_string(),
            data: e.get("data").map(to_json),
        }),
    })
}

fn ok_body(result: &str) -> Vec<u8> {
    format!("{{\"jsonrpc\":\"2.0\",\"id\":1,\"result\":{result}}}").into_bytes()
}

fn rpc_error_body(code: i64, message: &str) -> Vec<u8> {
    format!("{{\"jsonrpc\":\"2.0\",\"id\":1,\"error\":{{\"code\":{code},\"message\":\"{message}\"}}}}")
        .into_bytes()
}

type Handler = Box<dyn FnMut(&str, &[u8]) -> Result<Vec<u8>, String>>;

/// A pool with a clock, and a transport that answers by script and records what
/// it is asked.
struct Bench {
    pool: RpcPool,
    now: u128,
    handler: Handler,
    urls: Vec<String>,
    headers: Vec<Vec<(String, String)>>,
    bodies: Vec<Vec<u8>>,
    events: Vec<MetricEvent>,
}

impl Bench {
    fn new(
        config: RpcPoolConfig,
        backoff: BackoffPolicy,
        handler: impl FnMut(&str, &[u8]) -> Result<Vec<u8>, String> + 'static,
    ) -> Self {
        Bench {
            pool: RpcPool::new(config, backoff, Instant { nanos: SECOND }).unwrap(),
            now: SECOND,
            handler: Box::new(handler),
            urls: Vec::new(),
            headers: Vec::new(),
            bodies: Vec::new(),
            events: Vec::new(),
        }
    }

    fn now(&self) -> Instant {
        Instant { nanos: self.now }
    }

    fn begin(&self, method: &str) -> Dispatch {
        self.pool.begin(method, self.now())
    }

    fn send(&mut self, url: &str, headers: Vec<(String, String)>, body: Vec<u8>) -> Event {
        self.urls.push(url.to_string());
        self.headers.push(headers);
        let reply = match (self.handler)(url, &body) {
            Ok(bytes) => Reply::Body(parse(&bytes)),
            Err(message) => Reply::Failed(message),
        };
        self.bodies.push(body);
        Event::Reply {
            reply,
            latency: Duration::from_millis(5),
        }
    }

    fn call(&mut self, method: &str) -> Result<Json, RpcError> {
        let params = Json::Array(Vec::new());
        let mut call = self.begin(method);
        let mut event = Event::Start;
        loop {
            let now = self.now();
            let turn = self.pool.call(&mut call, event, now);
            self.events.extend(turn.events);
            match turn.step {
                Step::Done(outcome) => return outcome,
                Step::Send(attempt) => {
                    let body = attempt.body(&params);
                    event = self.send(&attempt.url, attempt.headers, body);
                }
            }
        }
    }

    fn forward(&mut self, method: &str, params: &Json) -> Result<ForwardResult, RpcError> {
        let mut call = self.begin(method);
        let mut event = Event::Start;
        loop {
            let now = self.now();
            let turn = self.pool.forward(&mut call, event, now);
            self.events.extend(turn.events);
            match turn.step {
                Step::Done(outcome) => return outcome,
                Step::Send(attempt) => {
                    let body = attempt.body(params);
                    event = self.send(&attempt.url, attempt.headers, body);
                }
            }
        }
    }

    fn post(&mut self, payload: &str) -> Value {
        let mut exchange = Exchange::open(json(payload));
        while let Some(request) = exchange.next() {
            let outcome = self.forward(&request.method, &request.params);
            exchange.answer(outcome);
        }
        shown(&exchange.close())
    }
}

fn cfg(urls: &[&str]) -> RpcPoolConfig {
    RpcPoolConfig::from_urls(urls)
}

fn never_cooling() -> BackoffPolicy {
    BackoffPolicy {
        demotion_threshold: 9999,
        base_delay: Duration::from_millis(1),
        max_delay: Duration::from_millis(1),
    }
}

// Basic dispatch.

#[test]
fn first_endpoint_success_returns_immediately() {
    let mut bench = Bench::new(
        cfg(&["https://a", "https://b"]),
        BackoffPolicy::tight(),
        |_url, _body| Ok(ok_body("\"0x1\"")),
    );
    let result = bench.call("eth_blockNumber").unwrap();
    assert_eq!(result, s("0x1"));
    assert_eq!(bench.urls.len(), 1);
    assert_eq!(bench.urls, vec!["https://a"]);
}

#[test]
fn rotates_past_failing_endpoint() {
    let mut bench = Bench::new(
        cfg(&["https://a", "https://b"]),
        BackoffPolicy::tight(),
        |url, _body| {
            if url == "https://a" {
                Err("connection refused".into())
            } else {
                Ok(ok_body("\"0x2\""))
            }
        },
    );
    let result = bench.call("eth_blockNumber").unwrap();
    assert_eq!(result, s("0x2"));
    assert_eq!(bench.urls, vec!["https://a", "https://b"]);
}

#[test]
fn all_endpoints_fail_returns_all_failed_error() {
    let mut bench = Bench::new(
        cfg(&["https://a", "https://b", "https://c"]),
        BackoffPolicy::tight(),
        |_url, _body| Err("boom".into()),
    );
    let err = bench.call("eth_blockNumber").unwrap_err();
    match err {
        RpcError::AllFailed {
            count, attempts, ..
        } => {
            assert_eq!(count, 3);
            assert_eq!(attempts.len(), 3);
        }
        other => panic!("expected AllFailed, got {other:?}"),
    }
}

// Priority ordering.

#[test]
fn priority_overrides_insertion_order() {
    let config = RpcPoolConfig {
        endpoints: vec![
            RpcEndpoint {
                priority: 10,
                ..RpcEndpoint::new("https://slow")
            },
            RpcEndpoint {
                priority: 1,
                ..RpcEndpoint::new("https://fast")
            },
        ],
        ..RpcPoolConfig::default()
    };
    let mut bench = Bench::new(config, BackoffPolicy::tight(), |_url, _body| {
        Ok(ok_body("\"ok\""))
    });
    bench.call("eth_blockNumber").unwrap();
    assert_eq!(bench.urls, vec!["https://fast"]);
}

#[test]
fn ties_keep_the_order_of_the_configuration() {
    let endpoint = |url: &str, priority: u32| RpcEndpoint {
        priority,
        ..RpcEndpoint::new(url)
    };
    let mut bench = Bench::new(
        RpcPoolConfig::with_endpoints(vec![
            endpoint("d", 2),
            endpoint("a", 1),
            endpoint("e", 2),
            endpoint("b", 1),
            endpoint("c", 1),
        ]),
        never_cooling(),
        |_url, _body| Err("down".into()),
    );
    let ranked: Vec<String> = bench.pool.endpoints().into_iter().map(|e| e.url).collect();
    assert_eq!(ranked, vec!["a", "b", "c", "d", "e"]);
    assert!(bench.call("m").is_err());
    assert_eq!(bench.urls, vec!["a", "b", "c", "d", "e"]);
    assert_eq!(bench.pool.len(), 5);
    assert!(!bench.pool.is_empty());
}

// Capability routing.

#[test]
fn capability_mismatch_skips_endpoint() {
    let config = RpcPoolConfig {
        endpoints: vec![
            RpcEndpoint {
                priority: 0,
                capabilities: vec![RpcCapability::EthCall],
                ..RpcEndpoint::new("https://call-only")
            },
            RpcEndpoint {
                priority: 1,
                capabilities: vec![RpcCapability::EthCall, RpcCapability::EthGetLogs],
                ..RpcEndpoint::new("https://logs-capable")
            },
        ],
        ..RpcPoolConfig::default()
    };
    let mut bench = Bench::new(config, BackoffPolicy::tight(), |url, _body| {
        if url == "https://logs-capable" {
            Ok(ok_body("[]"))
        } else {
            panic!("eth_getLogs should not have reached {url}");
        }
    });
    bench.call("eth_getLogs").unwrap();
    assert_eq!(bench.urls, vec!["https://logs-capable"]);
    assert!(bench.events.iter().any(|e| matches!(e,
        MetricEvent::SkippedIncapable { tag, method }
            if tag == "https://call-only" && method == "eth_getLogs")));
}

#[test]
fn no_candidates_error_when_no_endpoint_supports_method() {
    let config = RpcPoolConfig {
        endpoints: vec![RpcEndpoint {
            priority: 0,
            capabilities: vec![RpcCapability::EthCall],
            ..RpcEndpoint::new("https://call-only")
        }],
        ..RpcPoolConfig::default()
    };
    let mut bench = Bench::new(config, BackoffPolicy::tight(), |_url, _body| {
        Ok(ok_body("\"unreachable\""))
    });
    let err = bench.call("eth_getLogs").unwrap_err();
    assert!(matches!(err, RpcError::NoCandidates { .. }));
    assert_eq!(
        err.to_string(),
        "no healthy endpoints support method eth_getLogs: \
         considered=1 incapable=1 in_cooldown=0 rate_limited=0"
    );
}

// Health and backoff.

#[test]
fn repeated_failures_trigger_cooldown() {
    let mut bench = Bench::new(
        cfg(&["https://a", "https://b"]),
        BackoffPolicy {
            // Threshold = 0 so a single failure immediately demotes the
            // endpoint for the cooldown window. Cooldown of 1h prevents
            // recovery within the test.
            demotion_threshold: 0,
            base_delay: Duration::from_secs(3600),
            max_delay: Duration::from_secs(3600),
        },
        |url, _body| {
            if url == "https://a" {
                Err("busted".into())
            } else {
                Ok(ok_body("\"ok\""))
            }
        },
    );
    // First call: a fails once, b succeeds.
    bench.call("eth_blockNumber").unwrap();
    // Second call: a is in cooldown, should skip straight to b without
    // touching a again.
    bench.call("eth_blockNumber").unwrap();
    let tried_a = bench.urls.iter().filter(|u| *u == "https://a").count();
    assert_eq!(tried_a, 1);
    assert!(bench.events.iter().any(|e| matches!(e,
        MetricEvent::SkippedCooldown { tag, .. } if tag == "https://a")));
    // An hour later it is tried again.
    bench.now += 3600 * SECOND;
    bench.call("eth_blockNumber").unwrap();
    let tried_a = bench.urls.iter().filter(|u| *u == "https://a").count();
    assert_eq!(tried_a, 2);
}

#[test]
fn tests_success_resets_consecutive_failures() {
    let mut calls = 0;
    let mut bench = Bench::new(
        cfg(&["https://a"]),
        BackoffPolicy {
            demotion_threshold: 5,
            base_delay: Duration::from_millis(1),
            max_delay: Duration::from_millis(1),
        },
        move |_url, _body| {
            calls += 1;
            if calls == 1 {
                Err("first fails".into())
            } else {
                Ok(ok_body("\"ok\""))
            }
        },
    );
    // First call fails, but threshold = 5 so endpoint stays available.
    let _ = bench.call("eth_blockNumber");
    let _ = bench.call("eth_blockNumber");
    let status = bench.pool.status(bench.now());
    assert_eq!(status[0].health.total_successes, 1);
    assert_eq!(status[0].health.consecutive_failures, 0);
}

#[test]
fn jsonrpc_error_body_counts_as_failure() {
    let mut bench = Bench::new(
        cfg(&["https://a", "https://b"]),
        BackoffPolicy::tight(),
        |_url, _body| Ok(rpc_error_body(-32000, "rate limited")),
    );
    let err = bench.call("eth_blockNumber").unwrap_err();
    match err {
        RpcError::AllFailed { attempts, .. } => assert_eq!(
            attempts,
            vec![
                (
                    "https://a".to_string(),
                    "rpc error -32000 rate limited".to_string()
                ),
                (
                    "https://b".to_string(),
                    "rpc error -32000 rate limited".to_string()
                ),
            ]
        ),
        other => panic!("expected AllFailed, got {other:?}"),
    }
    assert_eq!(bench.urls.len(), 2);
}

// Metrics.

#[test]
fn metrics_hooks_fire_on_success_and_failure() {
    let mut bench = Bench::new(
        cfg(&["https://a", "https://b"]),
        BackoffPolicy::tight(),
        |url, _body| {
            if url == "https://a" {
                Err("nope".into())
            } else {
                Ok(ok_body("\"0x1\""))
            }
        },
    );
    bench.call("eth_blockNumber").unwrap();
    assert!(bench
        .events
        .iter()
        .any(|e| matches!(e, MetricEvent::Request { tag, .. } if tag == "https://a")));
    assert!(bench
        .events
        .iter()
        .any(|e| matches!(e, MetricEvent::Failure { tag, .. } if tag == "https://a")));
    assert!(bench
        .events
        .iter()
        .any(|e| matches!(e, MetricEvent::Success { tag, .. } if tag == "https://b")));
    assert_eq!(bench.events.len(), 4);
}

// Concurrency.

#[test]
fn concurrent_calls_are_safe() {
    let mut bench = Bench::new(
        cfg(&["https://a", "https://b", "https://c"]),
        BackoffPolicy::tight(),
        |_url, _body| Ok(ok_body("\"0x1\"")),
    );
    let now = bench.now();
    let mut calls: Vec<Dispatch> = Vec::new();
    for _ in 0..100 {
        let mut call = bench.begin("eth_blockNumber");
        let turn = bench.pool.call(&mut call, Event::Start, now);
        assert!(matches!(turn.step, Step::Send(_)));
        calls.push(call);
    }
    for call in &mut calls {
        assert!(bench.pool.has_room_for(call));
        let event = Event::Reply {
            reply: Reply::Body(parse(&ok_body("\"0x1\""))),
            latency: Duration::from_millis(1),
        };
        let turn = bench.pool.call(call, event, now);
        assert!(matches!(turn.step, Step::Done(Ok(_))));
    }
    let status = bench.pool.status(now);
    let total_success: u64 = status.iter().map(|s| s.health.total_successes).sum();
    assert_eq!(total_success, 100);
}

// Construction.

#[test]
fn empty_config_is_rejected() {
    let err = RpcPool::new(
        RpcPoolConfig::default(),
        BackoffPolicy::tight(),
        Instant { nanos: 0 },
    );
    assert!(matches!(err, Err(RpcError::Config(_))));
}

#[test]
fn call_with_timeout_returns_pool_timeout_error() {
    let mut bench = Bench::new(cfg(&["https://a"]), BackoffPolicy::tight(), |_url, _body| {
        Ok(ok_body("1"))
    });
    // A request that never completes is given up.
    let now = bench.now();
    let mut call = bench.begin("eth_blockNumber");
    let turn = bench.pool.call(&mut call, Event::Start, now);
    assert!(matches!(turn.step, Step::Send(_)));
    bench.pool.abandon(&mut call);
    let err = PoolError::pool_timeout("50ms");
    match &err {
        RpcError::Transport { endpoint, .. } => assert_eq!(endpoint, "<pool>"),
        other => panic!("expected transport timeout, got {other:?}"),
    }
    assert_eq!(
        err.to_string(),
        "transport error for <pool>: pool-wide timeout after 50ms"
    );
    let health = &bench.pool.status(now)[0].health;
    assert_eq!(health.total_requests, 0);
}

// Auth headers.

fn endpoint_with_auth(url: &str, auth: Auth) -> RpcPoolConfig {
    RpcPoolConfig {
        endpoints: vec![RpcEndpoint::new(url).with_auth(auth)],
        ..RpcPoolConfig::default()
    }
}

fn headers_sent(url: &str, auth: Auth) -> Vec<(String, String)> {
    let mut bench = Bench::new(
        endpoint_with_auth(url, auth),
        BackoffPolicy::tight(),
        |_url, _body| Ok(ok_body("\"0x1\"")),
    );
    bench.call("eth_blockNumber").unwrap();
    bench.headers.remove(0)
}

#[test]
fn auth_none_sends_no_headers() {
    assert!(headers_sent("https://a", Auth::NoAuth).is_empty());
}

#[test]
fn auth_url_key_sends_no_headers() {
    assert!(headers_sent("https://a/v2/key", Auth::UrlKey).is_empty());
}

#[test]
fn auth_custom_header_is_sent() {
    let sent = headers_sent(
        "https://a",
        Auth::Header {
            name: "X-API-Key".into(),
            value: "secret".into(),
        },
    );
    assert_eq!(sent, vec![("X-API-Key".into(), "secret".into())]);
}

#[test]
fn auth_bearer_is_sent() {
    let sent = headers_sent(
        "https://a",
        Auth::Bearer {
            token: "tok123".into(),
        },
    );
    assert_eq!(
        sent,
        vec![("Authorization".into(), "Bearer tok123".into())]
    );
}

// Throttling.

#[test]
fn max_rps_throttles_and_fails_over() {
    // First endpoint capped at 1 rps; second is unlimited. Burst of calls
    // should drain the first's single token, then fail over to the second.
    let cfg = RpcPoolConfig {
        endpoints: vec![
            RpcEndpoint {
                max_rps: Some(1),
                priority: 0,
                ..RpcEndpoint::new("https://capped")
            },
            RpcEndpoint {
                priority: 1,
                ..RpcEndpoint::new("https://spare")
            },
        ],
        ..RpcPoolConfig::default()
    };
    let mut bench = Bench::new(cfg, BackoffPolicy::tight(), |url, _body| {
        if url == "https://capped" {
            Ok(ok_body("\"from-capped\""))
        } else {
            Ok(ok_body("\"from-spare\""))
        }
    });
    // First call uses the capped endpoint's only token.
    let r1 = bench.call("eth_blockNumber").unwrap();
    assert_eq!(r1, s("from-capped"));
    // Immediately again: capped is out of tokens, fails over to spare.
    let r2 = bench.call("eth_blockNumber").unwrap();
    assert_eq!(r2, s("from-spare"));
}

#[test]
fn max_rps_only_one_endpoint_yields_no_candidates_when_drained() {
    let cfg = RpcPoolConfig {
        endpoints: vec![RpcEndpoint {
            max_rps: Some(1),
            ..RpcEndpoint::new("https://solo")
        }],
        ..RpcPoolConfig::default()
    };
    let mut bench = Bench::new(cfg, BackoffPolicy::tight(), |_url, _body| {
        Ok(ok_body("\"ok\""))
    });
    bench.call("eth_blockNumber").unwrap();
    let err = bench.call("eth_blockNumber").unwrap_err();
    match err {
        RpcError::NoCandidates { reason, .. } => assert!(reason.contains("rate_limited=1")),
        other => panic!("expected NoCandidates, got {other:?}"),
    }
}

// Retry budget.

#[test]
fn max_retries_caps_attempts() {
    // Three failing endpoints, but max_retries = 1 means only one is tried.
    let cfg = RpcPoolConfig {
        max_retries: 1,
        endpoints: vec![
            RpcEndpoint {
                priority: 0,
                ..RpcEndpoint::new("https://a")
            },
            RpcEndpoint {
                priority: 1,
                ..RpcEndpoint::new("https://b")
            },
            RpcEndpoint {
                priority: 2,
                ..RpcEndpoint::new("https://c")
            },
        ],
        ..RpcPoolConfig::default()
    };
    let mut bench = Bench::new(cfg, BackoffPolicy::tight(), |_url, _body| {
        Err("boom".into())
    });
    let err = bench.call("eth_blockNumber").unwrap_err();
    match err {
        RpcError::AllFailed { count, .. } => assert_eq!(count, 1),
        other => panic!("expected AllFailed, got {other:?}"),
    }
    assert_eq!(bench.urls.len(), 1);
}

#[test]
fn a_budget_of_two_reaches_the_second_endpoint() {
    let mut config = cfg(&["https://a", "https://b", "https://c"]);
    config.max_retries = 2;
    let mut bench = Bench::new(config, never_cooling(), |url, _body| {
        if url == "https://b" {
            Ok(ok_body("1"))
        } else {
            Err("down".into())
        }
    });
    assert_eq!(bench.call("m").unwrap(), Json::Int(1));
    assert_eq!(bench.urls, vec!["https://a", "https://b"]);
}

// Relay semantics.

#[test]
fn forward_relays_rpc_error_without_failover() {
    // First endpoint returns a JSON-RPC error envelope (a revert). forward()
    // must relay it and NOT fail over to the second.
    let mut bench = Bench::new(
        cfg(&["https://a", "https://b"]),
        BackoffPolicy::tight(),
        |url, _body| {
            if url == "https://a" {
                Ok(rpc_error_body(3, "execution reverted"))
            } else {
                Ok(ok_body("\"should-not-reach\""))
            }
        },
    );
    let r = bench.forward("eth_call", &Json::Array(vec![])).unwrap();
    match r {
        ForwardResult::Error { code, message, .. } => {
            assert_eq!(code, 3);
            assert_eq!(message, "execution reverted");
        }
        other => panic!("expected relayed Error, got {other:?}"),
    }
    assert_eq!(bench.urls.len(), 1);
    assert_eq!(bench.pool.status(bench.now())[0].health.total_successes, 1);
}

#[test]
fn forward_fails_over_on_transport_error() {
    let mut bench = Bench::new(
        cfg(&["https://a", "https://b"]),
        BackoffPolicy::tight(),
        |url, _body| {
            if url == "https://a" {
                Err("connection refused".into())
            } else {
                Ok(ok_body("\"0xrecovered\""))
            }
        },
    );
    let r = bench
        .forward("eth_blockNumber", &Json::Array(vec![]))
        .unwrap();
    match r {
        ForwardResult::Result(v) => assert_eq!(v, s("0xrecovered")),
        other => panic!("expected Result, got {other:?}"),
    }
    assert_eq!(bench.urls.len(), 2);
}

#[test]
fn forward_fails_over_on_useless_bodies() {
    for body in ["not json", "{\"jsonrpc\":\"2.0\",\"id\":1}", "{\"error\":null}"] {
        let mut bench = Bench::new(
            cfg(&["https://a", "https://b"]),
            BackoffPolicy::tight(),
            move |url, _body| {
                if url == "https://a" {
                    Ok(body.as_bytes().to_vec())
                } else {
                    Ok(ok_body("7"))
                }
            },
        );
        let r = bench.forward("m", &Json::Array(vec![])).unwrap();
        assert!(matches!(r, ForwardResult::Result(Json::Int(7))));
        let health = &bench.pool.status(bench.now())[0].health;
        assert_eq!(health.total_failures, 1);
        let error = health.last_error.clone().unwrap();
        if body == "not json" {
            assert!(error.starts_with("invalid json: "));
        } else {
            assert_eq!(error, "no result in response");
        }
    }
}

#[test]
fn a_null_result_is_an_answer() {
    let mut bench = Bench::new(
        cfg(&["https://a", "https://b"]),
        BackoffPolicy::tight(),
        |_url, _body| Ok(ok_body("null")),
    );
    assert_eq!(bench.call("eth_getTransactionReceipt").unwrap(), Json::Null);
    let relayed = bench.forward("eth_getTransactionReceipt", &Json::Array(vec![]));
    assert!(matches!(relayed, Ok(ForwardResult::Result(Json::Null))));
    assert_eq!(bench.urls, vec!["https://a", "https://a"]);
    let resp = bench.post("{\"id\":1,\"method\":\"eth_getTransactionReceipt\"}");
    assert_eq!(resp, value("{\"id\":1,\"jsonrpc\":\"2.0\",\"result\":null}"));
    assert_eq!(bench.pool.status(bench.now())[0].health.total_successes, 3);
}

#[test]
fn relayed_errors_keep_their_data() {
    for (data, shown) in [("", "{}"), (",\"data\":null", "{\"data\":null}"), (",\"data\":[1]", "{\"data\":[1]}")] {
        let body = format!("{{\"error\":{{\"code\":3,\"message\":\"m\"{data}}}}}");
        let mut bench = Bench::new(cfg(&["https://a"]), BackoffPolicy::tight(), move |_u, _b| {
            Ok(body.clone().into_bytes())
        });
        let mut error = bench.post("{\"id\":1,\"method\":\"m\"}")["error"].clone();
        let members = error.as_object_mut().unwrap();
        assert_eq!(members.remove("code"), Some(value("3")));
        assert_eq!(members.remove("message"), Some(value("\"m\"")));
        assert_eq!(error, value(shown));
    }
}

#[test]
fn each_request_carries_its_own_endpoints_auth() {
    let endpoint = |url: &str, priority: u32, auth: Auth| RpcEndpoint {
        priority,
        ..RpcEndpoint::new(url).with_auth(auth)
    };
    let mut bench = Bench::new(
        RpcPoolConfig::with_endpoints(vec![
            endpoint("b", 1, Auth::Bearer { token: "tb".into() }),
            endpoint("a", 0, Auth::Bearer { token: "ta".into() }),
            endpoint("c", 2, Auth::NoAuth),
        ]),
        never_cooling(),
        |_url, _body| Err("down".into()),
    );
    for _ in 0..2 {
        assert!(bench.call("m").is_err());
    }
    let sent: Vec<(&str, Vec<&str>)> = bench
        .urls
        .iter()
        .zip(&bench.headers)
        .map(|(url, headers)| {
            let values = headers.iter().map(|(_, value)| value.as_str()).collect();
            (url.as_str(), values)
        })
        .collect();
    let round = vec![
        ("a", vec!["Bearer ta"]),
        ("b", vec!["Bearer tb"]),
        ("c", vec![]),
    ];
    assert_eq!(sent[..3], round[..]);
    assert_eq!(sent[3..], round[..]);
}

// HTTP statuses, as the transport reports them.

fn upstream(script: &'static [(&'static str, u16, &'static str)]) -> Handler {
    Box::new(move |url, _body| {
        let (_, status, body) = script.iter().find(|(u, _, _)| *u == url).unwrap();
        http_outcome(*status, body.as_bytes().to_vec())
    })
}

#[test]
fn a_2xx_body_is_the_answer() {
    let mut bench = Bench::new(
        cfg(&["http://up"]),
        BackoffPolicy::tight(),
        upstream(&[(
            "http://up",
            200,
            "{\"jsonrpc\":\"2.0\",\"id\":1,\"result\":\"0xdeadbeef\"}",
        )]),
    );
    assert_eq!(bench.call("eth_blockNumber").unwrap(), s("0xdeadbeef"));
}

#[test]
fn rate_limit_response_fails_over_to_next_endpoint() {
    let mut bench = Bench::new(
        cfg(&["http://limited", "http://healthy"]),
        BackoffPolicy::tight(),
        upstream(&[
            ("http://limited", 429, "{\"error\":\"rate limited\"}"),
            ("http://healthy", 200, "{\"result\":\"0x1\"}"),
        ]),
    );
    assert_eq!(bench.call("eth_blockNumber").unwrap(), s("0x1"));
}

#[test]
fn server_5xx_counts_as_failure_and_fails_over() {
    let mut bench = Bench::new(
        cfg(&["http://broken", "http://healthy"]),
        BackoffPolicy::tight(),
        upstream(&[
            ("http://broken", 500, "boom"),
            ("http://healthy", 200, "{\"result\":\"0x99\"}"),
        ]),
    );
    assert_eq!(bench.call("eth_blockNumber").unwrap(), s("0x99"));
    let health = &bench.pool.status(bench.now())[0].health;
    assert_eq!(health.total_failures, 1);
    assert_eq!(health.last_error.as_deref(), Some("http 500 boom"));
}

#[test]
fn all_endpoints_broken_reports_all_failed_with_details() {
    let mut bench = Bench::new(
        cfg(&["http://a", "http://b"]),
        BackoffPolicy::tight(),
        upstream(&[("http://a", 500, "boom"), ("http://b", 429, "slow down")]),
    );
    let err = bench.call("eth_blockNumber").unwrap_err();
    match err {
        RpcError::AllFailed { attempts, .. } => {
            assert_eq!(attempts.len(), 2);
            let urls: Vec<_> = attempts.iter().map(|a| a.0.clone()).collect();
            assert!(urls.contains(&"http://a".to_string()));
            assert!(urls.contains(&"http://b".to_string()));
        }
        other => panic!("expected AllFailed, got {other:?}"),
    }
}

// Load-aware routing.

fn start(bench: &mut Bench) -> (Dispatch, String) {
    let now = bench.now();
    let mut call = bench.begin("m");
    match bench.pool.call(&mut call, Event::Start, now).step {
        Step::Send(attempt) => (call, attempt.url),
        Step::Done(outcome) => panic!("expected a request, got {outcome:?}"),
    }
}

#[test]
fn peers_share_concurrent_load() {
    let peer = |url: &str| RpcEndpoint {
        priority: 1,
        ..RpcEndpoint::new(url)
    };
    let mut bench = Bench::new(
        RpcPoolConfig::with_endpoints(vec![peer("a"), peer("b"), peer("c")]),
        never_cooling(),
        |_url, _body| Ok(ok_body("1")),
    );
    let mut order = Vec::new();
    let mut calls = Vec::new();
    for _ in 0..7 {
        let (call, url) = start(&mut bench);
        order.push(url);
        calls.push(call);
    }
    assert_eq!(order, vec!["a", "b", "c", "a", "b", "c", "a"]);
    // b frees its slots and is the least loaded peer.
    bench.pool.abandon(&mut calls[1]);
    bench.pool.abandon(&mut calls[4]);
    assert_eq!(start(&mut bench).1, "b");
}

#[test]
fn a_capped_primary_spills_over_and_is_the_last_resort() {
    let mut bench = Bench::new(
        RpcPoolConfig::with_endpoints(vec![
            RpcEndpoint {
                max_in_flight: Some(2),
                ..RpcEndpoint::new("primary")
            },
            RpcEndpoint {
                priority: 5,
                ..RpcEndpoint::new("spare")
            },
        ]),
        never_cooling(),
        |url, _body| {
            if url == "spare" {
                Err("down".into())
            } else {
                Ok(ok_body("1"))
            }
        },
    );
    let mut calls = Vec::new();
    let mut order = Vec::new();
    for _ in 0..4 {
        let (call, url) = start(&mut bench);
        order.push(url);
        calls.push(call);
    }
    assert_eq!(order, vec!["primary", "primary", "spare", "spare"]);
    // Saturated is not forbidden: with the spare down the primary is asked.
    assert_eq!(bench.call("m").unwrap(), Json::Int(1));
    assert_eq!(bench.urls, vec!["spare", "primary"]);
    // Below its cap the primary comes first again.
    bench.pool.abandon(&mut calls[0]);
    assert_eq!(start(&mut bench).1, "primary");
}

#[test]
fn a_finished_call_leaves_no_load_behind() {
    let mut bench = Bench::new(
        RpcPoolConfig::with_endpoints(vec![
            RpcEndpoint {
                max_in_flight: Some(1),
                ..RpcEndpoint::new("a")
            },
            RpcEndpoint {
                priority: 1,
                ..RpcEndpoint::new("b")
            },
        ]),
        never_cooling(),
        |_url, _body| Err("down".into()),
    );
    for _ in 0..3 {
        assert!(bench.call("m").is_err());
    }
    assert_eq!(bench.urls, vec!["a", "b", "a", "b", "a", "b"]);
}

// Whole-call properties.

#[test]
fn always_succeeds_if_any_endpoint_is_healthy() {
    for bad in 0..6u32 {
        let mut endpoints: Vec<RpcEndpoint> = (0..bad)
            .map(|i| RpcEndpoint {
                priority: i,
                ..RpcEndpoint::new(&format!("https://bad-{i}"))
            })
            .collect();
        endpoints.push(RpcEndpoint {
            priority: 1000,
            ..RpcEndpoint::new("https://healthy")
        });
        let mut bench = Bench::new(
            RpcPoolConfig::with_endpoints(endpoints),
            never_cooling(),
            |url, _body| {
                if url == "https://healthy" {
                    Ok(ok_body("\"ok\""))
                } else {
                    Err("scripted failure".into())
                }
            },
        );
        assert!(bench.call("eth_blockNumber").is_ok());
        assert_eq!(bench.urls.len(), bad as usize + 1);
    }
}

#[test]
fn total_transport_calls_at_least_invocations() {
    // Endpoint e fails its k-th request when bit k of its script is set.
    for scripts in [[0u32, 0, 0], [0b1011, 0b0110, 0b1], [!0, !0, !0], [0b101, !0, 0b10]] {
        let mut counts = [0u32; 3];
        let mut bench = Bench::new(
            cfg(&["https://a", "https://b", "https://c"]),
            BackoffPolicy {
                demotion_threshold: 999,
                base_delay: Duration::from_millis(1),
                max_delay: Duration::from_millis(1),
            },
            move |url, _body| {
                let e = match url {
                    "https://a" => 0,
                    "https://b" => 1,
                    _ => 2,
                };
                let failed = scripts[e] >> counts[e] & 1 == 1;
                counts[e] += 1;
                if failed {
                    Err("scripted failure".into())
                } else {
                    Ok(ok_body("1"))
                }
            },
        );
        let mut answered = 0u64;
        for _ in 0..16 {
            if bench.call("eth_blockNumber").is_ok() {
                answered += 1;
            }
        }
        assert!(bench.urls.len() >= 16);
        let status = bench.pool.status(bench.now());
        let successes: u64 = status.iter().map(|s| s.health.total_successes).sum();
        let failures: u64 = status.iter().map(|s| s.health.total_failures).sum();
        assert_eq!(successes, answered);
        assert_eq!((successes + failures) as usize, bench.urls.len());
    }
}

#[test]
fn requests_are_numbered_from_one() {
    let mut bench = Bench::new(cfg(&["a", "b"]), never_cooling(), |url, _body| {
        if url == "a" {
            Err("down".into())
        } else {
            Ok(ok_body("1"))
        }
    });
    bench.call("m").unwrap();
    bench.call("m").unwrap();
    let ids: Vec<u64> = bench
        .bodies
        .iter()
        .map(|b| serde_json::from_slice::<Value>(b).unwrap()["id"].as_u64().unwrap())
        .collect();
    assert_eq!(ids, vec![1, 2, 3, 4]);
}

#[test]
fn throttled_endpoints_are_passed_over_silently() {
    let mut bench = Bench::new(
        RpcPoolConfig::with_endpoints(vec![RpcEndpoint {
            max_rps: Some(1),
            label: Some("solo".into()),
            ..RpcEndpoint::new("https://solo")
        }]),
        never_cooling(),
        |_url, _body| Ok(ok_body("1")),
    );
    bench.call("m").unwrap();
    assert_eq!(bench.events.len(), 2);
    assert!(matches!(&bench.events[0],
        MetricEvent::Request { tag, method } if tag == "solo" && method == "m"));
    assert!(bench.call("m").is_err());
    assert_eq!(bench.events.len(), 2);
    bench.now += SECOND;
    assert!(bench.call("m").is_ok());
}

#[test]
fn a_failure_accounts_for_every_endpoint() {
    let mut bench = Bench::new(
        RpcPoolConfig::with_endpoints(vec![
            RpcEndpoint {
                capabilities: vec![RpcCapability::EthCall],
                ..RpcEndpoint::new("incapable")
            },
            RpcEndpoint {
                priority: 1,
                ..RpcEndpoint::new("cooling")
            },
            RpcEndpoint {
                priority: 2,
                max_rps: Some(1),
                ..RpcEndpoint::new("throttled")
            },
        ]),
        BackoffPolicy {
            demotion_threshold: 0,
            base_delay: Duration::from_secs(3600),
            max_delay: Duration::from_secs(3600),
        },
        |url, _body| {
            if url == "cooling" {
                Err("down".into())
            } else {
                Ok(ok_body("1"))
            }
        },
    );
    bench.call("m").unwrap();
    let before = bench.pool.status(bench.now());
    match bench.call("m").unwrap_err() {
        RpcError::NoCandidates { method, reason } => {
            assert_eq!(method, "m");
            assert_eq!(
                reason,
                "considered=3 incapable=1 in_cooldown=1 rate_limited=1"
            );
        }
        other => panic!("expected NoCandidates, got {other:?}"),
    }
    // Being passed over costs an endpoint nothing.
    let after = bench.pool.status(bench.now());
    for (b, a) in before.iter().zip(&after) {
        assert_eq!(b.health.total_requests, a.health.total_requests);
        assert_eq!(b.health.consecutive_failures, a.health.consecutive_failures);
    }
}

#[test]
fn interleaved_calls_are_numbered_and_counted() {
    let peer = |url: &str| RpcEndpoint::new(url);
    let mut bench = Bench::new(
        RpcPoolConfig::with_endpoints(vec![peer("a"), peer("b"), peer("c")]),
        never_cooling(),
        |_url, _body| Ok(ok_body("1")),
    );
    let now = bench.now();
    let mut ids: Vec<u64> = Vec::new();
    let mut waiting: Vec<(Dispatch, String)> = Vec::new();
    let (mut answered, mut failed, mut given_up) = (0u64, 0u64, 0u64);
    for round in 0..60u64 {
        // A new call, and then a reply to the one that has waited longest.
        let mut call = bench.begin("m");
        match bench.pool.call(&mut call, Event::Start, now).step {
            Step::Send(attempt) => {
                ids.push(attempt.id);
                waiting.push((call, attempt.url));
            }
            Step::Done(outcome) => panic!("expected a request, got {outcome:?}"),
        }
        if round % 3 == 0 {
            continue;
        }
        let (mut call, url) = waiting.remove(0);
        if round % 7 == 0 {
            bench.pool.abandon(&mut call);
            given_up += 1;
            continue;
        }
        let reply = if url == "a" {
            failed += 1;
            Reply::Failed("down".into())
        } else {
            Reply::Body(parse(&ok_body("1")))
        };
        let event = Event::Reply {
            reply,
            latency: Duration::from_millis(1),
        };
        match bench.pool.call(&mut call, event, now).step {
            Step::Send(attempt) => {
                ids.push(attempt.id);
                waiting.push((call, attempt.url));
            }
            Step::Done(outcome) => {
                assert!(outcome.is_ok());
                answered += 1;
            }
        }
    }
    let numbers: Vec<u64> = (1..=ids.len() as u64).collect();
    assert_eq!(ids, numbers);
    let status = bench.pool.status(now);
    let successes: u64 = status.iter().map(|s| s.health.total_successes).sum();
    let failures: u64 = status.iter().map(|s| s.health.total_failures).sum();
    assert_eq!(successes, answered);
    assert_eq!(failures, failed);
    assert!(answered > 0 && failed > 0 && given_up > 0);
    // Once nothing waits, calls go by rank again.
    for (mut call, _) in waiting {
        bench.pool.abandon(&mut call);
    }
    assert_eq!(start(&mut bench).1, "a");
    assert_eq!(start(&mut bench).1, "b");
    assert_eq!(start(&mut bench).1, "c");
}

// Wire format.

#[test]
fn requests_are_what_serde_json_writes() {
    for params in [
        "[]",
        "null",
        "{}",
        "[1,-2,18446744073709551615,1.5,1e300,true,false,null]",
        "[\"a\\\"b\\\\c\\n\\r\\t\\b\\f\\u0000\\u001f\\u007f\\u20ac\\ud83d\\ude00/\"]",
        "[{\"to\":\"0x0\",\"data\":[[],[{}]]},\"latest\"]",
    ] {
        let parsed = value(params);
        for method in ["eth_call", "odd\"name\n\u{1}"] {
            let mut request = serde_json::Map::new();
            request.insert("jsonrpc".into(), Value::String("2.0".into()));
            request.insert("id".into(), Value::Number(Number::from(12u64)));
            request.insert("method".into(), Value::String(method.into()));
            request.insert("params".into(), parsed.clone());
            let bytes = encode_request(12, method, &to_json(&parsed));
            let back: Value = serde_json::from_slice(&bytes).unwrap();
            assert_eq!(back, Value::Object(request));
            let text = String::from_utf8(bytes).unwrap();
            assert_eq!(
                text,
                format!(
                    "{{\"jsonrpc\":\"2.0\",\"id\":12,\"method\":{},\"params\":{}}}",
                    serde_json::to_string(method).unwrap(),
                    serde_json::to_string(&parsed).unwrap()
                )
            );
        }
    }
}

#[test]
fn responses_are_read_by_their_error_first() {
    let body = |text: &str| parse(text.as_bytes());
    assert_eq!(
        parse_rpc_response(body("{\"result\":5}")).unwrap(),
        Json::Int(5)
    );
    match parse_rpc_response(body("{\"result\":5,\"error\":{\"code\":-1,\"message\":\"m\"}}")) {
        Err(ResponseError::RpcError { code, message }) => {
            assert_eq!((code, message.as_str()), (-1, "m"))
        }
        other => panic!("expected RpcError, got {other:?}"),
    }
    assert!(matches!(
        parse_rpc_response(body("{}")),
        Err(ResponseError::EmptyResult)
    ));
    match parse_rpc_response(Err("eof".into())) {
        Err(e) => assert_eq!(e.to_string(), "invalid json: eof"),
        other => panic!("expected InvalidJson, got {other:?}"),
    }
}

#[test]
fn error_words() {
    let transport = RpcError::transport("https://a", "reset");
    assert_eq!(
        transport.to_string(),
        "transport error for https://a: reset"
    );
    let rpc = RpcError::JsonRpc {
        endpoint: "https://a".into(),
        code: i64::MIN,
        message: "m".into(),
    };
    assert_eq!(
        rpc.to_string(),
        "rpc error from https://a: -9223372036854775808 m"
    );
    let malformed = RpcError::Malformed {
        endpoint: "https://a".into(),
        message: "m".into(),
    };
    assert_eq!(
        malformed.to_string(),
        "malformed response from https://a: m"
    );
    assert_eq!(
        RpcError::Config("c".into()).to_string(),
        "invalid configuration: c"
    );
    let failed = RpcError::AllFailed {
        method: "m".into(),
        count: 10,
        attempts: vec![],
    };
    assert_eq!(failed.to_string(), "all 10 RPC endpoints failed for m");
}

// The proxy surface.

#[test]
fn proxy_forwards_single_request() {
    let mut bench = Bench::new(cfg(&["http://up"]), BackoffPolicy::default(), |_u, _b| {
        Ok(ok_body("\"0xabc\""))
    });
    let resp =
        bench.post("{\"jsonrpc\":\"2.0\",\"id\":42,\"method\":\"eth_blockNumber\",\"params\":[]}");
    assert_eq!(resp["result"], value("\"0xabc\""));
    // Client id is preserved.
    assert_eq!(resp["id"], value("42"));
    assert_eq!(resp["jsonrpc"], value("\"2.0\""));
}

#[test]
fn proxy_fails_over_on_429() {
    let mut bench = Bench::new(
        cfg(&["http://bad", "http://good"]),
        BackoffPolicy::default(),
        upstream(&[
            ("http://bad", 429, "{}"),
            ("http://good", 200, "{\"result\":\"0x1\"}"),
        ]),
    );
    let resp =
        bench.post("{\"jsonrpc\":\"2.0\",\"id\":1,\"method\":\"eth_chainId\",\"params\":[]}");
    assert_eq!(resp["result"], value("\"0x1\""));
}

#[test]
fn proxy_relays_jsonrpc_error_without_failover() {
    // First upstream returns a revert; proxy must relay it, not fail over.
    let mut bench = Bench::new(
        cfg(&["http://revert", "http://fallback"]),
        BackoffPolicy::default(),
        |url, _body| {
            if url == "http://revert" {
                Ok(rpc_error_body(3, "execution reverted"))
            } else {
                Ok(ok_body("\"unreached\""))
            }
        },
    );
    let resp = bench.post("{\"jsonrpc\":\"2.0\",\"id\":7,\"method\":\"eth_call\",\"params\":[]}");
    assert_eq!(resp["error"]["code"], value("3"));
    assert_eq!(resp["error"]["message"], value("\"execution reverted\""));
    assert_eq!(resp["id"], value("7"));
}

#[test]
fn proxy_handles_batch_requests() {
    let mut bench = Bench::new(cfg(&["http://up"]), BackoffPolicy::default(), |_u, _b| {
        Ok(ok_body("\"0x5\""))
    });
    let resp = bench.post(
        "[{\"jsonrpc\":\"2.0\",\"id\":1,\"method\":\"eth_blockNumber\",\"params\":[]},\
          {\"jsonrpc\":\"2.0\",\"id\":2,\"method\":\"eth_chainId\",\"params\":[]}]",
    );
    let arr = resp.as_array().unwrap();
    assert_eq!(arr.len(), 2);
    assert_eq!(arr[0]["id"], value("1"));
    assert_eq!(arr[1]["id"], value("2"));
    assert_eq!(arr[0]["result"], value("\"0x5\""));
}

#[test]
fn proxy_all_upstreams_down_returns_error_envelope() {
    let mut bench = Bench::new(
        cfg(&["http://a", "http://b"]),
        BackoffPolicy::default(),
        upstream(&[("http://a", 429, ""), ("http://b", 429, "")]),
    );
    let resp =
        bench.post("{\"jsonrpc\":\"2.0\",\"id\":9,\"method\":\"eth_blockNumber\",\"params\":[]}");
    assert!(resp["error"].is_object());
    assert_eq!(resp["id"], value("9"));
    assert_eq!(
        resp["error"],
        value(
            "{\"code\":-32010,\"message\":\
             \"all upstreams failed: all 2 RPC endpoints failed for eth_blockNumber\"}"
        )
    );
}

#[test]
fn proxy_missing_method_is_invalid_request() {
    let mut bench = Bench::new(cfg(&["http://up"]), BackoffPolicy::default(), |_u, _b| {
        Ok(ok_body("\"x\""))
    });
    let resp = bench.post("{\"jsonrpc\":\"2.0\",\"id\":1}");
    assert_eq!(resp["error"]["code"], value("-32600"));
    assert_eq!(
        resp["error"]["message"],
        value("\"Invalid Request: missing method\"")
    );
    assert!(bench.urls.is_empty());
}

#[test]
fn health_and_metrics_endpoints() {
    let bench = Bench::new(cfg(&["http://up"]), BackoffPolicy::default(), |_u, _b| {
        Ok(ok_body("\"0x1\""))
    });
    let statuses = bench.pool.status(bench.now());
    let health = health_report(&statuses);
    assert_eq!(health.status, "ok");
    assert_eq!(health.endpoints_total, 1);
    // What the metrics route lists.
    let endpoints: Vec<&str> = statuses.iter().map(|s| s.endpoint.url.as_str()).collect();
    assert_eq!(endpoints, vec!["http://up"]);
}

#[test]
fn health_report_counts_and_empty_pools() {
    let mut bench = Bench::new(
        cfg(&["http://up", "http://other"]),
        BackoffPolicy::default(),
        |url, _body| {
            if url == "http://up" {
                Err("down".into())
            } else {
                Ok(ok_body("\"0x1\""))
            }
        },
    );
    let report = health_report(&bench.pool.status(bench.now()));
    assert_eq!(report.status, "ok");
    assert_eq!(report.code, 200);
    assert_eq!(report.endpoints_total, 2);
    assert_eq!(report.endpoints_healthy, 2);
    bench.call("m").unwrap();
    let report = health_report(&bench.pool.status(bench.now()));
    assert_eq!(report.endpoints_healthy, 1);
    let empty = health_report(&Vec::new());
    assert_eq!((empty.code, empty.status), (503, "empty"));
}

#[test]
fn batches_mix_good_and_bad_requests() {
    let mut bench = Bench::new(cfg(&["http://up"]), BackoffPolicy::default(), |_u, body| {
        let request: Value = serde_json::from_slice(body).unwrap();
        Ok(ok_body(&request["params"].to_string()))
    });
    let resp = bench.post(
        "[7,{\"id\":\"x\",\"method\":5},{\"method\":\"m\",\"params\":{\"a\":[1]}},\
          {\"id\":[1],\"method\":\"m\"},{}]",
    );
    let arr = resp.as_array().unwrap();
    assert_eq!(arr.len(), 5);
    assert_eq!(arr[0]["error"]["code"], value("-32600"));
    assert_eq!(arr[0]["id"], Value::Null);
    assert_eq!(arr[1]["id"], value("\"x\""));
    assert_eq!(arr[1]["error"]["code"], value("-32600"));
    assert_eq!(arr[2]["id"], Value::Null);
    assert_eq!(arr[2]["result"], value("{\"a\":[1]}"));
    assert_eq!(arr[3]["id"], value("[1]"));
    assert_eq!(arr[3]["result"], value("[]"));
    assert_eq!(arr[4]["error"]["code"], value("-32600"));
    assert_eq!(bench.post("[]"), value("[]"));
}

#[test]
fn replies_are_written_member_by_member() {
    let reply = respond(
        json("\"i\""),
        Ok(ForwardResult::Error {
            code: -3,
            message: "m".into(),
            data: Some(json("{\"d\":1}")),
        }),
    );
    assert_eq!(
        reply.to_text(),
        "{\"error\":{\"code\":-3,\"data\":{\"d\":1},\"message\":\"m\"},\
         \"id\":\"i\",\"jsonrpc\":\"2.0\"}"
    );
    let reply = respond(Json::Null, Ok(ForwardResult::Result(Json::Bool(true))));
    assert_eq!(
        reply.to_text(),
        "{\"id\":null,\"jsonrpc\":\"2.0\",\"result\":true}"
    );
    let reply = respond(
        Json::Int(1),
        Err(RpcError::NoCandidates {
            method: "m".into(),
            reason: "r".into(),
        }),
    );
    assert_eq!(
        shown(&reply)["error"],
        value(
            "{\"code\":-32011,\"message\":\
             \"no healthy endpoints: no healthy endpoints support method m: r\"}"
        )
    );
    let reply = respond(Json::Int(1), Err(RpcError::Config("c".into())));
    assert_eq!(
        shown(&reply)["error"],
        value(
            "{\"code\":-32603,\"message\":\"proxy error: invalid configuration: c\"}"
        )
    );
}

#[test]
fn a_repeated_member_counts_by_its_last_value() {
    let twice = Json::Object(vec![
        ("id".into(), Json::Int(1)),
        ("method".into(), s("first")),
        ("id".into(), Json::Int(2)),
        ("method".into(), s("second")),
    ]);
    match handle_one(twice) {
        Handled::Forward { id, method, params } => {
            assert_eq!(id, Json::Int(2));
            assert_eq!(method, "second");
            assert_eq!(params, Json::Array(vec![]));
        }
        other => panic!("expected Forward, got {other:?}"),
    }
}
