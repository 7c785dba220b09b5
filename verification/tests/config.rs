use drm3_rpc_pool::config::RpcPoolConfig as Config;
use drm3_rpc_pool::env::Environment;
use drm3_rpc_pool::{
    expand_env, Auth, RpcCapability, RpcEndpoint, RpcError, RpcPoolConfig, DEFAULT_LISTEN,
};

fn environment(vars: &[(&str, &str)]) -> Environment {
    Environment::new(
        vars.iter()
            .map(|(name, value)| (name.to_string(), value.to_string()))
            .collect(),
    )
}

fn text(table: &toml::Table, key: &str) -> Option<String> {
    table.get(key).and_then(|v| v.as_str()).map(|s| s.to_string())
}

fn number(table: &toml::Table, key: &str) -> Option<i64> {
    table.get(key).and_then(|v| v.as_integer())
}

fn auth_of(table: &toml::Table) -> Auth {
    match text(table, "type").as_deref() {
        Some("url_key") => Auth::UrlKey,
        Some("header") => Auth::Header {
            name: text(table, "name").unwrap(),
            value: text(table, "value").unwrap(),
        },
        Some("bearer") => Auth::Bearer {
            token: text(table, "token").unwrap(),
        },
        _ => Auth::NoAuth,
    }
}

fn endpoint_of(table: &toml::Table) -> RpcEndpoint {
    RpcEndpoint {
        url: text(table, "url").unwrap(),
        label: text(table, "label"),
        priority: number(table, "priority").unwrap_or(0) as u32,
        capabilities: table
            .get("capabilities")
            .and_then(|v| v.as_array())
            .map(|names| {
                names
                    .iter()
                    .map(|n| RpcCapability::from_name(n.as_str().unwrap()))
                    .collect()
            })
            .unwrap_or_default(),
        max_rps: number(table, "max_rps").map(|n| n as u32),
        max_in_flight: number(table, "max_in_flight").map(|n| n as u32),
        auth: table
            .get("auth")
            .and_then(|v| v.as_table())
            .map(auth_of)
            .unwrap_or_default(),
    }
}

fn parse(source: &str) -> Result<RpcPoolConfig, String> {
    let table: toml::Table = toml::from_str(source).map_err(|e| e.to_string())?;
    Ok(RpcPoolConfig {
        listen: text(&table, "listen").unwrap_or_else(|| DEFAULT_LISTEN.to_string()),
        request_timeout_ms: number(&table, "request_timeout_ms").map(|n| n as u64),
        max_retries: number(&table, "max_retries").unwrap_or(0) as u32,
        endpoints: table
            .get("endpoints")
            .and_then(|v| v.as_array())
            .map(|list| {
                list.iter()
                    .map(|e| endpoint_of(e.as_table().unwrap()))
                    .collect()
            })
            .unwrap_or_default(),
    })
}

#[test]
fn empty_capabilities_supports_anything() {
    let ep = RpcEndpoint::new("https://rpc");
    assert!(ep.supports(&RpcCapability::EthGetLogs));
    assert!(ep.supports(&RpcCapability::Other("debug_traceCall".into())));
}

#[test]
fn explicit_capabilities_exclude_others() {
    let ep = RpcEndpoint {
        capabilities: vec![RpcCapability::EthCall],
        ..RpcEndpoint::new("https://rpc")
    };
    assert!(ep.supports(&RpcCapability::EthCall));
    assert!(!ep.supports(&RpcCapability::EthGetLogs));
}

#[test]
fn validate_rejects_empty_pool() {
    let cfg = RpcPoolConfig::default();
    assert!(cfg.validate().is_err());
}

#[test]
fn validate_rejects_duplicate_urls() {
    let cfg = RpcPoolConfig::from_urls(&["https://rpc.a", "https://rpc.a"]);
    assert!(cfg.validate().is_err());
}

#[test]
fn validate_accepts_priority_ties() {
    let cfg = RpcPoolConfig {
        endpoints: vec![
            RpcEndpoint {
                url: "https://a".into(),
                priority: 5,
                ..RpcEndpoint::new("https://a")
            },
            RpcEndpoint {
                url: "https://b".into(),
                priority: 5,
                ..RpcEndpoint::new("https://b")
            },
        ],
        ..RpcPoolConfig::default()
    };
    assert!(cfg.validate().is_ok());
}

#[test]
fn capability_for_known_methods() {
    assert_eq!(RpcCapability::for_method("eth_call"), RpcCapability::EthCall);
    assert_eq!(
        RpcCapability::for_method("eth_getLogs"),
        RpcCapability::EthGetLogs
    );
    assert_eq!(
        RpcCapability::for_method("eth_subscribe"),
        RpcCapability::Subscribe
    );
}

#[test]
fn capability_for_unknown_method() {
    let cap = RpcCapability::for_method("debug_traceCall");
    assert_eq!(cap, RpcCapability::Other("debug_traceCall".into()));
}

#[test]
fn tag_falls_back_to_url() {
    let mut ep = RpcEndpoint::new("https://rpc");
    assert_eq!(ep.tag(), "https://rpc");
    ep.label = Some("cool".into());
    assert_eq!(ep.tag(), "cool");
}

#[test]
fn expand_env_replaces_known_var() {
    let env = environment(&[("DRM3_TEST_KEY_A", "secret123")]);
    let out = expand_env("https://x/v2/${DRM3_TEST_KEY_A}", &env).unwrap();
    assert_eq!(out, "https://x/v2/secret123");
}

#[test]
fn expand_env_errors_on_unset_var() {
    let err = expand_env("${DRM3_DEFINITELY_UNSET_XYZ}", &environment(&[])).unwrap_err();
    assert!(matches!(err, RpcError::Config(_)));
}

#[test]
fn expand_env_handles_multiple_and_no_vars() {
    let env = environment(&[("DRM3_TEST_A", "aa"), ("DRM3_TEST_B", "bb")]);
    assert_eq!(expand_env("plain", &env).unwrap(), "plain");
    assert_eq!(
        expand_env("${DRM3_TEST_A}-${DRM3_TEST_B}-x", &env).unwrap(),
        "aa-bb-x"
    );
}

#[test]
fn auth_header_and_bearer_resolve() {
    assert!(Auth::NoAuth.headers().is_empty());
    assert!(Auth::UrlKey.headers().is_empty());
    let h = Auth::Header {
        name: "X-API-Key".into(),
        value: "k".into(),
    };
    assert_eq!(h.headers(), vec![("X-API-Key".into(), "k".into())]);
    let b = Auth::Bearer { token: "t".into() };
    assert_eq!(
        b.headers(),
        vec![("Authorization".into(), "Bearer t".into())]
    );
}

#[test]
fn from_toml_str_parses_and_templates() {
    let env = environment(&[("DRM3_TEST_ALCHEMY", "abc"), ("DRM3_TEST_HEADER", "hval")]);
    let toml = r#"
        listen = "0.0.0.0:9000"
        request_timeout_ms = 5000
        max_retries = 3

        [[endpoints]]
        url = "https://eth.example/v2/${DRM3_TEST_ALCHEMY}"
        label = "alchemy"
        priority = 0
        auth = { type = "url_key" }

        [[endpoints]]
        url = "https://other.example"
        priority = 1
        capabilities = ["eth_call"]
        max_rps = 25
        auth = { type = "header", name = "X-Key", value = "${DRM3_TEST_HEADER}" }
    "#;
    let cfg = Config::from_parsed(parse(toml), &env).unwrap();
    assert_eq!(cfg.listen, "0.0.0.0:9000");
    assert_eq!(cfg.request_timeout_ms, Some(5000));
    assert_eq!(cfg.max_retries, 3);
    assert_eq!(cfg.endpoints.len(), 2);
    assert_eq!(cfg.endpoints[0].url, "https://eth.example/v2/abc");
    assert_eq!(cfg.endpoints[0].auth, Auth::UrlKey);
    assert_eq!(cfg.endpoints[1].max_rps, Some(25));
    assert_eq!(
        cfg.endpoints[1].auth,
        Auth::Header {
            name: "X-Key".into(),
            value: "hval".into()
        }
    );
}

#[test]
fn from_toml_str_rejects_empty_endpoints() {
    let err = Config::from_parsed(
        parse("listen = \"x:1\"\nendpoints = []\n"),
        &environment(&[]),
    )
    .unwrap_err();
    assert!(matches!(err, RpcError::Config(_)));
}

#[test]
fn toml_complaints_are_configuration_errors() {
    let err = Config::from_parsed(parse("listen = "), &environment(&[])).unwrap_err();
    match err {
        RpcError::Config(message) => assert!(message.starts_with("TOML parse error: ")),
        other => panic!("expected Config, got {other:?}"),
    }
}

#[test]
fn fault_messages_name_the_cause() {
    let message = |r: Result<(), RpcError>| match r {
        Err(RpcError::Config(m)) => m,
        other => panic!("expected Config, got {other:?}"),
    };
    assert_eq!(
        message(RpcPoolConfig::default().validate()),
        "endpoint list is empty"
    );
    assert_eq!(
        message(RpcPoolConfig::from_urls(&["https://a", " \t\u{3000}"]).validate()),
        "endpoint URL is empty"
    );
    assert_eq!(
        message(RpcPoolConfig::from_urls(&["https://a", "https://b", "https://a"]).validate()),
        "duplicate endpoint URL: https://a"
    );
}

#[test]
fn a_missing_secret_refuses_the_whole_configuration() {
    let env = environment(&[("PRESENT", "p")]);
    for auth in [
        Auth::Bearer {
            token: "${PRESENT}${ABSENT}".into(),
        },
        Auth::Header {
            name: "X".into(),
            value: "${ABSENT}".into(),
        },
        Auth::Header {
            name: "${ABSENT}".into(),
            value: "v".into(),
        },
    ] {
        let cfg = RpcPoolConfig::with_endpoints(vec![
            RpcEndpoint::new("https://${PRESENT}"),
            RpcEndpoint::new("https://b").with_auth(auth),
        ]);
        match Config::from_parsed(Ok(cfg), &env) {
            Err(RpcError::Config(m)) => {
                assert_eq!(m, "environment variable ABSENT referenced in config is unset")
            }
            other => panic!("expected Config, got {other:?}"),
        }
    }
}

#[test]
fn loading_touches_templates_only() {
    let env = environment(&[("HOST", "0.0.0.0"), ("KEY", "k")]);
    let cfg = RpcPoolConfig {
        listen: "${HOST}:1".into(),
        request_timeout_ms: Some(9),
        max_retries: 4,
        endpoints: vec![RpcEndpoint {
            label: Some("${KEY}".into()),
            priority: 7,
            capabilities: vec![RpcCapability::EthCall],
            max_rps: Some(2),
            max_in_flight: Some(3),
            ..RpcEndpoint::new("https://x/${KEY}").with_auth(Auth::Bearer {
                token: "${KEY}".into(),
            })
        }],
    };
    let loaded = Config::from_parsed(Ok(cfg), &env).unwrap();
    assert_eq!(loaded.listen, "0.0.0.0:1");
    assert_eq!(loaded.request_timeout_ms, Some(9));
    assert_eq!(loaded.max_retries, 4);
    assert_eq!(
        loaded.endpoints[0],
        RpcEndpoint {
            label: Some("k".into()),
            priority: 7,
            capabilities: vec![RpcCapability::EthCall],
            max_rps: Some(2),
            max_in_flight: Some(3),
            ..RpcEndpoint::new("https://x/k").with_auth(Auth::Bearer { token: "k".into() })
        }
    );
}

#[test]
fn labels_are_templates_too() {
    let source = "endpoints = [{ url = 'https://a', label = 'n-${X}' }, { url = 'https://b' }]";
    let cfg = Config::from_parsed(parse(source), &environment(&[("X", "abc")])).unwrap();
    assert_eq!(cfg.endpoints[0].label.as_deref(), Some("n-abc"));
    assert_eq!(cfg.endpoints[1].label, None);
    match Config::from_parsed(parse(source), &environment(&[])) {
        Err(RpcError::Config(m)) => {
            assert_eq!(m, "environment variable X referenced in config is unset")
        }
        other => panic!("expected Config, got {other:?}"),
    }
    // Expanding an endpoint by itself leaves its label alone.
    let mut endpoint = RpcEndpoint {
        label: Some("${X}".into()),
        ..RpcEndpoint::new("https://${X}")
    };
    endpoint.resolve_env(&environment(&[("X", "abc")])).unwrap();
    assert_eq!(endpoint.url, "https://abc");
    assert_eq!(endpoint.label.as_deref(), Some("${X}"));
}

#[test]
fn unterminated_reference_is_quoted_in_the_error() {
    let err = expand_env("a\"b\n${OPEN", &environment(&[("OPEN", "x")])).unwrap_err();
    match err {
        RpcError::Config(m) => {
            assert_eq!(m, "unterminated ${...} in config value: \"a\\\"b\\n${OPEN\"")
        }
        other => panic!("expected Config, got {other:?}"),
    }
}

#[test]
fn expansion_edges() {
    let env = environment(&[("A", "${B}"), ("B", "b"), ("", "empty")]);
    // Values are not expanded again.
    assert_eq!(expand_env("${A}", &env).unwrap(), "${B}");
    assert_eq!(expand_env("${}", &env).unwrap(), "empty");
    assert_eq!(expand_env("$A $ {A} }", &env).unwrap(), "$A $ {A} }");
    assert_eq!(expand_env("$${B}$", &env).unwrap(), "$b$");
    assert_eq!(expand_env("", &env).unwrap(), "");
    // Where a variable is given twice, the first value counts.
    let twice = environment(&[("B", "first"), ("B", "second")]);
    assert_eq!(expand_env("${B}", &twice).unwrap(), "first");
}

#[test]
fn from_urls_ranks_by_position() {
    let cfg = RpcPoolConfig::from_urls(&["https://a", "https://b", "https://c"]);
    assert_eq!(cfg.listen, "127.0.0.1:8545");
    assert_eq!(cfg.max_retries, 0);
    assert_eq!(cfg.request_timeout_ms, None);
    let ranks: Vec<(String, u32)> = cfg
        .endpoints
        .iter()
        .map(|e| (e.url.clone(), e.priority))
        .collect();
    assert_eq!(
        ranks,
        vec![
            ("https://a".to_string(), 0),
            ("https://b".to_string(), 1),
            ("https://c".to_string(), 2)
        ]
    );
}

#[test]
fn capability_names_in_both_spellings() {
    assert_eq!(
        RpcCapability::from_name("eth_get_logs"),
        RpcCapability::EthGetLogs
    );
    assert_eq!(
        RpcCapability::from_name("eth_getLogs"),
        RpcCapability::EthGetLogs
    );
    assert_eq!(RpcCapability::from_name("subscribe"), RpcCapability::Subscribe);
    assert_eq!(
        RpcCapability::from_name("eth_unsubscribe"),
        RpcCapability::Subscribe
    );
    assert_eq!(
        RpcCapability::from_name("debug_traceCall"),
        RpcCapability::Other("debug_traceCall".into())
    );
    for capability in [
        RpcCapability::EthCall,
        RpcCapability::EthGetLogs,
        RpcCapability::EthBlockNumber,
        RpcCapability::EthChainId,
        RpcCapability::EthGetBalance,
        RpcCapability::EthGetTransactionReceipt,
        RpcCapability::EthGetTransactionCount,
        RpcCapability::EthSendRawTransaction,
        RpcCapability::EthEstimateGas,
        RpcCapability::EthGasPrice,
        RpcCapability::Subscribe,
    ] {
        let name = capability.config_name().unwrap();
        assert_eq!(RpcCapability::from_name(name), capability);
    }
    assert_eq!(RpcCapability::Other("x".into()).config_name(), None);
}

#[test]
fn timeout_defaults_to_fifteen_seconds() {
    let mut cfg = RpcPoolConfig::default();
    assert_eq!(cfg.request_timeout().nanos, 15_000_000_000);
    cfg.request_timeout_ms = Some(8000);
    assert_eq!(cfg.request_timeout().nanos, 8_000_000_000);
}
