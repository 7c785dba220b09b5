use drm3_rpc_pool::transport::{http_outcome, js_err_to_string};

#[test]
fn success_statuses_hand_the_body_on() {
    assert_eq!(http_outcome(200, vec![1, 2, 255]), Ok(vec![1, 2, 255]));
    assert_eq!(http_outcome(204, vec![]), Ok(vec![]));
    assert_eq!(http_outcome(299, b"x".to_vec()), Ok(b"x".to_vec()));
}

#[test]
fn other_statuses_are_failures() {
    assert_eq!(
        http_outcome(429, b"{\"error\":\"rate limited\"}".to_vec()),
        Err("http 429 {\"error\":\"rate limited\"}".to_string())
    );
    assert_eq!(http_outcome(500, b"boom".to_vec()), Err("http 500 boom".to_string()));
    assert_eq!(http_outcome(199, vec![]), Err("http 199 ".to_string()));
    assert_eq!(http_outcome(300, vec![]), Err("http 300 ".to_string()));
}

#[test]
fn broken_text_is_replaced() {
    assert_eq!(
        http_outcome(502, vec![b'a', 0xff, b'b', 0xe2, 0x82]),
        Err("http 502 a\u{fffd}b\u{fffd}".to_string())
    );
    assert_eq!(
        http_outcome(502, "\u{20ac}".as_bytes().to_vec()),
        Err("http 502 \u{20ac}".to_string())
    );
}

#[test]
fn host_errors_in_words() {
    assert_eq!(
        js_err_to_string("fetch rejected", Some("no route".into()), Some("{}".into())),
        "fetch rejected: no route"
    );
    assert_eq!(
        js_err_to_string("fetch rejected", None, Some("{\"a\":1}".into())),
        "fetch rejected: {\"a\":1}"
    );
    assert_eq!(
        js_err_to_string("fetch rejected", None, None),
        "fetch rejected: <non-string JS error>"
    );
}
