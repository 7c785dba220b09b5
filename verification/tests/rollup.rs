use drm3_rpc_pool::rollup::RollupMetrics;
use drm3_rpc_pool::time::Duration;
use drm3_rpc_pool::Metrics;

fn millis(n: u64) -> Duration {
    Duration::from_millis(n)
}

#[test]
fn drain_aggregates_then_clears() {
    let mut m = RollupMetrics::new();
    for ms in [10u64, 20, 30, 40] {
        m.on_success("a", "eth_blockNumber", millis(ms));
    }
    m.on_failure("a", "eth_blockNumber", millis(5), "boom");
    m.on_success("b", "eth_blockNumber", millis(100));

    let mut got = m.drain();
    got.sort_by(|x, y| x.endpoint.cmp(&y.endpoint));
    assert_eq!(got.len(), 2);

    let a = &got[0];
    assert_eq!(a.endpoint, "a");
    assert_eq!(a.requests, 5);
    assert_eq!(a.ok, 4);
    assert_eq!(a.err, 1);
    // 5 samples sorted [5,10,20,30,40]; p50 rank=2 -> 20, p95 rank=4 -> 40.
    assert_eq!(a.p50_ms, 20);
    assert_eq!(a.p95_ms, 40);

    // Window is cleared after a drain.
    assert!(m.drain().is_empty());
}

#[test]
fn drained_endpoints_come_sorted() {
    let mut m = RollupMetrics::default();
    for tag in ["delta", "alpha", "", "alph", "\u{e9}", "zulu", "alpha"] {
        m.on_failure(tag, "m", millis(1), "e");
    }
    m.on_request("unanswered", "m");
    m.on_skipped_cooldown("skipped", "m");
    m.on_skipped_incapable("skipped", "m");
    let tags: Vec<String> = m.drain().into_iter().map(|r| r.endpoint).collect();
    assert_eq!(tags, vec!["", "alph", "alpha", "delta", "zulu", "\u{e9}"]);
}

#[test]
fn percentile_ranks_round_as_floats_do() {
    for n in 1..=200usize {
        let mut m = RollupMetrics::new();
        // Latencies 0..n, in a scrambled order.
        for i in 0..n {
            m.on_success("a", "m", millis(((i * 101) % 211 % n) as u64));
        }
        let mut expected: Vec<u64> = (0..n).map(|i| ((i * 101) % 211 % n) as u64).collect();
        expected.sort_unstable();
        let rank = |q: f64| (q * (n as f64 - 1.0)).round() as usize;
        let r = m.drain().remove(0);
        assert_eq!(r.p50_ms, expected[rank(0.50)], "p50 of {n}");
        assert_eq!(r.p95_ms, expected[rank(0.95)], "p95 of {n}");
        assert_eq!(r.requests, n as u64);
        assert!(r.p50_ms <= r.p95_ms);
    }
}

#[test]
fn flush_reports_the_window() {
    let mut m = RollupMetrics::new();
    assert!(m.flush(60).is_empty());
    m.on_success("a", "m", millis(7));
    m.on_failure("b", "m", millis(9), "e");
    let events = m.flush(60);
    assert_eq!(events.len(), 2);
    assert_eq!(events[0].window_s, 60);
    assert_eq!(events[0].rollup.endpoint, "a");
    assert_eq!(events[0].rollup.ok, 1);
    assert_eq!(events[1].rollup.err, 1);
    assert_eq!(events[1].rollup.p50_ms, 9);
    assert!(m.flush(60).is_empty());
}
