use drm3_rpc_pool::time::{Duration, Instant};
use drm3_rpc_pool::{BackoffPolicy, EndpointHealth};

fn at(nanos: u128) -> Instant {
    Instant { nanos }
}

fn secs(n: u64) -> Duration {
    Duration::from_secs(n)
}

fn millis(n: u64) -> Duration {
    Duration::from_millis(n)
}

const SECOND: u128 = 1_000_000_000;

#[test]
fn delay_for_zero_failures_is_zero() {
    let p = BackoffPolicy::default();
    assert_eq!(p.delay_for(0), Duration::zero());
}

#[test]
fn delay_grows_exponentially_after_threshold() {
    let p = BackoffPolicy {
        demotion_threshold: 2,
        base_delay: millis(100),
        max_delay: secs(60),
    };
    // At the threshold (2), 2^0 * base.
    assert_eq!(p.delay_for(2), millis(100));
    assert_eq!(p.delay_for(3), millis(200));
    assert_eq!(p.delay_for(4), millis(400));
    assert_eq!(p.delay_for(5), millis(800));
}

#[test]
fn delay_caps_at_max() {
    let p = BackoffPolicy {
        demotion_threshold: 0,
        base_delay: millis(100),
        max_delay: secs(1),
    };
    // 2^20 * 100ms would be 104857600ms. Cap at 1s.
    assert_eq!(p.delay_for(20), secs(1));
}

#[test]
fn fresh_endpoint_is_available() {
    let h = EndpointHealth::new(BackoffPolicy::default());
    assert!(h.is_available_at(at(0)));
}

#[test]
fn endpoint_below_threshold_stays_available() {
    let p = BackoffPolicy {
        demotion_threshold: 3,
        ..BackoffPolicy::default()
    };
    let mut h = EndpointHealth::new(p);
    h.record_failure("boom".into(), millis(5), at(SECOND));
    h.record_failure("boom".into(), millis(5), at(SECOND));
    assert!(h.is_available_at(at(SECOND)));
}

#[test]
fn endpoint_past_threshold_is_unavailable_until_cooldown() {
    let p = BackoffPolicy {
        demotion_threshold: 1,
        base_delay: secs(60),
        max_delay: secs(60),
    };
    let mut h = EndpointHealth::new(p);
    h.record_failure("boom".into(), millis(5), at(SECOND));
    h.record_failure("boom".into(), millis(5), at(SECOND));
    let just_after = at(SECOND + 1);
    assert!(!h.is_available_at(just_after));
    // Beyond cooldown: available again.
    let later = at(121 * SECOND);
    assert!(h.is_available_at(later));
}

#[test]
fn health_success_resets_consecutive_failures() {
    let p = BackoffPolicy::tight();
    let mut h = EndpointHealth::new(p);
    h.record_failure("boom".into(), millis(5), at(1));
    h.record_failure("boom".into(), millis(5), at(2));
    h.record_success(millis(5), at(3));
    let s = h.snapshot(at(4));
    assert_eq!(s.consecutive_failures, 0);
    assert_eq!(s.total_successes, 1);
    assert_eq!(s.total_failures, 2);
    assert!(s.last_error.is_none());
    assert!(h.is_available_at(at(4)));
}

#[test]
fn average_latency_is_tracked() {
    let mut h = EndpointHealth::new(BackoffPolicy::default());
    h.record_success(millis(100), at(1));
    h.record_success(millis(200), at(2));
    let s = h.snapshot(at(3));
    assert_eq!(s.total_requests, 2);
    let average_latency_ms = s.total_latency_ms as f64 / s.total_requests as f64;
    assert!((average_latency_ms - 150.0).abs() < 0.1);
}

#[test]
fn policies_have_their_published_values() {
    let d = BackoffPolicy::default();
    assert_eq!(d.demotion_threshold, 2);
    assert_eq!(d.base_delay, secs(2));
    assert_eq!(d.max_delay, secs(300));
    let t = BackoffPolicy::tight();
    assert_eq!(t.demotion_threshold, 1);
    assert_eq!(t.base_delay, millis(10));
    assert_eq!(t.max_delay, millis(200));
}

#[test]
fn delay_saturates_at_very_high_failure_counts() {
    let wide = BackoffPolicy {
        demotion_threshold: 0,
        base_delay: Duration { nanos: 1 },
        max_delay: Duration { nanos: u128::MAX },
    };
    assert_eq!(wide.delay_for(31).nanos, 1 << 31);
    assert_eq!(wide.delay_for(32).nanos, u32::MAX as u128);
    assert_eq!(wide.delay_for(u32::MAX).nanos, u32::MAX as u128);
    let overflowing = BackoffPolicy {
        demotion_threshold: 0,
        base_delay: Duration {
            nanos: u128::MAX / 2,
        },
        max_delay: secs(7),
    };
    assert_eq!(overflowing.delay_for(5), secs(7));
}

#[test]
fn delay_never_shrinks() {
    let p = BackoffPolicy::default();
    for n in 0..64u32 {
        assert!(p.delay_for(n).nanos <= p.delay_for(n + 1).nanos);
        assert!(p.delay_for(n).nanos <= p.max_delay.nanos);
    }
}

#[test]
fn cooldown_ends_exactly_on_time() {
    let p = BackoffPolicy {
        demotion_threshold: 0,
        base_delay: secs(10),
        max_delay: secs(60),
    };
    let mut h = EndpointHealth::new(p);
    h.record_failure("boom".into(), millis(1), at(5 * SECOND));
    // One failure past a threshold of zero: twice the base.
    assert!(!h.is_available_at(at(25 * SECOND - 1)));
    assert!(h.is_available_at(at(25 * SECOND)));
    // A clock that runs backwards counts as no time passed.
    assert!(!h.is_available_at(at(0)));
}

#[test]
fn snapshot_reports_ages_and_the_last_error() {
    let mut h = EndpointHealth::new(BackoffPolicy::default());
    h.record_success(millis(3), at(SECOND));
    h.record_failure("late".into(), millis(4), at(2 * SECOND));
    let s = h.snapshot(at(2 * SECOND + 5_999_999));
    assert_eq!(s.last_error.as_deref(), Some("late"));
    assert_eq!(s.last_success_age_ms, Some(1005));
    assert_eq!(s.last_failure_age_ms, Some(5));
    assert_eq!(s.total_requests, 2);
    assert_eq!(s.consecutive_failures, 1);
    assert_eq!(s.total_latency_ms, 7);
    let fresh = EndpointHealth::new(BackoffPolicy::default()).snapshot(at(9));
    assert_eq!(fresh.last_success_age_ms, None);
    assert_eq!(fresh.last_failure_age_ms, None);
    assert_eq!(h.policy().demotion_threshold, 2);
    assert!(h.has_room());
}
