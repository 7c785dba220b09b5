use drm3_rpc_pool::pool::rate_limit::RateLimiter;
use drm3_rpc_pool::time::Instant;

const SECOND: u128 = 1_000_000_000;

fn at(nanos: u128) -> Instant {
    Instant { nanos }
}

#[test]
fn allows_up_to_capacity_then_blocks() {
    let t0 = at(7 * SECOND);
    let mut rl = RateLimiter::per_second(3, t0);
    assert!(rl.try_acquire_at(t0));
    assert!(rl.try_acquire_at(t0));
    assert!(rl.try_acquire_at(t0));
    // Fourth in the same instant is denied.
    assert!(!rl.try_acquire_at(t0));
}

#[test]
fn refills_over_time() {
    let t0 = at(7 * SECOND);
    let mut rl = RateLimiter::per_second(2, t0);
    assert!(rl.try_acquire_at(t0));
    assert!(rl.try_acquire_at(t0));
    assert!(!rl.try_acquire_at(t0));
    // After one second, full bucket again.
    let t1 = at(8 * SECOND);
    assert!(rl.try_acquire_at(t1));
    assert!(rl.try_acquire_at(t1));
}

#[test]
fn zero_rps_clamped_to_one() {
    let t0 = at(7 * SECOND);
    let mut rl = RateLimiter::per_second(0, t0);
    assert!(rl.try_acquire_at(t0));
    assert!(!rl.try_acquire_at(t0));
}

#[test]
fn refills_continuously() {
    let mut rl = RateLimiter::per_second(4, at(0));
    for _ in 0..4 {
        assert!(rl.try_acquire_at(at(0)));
    }
    // A quarter of a second buys one token, and no more.
    assert!(!rl.try_acquire_at(at(SECOND / 4 - 1)));
    assert!(rl.try_acquire_at(at(SECOND / 4)));
    assert!(!rl.try_acquire_at(at(SECOND / 4)));
}

#[test]
fn a_long_pause_buys_no_more_than_a_burst() {
    let mut rl = RateLimiter::per_second(2, at(0));
    assert!(rl.try_acquire_at(at(1000 * SECOND)));
    assert!(rl.try_acquire_at(at(1000 * SECOND)));
    assert!(!rl.try_acquire_at(at(1000 * SECOND)));
}

#[test]
fn no_window_exceeds_burst_plus_rate() {
    let mut rl = RateLimiter::per_second(5, at(0));
    let mut granted = 0u32;
    for step in 0..3000u128 {
        if rl.try_acquire_at(at(step * SECOND / 1000)) {
            granted += 1;
        }
    }
    // Three seconds at five per second, after a burst of five.
    assert_eq!(granted, 19);
}

#[test]
fn a_clock_that_runs_backwards_is_harmless() {
    let mut rl = RateLimiter::per_second(1, at(10 * SECOND));
    assert!(rl.try_acquire_at(at(10 * SECOND)));
    assert!(!rl.try_acquire_at(at(0)));
    assert!(rl.try_acquire_at(at(11 * SECOND)));
}

#[test]
fn no_later_window_exceeds_burst_plus_rate() {
    // A window that starts long after the last refill.
    let mut rl = RateLimiter::per_second(3, at(0));
    assert!(rl.try_acquire_at(at(0)));
    let mut granted = 0u32;
    for step in 0..=2000u128 {
        if rl.try_acquire_at(at(100 * SECOND + step * SECOND / 1000)) {
            granted += 1;
        }
    }
    // Two seconds at three per second, after a burst of three.
    assert_eq!(granted, 9);
}
