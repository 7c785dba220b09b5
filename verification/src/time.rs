//! Time as whole nanoseconds. Clock readings come from the caller; the library
//! only compares them and measures the spans between them.

use vstd::prelude::*;

verus! {

/// A span of time.
#[derive(Debug, Clone, Copy, PartialEq, Eq, Structural)]
pub struct Duration {
    pub nanos: u128,
}

/// A reading of a monotonic clock, counted from a start that the caller picks.
#[derive(Debug, Clone, Copy, PartialEq, Eq, Structural)]
pub struct Instant {
    pub nanos: u128,
}

impl Duration {
    /// The empty span.
    pub fn zero() -> (r: Self)
        ensures
            r.nanos == 0,
    {
        Duration { nanos: 0 }
    }

    /// A span of whole seconds.
    pub fn from_secs(secs: u64) -> (r: Self)
        ensures
            r.nanos == secs * 1_000_000_000,
    {
        Duration { nanos: secs as u128 * 1_000_000_000 }
    }

    /// A span of whole milliseconds.
    pub fn from_millis(millis: u64) -> (r: Self)
        ensures
            r.nanos == millis * 1_000_000,
    {
        Duration { nanos: millis as u128 * 1_000_000 }
    }

    /// The whole milliseconds of this span.
    pub open spec fn millis(self) -> nat {
        (self.nanos / 1_000_000) as nat
    }

    /// The whole milliseconds of this span.
    pub fn as_millis(&self) -> (r: u128)
        ensures
            r == self.millis(),
    {
        self.nanos / 1_000_000
    }
}

/// The time from `earlier` to `later`, and nothing when the clock readings are
/// the other way round.
pub open spec fn elapsed(earlier: Instant, later: Instant) -> nat {
    if later.nanos >= earlier.nanos {
        (later.nanos - earlier.nanos) as nat
    } else {
        0
    }
}

impl Instant {
    /// The time since `earlier`, and nothing when `earlier` is in fact later.
    pub fn saturating_duration_since(&self, earlier: Instant) -> (r: Duration)
        ensures
            r.nanos == elapsed(earlier, *self),
    {
        Duration { nanos: self.nanos.saturating_sub(earlier.nanos) }
    }
}

/// Whole milliseconds are as many as fit: the span is at least that long, and
/// less than one millisecond longer.
pub proof fn law_millis_are_whole(span: Duration)
    ensures
        span.millis() * 1_000_000 <= span.nanos < (span.millis() + 1) * 1_000_000,
{
}

/// Waiting `wait` nanoseconds takes exactly as long, from whatever reading, and
/// a clock that goes backwards shows no time passed.
pub proof fn law_elapsed_is_what_was_waited(earlier: Instant, wait: nat, later: Instant)
    requires
        later.nanos == earlier.nanos + wait,
    ensures
        elapsed(earlier, later) == wait,
        elapsed(later, earlier) == 0,
{
}

/// A second is a thousand milliseconds, and a span of whole seconds or
/// milliseconds is as long as was asked for.
pub proof fn law_spans_are_as_long_as_asked_for(
    secs: u64,
    millis: u64,
    a: Duration,
    b: Duration,
)
    requires
        call_ensures(Duration::from_secs, (secs,), a),
        call_ensures(Duration::from_millis, (millis,), b),
    ensures
        a.millis() == secs * 1000,
        b.millis() == millis,
        a.nanos % 1_000_000_000 == 0,
        b.nanos % 1_000_000 == 0,
        millis == secs * 1000 ==> a == b,
{
}

} // verus!
