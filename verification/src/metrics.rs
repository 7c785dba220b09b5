//! Metrics callbacks.
//!
//! Operators plug in their own implementation (Prometheus, statsd, stdout,
//! whatever). A `NoopMetrics` is provided for pools that do not want metrics.

use vstd::prelude::*;

use crate::time::Duration;

verus! {

/// Hook fired at key points of a dispatch.
///
/// `endpoint_tag` is either the endpoint label (if configured) or the URL -
/// same as `RpcEndpoint::tag()`.
pub trait Metrics {
    /// Called just before a request is dispatched to a specific endpoint.
    fn on_request(&mut self, endpoint_tag: &str, method: &str);

    /// Called after a successful response.
    fn on_success(&mut self, endpoint_tag: &str, method: &str, latency: Duration);

    /// Called after a failed response (transport or JSON-RPC error).
    fn on_failure(&mut self, endpoint_tag: &str, method: &str, latency: Duration, error: &str);

    /// Called when an endpoint is skipped because it lacks the capability
    /// required by the method.
    fn on_skipped_incapable(&mut self, _endpoint_tag: &str, _method: &str) {
    }

    /// Called when an endpoint is skipped because it is in cooldown.
    fn on_skipped_cooldown(&mut self, _endpoint_tag: &str, _method: &str) {
    }
}

/// Default no-op implementation.
#[derive(Debug, Default, Clone, Copy)]
pub struct NoopMetrics;

impl Metrics for NoopMetrics {
    fn on_request(&mut self, _endpoint_tag: &str, _method: &str)
        ensures
            *final(self) == *old(self),
    {
    }

    fn on_success(&mut self, _endpoint_tag: &str, _method: &str, _latency: Duration)
        ensures
            *final(self) == *old(self),
    {
    }

    fn on_failure(
        &mut self,
        _endpoint_tag: &str,
        _method: &str,
        _latency: Duration,
        _error: &str,
    )
        ensures
            *final(self) == *old(self),
    {
    }

    fn on_skipped_incapable(&mut self, _endpoint_tag: &str, _method: &str)
        ensures
            *final(self) == *old(self),
    {
    }

    fn on_skipped_cooldown(&mut self, _endpoint_tag: &str, _method: &str)
        ensures
            *final(self) == *old(self),
    {
    }
}

/// Something that happened in a dispatch and that metrics are told of.
#[derive(Debug)]
pub enum MetricEvent {
    Request { tag: String, method: String },
    Success { tag: String, method: String, latency: Duration },
    Failure { tag: String, method: String, latency: Duration, error: String },
    SkippedIncapable { tag: String, method: String },
    SkippedCooldown { tag: String, method: String },
}

/// A metric event, as texts.
pub enum MetricView {
    Request { tag: Seq<char>, method: Seq<char> },
    Success { tag: Seq<char>, method: Seq<char>, latency: Duration },
    Failure { tag: Seq<char>, method: Seq<char>, latency: Duration, error: Seq<char> },
    SkippedIncapable { tag: Seq<char>, method: Seq<char> },
    SkippedCooldown { tag: Seq<char>, method: Seq<char> },
}

impl View for MetricEvent {
    type V = MetricView;

    open spec fn view(&self) -> MetricView {
        match self {
            MetricEvent::Request { tag, method } => MetricView::Request {
                tag: tag@,
                method: method@,
            },
            MetricEvent::Success { tag, method, latency } => MetricView::Success {
                tag: tag@,
                method: method@,
                latency: *latency,
            },
            MetricEvent::Failure { tag, method, latency, error } => MetricView::Failure {
                tag: tag@,
                method: method@,
                latency: *latency,
                error: error@,
            },
            MetricEvent::SkippedIncapable { tag, method } => MetricView::SkippedIncapable {
                tag: tag@,
                method: method@,
            },
            MetricEvent::SkippedCooldown { tag, method } => MetricView::SkippedCooldown {
                tag: tag@,
                method: method@,
            },
        }
    }
}

/// The events in a list.
pub open spec fn events_view(events: Seq<MetricEvent>) -> Seq<MetricView> {
    events.map_values(|e: MetricEvent| e@)
}

/// Metrics are told everything: of each event the view shows which it is, with
/// its tag, method, latency and error as they are.
pub proof fn law_events_are_seen_whole(events: Seq<MetricEvent>, i: int)
    requires
        0 <= i < events.len(),
    ensures
        events_view(events).len() == events.len(),
        ({
            let shown = events_view(events)[i];
            match events[i] {
                MetricEvent::Request { tag, method } => shown matches MetricView::Request {
                    tag: t,
                    method: m,
                } && t == tag@ && m == method@,
                MetricEvent::Success {
                    tag,
                    method,
                    latency,
                } => shown matches MetricView::Success { tag: t, method: m, latency: l } && t
                    == tag@ && m == method@ && l == latency,
                MetricEvent::Failure {
                    tag,
                    method,
                    latency,
                    error,
                } => shown matches MetricView::Failure {
                    tag: t,
                    method: m,
                    latency: l,
                    error: e,
                } && t == tag@ && m == method@ && l == latency && e == error@,
                MetricEvent::SkippedIncapable {
                    tag,
                    method,
                } => shown matches MetricView::SkippedIncapable { tag: t, method: m } && t == tag@
                    && m == method@,
                MetricEvent::SkippedCooldown {
                    tag,
                    method,
                } => shown matches MetricView::SkippedCooldown { tag: t, method: m } && t == tag@
                    && m == method@,
            }
        }),
{
}

} // verus!
