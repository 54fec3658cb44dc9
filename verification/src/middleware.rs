//! The instrumentation of request handling.
//!
//! The middleware wraps a handler. When a call of the handler has completed,
//! `on_completion` says which metrics are to be updated, from how the call
//! ended and how long it took. The caller, who ran the handler and measured
//! the time, issues the updates.
use vstd::prelude::*;

verus! {

/// How a call of the wrapped handler ended.
#[derive(Debug, Clone, Copy, PartialEq, Eq, Structural)]
pub enum RequestOutcome {
    /// The handler produced a response, whatever its status.
    Responded,
    /// The handler failed without a response.
    Failed,
}

/// An update of a metric that the caller is to issue.
#[derive(Debug, Clone, Copy, PartialEq, Eq)]
pub enum MetricUpdate {
    /// Add `value` to the counter `name`.
    Increment { name: &'static str, value: u64 },
    /// Record a duration of `secs` seconds and `nanos` nanoseconds in the
    /// histogram `name`.
    Record { name: &'static str, secs: u64, nanos: u32 },
}

/// An update as a mathematical value.
pub enum MetricUpdateView {
    Increment { name: Seq<char>, value: u64 },
    Record { name: Seq<char>, secs: u64, nanos: u32 },
}

impl View for MetricUpdate {
    type V = MetricUpdateView;

    open spec fn view(&self) -> MetricUpdateView {
        match self {
            MetricUpdate::Increment { name, value } => MetricUpdateView::Increment {
                name: name@,
                value: *value,
            },
            MetricUpdate::Record { name, secs, nanos } => MetricUpdateView::Record {
                name: name@,
                secs: *secs,
                nanos: *nanos,
            },
        }
    }
}

impl DeepView for MetricUpdate {
    type V = MetricUpdateView;

    open spec fn deep_view(&self) -> MetricUpdateView {
        self@
    }
}

/// The name of the counter of answered requests.
pub open spec fn requests_total() -> Seq<char> {
    "http_requests_total"@
}

/// The name of the histogram of request durations.
pub open spec fn requests_duration() -> Seq<char> {
    "http_requests_duration_seconds"@
}

/// The name of the counter of failed requests.
pub open spec fn requests_error() -> Seq<char> {
    "http_requests_error"@
}

/// The updates that a completed call asks for. A call that produced a
/// response counts as one request and records its duration. A call that
/// failed counts as one error, and nothing else.
pub open spec fn completion_updates(
    outcome: RequestOutcome,
    secs: u64,
    nanos: u32,
) -> Seq<MetricUpdateView> {
    match outcome {
        RequestOutcome::Responded => seq![
            MetricUpdateView::Increment { name: requests_total(), value: 1 },
            MetricUpdateView::Record { name: requests_duration(), secs, nanos },
        ],
        RequestOutcome::Failed => seq![
            MetricUpdateView::Increment { name: requests_error(), value: 1 },
        ],
    }
}

/// The middleware that counts and times the requests of a handler.
#[derive(Debug, Clone, Copy)]
pub struct HttpMetricMiddleware;

impl Default for HttpMetricMiddleware {
    fn default() -> (r: Self) {
        HttpMetricMiddleware
    }
}

/// A handler under the middleware.
pub struct HttpMetricMiddlewareEndpoint<E> {
    inner: E,
}

impl HttpMetricMiddleware {
    /// Puts the handler `ep` under the middleware.
    pub fn transform<E>(&self, ep: E) -> (r: HttpMetricMiddlewareEndpoint<E>)
        ensures
            *r.inner() == ep,
    {
        HttpMetricMiddlewareEndpoint { inner: ep }
    }
}

impl<E> HttpMetricMiddlewareEndpoint<E> {
    /// The wrapped handler.
    pub closed spec fn spec_inner(&self) -> &E {
        &self.inner
    }

    /// The wrapped handler.
    #[verifier::when_used_as_spec(spec_inner)]
    pub fn inner(&self) -> (r: &E)
        ensures
            r == self.inner(),
    {
        &self.inner
    }

    /// The updates to issue after a call of the wrapped handler that ended
    /// with `outcome` and took `secs` seconds and `nanos` nanoseconds.
    pub fn on_completion(&self, outcome: RequestOutcome, secs: u64, nanos: u32) -> (r: Vec<
        MetricUpdate,
    >)
        ensures
            r.deep_view() == completion_updates(outcome, secs, nanos),
    {
        let mut updates: Vec<MetricUpdate> = Vec::new();
        match outcome {
            RequestOutcome::Responded => {
                updates.push(MetricUpdate::Increment { name: "http_requests_total", value: 1 });
                updates.push(
                    MetricUpdate::Record { name: "http_requests_duration_seconds", secs, nanos },
                );
            },
            RequestOutcome::Failed => {
                updates.push(MetricUpdate::Increment { name: "http_requests_error", value: 1 });
            },
        }
        proof {
            assert(updates.deep_view() =~= completion_updates(outcome, secs, nanos));
        }
        updates
    }
}

} // verus!
