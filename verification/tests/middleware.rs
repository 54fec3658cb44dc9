use metrics_dashboard::middleware::{HttpMetricMiddleware, MetricUpdate, RequestOutcome};

#[test]
fn test_response_counts_one_request_and_records_the_duration() {
    let endpoint = HttpMetricMiddleware::default().transform(());
    let updates = endpoint.on_completion(RequestOutcome::Responded, 2, 500_000_000);
    assert_eq!(
        updates,
        vec![
            MetricUpdate::Increment { name: "http_requests_total", value: 1 },
            MetricUpdate::Record {
                name: "http_requests_duration_seconds",
                secs: 2,
                nanos: 500_000_000,
            },
        ]
    );
}

#[test]
fn test_failure_counts_one_error_only() {
    let endpoint = HttpMetricMiddleware::default().transform(());
    let updates = endpoint.on_completion(RequestOutcome::Failed, 7, 1);
    assert_eq!(updates, vec![MetricUpdate::Increment { name: "http_requests_error", value: 1 }]);
}

#[test]
fn test_transform_keeps_the_handler() {
    let endpoint = HttpMetricMiddleware::default().transform(String::from("handler"));
    assert_eq!(endpoint.inner(), "handler");
}
