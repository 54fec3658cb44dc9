use metrics_dashboard::charts::DashboardOptions;
use metrics_dashboard::recorder::{
    CounterHandle, DashboardRecorder, GaugeHandle, MetricType, SimpleCounter, SimpleGauge,
};

fn gauge_value(bits: Option<u64>) -> Option<f64> {
    bits.map(f64::from_bits)
}

#[test]
fn test_counter_basic_operations() {
    let mut recorder = DashboardRecorder::new(DashboardOptions::default());
    let counter = recorder.register_counter("test_counter");

    recorder.increment_counter(counter, 1);
    let values = recorder.metrics_value(vec!["test_counter"]);

    assert_eq!(values.len(), 1);
    assert_eq!(values[0].key, "test_counter");
    assert_eq!(values[0].value_u64, Some(1));
    assert_eq!(gauge_value(values[0].value_bits), None);
}

#[test]
fn test_gauge_basic_operations() {
    let mut recorder = DashboardRecorder::new(DashboardOptions::default());
    let gauge = recorder.register_gauge("test_gauge");

    recorder.set_gauge(gauge, 42.5f64.to_bits());
    let values = recorder.metrics_value(vec!["test_gauge"]);

    assert_eq!(values.len(), 1);
    assert_eq!(values[0].key, "test_gauge");
    assert_eq!(values[0].value_u64, None);
    assert_eq!(gauge_value(values[0].value_bits), Some(42.5));
}

#[test]
fn test_metadata_descriptions() {
    let mut recorder = DashboardRecorder::new(DashboardOptions::default());

    recorder.describe_counter("test_counter", None, "A test counter");

    let metrics = recorder.metrics();
    assert_eq!(metrics.len(), 1);
    assert_eq!(metrics[0].key, "test_counter");
    assert_eq!(metrics[0].desc, Some("A test counter".to_string()));
}

#[test]
fn test_nonexistent_metric() {
    let recorder = DashboardRecorder::new(DashboardOptions::default());
    let values = recorder.metrics_value(vec!["nonexistent"]);
    assert!(values.is_empty());
}

#[test]
fn test_multiple_metrics() {
    let mut recorder = DashboardRecorder::new(DashboardOptions::default());

    let counter = recorder.register_counter("test_counter");
    let gauge = recorder.register_gauge("test_gauge");

    recorder.increment_counter(counter, 5);
    recorder.set_gauge(gauge, 3.14f64.to_bits());

    let values = recorder.metrics_value(vec!["test_counter", "test_gauge"]);
    assert_eq!(values.len(), 2);

    let counter_value = values.iter().find(|v| v.key == "test_counter").unwrap();
    let gauge_entry = values.iter().find(|v| v.key == "test_gauge").unwrap();

    assert_eq!(counter_value.value_u64, Some(5));
    assert_eq!(gauge_value(gauge_entry.value_bits), Some(3.14));
}

#[test]
fn test_metrics_sorted_order() {
    let mut recorder = DashboardRecorder::new(DashboardOptions::default());

    recorder.register_counter("z_counter");
    recorder.register_counter("a_counter");
    recorder.register_counter("m_counter");

    let metrics = recorder.metrics();

    assert_eq!(metrics[0].key, "a_counter");
    assert_eq!(metrics[1].key, "m_counter");
    assert_eq!(metrics[2].key, "z_counter");
}

#[test]
fn test_metric_type_consistency() {
    let mut recorder = DashboardRecorder::new(DashboardOptions::default());

    recorder.register_counter("test_metric");
    recorder.register_gauge("test_metric");

    let metrics = recorder.metrics();
    assert_eq!(metrics.len(), 1);

    match metrics[0].typ {
        MetricType::Counter => (),
        _ => panic!("Metric type changed unexpectedly"),
    }
}

#[test]
fn test_interleaved_increments_are_not_lost() {
    let mut recorder = DashboardRecorder::new(DashboardOptions::default());
    let num_callers = 10;
    let iterations = 1000;

    let mut handles: Vec<(CounterHandle, GaugeHandle)> = vec![];
    for _ in 0..num_callers {
        let gauge = recorder.register_gauge("concurrent_gauge");
        let counter = recorder.register_counter("concurrent_counter");
        handles.push((counter, gauge));
    }
    for i in 0..iterations {
        for (counter, gauge) in handles.iter() {
            recorder.increment_counter(*counter, 1);
            recorder.set_gauge(*gauge, (i as f64).to_bits());
            let values = recorder.metrics_value(vec!["concurrent_counter", "concurrent_gauge"]);
            assert_eq!(values.len(), 2);
        }
    }

    let final_values = recorder.metrics_value(vec!["concurrent_counter"]);
    assert_eq!(final_values[0].value_u64, Some((num_callers * iterations) as u64));
}

#[test]
fn test_register_twice_shares_the_cell() {
    let mut recorder = DashboardRecorder::new(DashboardOptions::default());
    let first = recorder.register_counter("x");
    let second = recorder.register_counter("x");
    assert_eq!(first, second);

    recorder.increment_counter(first, 3);
    assert_eq!(recorder.counter(second).map(|c| c.value()), Some(3));
    recorder.increment_counter(second, 4);
    assert_eq!(recorder.counter(first).map(|c| c.value()), Some(7));
    assert_eq!(recorder.metrics_value(vec!["x"])[0].value_u64, Some(7));
    assert_eq!(recorder.metrics().len(), 1);
}

#[test]
fn test_handles_of_different_names_differ() {
    let mut recorder = DashboardRecorder::new(DashboardOptions::default());
    let a = recorder.register_counter("a");
    let b = recorder.register_counter("b");
    assert_ne!(a, b);
    assert_eq!(a.slot, 0);
    assert_eq!(b.slot, 1);
    recorder.increment_counter(b, 2);
    assert_eq!(recorder.counter(a).map(|c| c.value()), Some(0));
    assert_eq!(recorder.counter(b).map(|c| c.value()), Some(2));
}

#[test]
fn test_describe_after_register_changes_description_only() {
    let mut recorder = DashboardRecorder::new(DashboardOptions::default());
    let counter = recorder.register_counter("x");
    recorder.increment_counter(counter, 9);

    recorder.describe_counter("x", None, "new text");

    let metrics = recorder.metrics();
    assert_eq!(metrics.len(), 1);
    assert_eq!(metrics[0].key, "x");
    assert_eq!(metrics[0].typ, MetricType::Counter);
    assert_eq!(metrics[0].desc, Some("new text".to_string()));
    assert_eq!(metrics[0].unit, None);
    assert_eq!(recorder.metrics_value(vec!["x"])[0].value_u64, Some(9));
}

#[test]
fn test_describe_does_not_change_the_kind() {
    let mut recorder = DashboardRecorder::new(DashboardOptions::default());
    let counter = recorder.register_counter("x");
    recorder.increment_counter(counter, 2);

    recorder.describe_gauge("x", Some("bytes"), "claimed as a gauge");

    let metrics = recorder.metrics();
    assert_eq!(metrics[0].typ, MetricType::Counter);
    assert_eq!(metrics[0].desc, Some("claimed as a gauge".to_string()));
    assert_eq!(recorder.metrics_value(vec!["x"])[0].value_u64, Some(2));
}

#[test]
fn test_describe_unit_is_replaced_only_where_given() {
    let mut recorder = DashboardRecorder::new(DashboardOptions::default());
    recorder.describe_gauge("g", Some("bytes"), "first");
    assert_eq!(recorder.metrics()[0].unit, Some("bytes".to_string()));

    recorder.describe_gauge("g", None, "second");
    let metrics = recorder.metrics();
    assert_eq!(metrics[0].desc, Some("second".to_string()));
    assert_eq!(metrics[0].unit, Some("bytes".to_string()));

    recorder.describe_gauge("g", Some("seconds"), "third");
    let metrics = recorder.metrics();
    assert_eq!(metrics[0].desc, Some("third".to_string()));
    assert_eq!(metrics[0].unit, Some("seconds".to_string()));
    assert_eq!(metrics[0].typ, MetricType::Gauge);
}

#[test]
fn test_described_but_unregistered_metrics_read_as_zero() {
    let mut recorder = DashboardRecorder::new(DashboardOptions::default());
    recorder.describe_counter("c", None, "a counter");
    recorder.describe_gauge("g", None, "a gauge");

    let values = recorder.metrics_value(vec!["c", "g"]);
    assert_eq!(values.len(), 2);
    assert_eq!(values[0].value_u64, Some(0));
    assert_eq!(values[0].value_bits, None);
    assert_eq!(values[1].value_u64, None);
    assert_eq!(gauge_value(values[1].value_bits), Some(0.0));
}

#[test]
fn test_histograms_have_no_value() {
    let mut recorder = DashboardRecorder::new(DashboardOptions::default());
    let first = recorder.register_histogram("latency");
    let second = recorder.register_histogram("latency");
    assert_eq!(first, second);
    recorder.register_counter("hits");

    let values = recorder.metrics_value(vec!["latency", "hits", "latency"]);
    assert_eq!(values.len(), 1);
    assert_eq!(values[0].key, "hits");

    let metrics = recorder.metrics();
    assert_eq!(metrics.len(), 2);
    assert_eq!(metrics[1].key, "latency");
    assert_eq!(metrics[1].typ, MetricType::Histogram);
}

#[test]
fn test_values_follow_the_order_of_the_keys() {
    let mut recorder = DashboardRecorder::new(DashboardOptions::default());
    let a = recorder.register_counter("a");
    let b = recorder.register_counter("b");
    recorder.increment_counter(a, 1);
    recorder.increment_counter(b, 2);

    let values = recorder.metrics_value(vec!["b", "missing", "a", "b"]);
    let keys: Vec<&str> = values.iter().map(|v| v.key.as_str()).collect();
    assert_eq!(keys, vec!["b", "a", "b"]);
    assert_eq!(values[0].value_u64, Some(2));
    assert_eq!(values[1].value_u64, Some(1));
    assert_eq!(values[2].value_u64, Some(2));
    assert!(recorder.metrics_value(vec![]).is_empty());
}

#[test]
fn test_counter_wraps_and_is_set() {
    let mut recorder = DashboardRecorder::new(DashboardOptions::default());
    let c = recorder.register_counter("c");
    recorder.set_counter(c, u64::MAX);
    assert_eq!(recorder.counter(c).map(|c| c.value()), Some(u64::MAX));
    recorder.increment_counter(c, 1);
    assert_eq!(recorder.counter(c).map(|c| c.value()), Some(0));
    recorder.increment_counter(c, 5);
    recorder.increment_counter(c, 0);
    assert_eq!(recorder.counter(c).map(|c| c.value()), Some(5));
    recorder.set_counter(c, 2);
    assert_eq!(recorder.metrics_value(vec!["c"])[0].value_u64, Some(2));
}

#[test]
fn test_unknown_handle_changes_nothing() {
    let mut recorder = DashboardRecorder::new(DashboardOptions::default());
    let c = recorder.register_counter("c");
    let g = recorder.register_gauge("g");
    recorder.increment_counter(CounterHandle { slot: 7 }, 4);
    recorder.set_counter(CounterHandle { slot: 1 }, 4);
    recorder.set_gauge(GaugeHandle { slot: 1 }, 4);
    assert!(recorder.counter(CounterHandle { slot: 7 }).is_none());
    assert!(recorder.gauge(GaugeHandle { slot: 1 }).is_none());
    assert_eq!(recorder.counter(c).map(|c| c.value()), Some(0));
    assert_eq!(recorder.gauge(g).map(|g| g.value()), Some(0));
    assert_eq!(recorder.metrics().len(), 2);
}

#[test]
fn test_gauge_keeps_the_exact_bits() {
    let mut recorder = DashboardRecorder::new(DashboardOptions::default());
    let g = recorder.register_gauge("g");
    recorder.set_gauge(g, 3.14159f64.to_bits());
    let values = recorder.metrics_value(vec!["g"]);
    assert_eq!(gauge_value(values[0].value_bits), Some(3.14159));
    assert_eq!(recorder.gauge(g).map(|g| f64::from_bits(g.value())), Some(3.14159));
    recorder.set_gauge(g, (-0.5f64).to_bits());
    assert_eq!(gauge_value(recorder.metrics_value(vec!["g"])[0].value_bits), Some(-0.5));
}

#[test]
fn test_cells_start_at_zero() {
    let mut counter = SimpleCounter::default();
    assert_eq!(counter.value(), 0);
    counter.increment(41);
    counter.increment(1);
    assert_eq!(counter.value(), 42);
    counter.absolute(7);
    assert_eq!(counter.value(), 7);

    let mut gauge = SimpleGauge::default();
    assert_eq!(f64::from_bits(gauge.value()), 0.0);
    gauge.set(1.5f64.to_bits());
    assert_eq!(f64::from_bits(gauge.value()), 1.5);
}

#[test]
fn test_new_recorder_is_empty_and_keeps_its_options() {
    let options = DashboardOptions { custom_charts: vec![], include_default: true };
    let recorder = DashboardRecorder::new(options);
    assert!(recorder.options().include_default);
    assert!(recorder.options().custom_charts.is_empty());
    assert!(recorder.metrics().is_empty());
    assert!(!DashboardOptions::default().include_default);
}

#[test]
fn test_names_are_case_sensitive_and_sorted_by_bytes() {
    let mut recorder = DashboardRecorder::new(DashboardOptions::default());
    for name in ["b", "a", "B", "ab", "", "é", "z", "a_b"] {
        recorder.register_counter(name);
    }
    let keys: Vec<String> = recorder.metrics().into_iter().map(|m| m.key).collect();
    assert_eq!(keys, vec!["", "B", "a", "a_b", "ab", "b", "z", "é"]);
}
