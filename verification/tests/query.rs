use metrics_dashboard::charts::DashboardOptions;
use metrics_dashboard::query::{api_metrics, api_metrics_value, parse_keys};
use metrics_dashboard::recorder::DashboardRecorder;

#[test]
fn test_parse_keys_splits_at_semicolons() {
    assert_eq!(parse_keys("a;b;c"), vec!["a", "b", "c"]);
    assert_eq!(parse_keys("http_requests_total"), vec!["http_requests_total"]);
    assert_eq!(parse_keys(""), vec![""]);
    assert_eq!(parse_keys(";"), vec!["", ""]);
    assert_eq!(parse_keys("a;"), vec!["a", ""]);
    assert_eq!(parse_keys(";a"), vec!["", "a"]);
    assert_eq!(parse_keys("a;;b"), vec!["a", "", "b"]);
    assert_eq!(parse_keys("é;日本;z"), vec!["é", "日本", "z"]);
    assert_eq!(parse_keys("a,b c"), vec!["a,b c"]);
}

#[test]
fn test_parse_keys_agrees_with_split() {
    let texts = ["", ";", ";;", "a", "a;b", "a;b;", ";a;;b;", "x;é;y", "日;本;", "no separator"];
    for text in texts {
        let expected: Vec<&str> = text.split(';').collect();
        assert_eq!(parse_keys(text), expected);
    }
}

#[test]
fn test_api_metrics_value_answers_in_query_order() {
    let mut recorder = DashboardRecorder::new(DashboardOptions::default());
    let a = recorder.register_counter("a");
    let g = recorder.register_gauge("g");
    recorder.register_histogram("h");
    recorder.increment_counter(a, 4);
    recorder.set_gauge(g, 2.5f64.to_bits());

    let values = api_metrics_value(&recorder, "g;missing;h;a;");
    assert_eq!(values.len(), 2);
    assert_eq!(values[0].key, "g");
    assert_eq!(values[0].value_u64, None);
    assert_eq!(values[0].value_bits.map(f64::from_bits), Some(2.5));
    assert_eq!(values[1].key, "a");
    assert_eq!(values[1].value_u64, Some(4));
    assert_eq!(values[1].value_bits, None);

    assert!(api_metrics_value(&recorder, "").is_empty());
    assert!(api_metrics_value(&recorder, "missing").is_empty());
}

#[test]
fn test_api_metrics_lists_sorted() {
    let mut recorder = DashboardRecorder::new(DashboardOptions::default());
    recorder.register_gauge("m");
    recorder.describe_counter("b", Some("B"), "the b");
    recorder.register_histogram("z");
    recorder.register_counter("a");

    let metas = api_metrics(&recorder);
    let keys: Vec<&str> = metas.iter().map(|m| m.key.as_str()).collect();
    assert_eq!(keys, vec!["a", "b", "m", "z"]);
    assert_eq!(metas[1].desc, Some("the b".to_string()));
    assert_eq!(metas[1].unit, Some("B".to_string()));
    assert_eq!(metas[0].desc, None);
}
