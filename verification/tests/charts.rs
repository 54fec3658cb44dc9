use metrics_dashboard::charts::{resolve_charts, ChartKind, ChartType, DashboardOptions};
use metrics_dashboard::query::api_charts;
use metrics_dashboard::recorder::{DashboardRecorder, MetricMeta, MetricType};

fn names(list: &[&str]) -> Vec<String> {
    list.iter().map(|s| s.to_string()).collect()
}

fn line(metrics: &[&str], desc: &str, unit: &str, bound: Option<&str>) -> ChartType {
    ChartType::Line {
        metrics: names(metrics),
        desc: desc.to_string(),
        unit: unit.to_string(),
        bound: bound.map(|b| b.to_string()),
    }
}

fn shape(chart: &ChartType) -> (ChartKind, Vec<String>, String, String, Option<String>) {
    (
        chart.kind(),
        chart.metrics().to_vec(),
        chart.desc().to_string(),
        chart.unit().to_string(),
        chart.bound().clone(),
    )
}

fn plain(
    kind: ChartKind,
    metrics: &[&str],
    desc: &str,
    unit: &str,
    bound: Option<&str>,
) -> (ChartKind, Vec<String>, String, String, Option<String>) {
    (
        kind,
        names(metrics),
        desc.to_string(),
        unit.to_string(),
        bound.map(|b| b.to_string()),
    )
}

#[test]
fn test_custom_chart_and_one_default_chart() {
    let options = DashboardOptions {
        custom_charts: vec![line(&["a"], "", "", None)],
        include_default: true,
    };
    let mut recorder = DashboardRecorder::new(options);
    recorder.register_counter("a");
    recorder.register_counter("b");

    let charts = api_charts(&recorder);
    assert_eq!(charts.len(), 2);
    assert_eq!(shape(&charts[0]), plain(ChartKind::Line, &["a"], "", "", None));
    assert_eq!(shape(&charts[1]), plain(ChartKind::Line, &["b"], "", "", None));
}

#[test]
fn test_bound_only_metric_gets_no_chart() {
    let options = DashboardOptions {
        custom_charts: vec![line(&["live"], "Live time", "s", Some("live_max"))],
        include_default: true,
    };
    let mut recorder = DashboardRecorder::new(options);
    recorder.register_gauge("live");
    recorder.register_gauge("live_max");
    recorder.register_gauge("other");

    let charts = api_charts(&recorder);
    assert_eq!(charts.len(), 2);
    assert_eq!(
        shape(&charts[0]),
        plain(ChartKind::Line, &["live"], "Live time", "s", Some("live_max"))
    );
    assert_eq!(shape(&charts[1]), plain(ChartKind::Line, &["other"], "", "", None));
    for chart in charts.iter() {
        assert!(!chart.metrics().contains(&"live_max".to_string()));
    }
}

#[test]
fn test_metric_that_is_charted_and_a_bound_is_charted_once() {
    let options = DashboardOptions {
        custom_charts: vec![
            line(&["a"], "A", "", Some("b")),
            ChartType::Bar {
                metrics: names(&["b"]),
                desc: "B".to_string(),
                unit: "".to_string(),
                bound: None,
            },
        ],
        include_default: true,
    };
    let mut recorder = DashboardRecorder::new(options);
    recorder.register_counter("a");
    recorder.register_counter("b");

    let charts = api_charts(&recorder);
    assert_eq!(charts.len(), 2);
    assert_eq!(shape(&charts[0]), plain(ChartKind::Line, &["a"], "A", "", Some("b")));
    assert_eq!(shape(&charts[1]), plain(ChartKind::Bar, &["b"], "B", "", None));
}

#[test]
fn test_missing_texts_are_taken_from_the_first_metric() {
    let options = DashboardOptions {
        custom_charts: vec![
            line(&["m", "n"], "", "", None),
            line(&["n"], "kept", "", None),
            line(&["unknown"], "", "", None),
        ],
        include_default: false,
    };
    let mut recorder = DashboardRecorder::new(options);
    recorder.describe_counter("m", Some("count"), "The m metric");
    recorder.describe_counter("n", Some("bytes"), "The n metric");

    let charts = api_charts(&recorder);
    assert_eq!(charts.len(), 3);
    assert_eq!(
        shape(&charts[0]),
        plain(ChartKind::Line, &["m", "n"], "The m metric", "count", None)
    );
    assert_eq!(shape(&charts[1]), plain(ChartKind::Line, &["n"], "kept", "bytes", None));
    assert_eq!(shape(&charts[2]), plain(ChartKind::Line, &["unknown"], "", "", None));
}

#[test]
fn test_default_charts_carry_description_and_unit() {
    let options = DashboardOptions { custom_charts: vec![], include_default: true };
    let mut recorder = DashboardRecorder::new(options);
    recorder.describe_gauge("z", Some("percent"), "Zed");
    recorder.register_counter("y");
    recorder.register_histogram("x");

    let charts = api_charts(&recorder);
    assert_eq!(charts.len(), 3);
    assert_eq!(shape(&charts[0]), plain(ChartKind::Line, &["x"], "", "", None));
    assert_eq!(shape(&charts[1]), plain(ChartKind::Line, &["y"], "", "", None));
    assert_eq!(shape(&charts[2]), plain(ChartKind::Line, &["z"], "Zed", "percent", None));
}

#[test]
fn test_no_default_charts_unless_asked_for() {
    let options = DashboardOptions {
        custom_charts: vec![line(&["a"], "A", "", None)],
        include_default: false,
    };
    let mut recorder = DashboardRecorder::new(options);
    recorder.register_counter("a");
    recorder.register_counter("b");

    let charts = api_charts(&recorder);
    assert_eq!(charts.len(), 1);
    assert_eq!(shape(&charts[0]), plain(ChartKind::Line, &["a"], "A", "", None));

    let empty = DashboardRecorder::new(DashboardOptions::default());
    assert!(api_charts(&empty).is_empty());
}

#[test]
fn test_charts_are_sorted_by_first_metric_and_keep_their_order_when_equal() {
    let options = DashboardOptions {
        custom_charts: vec![
            line(&["m", "a"], "second m", "", None),
            line(&["z"], "the z", "", None),
            ChartType::Bar {
                metrics: names(&["m"]),
                desc: "third m".to_string(),
                unit: "".to_string(),
                bound: None,
            },
            line(&[], "no metrics", "", None),
            line(&["b"], "the b", "", None),
        ],
        include_default: true,
    };
    let mut recorder = DashboardRecorder::new(options);
    recorder.register_counter("n");
    recorder.register_counter("a");
    recorder.register_counter("c");

    let charts = api_charts(&recorder);
    let descs: Vec<String> = charts.iter().map(|c| c.desc().to_string()).collect();
    let firsts: Vec<String> =
        charts.iter().map(|c| c.metrics().first().cloned().unwrap_or_default()).collect();
    assert_eq!(firsts, vec!["", "b", "c", "m", "m", "n", "z"]);
    assert_eq!(descs, vec!["no metrics", "the b", "", "second m", "third m", "", "the z"]);
}

#[test]
fn test_resolve_charts_on_a_given_snapshot() {
    let options = DashboardOptions {
        custom_charts: vec![line(&["b"], "", "u", Some("c"))],
        include_default: true,
    };
    let metas = vec![
        MetricMeta { key: "c".to_string(), typ: MetricType::Gauge, desc: None, unit: None },
        MetricMeta {
            key: "b".to_string(),
            typ: MetricType::Gauge,
            desc: Some("bee".to_string()),
            unit: Some("ignored".to_string()),
        },
        MetricMeta {
            key: "a".to_string(),
            typ: MetricType::Counter,
            desc: None,
            unit: Some("n".to_string()),
        },
    ];
    let charts = resolve_charts(&options, &metas);
    assert_eq!(charts.len(), 2);
    assert_eq!(shape(&charts[0]), plain(ChartKind::Line, &["a"], "", "n", None));
    assert_eq!(shape(&charts[1]), plain(ChartKind::Line, &["b"], "bee", "u", Some("c")));
}

#[test]
fn test_chart_accessors_and_copies() {
    let chart = ChartType::with(
        ChartKind::Bar,
        names(&["x", "y"]),
        "desc".to_string(),
        "unit".to_string(),
        Some("x_max".to_string()),
    );
    assert_eq!(chart.kind(), ChartKind::Bar);
    assert_eq!(chart.metrics(), &names(&["x", "y"])[..]);
    assert_eq!(chart.desc(), "desc");
    assert_eq!(chart.unit(), "unit");
    assert_eq!(chart.bound(), &Some("x_max".to_string()));
    assert_eq!(shape(&chart.clone()), shape(&chart));

    let options = DashboardOptions { custom_charts: vec![chart], include_default: true };
    let copy = options.clone();
    assert!(copy.include_default);
    assert_eq!(copy.custom_charts.len(), 1);
    assert_eq!(shape(&copy.custom_charts[0]), shape(&options.custom_charts[0]));
}
