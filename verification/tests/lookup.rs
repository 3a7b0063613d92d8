use openobserve::lookup::{
    label_names, label_value_source, label_values_query, metric_matches, select_label_fields, select_metadata,
    series_query, stats_stream_name, try_into_metric_name, MatchOp, Matcher, MetricMeta, MetricType, Selector,
    StreamEntry, ValueSource,
};

fn texts(list: &[&str]) -> Vec<String> {
    list.iter().map(|s| s.to_string()).collect()
}

fn matcher(op: MatchOp, name: &str, value: &str) -> Matcher {
    Matcher { op, name: name.to_string(), value: value.to_string() }
}

fn entry(name: &str, kind: Option<MetricType>) -> StreamEntry {
    StreamEntry {
        stream_name: name.to_string(),
        metadata: kind.map(|metric_type| MetricMeta { metric_type, metric_family_name: name.to_string() }),
    }
}

#[test]
fn selector_names_its_metric() {
    let by_name = Selector {
        name: Some("zo_response_code".to_string()),
        matchers: vec![matcher(MatchOp::Equal, "__name__", "other")],
    };
    assert_eq!(try_into_metric_name(&by_name), Some("zo_response_code".to_string()));
    let by_matcher = Selector {
        name: None,
        matchers: vec![
            matcher(MatchOp::Equal, "method", "GET"),
            matcher(MatchOp::Equal, "__name__", "zo_response_code"),
            matcher(MatchOp::Equal, "__name__", "second"),
        ],
    };
    assert_eq!(try_into_metric_name(&by_matcher), Some("zo_response_code".to_string()));
    let nameless = Selector { name: None, matchers: vec![matcher(MatchOp::Equal, "method", "GET")] };
    assert_eq!(try_into_metric_name(&nameless), None);
    assert_eq!(try_into_metric_name(&Selector { name: None, matchers: Vec::new() }), None);
}

#[test]
fn label_fields_leave_out_time_value_and_signature() {
    let fields = texts(&["__hash__", "__name__", "_timestamp", "job", "value", "zone"]);
    assert_eq!(select_label_fields(&fields, "_timestamp"), texts(&["__name__", "job", "zone"]));
    assert_eq!(select_label_fields(&fields, "ts"), texts(&["__name__", "_timestamp", "job", "zone"]));
}

#[test]
fn series_statement_without_conditions() {
    let fields = texts(&["__hash__", "__name__", "_timestamp", "job", "value"]);
    assert_eq!(
        series_query("up", &fields, &Vec::new(), "_timestamp"),
        Some("SELECT DISTINCT(__hash__), __name__, job FROM up".to_string())
    );
}

#[test]
fn series_statement_with_conditions() {
    let fields = texts(&["__hash__", "__name__", "_timestamp", "job", "code", "value"]);
    let matchers = vec![
        matcher(MatchOp::Equal, "job", "api"),
        matcher(MatchOp::NotEqual, "code", "500"),
        matcher(MatchOp::Re, "job", "a.*"),
        matcher(MatchOp::NotRe, "code", "5.."),
        matcher(MatchOp::Equal, "_timestamp", "1"),
        matcher(MatchOp::Equal, "value", "1"),
        matcher(MatchOp::Equal, "absent", "x"),
        matcher(MatchOp::Equal, "__hash__", "abc"),
    ];
    assert_eq!(
        series_query("up", &fields, &matchers, "_timestamp"),
        Some(
            "SELECT DISTINCT(__hash__), __name__, job, code FROM up WHERE job = 'api' AND code != '500' AND \
             re_match(job, 'a.*') AND re_not_match(code, '5..') AND __hash__ = 'abc'"
                .to_string()
        )
    );
}

#[test]
fn a_stream_without_labels_has_no_series_statement() {
    assert_eq!(series_query("up", &Vec::new(), &Vec::new(), "_timestamp"), None);
    let fields = texts(&["__hash__", "_timestamp", "value"]);
    assert_eq!(series_query("up", &fields, &vec![matcher(MatchOp::Equal, "__hash__", "x")], "_timestamp"), None);
    assert_eq!(series_query("up", &texts(&[""]), &Vec::new(), "_timestamp"), None);
}

#[test]
fn values_of_a_label_have_a_source() {
    assert!(matches!(label_value_source("__name__", Some("up".to_string())), ValueSource::StreamNames));
    assert!(matches!(label_value_source("__name__", None), ValueSource::StreamNames));
    assert!(matches!(label_value_source("job", None), ValueSource::Nowhere));
    match label_value_source("job", Some("up".to_string())) {
        ValueSource::Stream(name) => assert_eq!(name, "up"),
        other => panic!("unexpected {:?}", other),
    }
}

#[test]
fn label_values_statement_needs_the_field() {
    let fields = texts(&["__name__", "job"]);
    assert_eq!(label_values_query("job", "up", &fields), Some("SELECT DISTINCT(job) FROM up".to_string()));
    assert_eq!(label_values_query("zone", "up", &fields), None);
    assert_eq!(label_values_query("job", "up", &Vec::new()), None);
}

#[test]
fn label_names_are_sorted_and_distinct() {
    let streams = vec![
        texts(&["__hash__", "__name__", "_timestamp", "zone", "job", "value"]),
        texts(&["job", "__name__", "code"]),
        Vec::new(),
    ];
    assert_eq!(label_names(&streams, "_timestamp"), texts(&["__name__", "code", "job", "zone"]));
    assert_eq!(label_names(&Vec::new(), "_timestamp"), Vec::<String>::new());
}

#[test]
fn metadata_leaves_out_the_parts_of_histograms() {
    let entries = vec![
        entry("req_duration_sum", Some(MetricType::Counter)),
        entry("up", Some(MetricType::Gauge)),
        entry("req_duration", Some(MetricType::Histogram)),
        entry("req_duration_bucket", Some(MetricType::Counter)),
        entry("nothing_said", None),
        entry("rpc", Some(MetricType::Summary)),
        entry("rpc_count", None),
        entry("cpu_sum", Some(MetricType::Counter)),
        entry("cpu", Some(MetricType::Gauge)),
    ];
    assert_eq!(select_metadata(&entries, None), texts(&["cpu", "cpu_sum", "req_duration", "rpc", "up"]));
    assert_eq!(select_metadata(&entries, Some(2)), texts(&["cpu", "cpu_sum"]));
    assert_eq!(select_metadata(&entries, Some(0)), Vec::<String>::new());
    assert_eq!(select_metadata(&entries, Some(5)).len(), 5);
    assert_eq!(select_metadata(&entries, Some(usize::MAX)).len(), 5);
    assert_eq!(select_metadata(&Vec::new(), None), Vec::<String>::new());
}

#[test]
fn statistics_of_a_histogram_are_those_of_its_sum() {
    assert_eq!(stats_stream_name("req", Some(MetricType::Histogram)), "req_sum");
    assert_eq!(stats_stream_name("req", Some(MetricType::Summary)), "req_sum");
    assert_eq!(stats_stream_name("req", Some(MetricType::Counter)), "req");
    assert_eq!(stats_stream_name("req", Some(MetricType::GaugeHistogram)), "req");
    assert_eq!(stats_stream_name("req", None), "req");
}

#[test]
fn a_request_without_metric_asks_for_every_stream() {
    assert!(metric_matches(&None, "up"));
    assert!(metric_matches(&Some("up".to_string()), "up"));
    assert!(!metric_matches(&Some("up".to_string()), "down"));
}
