use openobserve::alerts::{collect_triggers, plan_notifications};
use openobserve::buffer::{buffer_records, plan_writes, Outcome};
use openobserve::evaluate::{evaluate_records, stream_names};
use openobserve::labels::{label_value, labels_value, metric_name, split_ha_labels, Label};
use openobserve::partition::{bucket_key, time_key, unwrap_partition_time_level, PartitionTimeLevel};
use openobserve::record::{signature, stamp, to_hex};
use openobserve::sample::{store_value, value_is_nan, LARGEST_FINITE, SMALLEST_FINITE};
use openobserve::series::{collect_records, nanos_to_micros, HaConfig, MetricRecord, Sample, TimeSeries};
use openobserve::settings::{find_settings, functions_applied, AlertRule, StreamSettings};
use openobserve::transform::apply_transforms;

fn label(name: &str, value: &str) -> Label {
    Label { name: name.to_string(), value: value.to_string() }
}

fn pairs(labels: &[Label]) -> Vec<(String, String)> {
    labels.iter().map(|l| (l.name.clone(), l.value.clone())).collect()
}

fn config() -> HaConfig {
    HaConfig { replica_label: "__replica__".to_string(), cluster_label: "cluster".to_string() }
}

fn sample(timestamp_nanos: i64, value: f64) -> Sample {
    Sample { timestamp_nanos, value: value.to_bits() }
}

fn record(stream: &str, labels: Vec<Label>, value: f64, timestamp: i64) -> MetricRecord {
    MetricRecord { stream: stream.to_string(), labels, value: value.to_bits(), timestamp }
}

fn kept(record: MetricRecord) -> Outcome {
    Outcome { record: Some(record), matches: Vec::new() }
}

fn settings(stream: &str) -> StreamSettings {
    StreamSettings {
        stream: stream.to_string(),
        partition_keys: Vec::new(),
        time_level: None,
        deleting: false,
        alerts: Vec::new(),
        transforms: 0,
    }
}

// 2023-11-14 22:13:20 UTC
const NOON: i64 = 1_700_000_000_000_000;

#[test]
fn splitter_takes_out_both_coordination_labels() {
    let labels = vec![
        label("__name__", "up"),
        label("__replica__", "r1"),
        label("job", "api"),
        label("cluster", "prod"),
        label("zone", "a"),
    ];
    let split = split_ha_labels(&labels, "__replica__", "cluster");
    assert_eq!(
        pairs(&split.labels),
        vec![
            ("__name__".to_string(), "up".to_string()),
            ("job".to_string(), "api".to_string()),
            ("zone".to_string(), "a".to_string()),
        ]
    );
    assert_eq!(split.replica, "r1");
    assert_eq!(split.cluster, Some("prod".to_string()));
}

#[test]
fn splitter_without_coordination_labels() {
    let labels = vec![label("__name__", "up"), label("job", "api")];
    let split = split_ha_labels(&labels, "__replica__", "cluster");
    assert_eq!(split.labels.len(), 2);
    assert_eq!(split.replica, "");
    assert_eq!(split.cluster, None);
    let none = split_ha_labels(&Vec::new(), "__replica__", "cluster");
    assert!(none.labels.is_empty());
}

#[test]
fn splitter_takes_last_replica_and_first_cluster() {
    let labels = vec![
        label("cluster", "one"),
        label("__replica__", "a"),
        label("cluster", "two"),
        label("__replica__", "b"),
    ];
    let split = split_ha_labels(&labels, "__replica__", "cluster");
    assert!(split.labels.is_empty());
    assert_eq!(split.replica, "b");
    assert_eq!(split.cluster, Some("one".to_string()));
}

#[test]
fn splitter_with_one_name_for_both_labels() {
    let labels = vec![label("ha", "x"), label("job", "api")];
    let split = split_ha_labels(&labels, "ha", "ha");
    assert_eq!(split.replica, "x");
    assert_eq!(split.cluster, None);
    assert_eq!(split.labels.len(), 1);
}

#[test]
fn cluster_label_with_empty_value_is_present() {
    let labels = vec![label("cluster", "")];
    let split = split_ha_labels(&labels, "__replica__", "cluster");
    assert_eq!(split.cluster, Some(String::new()));
}

#[test]
fn metric_name_is_the_last_name_label() {
    assert_eq!(metric_name(&vec![label("job", "api")]), None);
    assert_eq!(metric_name(&vec![label("__name__", "a"), label("__name__", "b")]), Some("b".to_string()));
    assert_eq!(label_value(&vec![label("job", "api")], "job"), Some("api".to_string()));
    assert_eq!(label_value(&vec![label("job", "api")], "zone"), None);
}

#[test]
fn sorted_labels_are_found_by_halving() {
    let labels = vec![label("a", "1"), label("b", "2"), label("c", "3"), label("d", "4")];
    assert_eq!(labels_value(&labels, "a"), Some("1".to_string()));
    assert_eq!(labels_value(&labels, "c"), Some("3".to_string()));
    assert_eq!(labels_value(&labels, "d"), Some("4".to_string()));
    assert_eq!(labels_value(&labels, "bb"), None);
    assert_eq!(labels_value(&Vec::new(), "a"), None);
}

#[test]
fn values_that_are_not_numbers_are_dropped() {
    assert_eq!(store_value(f64::NAN.to_bits()), None);
    assert_eq!(store_value((-f64::NAN).to_bits()), None);
    // A signalling pattern and the pattern with the smallest fraction.
    assert_eq!(store_value(0x7FF0_0000_0000_0001), None);
    assert_eq!(store_value(0xFFF0_0000_0000_0001), None);
    assert_eq!(store_value(0xFFFF_FFFF_FFFF_FFFF), None);
    assert!(value_is_nan(f64::NAN.to_bits()));
    assert!(!value_is_nan(f64::INFINITY.to_bits()));
    assert!(!value_is_nan(0.0f64.to_bits()));
}

#[test]
fn infinities_are_clamped() {
    assert_eq!(store_value(f64::INFINITY.to_bits()), Some(f64::MAX.to_bits()));
    assert_eq!(store_value(f64::NEG_INFINITY.to_bits()), Some(f64::MIN.to_bits()));
    assert_eq!(LARGEST_FINITE, f64::MAX.to_bits());
    assert_eq!(SMALLEST_FINITE, f64::MIN.to_bits());
}

#[test]
fn finite_values_are_kept() {
    for value in [0.0, -0.0, 1.0, -1.5, f64::MAX, f64::MIN, f64::MIN_POSITIVE, 5e-324, 1e300] {
        let kept = store_value(value.to_bits()).expect("a finite value is kept");
        assert_eq!(kept, value.to_bits());
        assert!(f64::from_bits(kept).is_finite());
    }
}

#[test]
fn times_are_rounded_towards_zero() {
    assert_eq!(nanos_to_micros(0), 0);
    assert_eq!(nanos_to_micros(999), 0);
    assert_eq!(nanos_to_micros(1000), 1);
    assert_eq!(nanos_to_micros(1_700_000_000_123_456_789), 1_700_000_000_123_456);
    assert_eq!(nanos_to_micros(-1), 0);
    assert_eq!(nanos_to_micros(-1000), -1);
    assert_eq!(nanos_to_micros(-1999), -1);
    assert_eq!(nanos_to_micros(i64::MAX), 9_223_372_036_854_775);
    assert_eq!(nanos_to_micros(i64::MIN), -9_223_372_036_854_775);
}

#[test]
fn of_a_number_and_a_value_that_is_none_only_the_number_is_kept() {
    let batch = vec![TimeSeries {
        labels: vec![label("__name__", "m"), label("job", "api")],
        samples: vec![sample(1_000_000, f64::NAN), sample(2_000_000, 1.0)],
    }];
    let records = collect_records(&batch, &config());
    assert_eq!(records.len(), 1);
    assert_eq!(records[0].stream, "m");
    assert_eq!(f64::from_bits(records[0].value), 1.0);
    assert_eq!(records[0].timestamp, 2_000);

    let outcomes: Vec<Outcome> = records.into_iter().map(kept).collect();
    let buffer = buffer_records(&outcomes, &Vec::new(), PartitionTimeLevel::Hourly);
    assert_eq!(buffer.len(), 1);
    let buckets = buffer.get("m").expect("the stream has records");
    let all: Vec<f64> = buckets.values().flatten().map(|r| f64::from_bits(r.value)).collect();
    assert_eq!(all, vec![1.0]);
}

#[test]
fn records_follow_series_and_samples() {
    let batch = vec![
        TimeSeries {
            labels: vec![label("__name__", "a"), label("__replica__", "r1"), label("job", "x")],
            samples: vec![sample(1_000, 1.0), sample(2_000, f64::INFINITY)],
        },
        TimeSeries { labels: vec![label("job", "nameless")], samples: vec![sample(3_000, 3.0)] },
        TimeSeries { labels: vec![label("__name__", "b")], samples: Vec::new() },
        TimeSeries {
            labels: vec![label("cluster", "c"), label("__name__", "b")],
            samples: vec![sample(4_000, f64::NEG_INFINITY), sample(5_000, f64::NAN), sample(6_000, -2.0)],
        },
    ];
    let records = collect_records(&batch, &config());
    let seen: Vec<(String, f64, i64)> =
        records.iter().map(|r| (r.stream.clone(), f64::from_bits(r.value), r.timestamp)).collect();
    assert_eq!(
        seen,
        vec![
            ("a".to_string(), 1.0, 1),
            ("a".to_string(), f64::MAX, 2),
            ("b".to_string(), f64::MIN, 4),
            ("b".to_string(), -2.0, 6),
        ]
    );
    assert_eq!(
        pairs(&records[0].labels),
        vec![("__name__".to_string(), "a".to_string()), ("job".to_string(), "x".to_string())]
    );
    assert_eq!(pairs(&records[2].labels), vec![("__name__".to_string(), "b".to_string())]);
    assert!(collect_records(&Vec::new(), &config()).is_empty());
}

#[test]
fn no_record_is_not_a_number() {
    let patterns = [
        f64::NAN.to_bits(),
        f64::INFINITY.to_bits(),
        f64::NEG_INFINITY.to_bits(),
        0x7FF8_0000_0000_0001,
        0xFFF0_0000_0000_0000,
        0x7FEF_FFFF_FFFF_FFFF,
        0,
        1,
    ];
    let batch = vec![TimeSeries {
        labels: vec![label("__name__", "m")],
        samples: patterns.iter().map(|bits| Sample { timestamp_nanos: 1, value: *bits }).collect(),
    }];
    let records = collect_records(&batch, &config());
    assert_eq!(records.len(), 6);
    for record in &records {
        assert!(f64::from_bits(record.value).is_finite());
    }
}

#[test]
fn signature_has_a_known_value() {
    assert_eq!(signature(&Vec::new()), "0000000000000000");
    assert_eq!(signature(&vec![label("__name__", "m")]), "90233224ee8bb49a");
    assert_eq!(signature(&vec![label("__name__", "m"), label("job", "api")]), "e66a71c1feee9e0d");
    assert_eq!(signature(&vec![label("", "")]), "af64724c8602eb6e");
    assert_eq!(
        signature(&vec![label("__name__", "cpu"), label("host", "a"), label("région", "é")]),
        "48de7f345fa3a237"
    );
}

#[test]
fn signature_ignores_order_and_value() {
    let one = signature(&vec![label("__name__", "m"), label("job", "api")]);
    let other = signature(&vec![label("job", "api"), label("__name__", "m")]);
    assert_eq!(one, other);
    let with_value = signature(&vec![label("__name__", "m"), label("value", "x"), label("job", "api")]);
    assert_eq!(one, with_value);
    let different = signature(&vec![label("__name__", "m"), label("job", "web")]);
    assert_ne!(one, different);
    // Name and value are kept apart.
    assert_ne!(signature(&vec![label("ab", "c")]), signature(&vec![label("a", "bc")]));
}

#[test]
fn hexadecimal_text_has_sixteen_digits() {
    assert_eq!(to_hex(0), "0000000000000000");
    assert_eq!(to_hex(0xdead_beef), "00000000deadbeef");
    assert_eq!(to_hex(u64::MAX), "ffffffffffffffff");
    assert_eq!(to_hex(0x0123_4567_89ab_cdef), "0123456789abcdef");
}

#[test]
fn stamp_adds_the_signature() {
    let given = record("m", vec![label("__name__", "m"), label("job", "api")], 2.5, 77);
    let stamped = stamp(&given, given.value);
    assert_eq!(stamped.hash, "e66a71c1feee9e0d");
    assert_eq!(stamped.timestamp, 77);
    assert_eq!(f64::from_bits(stamped.value), 2.5);
    assert_eq!(pairs(&stamped.labels), pairs(&given.labels));
}

#[test]
fn time_key_names_the_hour_or_the_day() {
    assert_eq!(time_key(NOON, PartitionTimeLevel::Hourly), "2023/11/14/22");
    assert_eq!(time_key(NOON, PartitionTimeLevel::Unset), "2023/11/14/22");
    assert_eq!(time_key(NOON, PartitionTimeLevel::Daily), "2023/11/14/00");
    assert_eq!(time_key(0, PartitionTimeLevel::Hourly), "1970/01/01/00");
    assert_eq!(time_key(-1, PartitionTimeLevel::Hourly), "1969/12/31/23");
    assert_eq!(time_key(NOON + 3_600_000_000, PartitionTimeLevel::Hourly), "2023/11/14/23");
}

#[test]
fn time_key_of_a_time_out_of_range_is_that_of_the_nearest() {
    assert_eq!(time_key(i64::MAX, PartitionTimeLevel::Hourly), "2262/04/11/23");
    assert_eq!(time_key(i64::MIN, PartitionTimeLevel::Hourly), "1677/09/21/00");
    assert_eq!(time_key(i64::MAX / 1000, PartitionTimeLevel::Hourly), "2262/04/11/23");
}

#[test]
fn bucket_key_adds_the_partition_keys_that_are_present() {
    let labels = vec![label("__name__", "m"), label("zone", "a"), label("host", "h1")];
    let keys = vec!["host".to_string(), "rack".to_string(), "zone".to_string()];
    assert_eq!(bucket_key(&labels, NOON, &keys, PartitionTimeLevel::Hourly), "2023/11/14/22/host=h1/zone=a");
    assert_eq!(bucket_key(&labels, NOON, &Vec::new(), PartitionTimeLevel::Daily), "2023/11/14/00");
}

#[test]
fn time_level_falls_back_to_the_default() {
    let hourly = PartitionTimeLevel::Hourly;
    let daily = PartitionTimeLevel::Daily;
    assert_eq!(unwrap_partition_time_level(None, daily), daily);
    assert_eq!(unwrap_partition_time_level(Some(PartitionTimeLevel::Unset), daily), daily);
    assert_eq!(unwrap_partition_time_level(Some(hourly), daily), hourly);
    assert_eq!(unwrap_partition_time_level(Some(daily), hourly), daily);
}

#[test]
fn settings_are_found_by_name() {
    let known = vec![settings("a"), settings("b"), StreamSettings { deleting: true, ..settings("a") }];
    assert_eq!(find_settings(&known, "a"), Some(0));
    assert_eq!(find_settings(&known, "b"), Some(1));
    assert_eq!(find_settings(&known, "c"), None);
}

#[test]
fn transforms_are_counted_modulo_two_to_the_sixteenth() {
    let some = vec![
        StreamSettings { transforms: 2, ..settings("a") },
        StreamSettings { transforms: 3, ..settings("b") },
    ];
    assert_eq!(functions_applied(&some), 5);
    assert_eq!(functions_applied(&Vec::new()), 0);
    let many = vec![
        StreamSettings { transforms: 65_535, ..settings("a") },
        StreamSettings { transforms: 2, ..settings("b") },
    ];
    assert_eq!(functions_applied(&many), 1);
    let huge = vec![StreamSettings { transforms: usize::MAX, ..settings("a") }];
    assert_eq!(functions_applied(&huge), (usize::MAX % 65_536) as u16);
}

#[test]
fn records_are_kept_by_stream_and_bucket() {
    let outcomes = vec![
        kept(record("a", vec![label("__name__", "a"), label("host", "h1")], 1.0, NOON)),
        kept(record("b", vec![label("__name__", "b")], 2.0, NOON)),
        kept(record("a", vec![label("__name__", "a"), label("host", "h2")], 3.0, NOON)),
        kept(record("a", vec![label("__name__", "a"), label("host", "h1")], 4.0, NOON + 1)),
        kept(record("a", vec![label("__name__", "a"), label("host", "h1")], 5.0, NOON + 3_600_000_000)),
    ];
    let known = vec![
        StreamSettings { partition_keys: vec!["host".to_string()], ..settings("a") },
        StreamSettings { time_level: Some(PartitionTimeLevel::Daily), ..settings("b") },
    ];
    let buffer = buffer_records(&outcomes, &known, PartitionTimeLevel::Hourly);
    assert_eq!(buffer.len(), 2);
    let a = buffer.get("a").unwrap();
    assert_eq!(a.len(), 3);
    let first: Vec<f64> = a.get("2023/11/14/22/host=h1").unwrap().iter().map(|r| f64::from_bits(r.value)).collect();
    assert_eq!(first, vec![1.0, 4.0]);
    assert_eq!(a.get("2023/11/14/22/host=h2").unwrap().len(), 1);
    assert_eq!(a.get("2023/11/14/23/host=h1").unwrap().len(), 1);
    let b = buffer.get("b").unwrap();
    assert_eq!(b.len(), 1);
    let only = &b.get("2023/11/14/00").unwrap()[0];
    assert_eq!(only.hash, signature(&vec![label("__name__", "b")]));
    assert_eq!(only.timestamp, NOON);
}

#[test]
fn a_stream_that_is_being_deleted_gets_no_record() {
    let outcomes = vec![
        kept(record("gone", vec![label("__name__", "gone")], 1.0, NOON)),
        kept(record("kept", vec![label("__name__", "kept")], 2.0, NOON)),
        kept(record("gone", vec![label("__name__", "gone")], 3.0, NOON)),
    ];
    let known = vec![StreamSettings { deleting: true, ..settings("gone") }, settings("kept")];
    let buffer = buffer_records(&outcomes, &known, PartitionTimeLevel::Hourly);
    assert!(buffer.get("gone").is_none());
    assert_eq!(buffer.get("kept").unwrap().get("2023/11/14/22").unwrap().len(), 1);
    let writes = plan_writes(buffer, &known, PartitionTimeLevel::Hourly);
    assert_eq!(writes.len(), 1);
    assert_eq!(writes[0].stream, "kept");
}

#[test]
fn refused_and_unusable_records_are_not_buffered() {
    let outcomes = vec![
        Outcome { record: None, matches: vec![true] },
        kept(record("m", vec![label("__name__", "m")], f64::NAN, NOON)),
        kept(record("m", vec![label("__name__", "m")], f64::INFINITY, NOON)),
    ];
    let buffer = buffer_records(&outcomes, &Vec::new(), PartitionTimeLevel::Hourly);
    let records = buffer.get("m").unwrap().get("2023/11/14/22").unwrap();
    assert_eq!(records.len(), 1);
    assert_eq!(f64::from_bits(records[0].value), f64::MAX);
    let empty = buffer_records(&Vec::new(), &Vec::new(), PartitionTimeLevel::Hourly);
    assert!(empty.is_empty());
    assert!(plan_writes(empty, &Vec::new(), PartitionTimeLevel::Hourly).is_empty());
}

#[test]
fn replay_gives_the_same_buffer() {
    let make = || {
        vec![
            kept(record("a", vec![label("__name__", "a"), label("host", "h1")], 1.0, NOON)),
            kept(record("b", vec![label("__name__", "b")], 2.0, NOON + 7)),
            kept(record("a", vec![label("host", "h1"), label("__name__", "a")], 3.0, NOON)),
        ]
    };
    let known = vec![StreamSettings { partition_keys: vec!["host".to_string()], ..settings("a") }];
    let first = buffer_records(&make(), &known, PartitionTimeLevel::Hourly);
    let second = buffer_records(&make(), &known, PartitionTimeLevel::Hourly);
    let flat = |buffer: &ahash::AHashMap<String, ahash::AHashMap<String, Vec<openobserve::record::StreamRecord>>>| {
        let mut all: Vec<(String, String, Vec<(u64, String, i64)>)> = Vec::new();
        for (stream, buckets) in buffer.iter() {
            for (bucket, records) in buckets.iter() {
                let rows = records.iter().map(|r| (r.value, r.hash.clone(), r.timestamp)).collect();
                all.push((stream.clone(), bucket.clone(), rows));
            }
        }
        all.sort();
        all
    };
    assert_eq!(flat(&first), flat(&second));
    assert_eq!(flat(&first).len(), 2);
}

#[test]
fn writes_carry_the_time_level_of_their_stream() {
    let outcomes = vec![
        kept(record("a", vec![label("__name__", "a")], 1.0, NOON)),
        kept(record("b", vec![label("__name__", "b")], 2.0, NOON)),
        kept(record("c", vec![label("__name__", "c")], 3.0, NOON)),
    ];
    let known =
        vec![StreamSettings { time_level: Some(PartitionTimeLevel::Daily), ..settings("a") }, settings("b")];
    let buffer = buffer_records(&outcomes, &known, PartitionTimeLevel::Hourly);
    let mut writes = plan_writes(buffer, &known, PartitionTimeLevel::Hourly);
    writes.sort_by(|x, y| x.stream.cmp(&y.stream));
    let seen: Vec<(String, Option<PartitionTimeLevel>, usize)> =
        writes.iter().map(|w| (w.stream.clone(), w.time_level, w.buckets.len())).collect();
    assert_eq!(
        seen,
        vec![
            ("a".to_string(), Some(PartitionTimeLevel::Daily), 1),
            ("b".to_string(), None, 1),
            ("c".to_string(), Some(PartitionTimeLevel::Hourly), 1),
        ]
    );
    assert!(writes[0].buckets.contains_key("2023/11/14/00"));
}

fn alerting(stream: &str) -> StreamSettings {
    StreamSettings {
        alerts: vec![
            AlertRule { name: "high".to_string(), is_real_time: true },
            AlertRule { name: "nightly".to_string(), is_real_time: false },
            AlertRule { name: "low".to_string(), is_real_time: true },
        ],
        ..settings(stream)
    }
}

#[test]
fn an_alert_fires_once_for_the_first_record_that_meets_it() {
    let outcomes = vec![
        Outcome { record: Some(record("m", vec![], 1.0, 10)), matches: vec![false, true, false] },
        Outcome { record: Some(record("m", vec![], 2.0, 20)), matches: vec![true, true, true] },
        Outcome { record: Some(record("m", vec![], 3.0, 30)), matches: vec![true, false, true] },
        Outcome { record: Some(record("n", vec![], 4.0, 40)), matches: vec![true] },
    ];
    let known = vec![alerting("m"), alerting("n")];
    let triggers = collect_triggers(&outcomes, &known, "acme");
    let seen: Vec<(String, String, i64)> =
        triggers.iter().map(|t| (t.stream.clone(), t.alert_name.clone(), t.timestamp)).collect();
    assert_eq!(
        seen,
        vec![
            ("m".to_string(), "high".to_string(), 20),
            ("m".to_string(), "low".to_string(), 20),
            ("n".to_string(), "high".to_string(), 40),
        ]
    );
    for trigger in &triggers {
        assert!(trigger.is_valid);
        assert_eq!(trigger.org, "acme");
    }
}

#[test]
fn records_that_are_not_buffered_fire_no_alert() {
    let outcomes = vec![
        Outcome { record: None, matches: vec![true, true, true] },
        Outcome { record: Some(record("m", vec![], f64::NAN, 10)), matches: vec![true, true, true] },
        Outcome { record: Some(record("gone", vec![], 1.0, 10)), matches: vec![true, true, true] },
        Outcome { record: Some(record("unknown", vec![], 1.0, 10)), matches: vec![true, true, true] },
        Outcome { record: Some(record("m", vec![], 1.0, 10)), matches: Vec::new() },
    ];
    let known = vec![alerting("m"), StreamSettings { deleting: true, ..alerting("gone") }];
    assert!(collect_triggers(&outcomes, &known, "acme").is_empty());
}

#[test]
fn one_notice_for_each_trigger_with_an_alert() {
    let outcomes = vec![
        Outcome { record: Some(record("m", vec![], 2.0, 20)), matches: vec![true, true, true] },
        Outcome { record: Some(record("m", vec![], 2.0, 30)), matches: vec![true, true, true] },
    ];
    let known = vec![alerting("m")];
    let triggers = collect_triggers(&outcomes, &known, "acme");
    assert_eq!(triggers.len(), 2);
    let notices = plan_notifications(&triggers, &known);
    let seen: Vec<(String, String, bool)> = notices
        .iter()
        .map(|n| (n.trigger.alert_name.clone(), n.alert.name.clone(), n.alert.is_real_time))
        .collect();
    assert_eq!(
        seen,
        vec![("high".to_string(), "high".to_string(), true), ("low".to_string(), "low".to_string(), true)]
    );
    assert_eq!(notices[0].trigger.timestamp, 20);

    // The alert named "low" is gone by the time the notices are sent.
    let later = vec![StreamSettings {
        alerts: vec![AlertRule { name: "high".to_string(), is_real_time: true }],
        ..settings("m")
    }];
    let fewer = plan_notifications(&triggers, &later);
    assert_eq!(fewer.len(), 1);
    assert_eq!(fewer[0].alert.name, "high");
    assert!(plan_notifications(&triggers, &Vec::new()).is_empty());
    assert!(plan_notifications(&Vec::new(), &known).is_empty());
}

#[test]
fn transforms_are_applied_in_order() {
    let given = record("m", vec![label("__name__", "m")], 1.0, 5);
    let out = apply_transforms(given, 3, &|place, mut record: MetricRecord| {
        record.labels.push(Label { name: format!("t{}", place), value: record.labels.len().to_string() });
        Some(record)
    })
    .expect("no transform refuses the record");
    assert_eq!(
        pairs(&out.labels),
        vec![
            ("__name__".to_string(), "m".to_string()),
            ("t0".to_string(), "1".to_string()),
            ("t1".to_string(), "2".to_string()),
            ("t2".to_string(), "3".to_string()),
        ]
    );
}

#[test]
fn a_refused_record_is_dropped() {
    let calls = std::cell::Cell::new(0);
    let given = record("m", vec![], 1.0, 5);
    let out = apply_transforms(given, 4, &|place, record: MetricRecord| {
        calls.set(calls.get() + 1);
        if place == 1 {
            None
        } else {
            Some(record)
        }
    });
    assert!(out.is_none());
    assert_eq!(calls.get(), 2);
    let untouched = apply_transforms(record("m", vec![], 1.0, 5), 0, &|_, _| None);
    assert_eq!(untouched.map(|r| r.timestamp), Some(5));
}

#[test]
fn streams_are_named_once_in_the_order_of_their_first_record() {
    let records = vec![
        record("b", vec![], 1.0, 1),
        record("a", vec![], 1.0, 2),
        record("b", vec![], 1.0, 3),
        record("c", vec![], 1.0, 4),
        record("a", vec![], 1.0, 5),
    ];
    assert_eq!(stream_names(&records), vec!["b".to_string(), "a".to_string(), "c".to_string()]);
    assert!(stream_names(&Vec::new()).is_empty());
}

#[test]
fn records_are_transformed_and_held_against_their_alerts() {
    let records = vec![
        record("m", vec![label("host", "h1")], 1.0, 10),
        record("plain", vec![label("host", "h2")], 2.0, 20),
        record("m", vec![label("host", "drop")], 3.0, 30),
        record("unknown", vec![], 4.0, 40),
    ];
    let known = vec![StreamSettings { transforms: 2, ..alerting("m") }, settings("plain")];
    let outcomes = evaluate_records(
        records,
        &known,
        |place, mut given: MetricRecord| {
            if given.labels.iter().any(|l| l.value == "drop") {
                return None;
            }
            given.labels.push(Label { name: format!("t{}", place), value: "x".to_string() });
            given.stream = "elsewhere".to_string();
            Some(given)
        },
        |place, given: &MetricRecord| place != 0 || given.timestamp == 10,
    );
    assert_eq!(outcomes.len(), 4);

    let first = outcomes[0].record.as_ref().unwrap();
    assert_eq!(first.stream, "m");
    assert_eq!(
        pairs(&first.labels),
        vec![
            ("host".to_string(), "h1".to_string()),
            ("t0".to_string(), "x".to_string()),
            ("t1".to_string(), "x".to_string()),
        ]
    );
    // The alert in the middle is not tested while records come in.
    assert_eq!(outcomes[0].matches, vec![true, false, true]);

    let second = outcomes[1].record.as_ref().unwrap();
    assert_eq!(second.stream, "plain");
    assert_eq!(pairs(&second.labels), vec![("host".to_string(), "h2".to_string())]);
    assert!(outcomes[1].matches.is_empty());

    assert!(outcomes[2].record.is_none());
    assert!(outcomes[2].matches.is_empty());

    let last = outcomes[3].record.as_ref().unwrap();
    assert_eq!(last.stream, "unknown");
    assert!(outcomes[3].matches.is_empty());

    let triggers = collect_triggers(&outcomes, &known, "acme");
    let seen: Vec<(String, String, i64)> =
        triggers.iter().map(|t| (t.stream.clone(), t.alert_name.clone(), t.timestamp)).collect();
    assert_eq!(seen, vec![("m".to_string(), "high".to_string(), 10), ("m".to_string(), "low".to_string(), 10)]);
}

#[test]
fn a_batch_goes_through_the_whole_pipeline() {
    let batch = vec![
        TimeSeries {
            labels: vec![
                label("__name__", "cpu"),
                label("__replica__", "r1"),
                label("cluster", "prod"),
                label("host", "h1"),
            ],
            samples: vec![
                sample(1_700_000_000_000_000_000, 0.5),
                sample(1_700_000_001_000_000_000, f64::NAN),
                sample(1_700_003_600_000_000_000, f64::INFINITY),
            ],
        },
        TimeSeries {
            labels: vec![label("__name__", "gone"), label("host", "h1")],
            samples: vec![sample(1_700_000_000_000_000_000, 1.0)],
        },
    ];
    let records = collect_records(&batch, &config());
    assert_eq!(stream_names(&records), vec!["cpu".to_string(), "gone".to_string()]);
    let known = vec![
        StreamSettings { partition_keys: vec!["host".to_string()], ..alerting("cpu") },
        StreamSettings { deleting: true, ..alerting("gone") },
    ];
    let outcomes = evaluate_records(records, &known, |_, given| Some(given), |_, _| true);
    let buffer = buffer_records(&outcomes, &known, PartitionTimeLevel::Hourly);
    assert_eq!(buffer.len(), 1);
    let cpu = buffer.get("cpu").unwrap();
    let first = &cpu.get("2023/11/14/22/host=h1").unwrap()[0];
    assert_eq!(f64::from_bits(first.value), 0.5);
    assert_eq!(first.timestamp, NOON);
    assert_eq!(first.hash, signature(&vec![label("__name__", "cpu"), label("host", "h1")]));
    let second = &cpu.get("2023/11/14/23/host=h1").unwrap()[0];
    assert_eq!(f64::from_bits(second.value), f64::MAX);
    let triggers = collect_triggers(&outcomes, &known, "acme");
    assert_eq!(triggers.len(), 2);
    assert!(triggers.iter().all(|t| t.stream == "cpu" && t.timestamp == NOON));
    assert_eq!(plan_notifications(&triggers, &known).len(), 2);
    assert_eq!(plan_writes(buffer, &known, PartitionTimeLevel::Hourly).len(), 1);
}
