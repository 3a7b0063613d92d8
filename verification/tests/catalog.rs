use openobserve::errors::Failure;
use openobserve::file_list::{
    connect, parse_file_key_columns, parse_i64, Attribute, FileMeta, FileRecord, MetaStore, StatsRecord,
};
use openobserve::metrics::{create_const_labels, metrics_endpoint, NAMESPACE};
use openobserve::promql::Query;
use openobserve::storage::{
    after_delete_attempt, storage_provider, transfer_labels, AfterDelete, StorageProvider, TransferLabels,
    DELETE_ATTEMPTS, DELETE_PAUSE_MILLIS,
};
use openobserve::text::{drop_repeats, join_texts, same_text, sorted_distinct, sorted_texts, split_text};
use openobserve::write::{check_ingest_allowed, decompress_body};

fn texts(list: &[&str]) -> Vec<String> {
    list.iter().map(|s| s.to_string()).collect()
}

#[test]
fn store_is_chosen_by_name() {
    assert_eq!(connect("sqlite"), MetaStore::Sqlite);
    assert_eq!(connect("postgres"), MetaStore::Postgres);
    assert_eq!(connect("postgresql"), MetaStore::Postgres);
    assert_eq!(connect("dynamo"), MetaStore::Dynamo);
    assert_eq!(connect("dynamodb"), MetaStore::Dynamo);
    assert_eq!(connect(""), MetaStore::Sqlite);
    assert_eq!(connect("Postgres"), MetaStore::Sqlite);
    assert_eq!(connect("etcd"), MetaStore::Sqlite);
}

#[test]
fn file_key_is_taken_apart() {
    let parts = parse_file_key_columns("files/default/logs/olympics/2022/10/03/10/6982652937134804993_1.parquet");
    let (stream_key, date_key, file_name) = parts.expect("the key has nine columns");
    assert_eq!(stream_key, "default/logs/olympics");
    assert_eq!(date_key, "2022/10/03/10");
    assert_eq!(file_name, "6982652937134804993_1.parquet");
}

#[test]
fn file_name_keeps_its_slashes() {
    let (stream_key, date_key, file_name) =
        parse_file_key_columns("files/o/metrics/s/2023/01/02/03/a/b=c/d.parquet").unwrap();
    assert_eq!(stream_key, "o/metrics/s");
    assert_eq!(date_key, "2023/01/02/03");
    assert_eq!(file_name, "a/b=c/d.parquet");
    let (stream_key, date_key, file_name) = parse_file_key_columns("////////").unwrap();
    assert_eq!(stream_key, "//");
    assert_eq!(date_key, "///");
    assert_eq!(file_name, "");
}

#[test]
fn short_file_key_is_refused() {
    for key in ["", "files", "files/default/logs/olympics/2022/10/03/10", "a/b/c/d/e/f/g/h"] {
        match parse_file_key_columns(key) {
            Err(Failure::Message(message)) => {
                assert_eq!(message, format!("[file_list] Invalid file path: {}", key))
            }
            Ok(parts) => panic!("{:?} was read as {:?}", key, parts),
        }
    }
    let failure = parse_file_key_columns("x").unwrap_err();
    assert_eq!(failure.message(), "[file_list] Invalid file path: x");
}

#[test]
fn file_meta_is_copied_from_the_row() {
    let row = FileRecord {
        stream: "default/logs/olympics".to_string(),
        date: "2022/10/03/10".to_string(),
        file: "1.parquet".to_string(),
        deleted: false,
        min_ts: 1,
        max_ts: 2,
        records: 3,
        original_size: 4,
        compressed_size: 5,
    };
    let meta = FileMeta::from(&row);
    assert_eq!(meta, FileMeta { min_ts: 1, max_ts: 2, records: 3, original_size: 4, compressed_size: 5 });
    assert_eq!(row.clone(), row);
}

#[test]
fn decimal_numbers_are_read() {
    assert_eq!(parse_i64("0"), Some(0));
    assert_eq!(parse_i64("42"), Some(42));
    assert_eq!(parse_i64("+42"), Some(42));
    assert_eq!(parse_i64("-42"), Some(-42));
    assert_eq!(parse_i64("-0"), Some(0));
    assert_eq!(parse_i64("007"), Some(7));
    assert_eq!(parse_i64("9223372036854775807"), Some(i64::MAX));
    assert_eq!(parse_i64("-9223372036854775808"), Some(i64::MIN));
    assert_eq!(parse_i64("0000000000000000000000000000000000000012"), Some(12));
}

#[test]
fn other_texts_are_no_numbers() {
    for text in [
        "",
        "+",
        "-",
        "--1",
        "+-1",
        "1-",
        " 1",
        "1 ",
        "1.0",
        "0x10",
        "1e3",
        "١٢",
        "9223372036854775808",
        "-9223372036854775809",
        "99999999999999999999999999999999999999999999",
        "12a",
    ] {
        assert_eq!(parse_i64(text), None, "{:?}", text);
        assert_eq!(parse_i64(text), text.parse::<i64>().ok(), "{:?}", text);
    }
}

fn item() -> Vec<(String, Attribute)> {
    vec![
        ("stream".to_string(), Attribute::Text("default/logs/olympics".to_string())),
        ("file_num".to_string(), Attribute::Number("7".to_string())),
        ("min_ts".to_string(), Attribute::Number("-1".to_string())),
        ("max_ts".to_string(), Attribute::Number("1700000000000000".to_string())),
        ("records".to_string(), Attribute::Number("100".to_string())),
        ("original_size".to_string(), Attribute::Number("2048".to_string())),
        ("compressed_size".to_string(), Attribute::Number("512".to_string())),
        ("org".to_string(), Attribute::Other),
    ]
}

#[test]
fn statistics_are_read_from_an_item() {
    let record = StatsRecord::from_attributes(&item()).expect("the item is complete");
    assert_eq!(
        record,
        StatsRecord {
            stream: "default/logs/olympics".to_string(),
            file_num: 7,
            min_ts: -1,
            max_ts: 1_700_000_000_000_000,
            records: 100,
            original_size: 2048,
            compressed_size: 512,
        }
    );
}

#[test]
fn an_item_that_lacks_a_count_is_not_read() {
    for missing in 0..7 {
        let mut short = item();
        short.remove(missing);
        assert_eq!(StatsRecord::from_attributes(&short), None);
    }
    let mut wrong_kind = item();
    wrong_kind[0].1 = Attribute::Number("1".to_string());
    assert_eq!(StatsRecord::from_attributes(&wrong_kind), None);
    let mut text_count = item();
    text_count[1].1 = Attribute::Text("7".to_string());
    assert_eq!(StatsRecord::from_attributes(&text_count), None);
    let mut no_number = item();
    no_number[4].1 = Attribute::Number("many".to_string());
    assert_eq!(StatsRecord::from_attributes(&no_number), None);
    assert_eq!(StatsRecord::from_attributes(&Vec::new()), None);
}

#[test]
fn text_is_cut_at_its_separators() {
    assert_eq!(split_text("a/b/c", '/', 9), texts(&["a", "b", "c"]));
    assert_eq!(split_text("a/b/c", '/', 2), texts(&["a", "b/c"]));
    assert_eq!(split_text("a/b/c", '/', 1), texts(&["a/b/c"]));
    assert_eq!(split_text("a/b/c", '/', 0), Vec::<String>::new());
    assert_eq!(split_text("", '/', 3), texts(&[""]));
    assert_eq!(split_text("/", '/', 3), texts(&["", ""]));
    assert_eq!(split_text("//a", '/', usize::MAX), texts(&["", "", "a"]));
    assert_eq!(split_text("é/ü", '/', 3), texts(&["é", "ü"]));
    let expected: Vec<String> = "a/b//c/".splitn(4, '/').map(|s| s.to_string()).collect();
    assert_eq!(split_text("a/b//c/", '/', 4), expected);
}

#[test]
fn texts_are_joined() {
    assert_eq!(join_texts(&texts(&["a", "b", "c"]), ", "), "a, b, c");
    assert_eq!(join_texts(&texts(&["a"]), ", "), "a");
    assert_eq!(join_texts(&Vec::new(), ", "), "");
    assert_eq!(join_texts(&texts(&["", ""]), "-"), "-");
    assert!(same_text("abc", "abc"));
    assert!(!same_text("abc", "abd"));
}

#[test]
fn texts_are_sorted_by_their_bytes() {
    assert_eq!(sorted_texts(texts(&["b", "a", "B", "é", "aa", "", "a"])), texts(&["", "B", "a", "a", "aa", "b", "é"]));
    assert_eq!(sorted_distinct(texts(&["b", "a", "b", "c", "a"])), texts(&["a", "b", "c"]));
    assert_eq!(sorted_distinct(Vec::new()), Vec::<String>::new());
    assert_eq!(drop_repeats(&texts(&["a", "a", "b", "a", "a"])), texts(&["a", "b", "a"]));
}

#[test]
fn service_is_chosen_by_name() {
    assert_eq!(storage_provider("aws"), StorageProvider::Aws);
    assert_eq!(storage_provider("s3"), StorageProvider::Aws);
    assert_eq!(storage_provider("azure"), StorageProvider::Azure);
    assert_eq!(storage_provider("gcs"), StorageProvider::Gcp);
    assert_eq!(storage_provider("gcp"), StorageProvider::Gcp);
    assert_eq!(storage_provider("minio"), StorageProvider::Aws);
    assert_eq!(storage_provider(""), StorageProvider::Aws);
}

#[test]
fn transfers_of_stream_files_are_counted() {
    match transfer_labels("files/default/logs/olympics/2022/10/03/10/1.parquet") {
        TransferLabels::Counted { organization, stream, stream_type } => {
            assert_eq!(organization, "default");
            assert_eq!(stream, "olympics");
            assert_eq!(stream_type, "logs");
        }
        other => panic!("unexpected {:?}", other),
    }
    assert!(matches!(transfer_labels("tmp/default/logs/olympics"), TransferLabels::Uncounted));
    assert!(matches!(transfer_labels(""), TransferLabels::Uncounted));
    assert!(matches!(transfer_labels("files"), TransferLabels::Malformed));
    assert!(matches!(transfer_labels("files/default/logs"), TransferLabels::Malformed));
    assert!(matches!(transfer_labels("files/default/logs/"), TransferLabels::Counted { .. }));
}

#[test]
fn a_deletion_is_tried_three_times() {
    assert_eq!(DELETE_ATTEMPTS, 3);
    assert_eq!(DELETE_PAUSE_MILLIS, 100);
    assert_eq!(after_delete_attempt(1, true), AfterDelete::Finish);
    assert_eq!(after_delete_attempt(3, true), AfterDelete::Finish);
    assert_eq!(after_delete_attempt(1, false), AfterDelete::PauseAndRetry);
    assert_eq!(after_delete_attempt(2, false), AfterDelete::PauseAndRetry);
    assert_eq!(after_delete_attempt(3, false), AfterDelete::PauseAndFinish);
    assert_eq!(after_delete_attempt(u32::MAX, false), AfterDelete::PauseAndFinish);
    let mut attempts = 0;
    loop {
        attempts += 1;
        if after_delete_attempt(attempts, false) != AfterDelete::PauseAndRetry {
            break;
        }
    }
    assert_eq!(attempts, 3);
}

#[test]
fn counters_carry_the_labels_of_the_node() {
    assert_eq!(NAMESPACE, "zo");
    assert_eq!(
        create_const_labels("c1", "i1", "ingester"),
        vec![
            ("cluster".to_string(), "c1".to_string()),
            ("instance".to_string(), "i1".to_string()),
            ("role".to_string(), "ingester".to_string()),
        ]
    );
    assert_eq!(metrics_endpoint("/base"), "/base/metrics");
    assert_eq!(metrics_endpoint(""), "/metrics");
}

#[test]
fn a_new_query_asks_for_one_instant() {
    let query = Query::new("acme", 1_000, 300_000_000);
    assert_eq!(query.org_id, "acme");
    assert_eq!((query.start, query.end), (1_000, 1_000));
    assert_eq!((query.interval, query.lookback_delta), (300_000_000, 300_000_000));
    assert!(query.is_instant());
    assert_eq!(query.step_count(), 1);
    assert_eq!(query.step_time(0), 1_000);
}

#[test]
fn a_statement_sets_the_range() {
    let mut query = Query::new("acme", 1_000, 300);
    query.set_range(10, 100, 30, 0);
    assert_eq!((query.start, query.end, query.interval, query.lookback_delta), (10, 100, 30, 300));
    assert!(!query.is_instant());
    query.set_range(10, 100, -5, 60);
    assert_eq!((query.interval, query.lookback_delta), (30, 60));
}

#[test]
fn steps_cover_the_range() {
    let mut query = Query::new("acme", 0, 300);
    query.set_range(10, 100, 30, 0);
    assert_eq!(query.step_count(), 4);
    let times: Vec<i64> = (0..query.step_count()).map(|i| query.step_time(i)).collect();
    assert_eq!(times, vec![10, 40, 70, 100]);
    query.set_range(10, 99, 30, 0);
    assert_eq!(query.step_count(), 3);
    query.set_range(100, 90, 30, 0);
    assert_eq!(query.step_count(), 1);
    assert_eq!(query.step_time(0), 100);
    query.set_range(100, 70, 30, 0);
    assert_eq!(query.step_count(), 0);
    query.set_range(i64::MIN, i64::MAX, 1, 0);
    assert_eq!(query.step_count(), 1i128 << 64);
    assert_eq!(query.step_time((1i128 << 64) - 1), i64::MAX);
    query.set_range(i64::MIN, i64::MAX, i64::MAX, 0);
    assert_eq!(query.step_count(), 3);
    assert_eq!(query.step_time(2), i64::MAX - 1);
}

#[test]
fn only_an_ingester_takes_a_write() {
    let blocked = texts(&["bad", "worse"]);
    assert!(check_ingest_allowed(true, &blocked, "acme").is_ok());
    assert!(check_ingest_allowed(true, &Vec::new(), "acme").is_ok());
    assert_eq!(check_ingest_allowed(false, &blocked, "acme").unwrap_err().message(), "not an ingester");
    assert_eq!(check_ingest_allowed(false, &blocked, "bad").unwrap_err().message(), "not an ingester");
    assert_eq!(
        check_ingest_allowed(true, &blocked, "worse").unwrap_err().message(),
        "Quota exceeded for this organization"
    );
}

#[test]
fn a_body_is_unpacked() {
    let plain = b"hello hello hello hello hello".to_vec();
    let packed = snap::raw::Encoder::new().compress_vec(&plain).unwrap();
    assert_ne!(packed, plain);
    assert_eq!(decompress_body(&packed).unwrap(), plain);
    let nothing = snap::raw::Encoder::new().compress_vec(b"").unwrap();
    assert_eq!(decompress_body(&nothing).unwrap(), Vec::<u8>::new());
}

#[test]
fn a_body_that_is_no_snappy_block_is_refused() {
    let empty = decompress_body(&[]).unwrap_err().message();
    assert!(empty.starts_with("Invalid snappy compressed data: "), "{}", empty);
    assert!(empty.len() > "Invalid snappy compressed data: ".len());
    let broken = decompress_body(&[0xff, 0xff, 0xff, 0xff, 0xff, 0xff]).unwrap_err().message();
    assert!(broken.starts_with("Invalid snappy compressed data: "), "{}", broken);
    let cut = {
        let mut packed = snap::raw::Encoder::new().compress_vec(b"some text that is packed").unwrap();
        packed.truncate(packed.len() - 3);
        packed
    };
    assert!(decompress_body(&cut).is_err());
}
