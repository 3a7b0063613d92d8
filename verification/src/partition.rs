//! Buckets: a stream's records are kept apart by the hour or the day of
//! their time, and by the values of the stream's partition keys.

use vstd::prelude::*;
use vstd::string::StringExecFns;
use crate::labels::{label_value, last_value, Label, LabelText};
use crate::text::same_text;

verus! {

/// How wide the buckets of a stream are in time.
#[derive(Debug, Clone, Copy, PartialEq, Eq, Structural)]
pub enum PartitionTimeLevel {
    /// Not set for the stream.
    Unset,
    /// One bucket for each hour.
    Hourly,
    /// One bucket for each day.
    Daily,
}

/// The level that holds for a stream: its own where it has set one, else
/// the given default.
pub open spec fn level_or(level: Option<PartitionTimeLevel>, default: PartitionTimeLevel) -> PartitionTimeLevel {
    match level {
        Some(PartitionTimeLevel::Hourly) => PartitionTimeLevel::Hourly,
        Some(PartitionTimeLevel::Daily) => PartitionTimeLevel::Daily,
        _ => default,
    }
}

/// The level that holds for a stream: its own where it has set one, else
/// the given default.
pub fn unwrap_partition_time_level(level: Option<PartitionTimeLevel>, default: PartitionTimeLevel) -> (r:
    PartitionTimeLevel)
    ensures
        r == level_or(level, default),
{
    match level {
        Some(PartitionTimeLevel::Hourly) => PartitionTimeLevel::Hourly,
        Some(PartitionTimeLevel::Daily) => PartitionTimeLevel::Daily,
        _ => default,
    }
}

/// The level that a configured name stands for.
pub open spec fn level_named(name: Seq<char>) -> PartitionTimeLevel {
    if name == "hourly"@ {
        PartitionTimeLevel::Hourly
    } else if name == "daily"@ {
        PartitionTimeLevel::Daily
    } else {
        PartitionTimeLevel::Unset
    }
}

/// Reads a level from its configured name: `hourly` or `daily`; any other
/// name sets no level.
pub fn partition_time_level(name: &str) -> (r: PartitionTimeLevel)
    ensures
        r == level_named(name@),
{
    if same_text(name, "hourly") {
        PartitionTimeLevel::Hourly
    } else if same_text(name, "daily") {
        PartitionTimeLevel::Daily
    } else {
        PartitionTimeLevel::Unset
    }
}

/// Pattern of the time key of an hourly bucket.
pub const HOUR_PATTERN: &'static str = "%Y/%m/%d/%H";

/// Pattern of the time key of a daily bucket.
pub const DAY_PATTERN: &'static str = "%Y/%m/%d/00";

/// What `chrono` writes for the time that lies `nanos` nanoseconds after
/// the start of 1970, in universal time, under a pattern.
pub uninterp spec fn utc_text(nanos: i64, pattern: Seq<char>) -> Seq<char>;

/// Calls `chrono::TimeZone::timestamp_nanos` on `chrono::Utc`, then
/// `DateTime::format` with the pattern, and takes the text of the result.
/// The first never fails; the second writes the year, month, day and hour
/// fields that the pattern names. The text depends on the two arguments
/// alone.
#[verifier::external_body]
fn format_utc(nanos: i64, pattern: &str) -> (r: String)
    requires
        pattern@ == HOUR_PATTERN@ || pattern@ == DAY_PATTERN@,
    ensures
        r@ == utc_text(nanos, pattern@),
{
    chrono::TimeZone::timestamp_nanos(&chrono::Utc, nanos).format(pattern).to_string()
}

/// Nanoseconds of a time in microseconds; a time too far from 1970 to be
/// counted in nanoseconds gives the nearest time that can be.
pub open spec fn nanos_of(micros: int) -> i64 {
    if micros * 1000 > i64::MAX {
        i64::MAX
    } else if micros * 1000 < i64::MIN {
        i64::MIN
    } else {
        (micros * 1000) as i64
    }
}

/// The pattern of a level: by the day where the level says so, else by the
/// hour.
pub open spec fn pattern_of(level: PartitionTimeLevel) -> Seq<char> {
    match level {
        PartitionTimeLevel::Daily => DAY_PATTERN@,
        _ => HOUR_PATTERN@,
    }
}

/// The time key of a bucket: year, month, day and hour of the time, where
/// the hour of a daily bucket is `00`.
pub open spec fn time_key_of(timestamp: int, level: PartitionTimeLevel) -> Seq<char> {
    utc_text(nanos_of(timestamp), pattern_of(level))
}

/// The part of a bucket key that the partition keys add: for each key that
/// the labels hold, in the order of the keys, a slash, the key, an equals
/// sign and the value.
pub open spec fn partition_suffix(labels: Seq<LabelText>, keys: Seq<Seq<char>>) -> Seq<char>
    decreases keys.len(),
{
    if keys.len() == 0 {
        Seq::empty()
    } else {
        let rest = partition_suffix(labels, keys.drop_last());
        match last_value(labels, keys.last()) {
            Some(value) => rest + "/"@ + keys.last() + "="@ + value,
            None => rest,
        }
    }
}

/// The key of the bucket of a record.
pub open spec fn bucket_key_of(
    labels: Seq<LabelText>,
    timestamp: int,
    keys: Seq<Seq<char>>,
    level: PartitionTimeLevel,
) -> Seq<char> {
    time_key_of(timestamp, level) + partition_suffix(labels, keys)
}

/// The time key of the bucket that holds the time `timestamp`, which is in
/// microseconds since 1970.
pub fn time_key(timestamp: i64, level: PartitionTimeLevel) -> (r: String)
    ensures
        r@ == time_key_of(timestamp as int, level),
{
    let wide: i128 = timestamp as i128 * 1000;
    let nanos: i64 = if wide > i64::MAX as i128 {
        i64::MAX
    } else if wide < i64::MIN as i128 {
        i64::MIN
    } else {
        wide as i64
    };
    match level {
        PartitionTimeLevel::Daily => format_utc(nanos, DAY_PATTERN),
        _ => format_utc(nanos, HOUR_PATTERN),
    }
}

/// The key of the bucket of a record with these labels and this time.
pub fn bucket_key(labels: &Vec<Label>, timestamp: i64, keys: &Vec<String>, level: PartitionTimeLevel) -> (r:
    String)
    ensures
        r@ == bucket_key_of(labels.deep_view(), timestamp as int, keys.deep_view(), level),
{
    let mut key = time_key(timestamp, level);
    let ghost start = key@;
    let mut i: usize = 0;
    assert(start + Seq::<char>::empty() =~= start);
    while i < keys.len()
        invariant
            i <= keys.len(),
            key@ == start + partition_suffix(labels.deep_view(), keys.deep_view().take(i as int)),
        decreases keys.len() - i,
    {
        proof {
            assert(keys.deep_view().take(i + 1).drop_last() =~= keys.deep_view().take(i as int));
            assert(keys.deep_view().take(i + 1).last() == keys[i as int]@);
        }
        let ghost before = partition_suffix(labels.deep_view(), keys.deep_view().take(i as int));
        match label_value(labels, keys[i].as_str()) {
            Some(value) => {
                key.append("/");
                key.append(keys[i].as_str());
                key.append("=");
                key.append(value.as_str());
                assert(key@ =~= start + (before + "/"@ + keys[i as int]@ + "="@ + value@));
            },
            None => {},
        }
        i += 1;
    }
    assert(keys.deep_view().take(keys.len() as int) =~= keys.deep_view());
    key
}

} // verus!
