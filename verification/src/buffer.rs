//! The buffer of one request: the records that are to be written, kept by
//! stream and, within a stream, by bucket.

use vstd::prelude::*;
use ahash::AHashMap;
use crate::partition::{bucket_key, bucket_key_of, level_or, unwrap_partition_time_level, PartitionTimeLevel};
use crate::record::{stamp, stamped, StreamRecord, StreamRecordView};
use crate::sample::{is_finite, store_value, stored};
use crate::series::{MetricRecord, RecordView};
use crate::settings::{
    find_settings, is_deleting, keys_for, level_for, settings_for, SettingsView, StreamSettings,
};

verus! {

/// The hash map of the crate `ahash`. Nothing is known of its inside; what
/// a map holds is told by `bucket_contents` and `buffer_contents`.
#[verifier::external_type_specification]
#[verifier::external_body]
#[verifier::reject_recursive_types(K)]
#[verifier::reject_recursive_types(V)]
#[verifier::reject_recursive_types(S)]
pub struct ExAHashMap<K, V, S>(AHashMap<K, V, S>);

/// The hasher of an `ahash` map. Nothing is known of it.
#[verifier::external_type_specification]
#[verifier::external_body]
pub struct ExRandomState(ahash::RandomState);

/// The records of one stream: for each bucket key the records of the
/// bucket, in the order in which they came.
pub type Buckets = Map<Seq<char>, Seq<StreamRecordView>>;

/// The records of one request: for each stream its buckets.
pub type Contents = Map<Seq<char>, Buckets>;

/// What a map of buckets holds.
pub uninterp spec fn bucket_contents(buckets: AHashMap<String, Vec<StreamRecord>>) -> Buckets;

/// What a buffer holds.
pub uninterp spec fn buffer_contents(buffer: AHashMap<String, AHashMap<String, Vec<StreamRecord>>>) -> Contents;

/// The buckets of a stream; none where the buffer does not hold the stream.
pub open spec fn buckets_of(contents: Contents, stream: Seq<char>) -> Buckets {
    if contents.dom().contains(stream) {
        contents[stream]
    } else {
        Map::empty()
    }
}

/// The records of a bucket; none where the stream does not hold the bucket.
pub open spec fn records_of(buckets: Buckets, bucket: Seq<char>) -> Seq<StreamRecordView> {
    if buckets.dom().contains(bucket) {
        buckets[bucket]
    } else {
        Seq::empty()
    }
}

/// The contents after one more record came for a bucket of a stream: the
/// record is the last of its bucket, and all else is as it was.
pub open spec fn appended(
    contents: Contents,
    stream: Seq<char>,
    bucket: Seq<char>,
    record: StreamRecordView,
) -> Contents {
    let buckets = buckets_of(contents, stream);
    contents.insert(stream, buckets.insert(bucket, records_of(buckets, bucket).push(record)))
}

/// Contents without any stream.
pub open spec fn no_contents() -> Contents {
    Map::empty()
}

/// Makes a buffer with `AHashMap::new`: it holds nothing.
#[verifier::external_body]
fn new_buffer() -> (r: AHashMap<String, AHashMap<String, Vec<StreamRecord>>>)
    ensures
        buffer_contents(r) == no_contents(),
{
    AHashMap::new()
}

/// Puts a record at the end of a bucket of a stream, as the map's
/// `entry(..).or_default()` and `Vec::push` do: a stream or a bucket that the
/// buffer does not hold yet is made, empty, before the record is added, and
/// nothing else changes.
#[verifier::external_body]
fn buffer_append(
    buffer: &mut AHashMap<String, AHashMap<String, Vec<StreamRecord>>>,
    stream: String,
    bucket: String,
    record: StreamRecord,
)
    ensures
        buffer_contents(*final(buffer)) == appended(buffer_contents(*old(buffer)), stream@, bucket@, record@),
{
    buffer.entry(stream).or_default().entry(bucket).or_default().push(record);
}

/// Hands out the streams of a buffer with their buckets, as the map's
/// `into_iter` does: each stream once, in an order that is not known.
#[verifier::external_body]
fn buffer_drain(buffer: AHashMap<String, AHashMap<String, Vec<StreamRecord>>>) -> (r: Vec<
    (String, AHashMap<String, Vec<StreamRecord>>),
>)
    ensures
        forall|i: int|
            0 <= i < r.len() ==> buffer_contents(buffer).dom().contains(#[trigger] r[i].0@) && bucket_contents(
                r[i].1,
            ) == buffer_contents(buffer)[r[i].0@],
        forall|i: int, j: int| 0 <= i < j < r.len() ==> r[i].0@ != r[j].0@,
        forall|stream: Seq<char>|
            buffer_contents(buffer).dom().contains(stream) ==> exists|i: int|
                0 <= i < r.len() && #[trigger] r[i].0@ == stream,
{
    buffer.into_iter().collect()
}

/// What the transforms and the alerts of a stream made of one record.
#[derive(Debug)]
pub struct Outcome {
    /// The record as the transforms left it; `None` where one of them
    /// refused it.
    pub record: Option<MetricRecord>,
    /// For each alert of the stream, in their order, whether the record
    /// meets it. An alert for which nothing is given is not met.
    pub matches: Vec<bool>,
}

/// An outcome as plain values.
pub ghost struct OutcomeView {
    pub record: Option<RecordView>,
    pub matches: Seq<bool>,
}

impl View for Outcome {
    type V = OutcomeView;

    open spec fn view(&self) -> OutcomeView {
        OutcomeView {
            record: match self.record {
                Some(record) => Some(record@),
                None => None,
            },
            matches: self.matches@,
        }
    }
}

impl DeepView for Outcome {
    type V = OutcomeView;

    open spec fn deep_view(&self) -> OutcomeView {
        self@
    }
}

/// A record that is buffered, with the value that is stored for it.
pub ghost struct Kept {
    pub record: RecordView,
    pub value: u64,
}

/// Whether the record of an outcome is buffered, and with which value: not
/// where a transform refused the record, where its value is not a number, or
/// where its stream is being deleted.
pub open spec fn kept(outcome: OutcomeView, settings: Seq<SettingsView>) -> Option<Kept> {
    match outcome.record {
        None => None,
        Some(record) => match stored(record.value) {
            None => None,
            Some(value) => if is_deleting(settings, record.stream) {
                None
            } else {
                Some(Kept { record, value })
            },
        },
    }
}

/// The key of the bucket of a record of a stream with these settings.
pub open spec fn bucket_of(record: RecordView, settings: Seq<SettingsView>, default: PartitionTimeLevel) -> Seq<
    char,
> {
    bucket_key_of(
        record.labels,
        record.timestamp,
        keys_for(settings, record.stream),
        level_or(
            match settings_for(settings, record.stream) {
                Some(found) => found.time_level,
                None => None,
            },
            default,
        ),
    )
}

/// What the buffer holds after the outcomes were taken in, one after the
/// other.
pub open spec fn buffered(
    outcomes: Seq<OutcomeView>,
    settings: Seq<SettingsView>,
    default: PartitionTimeLevel,
) -> Contents
    decreases outcomes.len(),
{
    if outcomes.len() == 0 {
        no_contents()
    } else {
        let rest = buffered(outcomes.drop_last(), settings, default);
        match kept(outcomes.last(), settings) {
            None => rest,
            Some(k) => appended(
                rest,
                k.record.stream,
                bucket_of(k.record, settings, default),
                stamped(k.record, k.value),
            ),
        }
    }
}

/// Puts the records of a request into their buckets.
///
/// A record that a transform refused is left out, and so is one whose value
/// is not a number and one whose stream is being deleted. Every other record
/// is stamped with the signature of its labels and becomes the last record
/// of its bucket. An infinite value is replaced by the finite value nearest
/// to it.
pub fn buffer_records(outcomes: &Vec<Outcome>, settings: &Vec<StreamSettings>, default: PartitionTimeLevel) -> (r:
    AHashMap<String, AHashMap<String, Vec<StreamRecord>>>)
    ensures
        buffer_contents(r) == buffered(outcomes.deep_view(), settings.deep_view(), default),
{
    let mut buffer = new_buffer();
    let ghost all = outcomes.deep_view();
    let ghost known = settings.deep_view();
    let mut i: usize = 0;
    while i < outcomes.len()
        invariant
            i <= outcomes.len(),
            all == outcomes.deep_view(),
            known == settings.deep_view(),
            buffer_contents(buffer) == buffered(all.take(i as int), known, default),
        decreases outcomes.len() - i,
    {
        proof {
            assert(all.take(i + 1).drop_last() =~= all.take(i as int));
            assert(all.take(i + 1).last() == outcomes[i as int]@);
        }
        match &outcomes[i].record {
            None => {},
            Some(record) => {
                match store_value(record.value) {
                    None => {},
                    Some(value) => {
                        let found = find_settings(settings, record.stream.as_str());
                        match found {
                            Some(at) => {
                                if !settings[at].deleting {
                                    let level = unwrap_partition_time_level(settings[at].time_level, default);
                                    let key = bucket_key(
                                        &record.labels,
                                        record.timestamp,
                                        &settings[at].partition_keys,
                                        level,
                                    );
                                    buffer_append(&mut buffer, record.stream.clone(), key, stamp(record, value));
                                }
                            },
                            None => {
                                let none: Vec<String> = Vec::new();
                                assert(none.deep_view() =~= Seq::<Seq<char>>::empty());
                                let level = unwrap_partition_time_level(None, default);
                                let key = bucket_key(&record.labels, record.timestamp, &none, level);
                                buffer_append(&mut buffer, record.stream.clone(), key, stamp(record, value));
                            },
                        }
                    },
                }
            },
        }
        i += 1;
    }
    assert(all.take(outcomes.len() as int) =~= all);
    buffer
}

/// One write to the log: the buckets of one stream.
pub struct StreamWrite {
    pub stream: String,
    pub buckets: AHashMap<String, Vec<StreamRecord>>,
    /// How wide the stream's buckets are in time, where that is known.
    pub time_level: Option<PartitionTimeLevel>,
}

/// The writes that empty a buffer: one for each stream that the buffer
/// holds, with all the buckets of the stream. Their order is not fixed.
pub fn plan_writes(
    buffer: AHashMap<String, AHashMap<String, Vec<StreamRecord>>>,
    settings: &Vec<StreamSettings>,
    default: PartitionTimeLevel,
) -> (r: Vec<StreamWrite>)
    ensures
        forall|i: int|
            0 <= i < r.len() ==> {
                &&& buffer_contents(buffer).dom().contains(#[trigger] r[i].stream@)
                &&& bucket_contents(r[i].buckets) == buffer_contents(buffer)[r[i].stream@]
                &&& r[i].time_level == level_for(settings.deep_view(), r[i].stream@, default)
            },
        forall|i: int, j: int| 0 <= i < j < r.len() ==> r[i].stream@ != r[j].stream@,
        forall|stream: Seq<char>|
            buffer_contents(buffer).dom().contains(stream) ==> exists|i: int|
                0 <= i < r.len() && #[trigger] r[i].stream@ == stream,
{
    let mut streams = buffer_drain(buffer);
    let ghost drained = streams@;
    let mut writes: Vec<StreamWrite> = Vec::new();
    while streams.len() > 0
        invariant
            streams.len() + writes.len() == drained.len(),
            forall|k: int| 0 <= k < streams.len() ==> streams[k] == drained[k],
            forall|k: int|
                0 <= k < writes.len() ==> {
                    &&& (#[trigger] writes[k]).stream@ == drained[drained.len() - 1 - k].0@
                    &&& writes[k].buckets == drained[drained.len() - 1 - k].1
                    &&& writes[k].time_level == level_for(settings.deep_view(), writes[k].stream@, default)
                },
        decreases streams.len(),
    {
        let last = streams.pop();
        match last {
            Some((stream, buckets)) => {
                let time_level = match find_settings(settings, stream.as_str()) {
                    Some(at) => settings[at].time_level,
                    None => Some(default),
                };
                writes.push(StreamWrite { stream, buckets, time_level });
            },
            None => {},
        }
    }
    proof {
        assert forall|i: int, j: int| 0 <= i < j < writes.len() implies writes[i].stream@ != writes[j].stream@ by {
            assert(drained[drained.len() - 1 - j].0@ != drained[drained.len() - 1 - i].0@);
        }
        assert forall|stream: Seq<char>| buffer_contents(buffer).dom().contains(stream) implies exists|i: int|
            0 <= i < writes.len() && #[trigger] writes[i].stream@ == stream by {
            let k = choose|k: int| 0 <= k < drained.len() && #[trigger] drained[k].0@ == stream;
            assert(writes[drained.len() - 1 - k].stream@ == stream);
        }
        assert forall|i: int| 0 <= i < writes.len() implies {
            &&& buffer_contents(buffer).dom().contains(#[trigger] writes[i].stream@)
            &&& bucket_contents(writes[i].buckets) == buffer_contents(buffer)[writes[i].stream@]
        } by {
            let k = drained.len() - 1 - i;
            assert(buffer_contents(buffer).dom().contains(drained[k].0@));
        }
    }
    writes
}

/// Every record in the contents has a finite value.
pub open spec fn all_finite(contents: Contents) -> bool {
    forall|stream: Seq<char>, bucket: Seq<char>, i: int|
        contents.dom().contains(stream) && contents[stream].dom().contains(bucket) && 0 <= i
            < contents[stream][bucket].len() ==> is_finite((#[trigger] contents[stream][bucket][i]).value)
}

/// Every stream in the contents has a bucket, and every bucket a record.
pub open spec fn nothing_empty(contents: Contents) -> bool {
    &&& forall|stream: Seq<char>|
        contents.dom().contains(stream) ==> exists|bucket: Seq<char>| #[trigger]
            contents[stream].dom().contains(bucket)
    &&& forall|stream: Seq<char>, bucket: Seq<char>|
        contents.dom().contains(stream) && contents[stream].dom().contains(bucket) ==> (
        #[trigger] contents[stream][bucket]).len() > 0
}

/// No buffered record holds a value that is not a number, or an infinity.
pub proof fn lemma_buffered_values_are_finite(
    outcomes: Seq<OutcomeView>,
    settings: Seq<SettingsView>,
    default: PartitionTimeLevel,
)
    ensures
        all_finite(buffered(outcomes, settings, default)),
    decreases outcomes.len(),
{
    if outcomes.len() > 0 {
        lemma_buffered_values_are_finite(outcomes.drop_last(), settings, default);
        let rest = buffered(outcomes.drop_last(), settings, default);
        match kept(outcomes.last(), settings) {
            None => {},
            Some(k) => {
                let stream = k.record.stream;
                let bucket = bucket_of(k.record, settings, default);
                let after = buffered(outcomes, settings, default);
                assert(is_finite(stamped(k.record, k.value).value));
                assert forall|s: Seq<char>, b: Seq<char>, i: int|
                    after.dom().contains(s) && after[s].dom().contains(b) && 0 <= i
                        < after[s][b].len() implies is_finite((#[trigger] after[s][b][i]).value) by {
                    if s == stream && b == bucket {
                        if i < records_of(buckets_of(rest, stream), bucket).len() {
                            assert(after[s][b][i] == rest[s][b][i]);
                        }
                    } else if s == stream {
                        assert(after[s][b] == rest[s][b]);
                    } else {
                        assert(after[s] == rest[s]);
                    }
                }
            },
        }
    }
}

/// A stream that is being deleted gets no record.
pub proof fn lemma_deleted_stream_gets_nothing(
    outcomes: Seq<OutcomeView>,
    settings: Seq<SettingsView>,
    default: PartitionTimeLevel,
    stream: Seq<char>,
)
    requires
        is_deleting(settings, stream),
    ensures
        !buffered(outcomes, settings, default).dom().contains(stream),
    decreases outcomes.len(),
{
    if outcomes.len() > 0 {
        lemma_deleted_stream_gets_nothing(outcomes.drop_last(), settings, default, stream);
    }
}

/// The buffer holds no stream without a bucket and no bucket without a
/// record: a stream of which nothing is kept is not written.
pub proof fn lemma_buffer_holds_nothing_empty(
    outcomes: Seq<OutcomeView>,
    settings: Seq<SettingsView>,
    default: PartitionTimeLevel,
)
    ensures
        nothing_empty(buffered(outcomes, settings, default)),
    decreases outcomes.len(),
{
    if outcomes.len() > 0 {
        lemma_buffer_holds_nothing_empty(outcomes.drop_last(), settings, default);
        let rest = buffered(outcomes.drop_last(), settings, default);
        match kept(outcomes.last(), settings) {
            None => {},
            Some(k) => {
                let stream = k.record.stream;
                let bucket = bucket_of(k.record, settings, default);
                let after = buffered(outcomes, settings, default);
                assert forall|s: Seq<char>| after.dom().contains(s) implies exists|b: Seq<char>| #[trigger]
                    after[s].dom().contains(b) by {
                    if s == stream {
                        assert(after[s].dom().contains(bucket));
                    } else {
                        let b = choose|b: Seq<char>| #[trigger] rest[s].dom().contains(b);
                        assert(after[s].dom().contains(b));
                    }
                }
                assert forall|s: Seq<char>, b: Seq<char>|
                    after.dom().contains(s) && after[s].dom().contains(b) implies (#[trigger] after[s][b]).len()
                    > 0 by {
                    if s == stream && b == bucket {
                    } else if s == stream {
                        assert(after[s][b] == rest[s][b]);
                    } else {
                        assert(after[s] == rest[s]);
                    }
                }
            },
        }
    }
}

/// The same outcomes under the same settings give the same buffer, whenever
/// they are taken in: what is buffered depends on nothing else.
pub proof fn lemma_replay_buffers_alike(
    first: AHashMap<String, AHashMap<String, Vec<StreamRecord>>>,
    second: AHashMap<String, AHashMap<String, Vec<StreamRecord>>>,
    outcomes: Seq<OutcomeView>,
    settings: Seq<SettingsView>,
    default: PartitionTimeLevel,
)
    requires
        buffer_contents(first) == buffered(outcomes, settings, default),
        buffer_contents(second) == buffered(outcomes, settings, default),
    ensures
        buffer_contents(first) == buffer_contents(second),
{
}

} // verus!
