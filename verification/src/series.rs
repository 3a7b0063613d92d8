//! A write batch, and the records that it holds.
//!
//! A batch is a sequence of time series. Each series has a label set and a
//! sequence of samples. A series that names its metric yields one record for
//! each sample whose value is a number.

use vstd::prelude::*;
use vstd::string::StringExecFns;
use crate::labels::{
    canonical_labels, cluster_value, last_value, metric_name, replica_value, split_ha_labels, text_of, Label,
    LabelText, NAME_LABEL,
};
use crate::sample::{is_finite, is_nan, store_value, stored, value_is_nan};

verus! {

/// One sample of a time series.
#[derive(Debug, Clone, Copy)]
pub struct Sample {
    /// Time of the sample, in nanoseconds since 1970.
    pub timestamp_nanos: i64,
    /// Value of the sample: the bit pattern of a double-precision number.
    pub value: u64,
}

/// One time series of a batch.
#[derive(Debug)]
pub struct TimeSeries {
    pub labels: Vec<Label>,
    pub samples: Vec<Sample>,
}

/// A time series as plain values.
pub ghost struct SeriesView {
    pub labels: Seq<LabelText>,
    pub samples: Seq<Sample>,
}

impl View for TimeSeries {
    type V = SeriesView;

    open spec fn view(&self) -> SeriesView {
        SeriesView { labels: self.labels.deep_view(), samples: self.samples@ }
    }
}

impl DeepView for TimeSeries {
    type V = SeriesView;

    open spec fn deep_view(&self) -> SeriesView {
        self@
    }
}

/// The names of the two coordination labels.
#[derive(Debug)]
pub struct HaConfig {
    /// Name of the label that holds the identity of the sending replica.
    pub replica_label: String,
    /// Name of the label that holds the cluster that the replica belongs to.
    pub cluster_label: String,
}

/// The names of the two coordination labels, as text.
pub ghost struct HaNames {
    pub replica_label: Seq<char>,
    pub cluster_label: Seq<char>,
}

impl View for HaConfig {
    type V = HaNames;

    open spec fn view(&self) -> HaNames {
        HaNames { replica_label: self.replica_label@, cluster_label: self.cluster_label@ }
    }
}

/// One sample of one metric, ready for the transforms of its stream.
#[derive(Debug)]
pub struct MetricRecord {
    /// Name of the metric, which is the name of the stream.
    pub stream: String,
    /// The labels that identify the series.
    pub labels: Vec<Label>,
    /// The value: the bit pattern of a finite double-precision number.
    pub value: u64,
    /// Time of the sample, in microseconds since 1970.
    pub timestamp: i64,
}

/// A record as plain values.
pub ghost struct RecordView {
    pub stream: Seq<char>,
    pub labels: Seq<LabelText>,
    pub value: u64,
    pub timestamp: int,
}

impl View for MetricRecord {
    type V = RecordView;

    open spec fn view(&self) -> RecordView {
        RecordView {
            stream: self.stream@,
            labels: self.labels.deep_view(),
            value: self.value,
            timestamp: self.timestamp as int,
        }
    }
}

impl DeepView for MetricRecord {
    type V = RecordView;

    open spec fn deep_view(&self) -> RecordView {
        self@
    }
}

/// Microseconds of a time in nanoseconds, rounded towards zero.
pub open spec fn micros_of(nanos: int) -> int {
    if nanos >= 0 {
        nanos / 1000
    } else {
        -((-nanos) / 1000)
    }
}

/// The records of the samples of one series, in the order of the samples:
/// one for each sample whose value is stored.
pub open spec fn sample_records(stream: Seq<char>, labels: Seq<LabelText>, samples: Seq<Sample>) -> Seq<
    RecordView,
>
    decreases samples.len(),
{
    if samples.len() == 0 {
        Seq::empty()
    } else {
        let rest = sample_records(stream, labels, samples.drop_last());
        match stored(samples.last().value) {
            None => rest,
            Some(value) => rest.push(
                RecordView { stream, labels, value, timestamp: micros_of(samples.last().timestamp_nanos as int) },
            ),
        }
    }
}

/// The records of one series: none where its labels name no metric.
pub open spec fn series_records(series: SeriesView, names: HaNames) -> Seq<RecordView> {
    let labels = canonical_labels(series.labels, names.replica_label, names.cluster_label);
    match last_value(labels, NAME_LABEL@) {
        None => Seq::empty(),
        Some(stream) => sample_records(stream, labels, series.samples),
    }
}

/// The records of a batch: those of its series, one series after the other.
pub open spec fn batch_records(batch: Seq<SeriesView>, names: HaNames) -> Seq<RecordView>
    decreases batch.len(),
{
    if batch.len() == 0 {
        Seq::empty()
    } else {
        batch_records(batch.drop_last(), names) + series_records(batch.last(), names)
    }
}

/// Converts a time in nanoseconds to microseconds, rounding towards zero.
pub fn nanos_to_micros(nanos: i64) -> (r: i64)
    ensures
        r == micros_of(nanos as int),
{
    if nanos >= 0 {
        nanos / 1000
    } else {
        let positive: i128 = -(nanos as i128);
        let quotient: i128 = positive / 1000;
        (-quotient) as i64
    }
}

/// A copy of a label set.
pub fn clone_labels(labels: &Vec<Label>) -> (r: Vec<Label>)
    ensures
        r.deep_view() == labels.deep_view(),
{
    let mut out: Vec<Label> = Vec::new();
    let mut i: usize = 0;
    while i < labels.len()
        invariant
            i <= labels.len(),
            out.deep_view() == labels.deep_view().take(i as int),
        decreases labels.len() - i,
    {
        let ghost before = out.deep_view();
        out.push(labels[i].clone());
        assert(out.deep_view() =~= before.push(labels[i as int]@));
        assert(labels.deep_view().take(i + 1) =~= labels.deep_view().take(i as int).push(labels[i as int]@));
        i += 1;
    }
    assert(labels.deep_view().take(labels.len() as int) =~= labels.deep_view());
    out
}

/// Appends the records of one series to `out`.
fn append_series_records(series: &TimeSeries, config: &HaConfig, out: &mut Vec<MetricRecord>)
    ensures
        final(out).deep_view() == old(out).deep_view() + series_records(series@, config@),
{
    let split = split_ha_labels(&series.labels, config.replica_label.as_str(), config.cluster_label.as_str());
    let ghost start = out.deep_view();
    let ghost labels = split.labels.deep_view();
    match metric_name(&split.labels) {
        None => {
            assert(out.deep_view() + Seq::<RecordView>::empty() =~= out.deep_view());
        },
        Some(stream) => {
            let mut i: usize = 0;
            assert(start + Seq::<RecordView>::empty() =~= start);
            while i < series.samples.len()
                invariant
                    i <= series.samples.len(),
                    labels == split.labels.deep_view(),
                    out.deep_view() == start + sample_records(stream@, labels, series.samples@.take(i as int)),
                decreases series.samples.len() - i,
            {
                let sample = series.samples[i];
                proof {
                    assert(series.samples@.take(i + 1).drop_last() =~= series.samples@.take(i as int));
                    assert(series.samples@.take(i + 1).last() == sample);
                }
                match store_value(sample.value) {
                    None => {},
                    Some(value) => {
                        let record = MetricRecord {
                            stream: stream.clone(),
                            labels: clone_labels(&split.labels),
                            value,
                            timestamp: nanos_to_micros(sample.timestamp_nanos),
                        };
                        let ghost before = out.deep_view();
                        out.push(record);
                        assert(out.deep_view() =~= before.push(record@));
                        assert(out.deep_view() =~= start + sample_records(
                            stream@,
                            labels,
                            series.samples@.take(i + 1),
                        ));
                    },
                }
                i += 1;
            }
            assert(series.samples@.take(series.samples.len() as int) =~= series.samples@);
        },
    }
}

/// The records of a batch, in the order of its series and their samples.
///
/// A series whose labels, without the two coordination labels, name no
/// metric yields nothing. Of the others each sample yields one record,
/// except a sample whose value is not a number; an infinite value is
/// replaced by the finite value nearest to it.
pub fn collect_records(batch: &Vec<TimeSeries>, config: &HaConfig) -> (r: Vec<MetricRecord>)
    ensures
        r.deep_view() == batch_records(batch.deep_view(), config@),
{
    let mut out: Vec<MetricRecord> = Vec::new();
    let mut i: usize = 0;
    assert(out.deep_view() =~= Seq::<RecordView>::empty());
    while i < batch.len()
        invariant
            i <= batch.len(),
            out.deep_view() == batch_records(batch.deep_view().take(i as int), config@),
        decreases batch.len() - i,
    {
        proof {
            assert(batch.deep_view().take(i + 1).drop_last() =~= batch.deep_view().take(i as int));
            assert(batch.deep_view().take(i + 1).last() == batch[i as int]@);
        }
        append_series_records(&batch[i], config, &mut out);
        i += 1;
    }
    assert(batch.deep_view().take(batch.len() as int) =~= batch.deep_view());
    out
}

/// No record of a batch holds a value that is not a number, or an infinity:
/// such a sample is left out or its value replaced.
pub proof fn lemma_records_hold_numbers(batch: Seq<SeriesView>, names: HaNames)
    ensures
        forall|i: int|
            0 <= i < batch_records(batch, names).len() ==> is_finite((#[trigger] batch_records(batch, names)[i]).value),
    decreases batch.len(),
{
    if batch.len() > 0 {
        lemma_records_hold_numbers(batch.drop_last(), names);
        let labels = canonical_labels(batch.last().labels, names.replica_label, names.cluster_label);
        match last_value(labels, NAME_LABEL@) {
            None => {},
            Some(stream) => {
                lemma_sample_records_hold_numbers(stream, labels, batch.last().samples);
            },
        }
        let before = batch_records(batch.drop_last(), names);
        let added = series_records(batch.last(), names);
        assert forall|i: int| 0 <= i < batch_records(batch, names).len() implies is_finite(
            (#[trigger] batch_records(batch, names)[i]).value,
        ) by {
            if i < before.len() {
                assert(batch_records(batch, names)[i] == before[i]);
            } else {
                assert(batch_records(batch, names)[i] == added[i - before.len()]);
            }
        }
    }
}

proof fn lemma_sample_records_hold_numbers(stream: Seq<char>, labels: Seq<LabelText>, samples: Seq<Sample>)
    ensures
        forall|i: int|
            0 <= i < sample_records(stream, labels, samples).len() ==> is_finite(
                (#[trigger] sample_records(stream, labels, samples)[i]).value,
            ),
        sample_records(stream, labels, samples).len() <= samples.len(),
        sample_records(stream, labels, samples).len() > 0 <==> holds_number(samples),
    decreases samples.len(),
{
    if samples.len() > 0 {
        lemma_sample_records_hold_numbers(stream, labels, samples.drop_last());
        if holds_number(samples) {
            let i = choose|i: int| 0 <= i < samples.len() && !is_nan(#[trigger] samples[i].value);
            if i < samples.len() - 1 {
                assert(!is_nan(samples.drop_last()[i].value));
            }
        }
        if holds_number(samples.drop_last()) {
            let i = choose|i: int| 0 <= i < samples.drop_last().len() && !is_nan(#[trigger] samples.drop_last()[i].value);
            assert(!is_nan(samples[i].value));
        }
        if !is_nan(samples.last().value) {
            assert(!is_nan(samples[samples.len() - 1].value));
        }
    }
}

/// Whether one of the samples has a value that is a number.
pub open spec fn holds_number(samples: Seq<Sample>) -> bool {
    exists|i: int| 0 <= i < samples.len() && !is_nan(#[trigger] samples[i].value)
}

/// Who sent a batch: the replica, and the cluster that it belongs to.
#[derive(Debug)]
pub struct Origin {
    /// Identity of the sending replica; empty where the series names none.
    pub replica: String,
    /// Value of the cluster label; `None` where the series has none.
    pub cluster: Option<String>,
}

/// An origin as text.
pub ghost struct OriginView {
    pub replica: Seq<char>,
    pub cluster: Option<Seq<char>>,
}

impl View for Origin {
    type V = OriginView;

    open spec fn view(&self) -> OriginView {
        OriginView { replica: self.replica@, cluster: text_of(self.cluster) }
    }
}

/// The origin that the labels of a series give.
pub open spec fn origin_of(series: SeriesView, names: HaNames) -> OriginView {
    OriginView {
        replica: replica_value(series.labels, names.replica_label),
        cluster: cluster_value(series.labels, names.replica_label, names.cluster_label),
    }
}

/// The origin of a batch: that of the series that holds its first record.
/// A batch without a record has none.
pub open spec fn first_origin_of(batch: Seq<SeriesView>, names: HaNames) -> Option<OriginView>
    decreases batch.len(),
{
    if batch.len() == 0 {
        None
    } else {
        match first_origin_of(batch.drop_last(), names) {
            Some(origin) => Some(origin),
            None => if series_records(batch.last(), names).len() > 0 {
                Some(origin_of(batch.last(), names))
            } else {
                None
            },
        }
    }
}

/// The view of an optional origin.
pub open spec fn origin_view(origin: Option<Origin>) -> Option<OriginView> {
    match origin {
        Some(o) => Some(o@),
        None => None,
    }
}

proof fn lemma_origin_stays(batch: Seq<SeriesView>, n: int, names: HaNames)
    requires
        0 <= n <= batch.len(),
        first_origin_of(batch.take(n), names) is Some,
    ensures
        first_origin_of(batch, names) == first_origin_of(batch.take(n), names),
    decreases batch.len() - n,
{
    if n < batch.len() {
        assert(batch.take(n + 1).drop_last() =~= batch.take(n));
        lemma_origin_stays(batch, n + 1, names);
    } else {
        assert(batch.take(n) =~= batch);
    }
}

fn has_number(samples: &Vec<Sample>) -> (r: bool)
    ensures
        r == holds_number(samples@),
{
    let mut i: usize = 0;
    while i < samples.len()
        invariant
            i <= samples.len(),
            forall|j: int| 0 <= j < i ==> is_nan(#[trigger] samples[j].value),
        decreases samples.len() - i,
    {
        if !value_is_nan(samples[i].value) {
            return true;
        }
        i += 1;
    }
    false
}

/// Finds who sent a batch. The election of a request is decided by the
/// series that holds the first record of the batch; the whole batch is then
/// accepted or rejected.
pub fn first_origin(batch: &Vec<TimeSeries>, config: &HaConfig) -> (r: Option<Origin>)
    ensures
        origin_view(r) == first_origin_of(batch.deep_view(), config@),
{
    let ghost all = batch.deep_view();
    let mut i: usize = 0;
    while i < batch.len()
        invariant
            i <= batch.len(),
            all == batch.deep_view(),
            first_origin_of(all.take(i as int), config@) is None,
        decreases batch.len() - i,
    {
        proof {
            assert(all.take(i + 1).drop_last() =~= all.take(i as int));
            assert(all.take(i + 1).last() == batch[i as int]@);
        }
        let series = &batch[i];
        let split = split_ha_labels(&series.labels, config.replica_label.as_str(), config.cluster_label.as_str());
        let named = metric_name(&split.labels);
        proof {
            match text_of(named) {
                Some(stream) => {
                    lemma_sample_records_hold_numbers(stream, split.labels.deep_view(), series.samples@);
                },
                None => {},
            }
        }
        if named.is_some() && has_number(&series.samples) {
            proof {
                lemma_origin_stays(all, i as int + 1, config@);
            }
            return Some(Origin { replica: split.replica, cluster: split.cluster });
        }
        i += 1;
    }
    assert(all.take(batch.len() as int) =~= all);
    None
}

/// The key of the replica group of an origin: the organization, a slash and
/// the cluster. A series without cluster label belongs to the group whose
/// key is empty.
pub open spec fn group_key_of(org_id: Seq<char>, origin: OriginView) -> Seq<char> {
    match origin.cluster {
        Some(cluster) => org_id + "/"@ + cluster,
        None => Seq::empty(),
    }
}

/// The key of the replica group of an origin.
pub fn group_key(org_id: &str, origin: &Origin) -> (r: String)
    ensures
        r@ == group_key_of(org_id@, origin@),
{
    match &origin.cluster {
        Some(cluster) => {
            let mut key = String::from_str(org_id);
            key.append("/");
            key.append(cluster.as_str());
            key
        },
        None => String::new(),
    }
}

/// The key of a group is empty for a series without cluster label, and for
/// no other series.
pub proof fn lemma_group_key_empty(org_id: Seq<char>, origin: OriginView)
    ensures
        group_key_of(org_id, origin).len() == 0 <==> origin.cluster is None,
{
    reveal_strlit("/");
}

} // verus!
