//! The evaluation of the records of a request: each record goes through the
//! transforms of its stream, and what is left of it is held against the
//! alerts of the stream.

use vstd::prelude::*;
use crate::buffer::Outcome;
use crate::series::MetricRecord;
use crate::settings::{find_settings, settings_for, SettingsView, StreamSettings};
use crate::text::contains_text;
use crate::transform::{apply_transforms, chained, step, traces};

verus! {

/// The streams of some records, each once, in the order in which they
/// first appear.
pub open spec fn streams_of(records: Seq<MetricRecord>) -> Seq<Seq<char>>
    decreases records.len(),
{
    if records.len() == 0 {
        Seq::empty()
    } else {
        let rest = streams_of(records.drop_last());
        if rest.contains(records.last().stream@) {
            rest
        } else {
            rest.push(records.last().stream@)
        }
    }
}

/// Names the streams of some records, each once, in the order in which they
/// first appear: the streams whose settings a request needs.
pub fn stream_names(records: &Vec<MetricRecord>) -> (r: Vec<String>)
    ensures
        r.deep_view() == streams_of(records@),
{
    let mut names: Vec<String> = Vec::new();
    let mut i: usize = 0;
    assert(names.deep_view() =~= Seq::<Seq<char>>::empty());
    while i < records.len()
        invariant
            i <= records.len(),
            names.deep_view() == streams_of(records@.take(i as int)),
        decreases records.len() - i,
    {
        proof {
            assert(records@.take(i + 1).drop_last() =~= records@.take(i as int));
            assert(records@.take(i + 1).last() == records[i as int]);
        }
        if !contains_text(&names, records[i].stream.as_str()) {
            let ghost before = names.deep_view();
            names.push(records[i].stream.clone());
            assert(names.deep_view() =~= before.push(records[i as int].stream@));
        }
        i += 1;
    }
    assert(records@.take(records.len() as int) =~= records@);
    names
}

/// How many transforms a stream has; none where nothing is known of it.
pub open spec fn transforms_for(settings: Seq<SettingsView>, stream: Seq<char>) -> nat {
    match settings_for(settings, stream) {
        Some(found) => found.transforms,
        None => 0,
    }
}

/// Whether `matches` tells of a record which alerts of its stream it meets:
/// there is one entry for each alert; an alert that is tested while records
/// come in is met where `alert` says so, and no other alert is met.
pub open spec fn judged<A: Fn(usize, &MetricRecord) -> bool>(
    alert: A,
    record: MetricRecord,
    settings: Seq<SettingsView>,
    matches: Seq<bool>,
) -> bool {
    match settings_for(settings, record.stream@) {
        None => matches.len() == 0,
        Some(found) => {
            &&& matches.len() == found.alerts.len()
            &&& forall|place: usize|
                place < matches.len() ==> if found.alerts[place as int].is_real_time {
                    call_ensures(alert, (place, &record), #[trigger] matches[place as int])
                } else {
                    !matches[place as int]
                }
        },
    }
}

/// Whether `outcome` can come of `record`: the record goes through the
/// transforms of its stream in their order, it stays in its stream, and what
/// is left of it is held against the alerts of the stream. A record that a
/// transform refuses meets no alert.
pub open spec fn evaluated<T: Fn(usize, MetricRecord) -> Option<MetricRecord>, A: Fn(usize, &MetricRecord) -> bool>(
    transform: T,
    alert: A,
    record: MetricRecord,
    settings: Seq<SettingsView>,
    outcome: Outcome,
) -> bool {
    exists|left: Option<MetricRecord>|
        {
            &&& #[trigger] chained(transform, record, transforms_for(settings, record.stream@) as usize, left)
            &&& match left {
                None => outcome.record is None && outcome.matches@.len() == 0,
                Some(after) => {
                    &&& outcome.record == Some(MetricRecord { stream: record.stream, ..after })
                    &&& judged(alert, outcome.record->0, settings, outcome.matches@)
                },
            }
        }
}

/// Holds a record against the alerts of its stream.
fn judge<A: Fn(usize, &MetricRecord) -> bool>(record: &MetricRecord, settings: &Vec<StreamSettings>, alert: &A) -> (r:
    Vec<bool>)
    requires
        forall|place: usize, given: MetricRecord| call_requires(*alert, (place, &given)),
    ensures
        judged(*alert, *record, settings.deep_view(), r@),
{
    let mut matches: Vec<bool> = Vec::new();
    match find_settings(settings, record.stream.as_str()) {
        None => {},
        Some(at) => {
            let alerts = &settings[at].alerts;
            let mut place: usize = 0;
            while place < alerts.len()
                invariant
                    place <= alerts.len(),
                    matches.len() == place,
                    forall|p: usize, given: MetricRecord| call_requires(*alert, (p, &given)),
                    forall|p: usize|
                        p < place ==> if alerts.deep_view()[p as int].is_real_time {
                            call_ensures(*alert, (p, record), #[trigger] matches[p as int])
                        } else {
                            !matches[p as int]
                        },
                decreases alerts.len() - place,
            {
                assert(alerts.deep_view()[place as int] == alerts[place as int]@);
                let met = if alerts[place].is_real_time {
                    alert(place, record)
                } else {
                    false
                };
                matches.push(met);
                place += 1;
            }
        },
    }
    matches
}

/// Evaluates the records of a request, in their order.
///
/// `transform` applies the transform with a given place among the
/// transforms of a record's stream, and gives `None` where the transform
/// refuses the record; `alert` tells whether a record meets the alert with
/// a given place among the alerts of its stream. Each record goes through
/// as many transforms as the settings of its stream count, and is then held
/// against those alerts of the stream that are tested while records come in.
pub fn evaluate_records<T: Fn(usize, MetricRecord) -> Option<MetricRecord>, A: Fn(usize, &MetricRecord) -> bool>(
    records: Vec<MetricRecord>,
    settings: &Vec<StreamSettings>,
    transform: T,
    alert: A,
) -> (r: Vec<Outcome>)
    requires
        forall|place: usize, given: MetricRecord| call_requires(transform, (place, given)),
        forall|place: usize, given: MetricRecord| call_requires(alert, (place, &given)),
    ensures
        r.len() == records.len(),
        forall|i: int|
            0 <= i < r.len() ==> evaluated(transform, alert, records[i], settings.deep_view(), #[trigger] r[i]),
{
    let ghost given = records@;
    let mut rest = records;
    let mut reversed: Vec<Outcome> = Vec::new();
    // The records are taken from the end, so the outcomes come out reversed.
    while rest.len() > 0
        invariant
            rest.len() + reversed.len() == given.len(),
            forall|k: int| 0 <= k < rest.len() ==> rest[k] == given[k],
            forall|p: usize, g: MetricRecord| call_requires(transform, (p, g)),
            forall|p: usize, g: MetricRecord| call_requires(alert, (p, &g)),
            forall|k: int|
                0 <= k < reversed.len() ==> evaluated(
                    transform,
                    alert,
                    given[given.len() - 1 - k],
                    settings.deep_view(),
                    #[trigger] reversed[k],
                ),
        decreases rest.len(),
    {
        match rest.pop() {
            None => {},
            Some(record) => {
                let ghost taken = record;
                let stream = record.stream.clone();
                let count = match find_settings(settings, record.stream.as_str()) {
                    Some(at) => settings[at].transforms,
                    None => 0,
                };
                let left = apply_transforms(record, count, &transform);
                let outcome = match left {
                    None => Outcome { record: None, matches: Vec::new() },
                    Some(after) => {
                        let kept = MetricRecord {
                            stream,
                            labels: after.labels,
                            value: after.value,
                            timestamp: after.timestamp,
                        };
                        let matches = judge(&kept, settings, &alert);
                        Outcome { record: Some(kept), matches }
                    },
                };
                assert(evaluated(transform, alert, taken, settings.deep_view(), outcome)) by {
                    assert(chained(transform, taken, transforms_for(settings.deep_view(), taken.stream@) as usize, left));
                }
                reversed.push(outcome);
            },
        }
    }
    let mut outcomes: Vec<Outcome> = Vec::new();
    while reversed.len() > 0
        invariant
            reversed.len() + outcomes.len() == given.len(),
            forall|k: int|
                0 <= k < reversed.len() ==> evaluated(
                    transform,
                    alert,
                    given[given.len() - 1 - k],
                    settings.deep_view(),
                    #[trigger] reversed[k],
                ),
            forall|k: int|
                0 <= k < outcomes.len() ==> evaluated(
                    transform,
                    alert,
                    given[k],
                    settings.deep_view(),
                    #[trigger] outcomes[k],
                ),
        decreases reversed.len(),
    {
        let ghost at = reversed.len() - 1;
        match reversed.pop() {
            None => {},
            Some(outcome) => {
                assert(given.len() - 1 - at == outcomes.len());
                outcomes.push(outcome);
            },
        }
    }
    outcomes
}

/// Whether a transform gives one result for one record: the same record at
/// the same place always becomes the same.
pub open spec fn transforms_alike<T: Fn(usize, MetricRecord) -> Option<MetricRecord>>(transform: T) -> bool {
    forall|place: usize, given: MetricRecord, one: Option<MetricRecord>, other: Option<MetricRecord>|
        #[trigger] call_ensures(transform, (place, given), one) && #[trigger] call_ensures(
            transform,
            (place, given),
            other,
        ) ==> one == other
}

/// Whether an alert gives one answer for one record.
pub open spec fn judges_alike<A: Fn(usize, &MetricRecord) -> bool>(alert: A) -> bool {
    forall|place: usize, given: MetricRecord, one: bool, other: bool|
        #[trigger] call_ensures(alert, (place, &given), one) && #[trigger] call_ensures(
            alert,
            (place, &given),
            other,
        ) ==> one == other
}

proof fn lemma_traces_agree<T: Fn(usize, MetricRecord) -> Option<MetricRecord>>(
    transform: T,
    record: MetricRecord,
    count: usize,
    one: Seq<Option<MetricRecord>>,
    other: Seq<Option<MetricRecord>>,
    upto: usize,
)
    requires
        transforms_alike(transform),
        traces(transform, record, count, one),
        traces(transform, record, count, other),
        upto <= count,
    ensures
        one[upto as int] == other[upto as int],
    decreases upto,
{
    if upto > 0 {
        let before = (upto - 1) as usize;
        lemma_traces_agree(transform, record, count, one, other, before);
        assert(step(transform, before, one[before as int], one[before + 1]));
        assert(step(transform, before, other[before as int], other[before + 1]));
    }
}

/// Transforms and alerts that give one result for one record give one
/// outcome for it: a record that is evaluated again is evaluated alike.
pub proof fn lemma_evaluated_alike<T: Fn(usize, MetricRecord) -> Option<MetricRecord>, A: Fn(usize, &MetricRecord) -> bool>(
    transform: T,
    alert: A,
    record: MetricRecord,
    settings: Seq<SettingsView>,
    first: Outcome,
    second: Outcome,
)
    requires
        transforms_alike(transform),
        judges_alike(alert),
        evaluated(transform, alert, record, settings, first),
        evaluated(transform, alert, record, settings, second),
    ensures
        first.record == second.record,
        first.matches@ == second.matches@,
{
    let count = transforms_for(settings, record.stream@) as usize;
    let one = choose|left: Option<MetricRecord>|
        {
            &&& #[trigger] chained(transform, record, count, left)
            &&& match left {
                None => first.record is None && first.matches@.len() == 0,
                Some(after) => {
                    &&& first.record == Some(MetricRecord { stream: record.stream, ..after })
                    &&& judged(alert, first.record->0, settings, first.matches@)
                },
            }
        };
    let other = choose|left: Option<MetricRecord>|
        {
            &&& #[trigger] chained(transform, record, count, left)
            &&& match left {
                None => second.record is None && second.matches@.len() == 0,
                Some(after) => {
                    &&& second.record == Some(MetricRecord { stream: record.stream, ..after })
                    &&& judged(alert, second.record->0, settings, second.matches@)
                },
            }
        };
    let trace_one = choose|trace: Seq<Option<MetricRecord>>| #[trigger]
        traces(transform, record, count, trace) && trace.last() == one;
    let trace_other = choose|trace: Seq<Option<MetricRecord>>| #[trigger]
        traces(transform, record, count, trace) && trace.last() == other;
    lemma_traces_agree(transform, record, count, trace_one, trace_other, count);
    assert(one == other);
    match one {
        None => {
            assert(first.matches@ =~= second.matches@);
        },
        Some(after) => {
            let kept = first.record->0;
            match settings_for(settings, kept.stream@) {
                None => {
                    assert(first.matches@ =~= second.matches@);
                },
                Some(found) => {
                    assert forall|at: int| 0 <= at < first.matches@.len() implies first.matches@[at]
                        == second.matches@[at] by {
                        assert(first.matches@.len() == first.matches.len());
                        let place = at as usize;
                        if found.alerts[place as int].is_real_time {
                            assert(call_ensures(alert, (place, &kept), first.matches@[place as int]));
                            assert(call_ensures(alert, (place, &kept), second.matches@[place as int]));
                        }
                    }
                    assert(first.matches@ =~= second.matches@);
                },
            }
        },
    }
}

} // verus!
