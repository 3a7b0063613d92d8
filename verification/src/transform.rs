//! The transforms of a stream: functions of its user, applied to each record
//! in their order.

use vstd::prelude::*;
use crate::series::MetricRecord;

verus! {

/// Whether `after` can come of `before` when the transform at `place` is
/// applied: a record that was refused stays refused.
pub open spec fn step<F: Fn(usize, MetricRecord) -> Option<MetricRecord>>(
    transform: F,
    place: usize,
    before: Option<MetricRecord>,
    after: Option<MetricRecord>,
) -> bool {
    match before {
        None => after is None,
        Some(given) => call_ensures(transform, (place, given), after),
    }
}

/// Whether `trace` holds what becomes of `record` under the first `count`
/// transforms: the record itself, and behind each entry what the next
/// transform makes of it.
pub open spec fn traces<F: Fn(usize, MetricRecord) -> Option<MetricRecord>>(
    transform: F,
    record: MetricRecord,
    count: usize,
    trace: Seq<Option<MetricRecord>>,
) -> bool {
    &&& trace.len() == count + 1
    &&& trace[0] == Some(record)
    &&& forall|place: usize| place < count ==> step(transform, place, trace[place as int], #[trigger] trace[place + 1])
}

/// Whether `out` can come of `record` when the first `count` transforms are
/// applied in their order, each to what the one before it gave.
pub open spec fn chained<F: Fn(usize, MetricRecord) -> Option<MetricRecord>>(
    transform: F,
    record: MetricRecord,
    count: usize,
    out: Option<MetricRecord>,
) -> bool {
    exists|trace: Seq<Option<MetricRecord>>| #[trigger] traces(transform, record, count, trace) && trace.last() == out
}

/// Applies the transforms of a stream to a record.
///
/// `transform` applies the transform with a given place in the stream's
/// list to a record, and gives `None` where the transform refuses the
/// record. The transforms are applied in their order, each to what the one
/// before it gave. A record that a transform refuses is dropped: the
/// transforms behind it are not applied.
pub fn apply_transforms<F: Fn(usize, MetricRecord) -> Option<MetricRecord>>(
    record: MetricRecord,
    count: usize,
    transform: &F,
) -> (r: Option<MetricRecord>)
    requires
        forall|place: usize, given: MetricRecord| place < count ==> call_requires(*transform, (place, given)),
    ensures
        chained(*transform, record, count, r),
        count == 0 ==> r == Some(record),
{
    let ghost given = record;
    let ghost mut trace: Seq<Option<MetricRecord>> = seq![Some(record)];
    let mut current = Some(record);
    let mut place: usize = 0;
    while place < count
        invariant
            place <= count,
            forall|p: usize, g: MetricRecord| p < count ==> call_requires(*transform, (p, g)),
            traces(*transform, given, place, trace),
            trace.last() == current,
        decreases count - place,
    {
        let ghost before = trace;
        current = match current {
            Some(record) => transform(place, record),
            None => None,
        };
        proof {
            trace = before.push(current);
            assert forall|p: usize| p < place + 1 implies step(
                *transform,
                p,
                trace[p as int],
                #[trigger] trace[p + 1],
            ) by {
                if p < place {
                    assert(step(*transform, p, before[p as int], before[p + 1]));
                }
            }
        }
        place += 1;
    }
    assert(traces(*transform, given, count, trace));
    current
}

} // verus!
