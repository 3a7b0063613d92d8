//! The times at which a query is evaluated.
//!
//! A query is evaluated at one instant, or at each step of a range: at the
//! start of the range and then after each interval, as long as the end of
//! the range is not passed.

use vstd::prelude::*;

verus! {

/// What is asked of the engine: for whom, and for which times. All times are
/// in microseconds.
#[derive(Debug)]
pub struct Query {
    pub org_id: String,
    /// The time boundaries of the evaluation. Where start equals end, an
    /// instant is evaluated.
    pub start: i64,
    pub end: i64,
    /// Time between two evaluated instants of the range.
    pub interval: i64,
    /// How far back a sample is looked for.
    pub lookback_delta: i64,
}

/// How many instants of a range are evaluated.
///
/// In a range that runs forward these are the start and every full interval
/// up to the end. A range that runs backward has one instant, its start,
/// where it is shorter than an interval, and none where it is not.
pub open spec fn steps_of(start: int, end: int, interval: int) -> int {
    if end >= start {
        (end - start) / interval + 1
    } else if (start - end) / interval == 0 {
        1
    } else {
        0
    }
}

impl Query {
    /// A query for the instant `now`, with `lookback` as interval and as
    /// lookback.
    pub fn new(org_id: &str, now: i64, lookback: i64) -> (r: Self)
        ensures
            r.org_id@ == org_id@,
            r.start == now,
            r.end == now,
            r.interval == lookback,
            r.lookback_delta == lookback,
    {
        Query { org_id: org_id.to_owned(), start: now, end: now, interval: lookback, lookback_delta: lookback }
    }

    /// Takes the times of a statement. An interval or a lookback that is not
    /// positive leaves the one of the query as it is.
    pub fn set_range(&mut self, start: i64, end: i64, interval: i64, lookback_delta: i64)
        ensures
            final(self).org_id == old(self).org_id,
            final(self).start == start,
            final(self).end == end,
            final(self).interval == if interval > 0 {
                interval
            } else {
                old(self).interval
            },
            final(self).lookback_delta == if lookback_delta > 0 {
                lookback_delta
            } else {
                old(self).lookback_delta
            },
    {
        self.start = start;
        self.end = end;
        if interval > 0 {
            self.interval = interval;
        }
        if lookback_delta > 0 {
            self.lookback_delta = lookback_delta;
        }
    }

    /// Whether the query asks for one instant.
    pub fn is_instant(&self) -> (r: bool)
        ensures
            r == (self.start == self.end),
    {
        self.start == self.end
    }

    /// How many instants of the range are evaluated.
    pub fn step_count(&self) -> (r: i128)
        requires
            self.interval > 0,
        ensures
            r == steps_of(self.start as int, self.end as int, self.interval as int),
            r >= 0,
    {
        let start = self.start as i128;
        let end = self.end as i128;
        let interval = self.interval as i128;
        if end >= start {
            (end - start) / interval + 1
        } else if (start - end) / interval == 0 {
            1
        } else {
            0
        }
    }

    /// The time of an evaluated instant of the range: the start, and
    /// `index` intervals after it.
    pub fn step_time(&self, index: i128) -> (r: i64)
        requires
            self.interval > 0,
            0 <= index < steps_of(self.start as int, self.end as int, self.interval as int),
        ensures
            r == self.start + self.interval * index,
            self.end >= self.start ==> r <= self.end,
    {
        let start = self.start as i128;
        let end = self.end as i128;
        let interval = self.interval as i128;
        proof {
            lemma_step_in_range(self.start as int, self.end as int, self.interval as int, index as int);
        }
        let offset: i128 = interval * index;
        (start + offset) as i64
    }
}

/// No evaluated instant of a range that runs forward lies behind its end,
/// and the only instant of a range that runs backward is its start.
pub proof fn lemma_step_in_range(start: int, end: int, interval: int, index: int)
    requires
        interval > 0,
        0 <= index < steps_of(start, end, interval),
    ensures
        0 <= interval * index,
        end >= start ==> start + interval * index <= end,
        end < start ==> index == 0,
{
    if end >= start {
        let whole = (end - start) / interval;
        assert(index <= whole);
        assert(interval * index <= interval * whole) by (nonlinear_arith)
            requires
                interval > 0,
                0 <= index <= whole,
        ;
        assert(interval * whole <= end - start) by (nonlinear_arith)
            requires
                interval > 0,
                end - start >= 0,
                whole == (end - start) / interval,
        ;
        assert(0 <= interval * index) by (nonlinear_arith)
            requires
                interval > 0,
                0 <= index,
        ;
    } else {
        assert(interval * index == 0) by (nonlinear_arith)
            requires
                index == 0,
        ;
    }
}

} // verus!
