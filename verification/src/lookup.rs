//! Looking up what is stored of metrics: the statement that finds the series
//! of a metric or the values of a label, and the choice of metric names and
//! label names.

use vstd::prelude::*;
use vstd::string::StringExecFns;
use crate::labels::NAME_LABEL;
use crate::record::{HASH_LABEL, VALUE_LABEL};
use crate::text::{
    ascending, contains_text, join_texts, joined, same_text, sorted_distinct, sorted_texts, strictly_ascending,
};

verus! {

/// How a matcher holds a label's value against its own.
#[derive(Debug, Clone, Copy, PartialEq, Eq, Structural)]
pub enum MatchOp {
    Equal,
    NotEqual,
    Re,
    NotRe,
}

/// One condition of a selector on one label.
#[derive(Debug)]
pub struct Matcher {
    pub op: MatchOp,
    pub name: String,
    pub value: String,
}

/// A matcher as plain values.
pub ghost struct MatcherView {
    pub op: MatchOp,
    pub name: Seq<char>,
    pub value: Seq<char>,
}

impl View for Matcher {
    type V = MatcherView;

    open spec fn view(&self) -> MatcherView {
        MatcherView { op: self.op, name: self.name@, value: self.value@ }
    }
}

impl DeepView for Matcher {
    type V = MatcherView;

    open spec fn deep_view(&self) -> MatcherView {
        self@
    }
}

/// What a request selects: a metric by its name, or series by conditions on
/// their labels.
#[derive(Debug)]
pub struct Selector {
    pub name: Option<String>,
    pub matchers: Vec<Matcher>,
}

/// Value of the first matcher on the given label.
pub open spec fn matcher_value(matchers: Seq<MatcherView>, name: Seq<char>) -> Option<Seq<char>>
    decreases matchers.len(),
{
    if matchers.len() == 0 {
        None
    } else {
        match matcher_value(matchers.drop_last(), name) {
            Some(value) => Some(value),
            None => if matchers.last().name == name {
                Some(matchers.last().value)
            } else {
                None
            },
        }
    }
}

/// The metric that a selector names: by its name, or else by its first
/// matcher on the name label.
pub open spec fn selected_metric(name: Option<Seq<char>>, matchers: Seq<MatcherView>) -> Option<Seq<char>> {
    match name {
        Some(metric) => Some(metric),
        None => matcher_value(matchers, NAME_LABEL@),
    }
}

/// The view of an optional text.
pub open spec fn optional_text(text: Option<String>) -> Option<Seq<char>> {
    match text {
        Some(t) => Some(t@),
        None => None,
    }
}

proof fn lemma_matcher_stays(matchers: Seq<MatcherView>, n: int, name: Seq<char>)
    requires
        0 <= n <= matchers.len(),
        matcher_value(matchers.take(n), name) is Some,
    ensures
        matcher_value(matchers, name) == matcher_value(matchers.take(n), name),
    decreases matchers.len() - n,
{
    if n < matchers.len() {
        assert(matchers.take(n + 1).drop_last() =~= matchers.take(n));
        lemma_matcher_stays(matchers, n + 1, name);
    } else {
        assert(matchers.take(n) =~= matchers);
    }
}

/// Finds the metric that a selector names.
pub fn try_into_metric_name(selector: &Selector) -> (r: Option<String>)
    ensures
        optional_text(r) == selected_metric(optional_text(selector.name), selector.matchers.deep_view()),
{
    match &selector.name {
        Some(name) => Some(name.clone()),
        None => {
            let wanted = NAME_LABEL.to_owned();
            let ghost all = selector.matchers.deep_view();
            let mut i: usize = 0;
            while i < selector.matchers.len()
                invariant
                    i <= selector.matchers.len(),
                    selector.name is None,
                    all == selector.matchers.deep_view(),
                    wanted@ == NAME_LABEL@,
                    matcher_value(all.take(i as int), NAME_LABEL@) is None,
                decreases selector.matchers.len() - i,
            {
                proof {
                    assert(all.take(i + 1).drop_last() =~= all.take(i as int));
                    assert(all.take(i + 1).last() == selector.matchers[i as int]@);
                }
                if selector.matchers[i].name == wanted {
                    proof {
                        lemma_matcher_stays(all, i as int + 1, NAME_LABEL@);
                    }
                    return Some(selector.matchers[i].value.clone());
                }
                i += 1;
            }
            assert(all.take(selector.matchers.len() as int) =~= all);
            None
        },
    }
}

/// Whether a field of a stream is a label: not the time, the value or the
/// signature of a record.
pub open spec fn is_label_field(field: Seq<char>, timestamp_column: Seq<char>) -> bool {
    field != timestamp_column && field != VALUE_LABEL@ && field != HASH_LABEL@
}

/// The fields that are labels, in their order.
pub open spec fn label_fields(fields: Seq<Seq<char>>, timestamp_column: Seq<char>) -> Seq<Seq<char>>
    decreases fields.len(),
{
    if fields.len() == 0 {
        Seq::empty()
    } else {
        let rest = label_fields(fields.drop_last(), timestamp_column);
        if is_label_field(fields.last(), timestamp_column) {
            rest.push(fields.last())
        } else {
            rest
        }
    }
}

/// Whether a matcher adds a condition to the statement: not one on the time
/// or the value, and not one on a field that the stream does not have.
pub open spec fn is_condition(matcher: MatcherView, fields: Seq<Seq<char>>, timestamp_column: Seq<char>) -> bool {
    matcher.name != timestamp_column && matcher.name != VALUE_LABEL@ && fields.contains(matcher.name)
}

/// The condition that a matcher stands for.
pub open spec fn condition_text(matcher: MatcherView) -> Seq<char> {
    match matcher.op {
        MatchOp::Equal => matcher.name + " = '"@ + matcher.value + "'"@,
        MatchOp::NotEqual => matcher.name + " != '"@ + matcher.value + "'"@,
        MatchOp::Re => "re_match("@ + matcher.name + ", '"@ + matcher.value + "')"@,
        MatchOp::NotRe => "re_not_match("@ + matcher.name + ", '"@ + matcher.value + "')"@,
    }
}

/// The conditions of the matchers, in their order.
pub open spec fn conditions(
    matchers: Seq<MatcherView>,
    fields: Seq<Seq<char>>,
    timestamp_column: Seq<char>,
) -> Seq<Seq<char>>
    decreases matchers.len(),
{
    if matchers.len() == 0 {
        Seq::empty()
    } else {
        let rest = conditions(matchers.drop_last(), fields, timestamp_column);
        if is_condition(matchers.last(), fields, timestamp_column) {
            rest.push(condition_text(matchers.last()))
        } else {
            rest
        }
    }
}

/// The statement that finds the series of a metric; `None` where the stream
/// has no label to show.
pub open spec fn series_statement(
    metric_name: Seq<char>,
    fields: Seq<Seq<char>>,
    matchers: Seq<MatcherView>,
    timestamp_column: Seq<char>,
) -> Option<Seq<char>> {
    let names = joined(label_fields(fields, timestamp_column), ", "@);
    let wanted = conditions(matchers, fields, timestamp_column);
    let select = "SELECT DISTINCT("@ + HASH_LABEL@ + "), "@ + names + " FROM "@ + metric_name;
    if names.len() == 0 {
        None
    } else if wanted.len() == 0 {
        Some(select)
    } else {
        Some(select + " WHERE "@ + joined(wanted, " AND "@))
    }
}

/// The fields of a stream that are labels.
pub fn select_label_fields(fields: &Vec<String>, timestamp_column: &str) -> (r: Vec<String>)
    ensures
        r.deep_view() == label_fields(fields.deep_view(), timestamp_column@),
{
    let mut out: Vec<String> = Vec::new();
    let ghost all = fields.deep_view();
    let mut i: usize = 0;
    assert(out.deep_view() =~= Seq::<Seq<char>>::empty());
    while i < fields.len()
        invariant
            i <= fields.len(),
            all == fields.deep_view(),
            out.deep_view() == label_fields(all.take(i as int), timestamp_column@),
        decreases fields.len() - i,
    {
        proof {
            assert(all.take(i + 1).drop_last() =~= all.take(i as int));
            assert(all.take(i + 1).last() == fields[i as int]@);
        }
        let field = fields[i].as_str();
        if !same_text(field, timestamp_column) && !same_text(field, VALUE_LABEL) && !same_text(field, HASH_LABEL) {
            let ghost before = out.deep_view();
            out.push(fields[i].clone());
            assert(out.deep_view() =~= before.push(fields[i as int]@));
        }
        i += 1;
    }
    assert(all.take(fields.len() as int) =~= all);
    out
}

fn write_condition(matcher: &Matcher) -> (r: String)
    ensures
        r@ == condition_text(matcher@),
{
    match matcher.op {
        MatchOp::Equal => {
            let mut text = matcher.name.clone();
            text.append(" = '");
            text.append(matcher.value.as_str());
            text.append("'");
            text
        },
        MatchOp::NotEqual => {
            let mut text = matcher.name.clone();
            text.append(" != '");
            text.append(matcher.value.as_str());
            text.append("'");
            text
        },
        MatchOp::Re => {
            let mut text = String::from_str("re_match(");
            text.append(matcher.name.as_str());
            text.append(", '");
            text.append(matcher.value.as_str());
            text.append("')");
            text
        },
        MatchOp::NotRe => {
            let mut text = String::from_str("re_not_match(");
            text.append(matcher.name.as_str());
            text.append(", '");
            text.append(matcher.value.as_str());
            text.append("')");
            text
        },
    }
}

/// Writes the statement that finds the series of a metric.
///
/// The statement selects the signature and every label of the stream. Each
/// matcher on a field of the stream, but for the time and the value, adds a
/// condition. A stream without a label gives no statement.
pub fn series_query(metric_name: &str, fields: &Vec<String>, matchers: &Vec<Matcher>, timestamp_column: &str) -> (r:
    Option<String>)
    ensures
        optional_text(r) == series_statement(
            metric_name@,
            fields.deep_view(),
            matchers.deep_view(),
            timestamp_column@,
        ),
{
    let shown = select_label_fields(fields, timestamp_column);
    let names = join_texts(&shown, ", ");
    if names.as_str().is_empty() {
        return None;
    }
    let mut sql = String::from_str("SELECT DISTINCT(");
    sql.append(HASH_LABEL);
    sql.append("), ");
    sql.append(names.as_str());
    sql.append(" FROM ");
    sql.append(metric_name);
    let mut wanted: Vec<String> = Vec::new();
    let ghost all = matchers.deep_view();
    let mut i: usize = 0;
    assert(wanted.deep_view() =~= Seq::<Seq<char>>::empty());
    while i < matchers.len()
        invariant
            i <= matchers.len(),
            all == matchers.deep_view(),
            wanted.deep_view() == conditions(all.take(i as int), fields.deep_view(), timestamp_column@),
        decreases matchers.len() - i,
    {
        proof {
            assert(all.take(i + 1).drop_last() =~= all.take(i as int));
            assert(all.take(i + 1).last() == matchers[i as int]@);
        }
        let matcher = &matchers[i];
        if !same_text(matcher.name.as_str(), timestamp_column) && !same_text(matcher.name.as_str(), VALUE_LABEL)
            && contains_text(fields, matcher.name.as_str()) {
            let ghost before = wanted.deep_view();
            let text = write_condition(matcher);
            wanted.push(text);
            assert(wanted.deep_view() =~= before.push(condition_text(matcher@)));
        }
        i += 1;
    }
    assert(all.take(matchers.len() as int) =~= all);
    if wanted.len() > 0 {
        sql.append(" WHERE ");
        let all_conditions = join_texts(&wanted, " AND ");
        sql.append(all_conditions.as_str());
    }
    Some(sql)
}

/// Where the values of a label are found.
#[derive(Debug)]
pub enum ValueSource {
    /// The values are the names of the streams.
    StreamNames,
    /// No metric is named, so no values are found.
    Nowhere,
    /// The values are found in the stream of this metric.
    Stream(String),
}

/// Where the values of a label are found: the values of the name label are
/// the names of the streams; those of any other label are looked for in the
/// stream of the metric that the request names.
pub fn label_value_source(label_name: &str, metric: Option<String>) -> (r: ValueSource)
    ensures
        label_name@ == NAME_LABEL@ ==> r is StreamNames,
        label_name@ != NAME_LABEL@ ==> match metric {
            Some(name) => r == ValueSource::Stream(name),
            None => r is Nowhere,
        },
{
    if same_text(label_name, NAME_LABEL) {
        ValueSource::StreamNames
    } else {
        match metric {
            Some(name) => ValueSource::Stream(name),
            None => ValueSource::Nowhere,
        }
    }
}

/// The statement that finds the values of a label in a stream; `None` where
/// the stream does not have the label as a field.
pub open spec fn label_values_statement(
    label_name: Seq<char>,
    metric_name: Seq<char>,
    fields: Seq<Seq<char>>,
) -> Option<Seq<char>> {
    if fields.contains(label_name) {
        Some("SELECT DISTINCT("@ + label_name + ") FROM "@ + metric_name)
    } else {
        None
    }
}

/// Writes the statement that finds the values of a label in the stream of a
/// metric.
pub fn label_values_query(label_name: &str, metric_name: &str, fields: &Vec<String>) -> (r: Option<String>)
    ensures
        optional_text(r) == label_values_statement(label_name@, metric_name@, fields.deep_view()),
{
    if !contains_text(fields, label_name) {
        return None;
    }
    let mut sql = String::from_str("SELECT DISTINCT(");
    sql.append(label_name);
    sql.append(") FROM ");
    sql.append(metric_name);
    Some(sql)
}

/// The label names of some streams: the fields of the streams that are
/// labels.
pub open spec fn all_label_fields(streams: Seq<Seq<Seq<char>>>, timestamp_column: Seq<char>) -> Seq<Seq<char>>
    decreases streams.len(),
{
    if streams.len() == 0 {
        Seq::empty()
    } else {
        all_label_fields(streams.drop_last(), timestamp_column) + label_fields(streams.last(), timestamp_column)
    }
}

/// The label names of some streams, each once, in ascending order.
pub fn label_names(streams: &Vec<Vec<String>>, timestamp_column: &str) -> (r: Vec<String>)
    ensures
        strictly_ascending(r.deep_view()),
        forall|name: Seq<char>|
            r.deep_view().contains(name) <==> all_label_fields(streams.deep_view(), timestamp_column@).contains(name),
{
    let mut found: Vec<String> = Vec::new();
    let ghost all = streams.deep_view();
    let mut i: usize = 0;
    assert(found.deep_view() =~= Seq::<Seq<char>>::empty());
    while i < streams.len()
        invariant
            i <= streams.len(),
            all == streams.deep_view(),
            found.deep_view() == all_label_fields(all.take(i as int), timestamp_column@),
        decreases streams.len() - i,
    {
        proof {
            assert(all.take(i + 1).drop_last() =~= all.take(i as int));
            assert(all.take(i + 1).last() == streams[i as int].deep_view());
        }
        let mut labels = select_label_fields(&streams[i], timestamp_column);
        let ghost before = found.deep_view();
        let ghost added = labels.deep_view();
        found.append(&mut labels);
        assert(found.deep_view() =~= before + added);
        i += 1;
    }
    assert(all.take(streams.len() as int) =~= all);
    sorted_distinct(found)
}

/// The kinds of metric.
#[derive(Debug, Clone, Copy, PartialEq, Eq, Structural)]
pub enum MetricType {
    Unknown,
    Counter,
    Gauge,
    Histogram,
    GaugeHistogram,
    Summary,
    Info,
    StateSet,
    Empty,
}

/// What a stream says of the metric that it holds.
#[derive(Debug)]
pub struct MetricMeta {
    pub metric_type: MetricType,
    pub metric_family_name: String,
}

/// A stream of metrics, with what it says of its metric, if it says it.
#[derive(Debug)]
pub struct StreamEntry {
    pub stream_name: String,
    pub metadata: Option<MetricMeta>,
}

/// A stream of metrics as plain values.
pub ghost struct EntryView {
    pub stream_name: Seq<char>,
    pub described: bool,
    pub metric_type: MetricType,
    pub metric_family_name: Seq<char>,
}

impl View for StreamEntry {
    type V = EntryView;

    open spec fn view(&self) -> EntryView {
        match self.metadata {
            Some(meta) => EntryView {
                stream_name: self.stream_name@,
                described: true,
                metric_type: meta.metric_type,
                metric_family_name: meta.metric_family_name@,
            },
            None => EntryView {
                stream_name: self.stream_name@,
                described: false,
                metric_type: MetricType::Unknown,
                metric_family_name: Seq::empty(),
            },
        }
    }
}

impl DeepView for StreamEntry {
    type V = EntryView;

    open spec fn deep_view(&self) -> EntryView {
        self@
    }
}

/// Whether a metric of this kind is stored in several streams: a histogram
/// and a summary are, in the streams of their buckets, count and sum.
pub open spec fn has_parts(metric_type: MetricType) -> bool {
    metric_type == MetricType::Histogram || metric_type == MetricType::Summary
}

/// Whether `name` is the name of a part of the metric family `family`.
pub open spec fn is_part_name(name: Seq<char>, family: Seq<char>) -> bool {
    name == family + "_bucket"@ || name == family + "_count"@ || name == family + "_sum"@
}

/// Whether a stream holds a part of a histogram or summary that one of the
/// entries describes.
pub open spec fn is_part(name: Seq<char>, entries: Seq<EntryView>) -> bool {
    exists|i: int|
        0 <= i < entries.len() && (#[trigger] entries[i]).described && has_parts(entries[i].metric_type)
            && is_part_name(name, entries[i].metric_family_name)
}

/// The names of the streams that are listed with their metadata: those that
/// describe their metric and are not a part of a histogram or summary.
pub open spec fn listed_names(entries: Seq<EntryView>, among: Seq<EntryView>) -> Seq<Seq<char>>
    decreases entries.len(),
{
    if entries.len() == 0 {
        Seq::empty()
    } else {
        let rest = listed_names(entries.drop_last(), among);
        if entries.last().described && !is_part(entries.last().stream_name, among) {
            rest.push(entries.last().stream_name)
        } else {
            rest
        }
    }
}

/// How many of `len` names are given under a limit.
pub open spec fn limited(len: nat, limit: Option<usize>) -> nat {
    match limit {
        Some(most) => if most < len {
            most as nat
        } else {
            len
        },
        None => len,
    }
}

fn names_part(name: &String, entries: &Vec<StreamEntry>) -> (r: bool)
    ensures
        r == is_part(name@, entries.deep_view()),
{
    let mut i: usize = 0;
    while i < entries.len()
        invariant
            i <= entries.len(),
            forall|j: int|
                0 <= j < i ==> !((#[trigger] entries.deep_view()[j]).described && has_parts(
                    entries.deep_view()[j].metric_type,
                ) && is_part_name(name@, entries.deep_view()[j].metric_family_name)),
        decreases entries.len() - i,
    {
        match &entries[i].metadata {
            Some(meta) => {
                if meta.metric_type == MetricType::Histogram || meta.metric_type == MetricType::Summary {
                    let mut bucket = meta.metric_family_name.clone();
                    bucket.append("_bucket");
                    let mut count = meta.metric_family_name.clone();
                    count.append("_count");
                    let mut sum = meta.metric_family_name.clone();
                    sum.append("_sum");
                    if *name == bucket || *name == count || *name == sum {
                        assert(entries.deep_view()[i as int].described);
                        return true;
                    }
                }
            },
            None => {},
        }
        i += 1;
    }
    false
}

/// Chooses the streams that are listed with their metadata, and gives their
/// names in ascending order, no more of them than the limit allows.
///
/// A stream is listed where it describes its metric, unless its name is that
/// of the bucket, count or sum stream of a histogram or summary among the
/// entries.
pub fn select_metadata(entries: &Vec<StreamEntry>, limit: Option<usize>) -> (r: Vec<String>)
    ensures
        exists|sorted: Seq<Seq<char>>|
            {
                &&& sorted.to_multiset() == listed_names(entries.deep_view(), entries.deep_view()).to_multiset()
                &&& #[trigger] ascending(sorted)
                &&& r.deep_view() == sorted.take(limited(sorted.len(), limit) as int)
            },
{
    let mut names: Vec<String> = Vec::new();
    let ghost all = entries.deep_view();
    let mut i: usize = 0;
    assert(names.deep_view() =~= Seq::<Seq<char>>::empty());
    while i < entries.len()
        invariant
            i <= entries.len(),
            all == entries.deep_view(),
            names.deep_view() == listed_names(all.take(i as int), all),
        decreases entries.len() - i,
    {
        proof {
            assert(all.take(i + 1).drop_last() =~= all.take(i as int));
            assert(all.take(i + 1).last() == entries[i as int]@);
        }
        if entries[i].metadata.is_some() && !names_part(&entries[i].stream_name, entries) {
            let ghost before = names.deep_view();
            names.push(entries[i].stream_name.clone());
            assert(names.deep_view() =~= before.push(entries[i as int]@.stream_name));
        }
        i += 1;
    }
    assert(all.take(entries.len() as int) =~= all);
    let mut sorted = sorted_texts(names);
    let ghost whole = sorted.deep_view();
    match limit {
        Some(most) => {
            if most < sorted.len() {
                sorted.truncate(most);
                assert(sorted.deep_view() =~= whole.take(most as int));
            } else {
                assert(whole.take(whole.len() as int) =~= whole);
            }
        },
        None => {
            assert(whole.take(whole.len() as int) =~= whole);
        },
    }
    assert(ascending(whole));
    sorted
}

/// The stream whose statistics tell when a metric was written: for a
/// histogram or a summary the stream of its sum, else the stream itself.
pub open spec fn stats_stream_of(stream_name: Seq<char>, metric_type: Option<MetricType>) -> Seq<char> {
    match metric_type {
        Some(kind) => if has_parts(kind) {
            stream_name + "_sum"@
        } else {
            stream_name
        },
        None => stream_name,
    }
}

/// Names the stream whose statistics tell when a metric was written.
pub fn stats_stream_name(stream_name: &str, metric_type: Option<MetricType>) -> (r: String)
    ensures
        r@ == stats_stream_of(stream_name@, metric_type),
{
    let mut name = String::from_str(stream_name);
    match metric_type {
        Some(MetricType::Histogram) => {
            name.append("_sum");
        },
        Some(MetricType::Summary) => {
            name.append("_sum");
        },
        _ => {},
    }
    name
}

/// Whether a stream is the one that a request asks for: every stream is
/// where the request names no metric.
pub fn metric_matches(wanted: &Option<String>, stream_name: &str) -> (r: bool)
    ensures
        r == match wanted {
            Some(name) => name@ == stream_name@,
            None => true,
        },
{
    match wanted {
        Some(name) => same_text(name.as_str(), stream_name),
        None => true,
    }
}

} // verus!
