//! Labels of a time series, and the split between the labels that identify
//! the series and the two labels that identify its sender.

use vstd::prelude::*;
use crate::text::text_le;

verus! {

/// Name of the label that holds a series' metric name.
pub const NAME_LABEL: &'static str = "__name__";

/// One label of a time series.
#[derive(Debug)]
pub struct Label {
    pub name: String,
    pub value: String,
}

/// A label as text.
pub ghost struct LabelText {
    pub name: Seq<char>,
    pub value: Seq<char>,
}

impl View for Label {
    type V = LabelText;

    open spec fn view(&self) -> LabelText {
        LabelText { name: self.name@, value: self.value@ }
    }
}

impl DeepView for Label {
    type V = LabelText;

    open spec fn deep_view(&self) -> LabelText {
        self@
    }
}

impl Clone for Label {
    fn clone(&self) -> (r: Self)
        ensures
            r@ == self@,
    {
        Label { name: self.name.clone(), value: self.value.clone() }
    }
}

/// What the splitter makes of one label set.
#[derive(Debug)]
pub struct HaLabels {
    /// The labels that identify the series, in the order given.
    pub labels: Vec<Label>,
    /// Identity of the sending replica; empty where the series names none.
    pub replica: String,
    /// Value of the cluster label; `None` where the series has none.
    pub cluster: Option<String>,
}

/// Whether a label with this name identifies the sender, not the series.
pub open spec fn is_coordination(name: Seq<char>, replica_label: Seq<char>, cluster_label: Seq<char>) -> bool {
    name == replica_label || name == cluster_label
}

/// The labels that are left when the two coordination labels are taken out.
pub open spec fn canonical_labels(
    labels: Seq<LabelText>,
    replica_label: Seq<char>,
    cluster_label: Seq<char>,
) -> Seq<LabelText>
    decreases labels.len(),
{
    if labels.len() == 0 {
        Seq::empty()
    } else {
        let rest = canonical_labels(labels.drop_last(), replica_label, cluster_label);
        if is_coordination(labels.last().name, replica_label, cluster_label) {
            rest
        } else {
            rest.push(labels.last())
        }
    }
}

/// Value of the last label with the given name.
pub open spec fn last_value(labels: Seq<LabelText>, name: Seq<char>) -> Option<Seq<char>>
    decreases labels.len(),
{
    if labels.len() == 0 {
        None
    } else if labels.last().name == name {
        Some(labels.last().value)
    } else {
        last_value(labels.drop_last(), name)
    }
}

/// Value of the first label that carries the cluster label's name (a label
/// that carries the replica label's name counts as a replica label only).
pub open spec fn cluster_value(
    labels: Seq<LabelText>,
    replica_label: Seq<char>,
    cluster_label: Seq<char>,
) -> Option<Seq<char>>
    decreases labels.len(),
{
    if labels.len() == 0 {
        None
    } else {
        match cluster_value(labels.drop_last(), replica_label, cluster_label) {
            Some(v) => Some(v),
            None => if labels.last().name != replica_label && labels.last().name == cluster_label {
                Some(labels.last().value)
            } else {
                None
            },
        }
    }
}

/// Identity of the sending replica: the value of the last replica label, or
/// the empty text.
pub open spec fn replica_value(labels: Seq<LabelText>, replica_label: Seq<char>) -> Seq<char> {
    match last_value(labels, replica_label) {
        Some(v) => v,
        None => Seq::empty(),
    }
}

/// The view of an optional text.
pub open spec fn text_of(s: Option<String>) -> Option<Seq<char>> {
    match s {
        Some(t) => Some(t@),
        None => None,
    }
}

/// Separates the coordination labels from the labels that identify a series.
///
/// The result holds every label whose name is neither `replica_label` nor
/// `cluster_label`, in the order given; the value of the last replica label;
/// and the value of the first cluster label.
pub fn split_ha_labels(labels: &Vec<Label>, replica_label: &str, cluster_label: &str) -> (r: HaLabels)
    ensures
        r.labels.deep_view() == canonical_labels(labels.deep_view(), replica_label@, cluster_label@),
        r.replica@ == replica_value(labels.deep_view(), replica_label@),
        text_of(r.cluster) == cluster_value(labels.deep_view(), replica_label@, cluster_label@),
{
    let replica_name = replica_label.to_owned();
    let cluster_name = cluster_label.to_owned();
    let mut kept: Vec<Label> = Vec::new();
    let mut replica = String::new();
    let mut cluster: Option<String> = None;
    let ghost all = labels.deep_view();
    let mut i: usize = 0;
    while i < labels.len()
        invariant
            i <= labels.len(),
            all == labels.deep_view(),
            replica_name@ == replica_label@,
            cluster_name@ == cluster_label@,
            kept.deep_view() == canonical_labels(all.take(i as int), replica_label@, cluster_label@),
            replica@ == replica_value(all.take(i as int), replica_label@),
            text_of(cluster) == cluster_value(all.take(i as int), replica_label@, cluster_label@),
        decreases labels.len() - i,
    {
        let label = &labels[i];
        proof {
            assert(all.take(i + 1).drop_last() =~= all.take(i as int));
            assert(all.take(i + 1).last() == label@);
        }
        if label.name == replica_name {
            replica = label.value.clone();
        } else if label.name == cluster_name {
            if cluster.is_none() {
                cluster = Some(label.value.clone());
            }
        } else {
            let ghost before = kept.deep_view();
            kept.push(label.clone());
            assert(kept.deep_view() =~= before.push(label@));
        }
        i += 1;
    }
    assert(all.take(labels.len() as int) =~= all);
    HaLabels { labels: kept, replica, cluster }
}

/// Value of the last label with the given name.
pub fn label_value(labels: &Vec<Label>, name: &str) -> (r: Option<String>)
    ensures
        text_of(r) == last_value(labels.deep_view(), name@),
{
    let wanted = name.to_owned();
    let ghost all = labels.deep_view();
    let mut found: Option<String> = None;
    let mut i: usize = 0;
    while i < labels.len()
        invariant
            i <= labels.len(),
            all == labels.deep_view(),
            wanted@ == name@,
            text_of(found) == last_value(all.take(i as int), name@),
        decreases labels.len() - i,
    {
        let label = &labels[i];
        proof {
            assert(all.take(i + 1).drop_last() =~= all.take(i as int));
            assert(all.take(i + 1).last() == label@);
        }
        if label.name == wanted {
            found = Some(label.value.clone());
        }
        i += 1;
    }
    assert(all.take(labels.len() as int) =~= all);
    found
}

/// Name of the metric that a label set belongs to: the value of its last
/// name label.
pub fn metric_name(labels: &Vec<Label>) -> (r: Option<String>)
    ensures
        text_of(r) == last_value(labels.deep_view(), NAME_LABEL@),
{
    label_value(labels, NAME_LABEL)
}

/// The labels stand in the order of their names.
pub open spec fn sorted_by_name(labels: Seq<LabelText>) -> bool {
    forall|i: int, j: int| 0 <= i < j < labels.len() ==> text_le(labels[i].name, labels[j].name)
}

/// Whether one of the labels has the given name.
pub open spec fn has_name(labels: Seq<LabelText>, name: Seq<char>) -> bool {
    exists|i: int| 0 <= i < labels.len() && (#[trigger] labels[i]).name == name
}

/// `binary_search_by_key` of the standard library, with the name of a label
/// as key. Of labels that stand in the order of their names it finds a label
/// with the given name where there is one, and any of them where there are
/// several. Of labels in another order nothing is known.
#[verifier::external_body]
fn search_by_name(labels: &Vec<Label>, name: &str) -> (r: Option<usize>)
    ensures
        sorted_by_name(labels.deep_view()) ==> match r {
            Some(i) => i < labels.len() && labels[i as int].name@ == name@,
            None => !has_name(labels.deep_view(), name@),
        },
{
    labels.binary_search_by_key(&name, |label| label.name.as_str()).ok()
}

/// Looks up the value of a label by its name, among labels that stand in
/// the order of their names.
///
/// The search halves the labels at each step, so it finds the label only
/// where the labels are in order. Where they are, it gives the value of a
/// label with the given name, and `None` where no label has the name.
pub fn labels_value(labels: &Vec<Label>, name: &str) -> (r: Option<String>)
    ensures
        sorted_by_name(labels.deep_view()) ==> match r {
            Some(value) => exists|i: int|
                0 <= i < labels.len() && (#[trigger] labels.deep_view()[i]).name == name@
                    && labels.deep_view()[i].value == value@,
            None => !has_name(labels.deep_view(), name@),
        },
{
    match search_by_name(labels, name) {
        Some(index) => {
            if index < labels.len() {
                assert(labels.deep_view()[index as int] == labels[index as int]@);
                Some(labels[index].value.clone())
            } else {
                None
            }
        },
        None => None,
    }
}

} // verus!
