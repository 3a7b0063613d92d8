//! What is known of a stream while one request is served: how its records
//! are put into buckets, whether it is being deleted, and its alerts.

use vstd::prelude::*;
use crate::partition::PartitionTimeLevel;

verus! {

/// One alert of a stream. What the alert tests is not the library's concern.
#[derive(Debug)]
pub struct AlertRule {
    pub name: String,
    /// Whether the alert is tested while records come in.
    pub is_real_time: bool,
}

/// An alert as plain values.
pub ghost struct AlertView {
    pub name: Seq<char>,
    pub is_real_time: bool,
}

impl View for AlertRule {
    type V = AlertView;

    open spec fn view(&self) -> AlertView {
        AlertView { name: self.name@, is_real_time: self.is_real_time }
    }
}

impl DeepView for AlertRule {
    type V = AlertView;

    open spec fn deep_view(&self) -> AlertView {
        self@
    }
}

impl Clone for AlertRule {
    fn clone(&self) -> (r: Self)
        ensures
            r@ == self@,
    {
        AlertRule { name: self.name.clone(), is_real_time: self.is_real_time }
    }
}

/// The settings of one stream.
#[derive(Debug)]
pub struct StreamSettings {
    /// Name of the stream.
    pub stream: String,
    /// Names of the labels whose values part the stream's buckets.
    pub partition_keys: Vec<String>,
    /// How wide the stream's buckets are in time, where that is set.
    pub time_level: Option<PartitionTimeLevel>,
    /// Whether the stream is being deleted.
    pub deleting: bool,
    /// The alerts of the stream.
    pub alerts: Vec<AlertRule>,
    /// How many transforms the stream has.
    pub transforms: usize,
}

/// The settings of one stream as plain values.
pub ghost struct SettingsView {
    pub stream: Seq<char>,
    pub partition_keys: Seq<Seq<char>>,
    pub time_level: Option<PartitionTimeLevel>,
    pub deleting: bool,
    pub alerts: Seq<AlertView>,
    pub transforms: nat,
}

impl View for StreamSettings {
    type V = SettingsView;

    open spec fn view(&self) -> SettingsView {
        SettingsView {
            stream: self.stream@,
            partition_keys: self.partition_keys.deep_view(),
            time_level: self.time_level,
            deleting: self.deleting,
            alerts: self.alerts.deep_view(),
            transforms: self.transforms as nat,
        }
    }
}

impl DeepView for StreamSettings {
    type V = SettingsView;

    open spec fn deep_view(&self) -> SettingsView {
        self@
    }
}

/// The settings of a stream: the first in the list that carry its name.
pub open spec fn settings_for(settings: Seq<SettingsView>, stream: Seq<char>) -> Option<SettingsView>
    decreases settings.len(),
{
    if settings.len() == 0 {
        None
    } else {
        match settings_for(settings.drop_last(), stream) {
            Some(found) => Some(found),
            None => if settings.last().stream == stream {
                Some(settings.last())
            } else {
                None
            },
        }
    }
}

/// Whether a stream is being deleted.
pub open spec fn is_deleting(settings: Seq<SettingsView>, stream: Seq<char>) -> bool {
    match settings_for(settings, stream) {
        Some(found) => found.deleting,
        None => false,
    }
}

/// The partition keys of a stream; none where nothing is known of it.
pub open spec fn keys_for(settings: Seq<SettingsView>, stream: Seq<char>) -> Seq<Seq<char>> {
    match settings_for(settings, stream) {
        Some(found) => found.partition_keys,
        None => Seq::empty(),
    }
}

/// The level that a stream is written with: its own, set or not, where the
/// stream is known, else the default.
pub open spec fn level_for(
    settings: Seq<SettingsView>,
    stream: Seq<char>,
    default: PartitionTimeLevel,
) -> Option<PartitionTimeLevel> {
    match settings_for(settings, stream) {
        Some(found) => found.time_level,
        None => Some(default),
    }
}

/// The alerts of a stream; none where nothing is known of it.
pub open spec fn alerts_for(settings: Seq<SettingsView>, stream: Seq<char>) -> Seq<AlertView> {
    match settings_for(settings, stream) {
        Some(found) => found.alerts,
        None => Seq::empty(),
    }
}

/// The sum of the numbers of transforms.
pub open spec fn transform_sum(settings: Seq<SettingsView>) -> nat
    decreases settings.len(),
{
    if settings.len() == 0 {
        0
    } else {
        transform_sum(settings.drop_last()) + settings.last().transforms
    }
}

/// Where the settings of a stream stand in the list.
pub fn find_settings(settings: &Vec<StreamSettings>, stream: &str) -> (r: Option<usize>)
    ensures
        match r {
            Some(i) => i < settings.len() && settings_for(settings.deep_view(), stream@) == Some(settings[i as int]@),
            None => settings_for(settings.deep_view(), stream@) is None,
        },
{
    let wanted = stream.to_owned();
    let ghost all = settings.deep_view();
    let mut i: usize = 0;
    while i < settings.len()
        invariant
            i <= settings.len(),
            all == settings.deep_view(),
            wanted@ == stream@,
            settings_for(all.take(i as int), stream@) is None,
        decreases settings.len() - i,
    {
        proof {
            assert(all.take(i + 1).drop_last() =~= all.take(i as int));
            assert(all.take(i + 1).last() == settings[i as int]@);
        }
        if settings[i].stream == wanted {
            proof {
                lemma_found_stays(all, i as int + 1, stream@);
            }
            return Some(i);
        }
        i += 1;
    }
    assert(all.take(settings.len() as int) =~= all);
    None
}

/// What is found among the first settings is found among all of them.
proof fn lemma_found_stays(settings: Seq<SettingsView>, n: int, stream: Seq<char>)
    requires
        0 <= n <= settings.len(),
        settings_for(settings.take(n), stream) is Some,
    ensures
        settings_for(settings, stream) == settings_for(settings.take(n), stream),
    decreases settings.len() - n,
{
    if n < settings.len() {
        assert(settings.take(n + 1).drop_last() =~= settings.take(n));
        lemma_found_stays(settings, n + 1, stream);
    } else {
        assert(settings.take(n) =~= settings);
    }
}

/// How many transforms the streams of a request have together, as the
/// usage report counts them: modulo 65536.
pub fn functions_applied(settings: &Vec<StreamSettings>) -> (r: u16)
    ensures
        r == transform_sum(settings.deep_view()) % 65536,
{
    let mut sum: u32 = 0;
    let mut i: usize = 0;
    while i < settings.len()
        invariant
            i <= settings.len(),
            sum < 65536,
            sum == transform_sum(settings.deep_view().take(i as int)) % 65536,
        decreases settings.len() - i,
    {
        proof {
            assert(settings.deep_view().take(i + 1).drop_last() =~= settings.deep_view().take(i as int));
            assert(settings.deep_view().take(i + 1).last() == settings[i as int]@);
        }
        let part: u32 = (settings[i].transforms % 65536) as u32;
        sum = (sum + part) % 65536;
        i += 1;
    }
    assert(settings.deep_view().take(settings.len() as int) =~= settings.deep_view());
    sum as u16
}

} // verus!
