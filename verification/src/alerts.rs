//! Alerts that are tested while records come in: which of them fire in a
//! request, and which notices are sent for them.
//!
//! An alert fires once in a request, for the first buffered record that
//! meets it, however many records meet it afterwards.

use vstd::prelude::*;
use crate::buffer::{kept, Outcome, OutcomeView};
use crate::sample::store_value;
use crate::series::RecordView;
use crate::settings::{alerts_for, find_settings, settings_for, AlertRule, AlertView, SettingsView, StreamSettings};

verus! {

/// An alert that fired.
#[derive(Debug)]
pub struct Trigger {
    /// Time of the record that met the alert, in microseconds since 1970.
    pub timestamp: i64,
    pub is_valid: bool,
    pub alert_name: String,
    pub stream: String,
    pub org: String,
}

/// A trigger as plain values.
pub ghost struct TriggerView {
    pub timestamp: int,
    pub is_valid: bool,
    pub alert_name: Seq<char>,
    pub stream: Seq<char>,
    pub org: Seq<char>,
}

impl View for Trigger {
    type V = TriggerView;

    open spec fn view(&self) -> TriggerView {
        TriggerView {
            timestamp: self.timestamp as int,
            is_valid: self.is_valid,
            alert_name: self.alert_name@,
            stream: self.stream@,
            org: self.org@,
        }
    }
}

impl DeepView for Trigger {
    type V = TriggerView;

    open spec fn deep_view(&self) -> TriggerView {
        self@
    }
}

impl Clone for Trigger {
    fn clone(&self) -> (r: Self)
        ensures
            r@ == self@,
    {
        Trigger {
            timestamp: self.timestamp,
            is_valid: self.is_valid,
            alert_name: self.alert_name.clone(),
            stream: self.stream.clone(),
            org: self.org.clone(),
        }
    }
}

/// Whether an alert of a stream has fired already.
pub open spec fn has_fired(triggers: Seq<TriggerView>, stream: Seq<char>, alert: Seq<char>) -> bool {
    exists|i: int|
        0 <= i < triggers.len() && (#[trigger] triggers[i]).stream == stream && triggers[i].alert_name == alert
}

/// Whether the record meets the alert at place `at` among the alerts of its
/// stream, as far as the outcome says.
pub open spec fn is_met(matches: Seq<bool>, at: int) -> bool {
    0 <= at < matches.len() && matches[at]
}

/// The triggers after one record was held against the alerts of its stream,
/// in their order: an alert fires where it is tested while records come in,
/// the record meets it, and it has not fired before.
pub open spec fn fired(
    prior: Seq<TriggerView>,
    org: Seq<char>,
    record: RecordView,
    alerts: Seq<AlertView>,
    matches: Seq<bool>,
) -> Seq<TriggerView>
    decreases alerts.len(),
{
    if alerts.len() == 0 {
        prior
    } else {
        let before = fired(prior, org, record, alerts.drop_last(), matches);
        let alert = alerts.last();
        if alert.is_real_time && is_met(matches, alerts.len() - 1) && !has_fired(
            before,
            record.stream,
            alert.name,
        ) {
            before.push(
                TriggerView {
                    timestamp: record.timestamp,
                    is_valid: true,
                    alert_name: alert.name,
                    stream: record.stream,
                    org,
                },
            )
        } else {
            before
        }
    }
}

/// The triggers of a request: only a buffered record can make an alert fire.
pub open spec fn triggers_of(outcomes: Seq<OutcomeView>, settings: Seq<SettingsView>, org: Seq<char>) -> Seq<
    TriggerView,
>
    decreases outcomes.len(),
{
    if outcomes.len() == 0 {
        Seq::empty()
    } else {
        let rest = triggers_of(outcomes.drop_last(), settings, org);
        match kept(outcomes.last(), settings) {
            None => rest,
            Some(k) => fired(rest, org, k.record, alerts_for(settings, k.record.stream), outcomes.last().matches),
        }
    }
}

fn fired_already(triggers: &Vec<Trigger>, stream: &String, alert: &String) -> (r: bool)
    ensures
        r == has_fired(triggers.deep_view(), stream@, alert@),
{
    let mut i: usize = 0;
    while i < triggers.len()
        invariant
            i <= triggers.len(),
            forall|j: int|
                0 <= j < i ==> !((#[trigger] triggers.deep_view()[j]).stream == stream@
                    && triggers.deep_view()[j].alert_name == alert@),
        decreases triggers.len() - i,
    {
        if triggers[i].stream == *stream && triggers[i].alert_name == *alert {
            assert(triggers.deep_view()[i as int].stream == stream@);
            return true;
        }
        i += 1;
    }
    false
}

/// Finds the alerts that fire in a request, in the order in which they fire.
///
/// The records are gone through in their order, and for each buffered
/// record the alerts of its stream in theirs. An alert fires for the first
/// such record that meets it, and only once.
pub fn collect_triggers(outcomes: &Vec<Outcome>, settings: &Vec<StreamSettings>, org: &str) -> (r: Vec<Trigger>)
    ensures
        r.deep_view() == triggers_of(outcomes.deep_view(), settings.deep_view(), org@),
{
    let mut triggers: Vec<Trigger> = Vec::new();
    let ghost all = outcomes.deep_view();
    let ghost known = settings.deep_view();
    let mut i: usize = 0;
    assert(triggers.deep_view() =~= Seq::<TriggerView>::empty());
    while i < outcomes.len()
        invariant
            i <= outcomes.len(),
            all == outcomes.deep_view(),
            known == settings.deep_view(),
            triggers.deep_view() == triggers_of(all.take(i as int), known, org@),
        decreases outcomes.len() - i,
    {
        proof {
            assert(all.take(i + 1).drop_last() =~= all.take(i as int));
            assert(all.take(i + 1).last() == outcomes[i as int]@);
        }
        let outcome = &outcomes[i];
        match &outcome.record {
            None => {},
            Some(record) => {
                if store_value(record.value).is_some() {
                    match find_settings(settings, record.stream.as_str()) {
                        None => {},
                        Some(at) => {
                            if !settings[at].deleting {
                                let alerts = &settings[at].alerts;
                                let ghost prior = triggers.deep_view();
                                let mut j: usize = 0;
                                while j < alerts.len()
                                    invariant
                                        j <= alerts.len(),
                                        triggers.deep_view() == fired(
                                            prior,
                                            org@,
                                            record@,
                                            alerts.deep_view().take(j as int),
                                            outcome.matches@,
                                        ),
                                    decreases alerts.len() - j,
                                {
                                    proof {
                                        assert(alerts.deep_view().take(j + 1).drop_last() =~= alerts.deep_view().take(
                                            j as int,
                                        ));
                                        assert(alerts.deep_view().take(j + 1).last() == alerts[j as int]@);
                                    }
                                    let met = j < outcome.matches.len() && outcome.matches[j];
                                    if alerts[j].is_real_time && met && !fired_already(
                                        &triggers,
                                        &record.stream,
                                        &alerts[j].name,
                                    ) {
                                        let ghost before = triggers.deep_view();
                                        let trigger = Trigger {
                                            timestamp: record.timestamp,
                                            is_valid: true,
                                            alert_name: alerts[j].name.clone(),
                                            stream: record.stream.clone(),
                                            org: org.to_owned(),
                                        };
                                        triggers.push(trigger);
                                        assert(triggers.deep_view() =~= before.push(trigger@));
                                    }
                                    j += 1;
                                }
                                assert(alerts.deep_view().take(alerts.len() as int) =~= alerts.deep_view());
                            }
                        },
                    }
                }
            },
        }
        i += 1;
    }
    assert(all.take(outcomes.len() as int) =~= all);
    triggers
}

/// No two triggers are for the same alert of the same stream.
pub open spec fn fire_once(triggers: Seq<TriggerView>) -> bool {
    forall|i: int, j: int|
        0 <= i < j < triggers.len() ==> !((#[trigger] triggers[i]).stream == (#[trigger] triggers[j]).stream
            && triggers[i].alert_name == triggers[j].alert_name)
}

proof fn lemma_fired_once(
    prior: Seq<TriggerView>,
    org: Seq<char>,
    record: RecordView,
    alerts: Seq<AlertView>,
    matches: Seq<bool>,
)
    requires
        fire_once(prior),
    ensures
        fire_once(fired(prior, org, record, alerts, matches)),
    decreases alerts.len(),
{
    if alerts.len() > 0 {
        lemma_fired_once(prior, org, record, alerts.drop_last(), matches);
    }
}

/// In one request an alert of a stream fires at most once.
pub proof fn lemma_alert_fires_once(outcomes: Seq<OutcomeView>, settings: Seq<SettingsView>, org: Seq<char>)
    ensures
        fire_once(triggers_of(outcomes, settings, org)),
    decreases outcomes.len(),
{
    if outcomes.len() > 0 {
        lemma_alert_fires_once(outcomes.drop_last(), settings, org);
        match kept(outcomes.last(), settings) {
            None => {},
            Some(k) => {
                lemma_fired_once(
                    triggers_of(outcomes.drop_last(), settings, org),
                    org,
                    k.record,
                    alerts_for(settings, k.record.stream),
                    outcomes.last().matches,
                );
            },
        }
    }
}

/// A notice to be sent: the trigger and the alert that it is for.
#[derive(Debug)]
pub struct Notification {
    pub trigger: Trigger,
    pub alert: AlertRule,
    /// Place of the alert among the alerts of its stream.
    pub place: usize,
}

/// A notice as plain values.
pub ghost struct NotificationView {
    pub trigger: TriggerView,
    pub alert: AlertView,
    pub place: int,
}

impl View for Notification {
    type V = NotificationView;

    open spec fn view(&self) -> NotificationView {
        NotificationView { trigger: self.trigger@, alert: self.alert@, place: self.place as int }
    }
}

impl DeepView for Notification {
    type V = NotificationView;

    open spec fn deep_view(&self) -> NotificationView {
        self@
    }
}

/// Place of the first alert with the given name.
pub open spec fn alert_named(alerts: Seq<AlertView>, name: Seq<char>) -> Option<int>
    decreases alerts.len(),
{
    if alerts.len() == 0 {
        None
    } else {
        match alert_named(alerts.drop_last(), name) {
            Some(place) => Some(place),
            None => if alerts.last().name == name {
                Some(alerts.len() - 1)
            } else {
                None
            },
        }
    }
}

/// The notices for the triggers, in the order of the triggers: one for each
/// trigger whose stream still has an alert of the trigger's name.
pub open spec fn notices_of(triggers: Seq<TriggerView>, settings: Seq<SettingsView>) -> Seq<NotificationView>
    decreases triggers.len(),
{
    if triggers.len() == 0 {
        Seq::empty()
    } else {
        let rest = notices_of(triggers.drop_last(), settings);
        let alerts = alerts_for(settings, triggers.last().stream);
        match alert_named(alerts, triggers.last().alert_name) {
            Some(place) => rest.push(NotificationView { trigger: triggers.last(), alert: alerts[place], place }),
            None => rest,
        }
    }
}

fn find_alert(alerts: &Vec<AlertRule>, name: &String) -> (r: Option<usize>)
    ensures
        match r {
            Some(i) => i < alerts.len() && alert_named(alerts.deep_view(), name@) == Some(i as int),
            None => alert_named(alerts.deep_view(), name@) is None,
        },
{
    let ghost all = alerts.deep_view();
    let mut i: usize = 0;
    while i < alerts.len()
        invariant
            i <= alerts.len(),
            all == alerts.deep_view(),
            alert_named(all.take(i as int), name@) is None,
        decreases alerts.len() - i,
    {
        proof {
            assert(all.take(i + 1).drop_last() =~= all.take(i as int));
            assert(all.take(i + 1).last() == alerts[i as int]@);
        }
        if alerts[i].name == *name {
            proof {
                lemma_named_stays(all, i as int + 1, name@);
            }
            return Some(i);
        }
        i += 1;
    }
    assert(all.take(alerts.len() as int) =~= all);
    None
}

proof fn lemma_named_stays(alerts: Seq<AlertView>, n: int, name: Seq<char>)
    requires
        0 <= n <= alerts.len(),
        alert_named(alerts.take(n), name) is Some,
    ensures
        alert_named(alerts, name) == alert_named(alerts.take(n), name),
    decreases alerts.len() - n,
{
    if n < alerts.len() {
        assert(alerts.take(n + 1).drop_last() =~= alerts.take(n));
        lemma_named_stays(alerts, n + 1, name);
    } else {
        assert(alerts.take(n) =~= alerts);
    }
}

/// Decides which notices are sent for the triggers of a request.
///
/// For each trigger the alerts of its stream are looked up, and the first
/// alert of the trigger's name is taken. Where the stream has no such alert,
/// nothing is sent for the trigger.
pub fn plan_notifications(triggers: &Vec<Trigger>, settings: &Vec<StreamSettings>) -> (r: Vec<Notification>)
    ensures
        r.deep_view() == notices_of(triggers.deep_view(), settings.deep_view()),
{
    let mut notices: Vec<Notification> = Vec::new();
    let ghost all = triggers.deep_view();
    let mut i: usize = 0;
    assert(notices.deep_view() =~= Seq::<NotificationView>::empty());
    while i < triggers.len()
        invariant
            i <= triggers.len(),
            all == triggers.deep_view(),
            notices.deep_view() == notices_of(all.take(i as int), settings.deep_view()),
        decreases triggers.len() - i,
    {
        proof {
            assert(all.take(i + 1).drop_last() =~= all.take(i as int));
            assert(all.take(i + 1).last() == triggers[i as int]@);
        }
        match find_settings(settings, triggers[i].stream.as_str()) {
            None => {
                assert(alerts_for(settings.deep_view(), triggers[i as int]@.stream) =~= Seq::<AlertView>::empty());
            },
            Some(at) => {
                match find_alert(&settings[at].alerts, &triggers[i].alert_name) {
                    None => {},
                    Some(which) => {
                        let ghost before = notices.deep_view();
                        let notice = Notification {
                            trigger: triggers[i].clone(),
                            alert: settings[at].alerts[which].clone(),
                            place: which,
                        };
                        assert(settings[at as int].alerts.deep_view()[which as int] == settings[at as int].alerts[which as int]@);
                        notices.push(notice);
                        assert(notices.deep_view() =~= before.push(notice@));
                    },
                }
            },
        }
        i += 1;
    }
    assert(all.take(triggers.len() as int) =~= all);
    notices
}

/// Each notice is for one of the triggers, and notices keep the order of
/// their triggers.
proof fn lemma_notices_follow_triggers(triggers: Seq<TriggerView>, settings: Seq<SettingsView>)
    ensures
        ({
            let notices = notices_of(triggers, settings);
            &&& notices.len() <= triggers.len()
            &&& forall|i: int, j: int|
                0 <= i < j < notices.len() ==> exists|a: int, b: int|
                    0 <= a < b < triggers.len() && #[trigger] triggers[a] == (#[trigger] notices[i]).trigger
                        && #[trigger] triggers[b] == (#[trigger] notices[j]).trigger
            &&& forall|i: int|
                0 <= i < notices.len() ==> exists|a: int|
                    0 <= a < triggers.len() && #[trigger] triggers[a] == (#[trigger] notices[i]).trigger
        }),
    decreases triggers.len(),
{
    if triggers.len() > 0 {
        let shorter = triggers.drop_last();
        lemma_notices_follow_triggers(shorter, settings);
        let rest = notices_of(shorter, settings);
        let all = notices_of(triggers, settings);
        assert forall|i: int| 0 <= i < all.len() implies exists|a: int|
            0 <= a < triggers.len() && #[trigger] triggers[a] == (#[trigger] all[i]).trigger by {
            if i < rest.len() {
                let a = choose|a: int| 0 <= a < shorter.len() && #[trigger] shorter[a] == rest[i].trigger;
                assert(triggers[a] == all[i].trigger);
            } else {
                assert(triggers[triggers.len() - 1] == all[i].trigger);
            }
        }
        assert forall|i: int, j: int| 0 <= i < j < all.len() implies exists|a: int, b: int|
            0 <= a < b < triggers.len() && #[trigger] triggers[a] == (#[trigger] all[i]).trigger
                && #[trigger] triggers[b] == (#[trigger] all[j]).trigger by {
            if j < rest.len() {
                let (a, b) = choose|a: int, b: int|
                    0 <= a < b < shorter.len() && #[trigger] shorter[a] == rest[i].trigger && #[trigger] shorter[b]
                        == rest[j].trigger;
                assert(triggers[a] == all[i].trigger && triggers[b] == all[j].trigger);
            } else {
                let a = choose|a: int| 0 <= a < shorter.len() && #[trigger] shorter[a] == rest[i].trigger;
                let b = triggers.len() - 1;
                assert(triggers[a] == all[i].trigger && triggers[b] == all[j].trigger);
            }
        }
    }
}

/// For the triggers of one request no two notices are for the same alert of
/// the same stream: at most one notice is sent for an alert.
pub proof fn lemma_one_notice_per_alert(
    outcomes: Seq<OutcomeView>,
    settings: Seq<SettingsView>,
    org: Seq<char>,
    later: Seq<SettingsView>,
)
    ensures
        ({
            let notices = notices_of(triggers_of(outcomes, settings, org), later);
            forall|i: int, j: int|
                0 <= i < j < notices.len() ==> !((#[trigger] notices[i]).trigger.stream == (
                #[trigger] notices[j]).trigger.stream && notices[i].trigger.alert_name
                    == notices[j].trigger.alert_name)
        }),
{
    let triggers = triggers_of(outcomes, settings, org);
    let notices = notices_of(triggers, later);
    lemma_alert_fires_once(outcomes, settings, org);
    lemma_notices_follow_triggers(triggers, later);
    assert forall|i: int, j: int| 0 <= i < j < notices.len() implies !((#[trigger] notices[i]).trigger.stream == (
    #[trigger] notices[j]).trigger.stream && notices[i].trigger.alert_name == notices[j].trigger.alert_name) by {
        let (a, b) = choose|a: int, b: int|
            0 <= a < b < triggers.len() && #[trigger] triggers[a] == notices[i].trigger && #[trigger] triggers[b]
                == notices[j].trigger;
        assert(!(triggers[a].stream == triggers[b].stream && triggers[a].alert_name == triggers[b].alert_name));
    }
}

} // verus!
