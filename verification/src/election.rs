//! The dedup coordinator: for each replica group it keeps the one replica
//! whose batches are accepted, and replaces that replica when it has been
//! silent for longer than the election interval.

use vstd::prelude::*;
use crate::text::{clone_texts, contains_text};

verus! {

/// The replica whose batches a group currently accepts.
#[derive(Debug)]
pub struct ClusterLeader {
    /// Identity of the accepted replica.
    pub replica_id: String,
    /// When a batch of that replica was last accepted, in microseconds.
    pub last_received: i64,
    /// The node that made the first election of the group.
    pub updated_by: String,
}

/// A leader as plain values.
pub ghost struct LeaderView {
    pub replica_id: Seq<char>,
    pub last_received: int,
    pub updated_by: Seq<char>,
}

impl View for ClusterLeader {
    type V = LeaderView;

    open spec fn view(&self) -> LeaderView {
        LeaderView {
            replica_id: self.replica_id@,
            last_received: self.last_received as int,
            updated_by: self.updated_by@,
        }
    }
}

impl Clone for ClusterLeader {
    fn clone(&self) -> (r: Self)
        ensures
            r@ == self@,
    {
        ClusterLeader {
            replica_id: self.replica_id.clone(),
            last_received: self.last_received,
            updated_by: self.updated_by.clone(),
        }
    }
}

/// What is known of one group: its leader and every replica seen so far,
/// in the order of first appearance.
pub ghost struct GroupView {
    pub leader: LeaderView,
    pub roster: Seq<Seq<char>>,
}

/// The coordinator as plain values.
pub ghost struct CoordinatorView {
    pub election_interval: int,
    pub node_id: Seq<char>,
    pub groups: Map<Seq<char>, GroupView>,
}

/// Whether a batch of `replica` is accepted by a group in state `prior`
/// at time `now`.
///
/// A group without a leader accepts any replica. A group with a leader
/// accepts that leader at any time, and another replica only when more than
/// `interval` has passed since the leader was last heard.
pub open spec fn accepts(prior: Option<LeaderView>, replica: Seq<char>, now: int, interval: int) -> bool {
    match prior {
        None => true,
        Some(leader) => leader.replica_id == replica || now - leader.last_received > interval,
    }
}

/// The leader of a group after a batch of `replica` was seen at time `now`.
pub open spec fn leader_after(
    prior: Option<LeaderView>,
    replica: Seq<char>,
    now: int,
    interval: int,
    node: Seq<char>,
) -> LeaderView {
    match prior {
        None => LeaderView { replica_id: replica, last_received: now, updated_by: node },
        Some(leader) => if accepts(prior, replica, now, interval) {
            LeaderView { replica_id: replica, last_received: now, updated_by: leader.updated_by }
        } else {
            leader
        },
    }
}

/// The roster of a group after `replica` was seen.
pub open spec fn roster_after(prior: Option<Seq<Seq<char>>>, replica: Seq<char>) -> Seq<Seq<char>> {
    match prior {
        None => seq![replica],
        Some(roster) => if roster.contains(replica) {
            roster
        } else {
            roster.push(replica)
        },
    }
}

/// Whether seeing `replica` changes the roster.
pub open spec fn roster_grows(prior: Option<Seq<Seq<char>>>, replica: Seq<char>) -> bool {
    match prior {
        None => true,
        Some(roster) => !roster.contains(replica),
    }
}

/// The leader part of an optional group.
pub open spec fn leader_of(group: Option<GroupView>) -> Option<LeaderView> {
    match group {
        Some(g) => Some(g.leader),
        None => None,
    }
}

/// The roster part of an optional group.
pub open spec fn roster_of(group: Option<GroupView>) -> Option<Seq<Seq<char>>> {
    match group {
        Some(g) => Some(g.roster),
        None => None,
    }
}

/// The state of a group after a batch of `replica` was seen at time `now`.
pub open spec fn group_after(
    prior: Option<GroupView>,
    replica: Seq<char>,
    now: int,
    interval: int,
    node: Seq<char>,
) -> GroupView {
    GroupView {
        leader: leader_after(leader_of(prior), replica, now, interval, node),
        roster: roster_after(roster_of(prior), replica),
    }
}

/// The coordinator after a batch of `replica` for `group` was seen at time `now`.
pub open spec fn coordinator_after(
    prior: CoordinatorView,
    group: Seq<char>,
    replica: Seq<char>,
    now: int,
) -> CoordinatorView {
    CoordinatorView {
        groups: prior.groups.insert(
            group,
            group_after(entry(prior.groups, group), replica, now, prior.election_interval, prior.node_id),
        ),
        ..prior
    }
}

/// The entry of a map under a key, if it has one.
pub open spec fn entry(groups: Map<Seq<char>, GroupView>, key: Seq<char>) -> Option<GroupView> {
    if groups.dom().contains(key) {
        Some(groups[key])
    } else {
        None
    }
}

/// Every group lists its leader in its roster.
pub open spec fn leaders_listed(groups: Map<Seq<char>, GroupView>) -> bool {
    forall|key: Seq<char>|
        groups.dom().contains(key) ==> (#[trigger] groups[key]).roster.contains(groups[key].leader.replica_id)
}

/// Whether a batch of `replica` for `group` is accepted at time `now`: always
/// for the group with the empty key, else as the group's state decides.
pub open spec fn lets_in(prior: CoordinatorView, group: Seq<char>, replica: Seq<char>, now: int) -> bool {
    group.len() == 0 || accepts(leader_of(entry(prior.groups, group)), replica, now, prior.election_interval)
}

/// The coordinator after a batch of `replica` for `group` was answered at
/// time `now`: unchanged for the group with the empty key.
pub open spec fn state_after(
    prior: CoordinatorView,
    group: Seq<char>,
    replica: Seq<char>,
    now: int,
) -> CoordinatorView {
    if group.len() == 0 {
        prior
    } else {
        coordinator_after(prior, group, replica, now)
    }
}

/// The answer of the coordinator to one batch.
#[derive(Debug)]
pub struct Election {
    /// Whether the batch is accepted.
    pub accepted: bool,
    /// The group's roster, where this batch extended it: to be stored.
    pub roster_update: Option<Vec<String>>,
}

/// The roster update as plain values.
pub open spec fn update_of(update: Option<Vec<String>>) -> Option<Seq<Seq<char>>> {
    match update {
        Some(roster) => Some(roster.deep_view()),
        None => None,
    }
}

struct Group {
    key: String,
    leader: ClusterLeader,
    roster: Vec<String>,
}

impl Group {
    spec fn state(&self) -> GroupView {
        GroupView { leader: self.leader@, roster: self.roster.deep_view() }
    }
}

/// No two entries have the same key.
spec fn distinct_keys(groups: Seq<Group>) -> bool {
    forall|i: int, j: int| 0 <= i < j < groups.len() ==> groups[i].key@ != groups[j].key@
}

/// The entries as a map from key to state.
spec fn as_map(groups: Seq<Group>) -> Map<Seq<char>, GroupView>
    decreases groups.len(),
{
    if groups.len() == 0 {
        Map::empty()
    } else {
        as_map(groups.drop_last()).insert(groups.last().key@, groups.last().state())
    }
}

proof fn lemma_as_map_dom(groups: Seq<Group>, key: Seq<char>)
    ensures
        as_map(groups).dom().contains(key) <==> exists|i: int| 0 <= i < groups.len() && groups[i].key@ == key,
    decreases groups.len(),
{
    if groups.len() > 0 {
        lemma_as_map_dom(groups.drop_last(), key);
        if as_map(groups).dom().contains(key) {
            if groups.last().key@ == key {
                assert(groups[groups.len() - 1].key@ == key);
            } else {
                let i = choose|i: int| 0 <= i < groups.drop_last().len() && groups.drop_last()[i].key@ == key;
                assert(groups[i].key@ == key);
            }
        }
        if exists|i: int| 0 <= i < groups.len() && groups[i].key@ == key {
            let i = choose|i: int| 0 <= i < groups.len() && groups[i].key@ == key;
            if i < groups.len() - 1 {
                assert(groups.drop_last()[i].key@ == key);
            }
        }
    }
}

proof fn lemma_as_map_at(groups: Seq<Group>, i: int)
    requires
        distinct_keys(groups),
        0 <= i < groups.len(),
    ensures
        as_map(groups).dom().contains(groups[i].key@),
        as_map(groups)[groups[i].key@] == groups[i].state(),
    decreases groups.len(),
{
    if i < groups.len() - 1 {
        assert(distinct_keys(groups.drop_last())) by {
            assert forall|a: int, b: int| 0 <= a < b < groups.drop_last().len() implies groups.drop_last()[a].key@
                != groups.drop_last()[b].key@ by {
                assert(groups[a].key@ != groups[b].key@);
            }
        }
        lemma_as_map_at(groups.drop_last(), i);
        assert(groups.drop_last()[i] == groups[i]);
        assert(groups[i].key@ != groups[groups.len() - 1].key@);
    }
}

proof fn lemma_as_map_update(groups: Seq<Group>, i: int, changed: Group)
    requires
        distinct_keys(groups),
        0 <= i < groups.len(),
        changed.key@ == groups[i].key@,
    ensures
        distinct_keys(groups.update(i, changed)),
        as_map(groups.update(i, changed)) == as_map(groups).insert(changed.key@, changed.state()),
    decreases groups.len(),
{
    let after = groups.update(i, changed);
    assert(distinct_keys(after)) by {
        assert forall|a: int, b: int| 0 <= a < b < after.len() implies after[a].key@ != after[b].key@ by {
            assert(groups[a].key@ != groups[b].key@);
        }
    }
    if i == groups.len() - 1 {
        assert(after.drop_last() =~= groups.drop_last());
        assert(as_map(after) =~= as_map(groups).insert(changed.key@, changed.state()));
    } else {
        assert(distinct_keys(groups.drop_last())) by {
            assert forall|a: int, b: int| 0 <= a < b < groups.drop_last().len() implies groups.drop_last()[a].key@
                != groups.drop_last()[b].key@ by {
                assert(groups[a].key@ != groups[b].key@);
            }
        }
        lemma_as_map_update(groups.drop_last(), i, changed);
        assert(after.drop_last() =~= groups.drop_last().update(i, changed));
        assert(after.last() == groups.last());
        assert(groups[i].key@ != groups[groups.len() - 1].key@);
        assert(as_map(after) =~= as_map(groups).insert(changed.key@, changed.state()));
    }
}

/// The election state of every replica group of this process.
pub struct DedupCoordinator {
    election_interval: i64,
    node_id: String,
    groups: Vec<Group>,
}

impl View for DedupCoordinator {
    type V = CoordinatorView;

    closed spec fn view(&self) -> CoordinatorView {
        CoordinatorView {
            election_interval: self.election_interval as int,
            node_id: self.node_id@,
            groups: as_map(self.groups@),
        }
    }
}

impl DedupCoordinator {
    /// The invariant of the coordinator: it holds each group once, so a
    /// group never has two leaders, and each group lists its leader in its
    /// roster.
    pub closed spec fn well_formed(&self) -> bool {
        &&& distinct_keys(self.groups@)
        &&& leaders_listed(as_map(self.groups@))
    }

    /// A coordinator that knows no group yet.
    ///
    /// `election_interval` is the time, in microseconds, after which a silent
    /// leader may be replaced; `node_id` names this node.
    pub fn new(election_interval: i64, node_id: String) -> (r: Self)
        ensures
            r@.election_interval == election_interval,
            r@.node_id == node_id@,
            r@.groups == Map::<Seq<char>, GroupView>::empty(),
            r.well_formed(),
    {
        DedupCoordinator { election_interval, node_id, groups: Vec::new() }
    }

    fn position(&self, key: &String) -> (r: Option<usize>)
        ensures
            match r {
                Some(i) => i < self.groups@.len() && self.groups@[i as int].key@ == key@,
                None => forall|i: int| 0 <= i < self.groups@.len() ==> self.groups@[i].key@ != key@,
            },
    {
        let mut i: usize = 0;
        while i < self.groups.len()
            invariant
                i <= self.groups@.len(),
                forall|j: int| 0 <= j < i ==> self.groups@[j].key@ != key@,
            decreases self.groups@.len() - i,
        {
            if self.groups[i].key == *key {
                return Some(i);
            }
            i += 1;
        }
        None
    }

    /// The current leader of a group, if the group has one.
    pub fn get_leader(&self, group: &str) -> (r: Option<ClusterLeader>)
        requires
            self.well_formed(),
        ensures
            match r {
                Some(leader) => Some(leader@) == leader_of(entry(self@.groups, group@)),
                None => entry(self@.groups, group@) is None,
            },
    {
        let key = group.to_owned();
        proof {
            lemma_as_map_dom(self.groups@, group@);
        }
        match self.position(&key) {
            Some(i) => {
                proof {
                    lemma_as_map_at(self.groups@, i as int);
                }
                Some(self.groups[i].leader.clone())
            },
            None => None,
        }
    }

    /// Answers one batch of `replica` for `group`, seen at time `now`, and
    /// moves the group to its next state.
    ///
    /// The batch is accepted where the group has no leader, where `replica`
    /// is the leader, or where the leader has been silent for longer than the
    /// election interval; `replica` is then the leader, last heard at `now`.
    /// Otherwise the batch is rejected and the leader stays as it is. Either
    /// way a replica that the group has not seen before joins its roster,
    /// and the roster comes back to be stored.
    pub fn try_elect(&mut self, group: &str, replica: &str, now: i64) -> (r: Election)
        requires
            old(self).well_formed(),
        ensures
            final(self).well_formed(),
            final(self)@ == coordinator_after(old(self)@, group@, replica@, now as int),
            r.accepted == accepts(
                leader_of(entry(old(self)@.groups, group@)),
                replica@,
                now as int,
                old(self)@.election_interval,
            ),
            update_of(r.roster_update) == if roster_grows(
                roster_of(entry(old(self)@.groups, group@)),
                replica@,
            ) {
                Some(roster_after(roster_of(entry(old(self)@.groups, group@)), replica@))
            } else {
                None
            },
    {
        let key = group.to_owned();
        let who = replica.to_owned();
        proof {
            lemma_as_map_dom(self.groups@, group@);
            lemma_leaders_stay_listed(self@, group@, replica@, now as int);
        }
        match self.position(&key) {
            None => {
                let mut roster: Vec<String> = Vec::new();
                roster.push(who.clone());
                let mut update: Vec<String> = Vec::new();
                update.push(who.clone());
                assert(roster.deep_view() =~= seq![replica@]);
                assert(update.deep_view() =~= seq![replica@]);
                let created = Group {
                    key,
                    leader: ClusterLeader {
                        replica_id: who,
                        last_received: now,
                        updated_by: self.node_id.clone(),
                    },
                    roster,
                };
                let ghost before = self.groups@;
                self.groups.push(created);
                proof {
                    assert(self.groups@.drop_last() =~= before);
                    assert forall|a: int, b: int| 0 <= a < b < self.groups@.len() implies self.groups@[a].key@
                        != self.groups@[b].key@ by {
                        if b < before.len() {
                            assert(before[a].key@ != before[b].key@);
                        }
                    }
                }
                Election { accepted: true, roster_update: Some(update) }
            },
            Some(i) => {
                proof {
                    lemma_as_map_at(self.groups@, i as int);
                }
                let ghost before = self.groups@;
                let same = self.groups[i].leader.replica_id == who;
                let silence: i128 = now as i128 - self.groups[i].leader.last_received as i128;
                let accepted = same || silence > self.election_interval as i128;
                let known = contains_text(&self.groups[i].roster, replica);
                if accepted {
                    self.groups[i].leader.replica_id = who.clone();
                    self.groups[i].leader.last_received = now;
                }
                let update = if known {
                    None
                } else {
                    let ghost shorter = self.groups[i as int].roster.deep_view();
                    self.groups[i].roster.push(who);
                    assert(self.groups[i as int].roster.deep_view() =~= shorter.push(replica@));
                    Some(clone_texts(&self.groups[i].roster))
                };
                proof {
                    lemma_as_map_update(before, i as int, self.groups@[i as int]);
                    assert(self.groups@ =~= before.update(i as int, self.groups@[i as int]));
                }
                Election { accepted, roster_update: update }
            },
        }
    }

    /// Answers one batch as `try_elect` does, but for the group without a
    /// name: a series that carries no cluster label belongs to the group
    /// whose key is empty, and that group takes no part in elections. Its
    /// batches are always accepted and leave the coordinator as it is.
    pub fn decide(&mut self, group: &str, replica: &str, now: i64) -> (r: Election)
        requires
            old(self).well_formed(),
        ensures
            final(self).well_formed(),
            final(self)@ == state_after(old(self)@, group@, replica@, now as int),
            r.accepted == lets_in(old(self)@, group@, replica@, now as int),
            update_of(r.roster_update) == if group@.len() > 0 && roster_grows(
                roster_of(entry(old(self)@.groups, group@)),
                replica@,
            ) {
                Some(roster_after(roster_of(entry(old(self)@.groups, group@)), replica@))
            } else {
                None
            },
    {
        if group.is_empty() {
            Election { accepted: true, roster_update: None }
        } else {
            self.try_elect(group, replica, now)
        }
    }

    /// The keys of the groups as they are stored, in the order of their
    /// first election.
    pub closed spec fn stored_keys(&self) -> Seq<Seq<char>> {
        Seq::new(self.groups@.len(), |i: int| self.groups@[i].key@)
    }

    /// A well-formed coordinator stores each group exactly once: no key
    /// occurs twice among the stored keys, and the stored keys are the
    /// groups of its view. So a group has one leader at any time.
    pub proof fn lemma_one_entry_per_group(&self)
        requires
            self.well_formed(),
        ensures
            self.stored_keys().no_duplicates(),
            forall|key: Seq<char>| self@.groups.dom().contains(key) <==> self.stored_keys().contains(key),
            leaders_listed(self@.groups),
    {
        assert forall|key: Seq<char>| self@.groups.dom().contains(key) <==> self.stored_keys().contains(
            key,
        ) by {
            lemma_as_map_dom(self.groups@, key);
            if self.stored_keys().contains(key) {
                let i = choose|i: int| 0 <= i < self.stored_keys().len() && self.stored_keys()[i] == key;
                assert(self.groups@[i].key@ == key);
            }
            if self@.groups.dom().contains(key) {
                let i = choose|i: int| 0 <= i < self.groups@.len() && self.groups@[i].key@ == key;
                assert(self.stored_keys()[i] == key);
            }
        }
    }
}

/// Reads the clock of this node through `chrono::Utc::now` and gives the
/// time in microseconds since 1970, as `DateTime::timestamp_micros` counts
/// them. Nothing is claimed about the value. `Utc::now` does not return
/// where the clock shows a time before 1970.
#[verifier::external_body]
fn now_micros() -> i64 {
    chrono::Utc::now().timestamp_micros()
}

/// Answers one batch of `replica_label` for the group `cluster_name` at the
/// time that this node's clock shows.
///
/// Whatever the clock shows, the answer and the next state are those of
/// `decide` at that time.
pub fn prom_ha_handler(coordinator: &mut DedupCoordinator, cluster_name: &str, replica_label: &str) -> (r:
    Election)
    requires
        old(coordinator).well_formed(),
    ensures
        final(coordinator).well_formed(),
        exists|now: i64|
            {
                &&& final(coordinator)@ == state_after(
                    old(coordinator)@,
                    cluster_name@,
                    replica_label@,
                    now as int,
                )
                &&& r.accepted == #[trigger] lets_in(old(coordinator)@, cluster_name@, replica_label@, now as int)
            },
        update_of(r.roster_update) == if cluster_name@.len() > 0 && roster_grows(
            roster_of(entry(old(coordinator)@.groups, cluster_name@)),
            replica_label@,
        ) {
            Some(roster_after(roster_of(entry(old(coordinator)@.groups, cluster_name@)), replica_label@))
        } else {
            None
        },
{
    let now = now_micros();
    coordinator.decide(cluster_name, replica_label, now)
}

/// An election keeps every leader listed in the roster of its group.
pub proof fn lemma_leaders_stay_listed(prior: CoordinatorView, group: Seq<char>, replica: Seq<char>, now: int)
    requires
        leaders_listed(prior.groups),
    ensures
        leaders_listed(coordinator_after(prior, group, replica, now).groups),
{
    let after = coordinator_after(prior, group, replica, now).groups;
    assert forall|key: Seq<char>| after.dom().contains(key) implies (#[trigger] after[key]).roster.contains(
        after[key].leader.replica_id,
    ) by {
        if key == group {
            let before = entry(prior.groups, group);
            let roster = roster_after(roster_of(before), replica);
            match before {
                None => {
                    assert(roster[0] == replica);
                },
                Some(known) => {
                    assert(prior.groups[group].roster.contains(known.leader.replica_id));
                    if known.roster.contains(replica) {
                    } else {
                        assert(roster[roster.len() - 1] == replica);
                        let at = choose|at: int| 0 <= at < known.roster.len() && known.roster[at] == known.leader.replica_id;
                        assert(roster[at] == known.leader.replica_id);
                    }
                },
            }
        } else {
            assert(after[key] == prior.groups[key]);
        }
    }
}

/// A batch of a series without cluster label is accepted, whoever sent it
/// and whenever, and leaves the coordinator as it is: such a series belongs
/// to the group with the empty key, which takes no part in elections.
pub proof fn lemma_empty_group_is_let_in(prior: CoordinatorView, replica: Seq<char>, now: int)
    ensures
        lets_in(prior, Seq::empty(), replica, now),
        state_after(prior, Seq::empty(), replica, now) == prior,
{
}

/// A group holds one leader, and an election touches one group: after a
/// batch for `group` the coordinator knows that group and the groups it
/// knew before, and every other group is as it was.
pub proof fn lemma_election_touches_one_group(
    prior: CoordinatorView,
    group: Seq<char>,
    replica: Seq<char>,
    now: int,
)
    ensures
        coordinator_after(prior, group, replica, now).groups.dom() == prior.groups.dom().insert(group),
        forall|other: Seq<char>|
            other != group ==> entry(coordinator_after(prior, group, replica, now).groups, other) == entry(
                prior.groups,
                other,
            ),
        coordinator_after(prior, group, replica, now).election_interval == prior.election_interval,
        coordinator_after(prior, group, replica, now).node_id == prior.node_id,
{
}

/// A roster only grows: what a group had listed stays listed, in its place,
/// and the replica of the batch is listed behind it where it was not listed
/// before.
pub proof fn lemma_roster_only_grows(prior: Seq<Seq<char>>, replica: Seq<char>)
    ensures
        prior.is_prefix_of(roster_after(Some(prior), replica)),
        roster_after(Some(prior), replica).contains(replica),
        roster_after(Some(prior), replica).len() <= prior.len() + 1,
{
    let after = roster_after(Some(prior), replica);
    if !prior.contains(replica) {
        assert(after[after.len() - 1] == replica);
    }
}

/// Of two accepted batches for one group, answered one after the other, the
/// second decides the leader: the last writer wins.
pub proof fn lemma_last_writer_wins(
    prior: CoordinatorView,
    group: Seq<char>,
    first: Seq<char>,
    first_time: int,
    second: Seq<char>,
    second_time: int,
)
    requires
        accepts(
            leader_of(entry(coordinator_after(prior, group, first, first_time).groups, group)),
            second,
            second_time,
            prior.election_interval,
        ),
    ensures
        ({
            let between = coordinator_after(prior, group, first, first_time);
            let after = coordinator_after(between, group, second, second_time);
            &&& after.groups.dom().contains(group)
            &&& after.groups[group].leader.replica_id == second
            &&& after.groups[group].leader.last_received == second_time
        }),
{
}

/// The leader of a group is accepted at any time, and stays the leader,
/// last heard at that time.
pub proof fn lemma_leader_is_accepted(leader: LeaderView, now: int, interval: int, node: Seq<char>)
    ensures
        accepts(Some(leader), leader.replica_id, now, interval),
        leader_after(Some(leader), leader.replica_id, now, interval, node) == (LeaderView {
            last_received: now,
            ..leader
        }),
{
}

/// A replica that is not the leader is rejected while no more than the
/// election interval has passed since the leader was last heard, and the
/// leader then stays as it is; once more has passed it is accepted and
/// becomes the leader.
pub proof fn lemma_other_replica_waits(
    leader: LeaderView,
    replica: Seq<char>,
    now: int,
    interval: int,
    node: Seq<char>,
)
    requires
        replica != leader.replica_id,
    ensures
        now - leader.last_received <= interval ==> !accepts(Some(leader), replica, now, interval)
            && leader_after(Some(leader), replica, now, interval, node) == leader,
        now - leader.last_received > interval ==> accepts(Some(leader), replica, now, interval)
            && leader_after(Some(leader), replica, now, interval, node).replica_id == replica
            && leader_after(Some(leader), replica, now, interval, node).last_received == now,
{
}

/// A batch of the leader, answered again at a later time, only moves the
/// time at which the leader was last heard: the leader, the roster, every
/// other group and the settings stay as they are.
pub proof fn lemma_replay_refreshes_only(prior: CoordinatorView, group: Seq<char>, now: int)
    requires
        leaders_listed(prior.groups),
        prior.groups.dom().contains(group),
    ensures
        ({
            let replica = prior.groups[group].leader.replica_id;
            let after = coordinator_after(prior, group, replica, now);
            &&& accepts(leader_of(entry(prior.groups, group)), replica, now, prior.election_interval)
            &&& after.groups.dom() == prior.groups.dom()
            &&& after.groups[group].leader == (LeaderView {
                last_received: now,
                ..prior.groups[group].leader
            })
            &&& after.groups[group].roster == prior.groups[group].roster
            &&& forall|other: Seq<char>| other != group ==> entry(after.groups, other) == entry(prior.groups, other)
            &&& after.election_interval == prior.election_interval
            &&& after.node_id == prior.node_id
        }),
{
    let replica = prior.groups[group].leader.replica_id;
    let after = coordinator_after(prior, group, replica, now);
    assert(after.groups.dom() =~= prior.groups.dom());
}

} // verus!
