//! How topics fare: the merge sweep, and what is reported of each topic.
use vstd::prelude::*;

use crate::config::is_listed;
use crate::node::{Node, TopicModel};

verus! {

/// How a topic member is behaving, by merge lag and owner liveness.
#[derive(Clone, Copy, PartialEq, Eq, Debug, Structural)]
pub enum MemberState {
    /// The owner is live and the merge is caught up.
    Quiet,
    /// The owner is live and the merge is behind.
    Active,
    /// The owner is not a live member: records are not flowing.
    Unreachable,
}

/// One member's row of a [`TopicStatus`].
#[derive(PartialEq, Eq, Debug)]
pub struct MemberInfo {
    pub name: String,
    pub epoch: u64,
    pub merged: u64,
    pub head: u64,
    pub lag: u64,
    /// Records dropped for using a reserved message type.
    pub rejected: u64,
    pub state: MemberState,
}

/// A [`MemberInfo`] as a value.
#[verifier::ext_equal]
pub struct MemberInfoModel {
    pub name: Seq<char>,
    pub epoch: u64,
    pub merged: u64,
    pub head: u64,
    pub lag: u64,
    pub rejected: u64,
    pub state: MemberState,
}

impl View for MemberInfo {
    type V = MemberInfoModel;

    open spec fn view(&self) -> MemberInfoModel {
        MemberInfoModel {
            name: self.name@,
            epoch: self.epoch,
            merged: self.merged,
            head: self.head,
            lag: self.lag,
            rejected: self.rejected,
            state: self.state,
        }
    }
}

/// A snapshot of a topic hosted here.
#[derive(PartialEq, Eq, Debug)]
pub struct TopicStatus {
    pub members: Vec<MemberInfo>,
    pub topic_head: u64,
    pub gaps_emitted: u64,
    pub slot_table_version: u64,
    /// Whether the topic merges on a thread of its own.
    pub promoted: bool,
}

/// What the merge engine reports of one member.
#[derive(PartialEq, Eq, Debug)]
pub struct MergedMember {
    pub name: String,
    pub epoch: u64,
    pub merged: u64,
    pub head: u64,
    pub lag: u64,
    pub rejected: u64,
}

/// What the merge engine reports of a topic.
#[derive(PartialEq, Eq, Debug)]
pub struct MergeReport {
    pub members: Vec<MergedMember>,
    pub topic_head: u64,
    pub gaps_emitted: u64,
    pub slot_table_version: u64,
}

/// The names among `topics` that the shared loop polls: all but the promoted ones.
pub open spec fn unpromoted(
    topics: Seq<(Seq<char>, TopicModel)>,
    promoted: Seq<String>,
) -> Seq<Seq<char>>
    decreases topics.len(),
{
    if topics.len() == 0 {
        Seq::empty()
    } else {
        let rest = unpromoted(topics.drop_last(), promoted);
        if crate::config::listed(promoted, topics.last().0) {
            rest
        } else {
            rest.push(topics.last().0)
        }
    }
}

/// The records merged by the polls that succeeded.
pub open spec fn merged_records(outcomes: Seq<Option<usize>>) -> nat
    decreases outcomes.len(),
{
    if outcomes.len() == 0 {
        0
    } else {
        merged_records(outcomes.drop_last()) + match outcomes.last() {
            Some(n) => n as nat,
            None => 0,
        }
    }
}

/// Whether the poll at place `i` is the first that failed.
pub open spec fn first_failure(outcomes: Seq<Option<usize>>, i: int) -> bool {
    &&& 0 <= i < outcomes.len()
    &&& outcomes[i] is None
    &&& forall|j: int| 0 <= j < i ==> outcomes[j] is Some
}

/// Adds up a sweep over all topics, each of which merged some number of records or failed (`None`).
/// One topic's trouble does not abandon the rest; a failure is reported, as the place of the first,
/// only if nothing was merged anywhere.
pub fn sweep(outcomes: &Vec<Option<usize>>) -> (r: Result<usize, usize>)
    requires
        merged_records(outcomes@) <= usize::MAX,
    ensures
        match r {
            Ok(n) => n == merged_records(outcomes@) && (n > 0 || forall|j: int|
                0 <= j < outcomes@.len() ==> outcomes@[j] is Some),
            Err(i) => merged_records(outcomes@) == 0 && first_failure(outcomes@, i as int),
        },
{
    let mut total: usize = 0;
    let mut failure: Option<usize> = None;
    let mut i: usize = 0;
    assert(outcomes@.take(0) =~= Seq::<Option<usize>>::empty());
    while i < outcomes.len()
        invariant
            i <= outcomes@.len(),
            merged_records(outcomes@) <= usize::MAX,
            total == merged_records(outcomes@.take(i as int)),
            match failure {
                Some(f) => f < i && first_failure(outcomes@, f as int),
                None => forall|j: int| 0 <= j < i ==> outcomes@[j] is Some,
            },
        decreases outcomes@.len() - i,
    {
        proof {
            assert(outcomes@.take(i + 1).drop_last() =~= outcomes@.take(i as int));
            assert(outcomes@.take(i + 1).last() == outcomes@[i as int]);
            lemma_merged_records_grow(outcomes@, i + 1);
        }
        match outcomes[i] {
            Some(n) => {
                total = total + n;
            },
            None => {
                if failure.is_none() {
                    failure = Some(i);
                }
            },
        }
        i = i + 1;
    }
    assert(outcomes@.take(i as int) =~= outcomes@);
    match failure {
        Some(f) => if total == 0 {
            Err(f)
        } else {
            Ok(total)
        },
        None => Ok(total),
    }
}

proof fn lemma_merged_records_grow(outcomes: Seq<Option<usize>>, k: int)
    requires
        0 <= k <= outcomes.len(),
    ensures
        merged_records(outcomes.take(k)) <= merged_records(outcomes),
    decreases outcomes.len(),
{
    if k == outcomes.len() {
        assert(outcomes.take(k) =~= outcomes);
    } else {
        lemma_merged_records_grow(outcomes.drop_last(), k);
        assert(outcomes.drop_last().take(k) =~= outcomes.take(k));
    }
}

impl Node {
    /// The topics that the shared loop polls, in name order. A promoted topic has a loop of its own,
    /// and must not spend the shared one's budget.
    pub fn shared_topics(&self) -> (names: Vec<String>)
        ensures
            crate::name_map::lists(crate::name_map::listing(self.muxes@), self.muxes@),
            crate::node::topics::texts(names@) == unpromoted(
                crate::name_map::listing(self.muxes@),
                self.config.promoted_topics@,
            ),
    {
        let ghost topics = crate::name_map::listing(self.muxes@);
        let ghost promoted = self.config.promoted_topics@;
        let n = self.muxes.len();
        let mut names: Vec<String> = Vec::new();
        let mut t: usize = 0;
        assert(topics.take(0) =~= Seq::<(Seq<char>, TopicModel)>::empty());
        assert(crate::node::topics::texts(names@) =~= unpromoted(topics.take(0), promoted));
        while t < n
            invariant
                t <= n == topics.len(),
                topics == crate::name_map::listing(self.muxes@),
                promoted == self.config.promoted_topics@,
                crate::node::topics::texts(names@) == unpromoted(
                    topics.take(t as int),
                    promoted,
                ),
            decreases n - t,
        {
            let name = self.muxes.name_at(t);
            proof {
                assert(topics.take(t + 1).drop_last() =~= topics.take(t as int));
                assert(topics.take(t + 1).last() == topics[t as int]);
            }
            if !is_listed(&self.config.promoted_topics, name.as_str()) {
                let ghost before = crate::node::topics::texts(names@);
                names.push(name.clone());
                assert(crate::node::topics::texts(names@) =~= before.push(name@));
            }
            t = t + 1;
        }
        assert(topics.take(n as int) =~= topics);
        names
    }

    /// How the member `name` is behaving at `now`, when its merge lags by `lag`. A member that the
    /// registry does not know has no owner to reach.
    pub open spec fn member_state(&self, name: Seq<char>, lag: u64, now: u64) -> MemberState {
        if !(self.registry@.contains_key(name) && self.owner_live(
            self.registry@[name].owner,
            now,
        )) {
            MemberState::Unreachable
        } else if lag == 0 {
            MemberState::Quiet
        } else {
            MemberState::Active
        }
    }

    /// One member's row.
    pub open spec fn member_row(&self, m: MergedMember, now: u64) -> MemberInfoModel {
        MemberInfoModel {
            name: m.name@,
            epoch: m.epoch,
            merged: m.merged,
            head: m.head,
            lag: m.lag,
            rejected: m.rejected,
            state: self.member_state(m.name@, m.lag, now),
        }
    }

    /// The status of a topic, from what its merge engine reports; `None` if this node does not host
    /// it.
    pub fn topic_status(&self, topic: &str, report: MergeReport, now: u64) -> (r: Option<
        TopicStatus,
    >)
        ensures
            r is Some <==> self.muxes@.contains_key(topic@),
            r matches Some(s) ==> {
                &&& s.members@.len() == report.members@.len()
                &&& forall|i: int|
                    0 <= i < s.members@.len() ==> (#[trigger] s.members@[i])@ == self.member_row(
                        report.members@[i],
                        now,
                    )
                &&& s.topic_head == report.topic_head
                &&& s.gaps_emitted == report.gaps_emitted
                &&& s.slot_table_version == report.slot_table_version
                &&& s.promoted == crate::config::listed(self.config.promoted_topics@, topic@)
            },
    {
        if !self.muxes.contains(topic) {
            return None;
        }
        let mut members: Vec<MemberInfo> = Vec::new();
        let rows = report.members;
        for m in it: rows
            invariant
                it.seq() == rows@,
                members@.len() == it.index(),
                forall|i: int|
                    0 <= i < members@.len() ==> (#[trigger] members@[i])@ == self.member_row(
                        rows@[i],
                        now,
                    ),
        {
            assert(m == rows@[it.index()]);
            let owner_live = match self.registry.get_raw(m.name.as_str()) {
                Some(id) => self.is_owner_live(id.owner, now),
                None => false,
            };
            let state = if !owner_live {
                MemberState::Unreachable
            } else if m.lag == 0 {
                MemberState::Quiet
            } else {
                MemberState::Active
            };
            members.push(
                MemberInfo {
                    name: m.name,
                    epoch: m.epoch,
                    merged: m.merged,
                    head: m.head,
                    lag: m.lag,
                    rejected: m.rejected,
                    state,
                },
            );
        }
        Some(
            TopicStatus {
                members,
                topic_head: report.topic_head,
                gaps_emitted: report.gaps_emitted,
                slot_table_version: report.slot_table_version,
                promoted: is_listed(&self.config.promoted_topics, topic),
            },
        )
    }
}

} // verus!
