//! Topics: many producers merged into one channel.
//!
//! A topic is an ordinary channel plus a merge of its members into it. A member is an ordinary
//! channel that names the topic in its registry entry. A member hosted here is read from its origin,
//! a remote one from a local replica.
use vstd::prelude::*;
use vstd::string::*;

use crate::identity::{ChannelIdentity, IdentityModel, NodeId};
use crate::names::{channel_path, replica_path};
use crate::node::{Node, TopicModel, TopicMux};
use crate::registry::Directory;
use crate::subscription::{Conducted, SubId, Subscription};
use crate::text::same;

verus! {

/// A member that is to be attached to a topic's merge.
#[derive(PartialEq, Eq, Debug)]
pub struct AttachStep {
    pub topic: String,
    pub name: String,
    pub epoch: u64,
    /// The log to read the member from.
    pub path: String,
    /// Whether that log is a replica, which may not exist yet; then the step waits for a later pass.
    pub replica: bool,
}

/// An [`AttachStep`] as a value.
#[verifier::ext_equal]
pub struct AttachModel {
    pub topic: Seq<char>,
    pub name: Seq<char>,
    pub epoch: u64,
    pub path: Seq<char>,
    pub replica: bool,
}

impl View for AttachStep {
    type V = AttachModel;

    open spec fn view(&self) -> AttachModel {
        AttachModel {
            topic: self.topic@,
            name: self.name@,
            epoch: self.epoch,
            path: self.path@,
            replica: self.replica,
        }
    }
}

/// A member that is to be drained and detached from a topic's merge.
#[derive(PartialEq, Eq, Debug)]
pub struct Departure {
    pub topic: String,
    pub name: String,
    pub epoch: u64,
}

impl View for Departure {
    type V = (Seq<char>, Seq<char>, u64);

    open spec fn view(&self) -> (Seq<char>, Seq<char>, u64) {
        (self.topic@, self.name@, self.epoch)
    }
}

/// What an attach pass calls for.
pub struct AttachPlan {
    /// Members to drain and detach.
    pub detach: Vec<Departure>,
    /// Remote members to subscribe to.
    pub subscribe: Vec<String>,
    /// Members to attach.
    pub attach: Vec<AttachStep>,
}

pub open spec fn departures(list: Seq<Departure>) -> Seq<(Seq<char>, Seq<char>, u64)> {
    Seq::new(list.len(), |i: int| list[i]@)
}

pub open spec fn steps(list: Seq<AttachStep>) -> Seq<AttachModel> {
    Seq::new(list.len(), |i: int| list[i]@)
}

pub open spec fn texts(list: Seq<String>) -> Seq<Seq<char>> {
    Seq::new(list.len(), |i: int| list[i]@)
}

/// The live entries of `list` that feed `topic`, in the order of `list`.
pub open spec fn members_of(list: Seq<IdentityModel>, topic: Seq<char>) -> Seq<IdentityModel>
    decreases list.len(),
{
    if list.len() == 0 {
        Seq::empty()
    } else {
        let rest = members_of(list.drop_last(), topic);
        if !list.last().deleted && list.last().member_of == Some(topic) {
            rest.push(list.last())
        } else {
            rest
        }
    }
}

/// The live members of `topic`, in name order.
pub open spec fn live_members(m: Directory, topic: Seq<char>) -> Seq<IdentityModel> {
    members_of(crate::registry::listing(m), topic)
}

/// Whether the registry says that `name` has left `topic`: it is tombstoned, or feeds another topic
/// or none. Absence from the registry says nothing: the registry may just be incomplete.
pub open spec fn has_left(m: Directory, topic: Seq<char>, name: Seq<char>) -> bool {
    m.contains_key(name) && (m[name].deleted || m[name].member_of != Some(topic))
}

/// The members of `topic` that have left it, in order of attachment.
pub open spec fn leaving(
    m: Directory,
    topic: Seq<char>,
    members: Seq<(Seq<char>, u64)>,
) -> Seq<(Seq<char>, Seq<char>, u64)>
    decreases members.len(),
{
    if members.len() == 0 {
        Seq::empty()
    } else {
        let rest = leaving(m, topic, members.drop_last());
        let (name, epoch) = members.last();
        if has_left(m, topic, name) {
            rest.push((topic, name, epoch))
        } else {
            rest
        }
    }
}

/// The members that have left their topics, topic by topic.
pub open spec fn all_leaving(
    m: Directory,
    topics: Seq<(Seq<char>, TopicModel)>,
) -> Seq<(Seq<char>, Seq<char>, u64)>
    decreases topics.len(),
{
    if topics.len() == 0 {
        Seq::empty()
    } else {
        all_leaving(m, topics.drop_last()) + leaving(m, topics.last().0, topics.last().1.members)
    }
}

/// The names of members that have left.
pub open spec fn names_of(gone: Seq<(Seq<char>, Seq<char>, u64)>) -> Seq<Seq<char>> {
    Seq::new(gone.len(), |i: int| gone[i].1)
}

/// What is left of the subscriptions once those kept for the names in `gone` have been stopped and
/// forgotten, one after the other.
pub open spec fn without_all(
    subscriptions: Map<Seq<char>, SubId>,
    conducted: Map<SubId, Conducted>,
    gone: Seq<Seq<char>>,
) -> (Map<Seq<char>, SubId>, Map<SubId, Conducted>)
    decreases gone.len(),
{
    if gone.len() == 0 {
        (subscriptions, conducted)
    } else {
        let (s, c) = without_all(subscriptions, conducted, gone.drop_last());
        let name = gone.last();
        (
            s.remove(name),
            if s.contains_key(name) && c.contains_key(s[name]) {
                c.insert(
                    s[name],
                    Conducted {
                        name: c[s[name]].name,
                        sub: Subscription { stopped: true, ..c[s[name]].sub },
                    },
                )
            } else {
                c
            },
        )
    }
}

impl Node {
    /// Whether an active subscription is kept for `name`.
    pub open spec fn subscribed(&self, name: Seq<char>) -> bool {
        &&& self.subscriptions@.contains_key(name)
        &&& self.conducted@.contains_key(self.subscriptions@[name])
        &&& !self.conducted@[self.subscriptions@[name]].sub.stopped
    }

    /// Whether the member `m` of a topic hosted here is to be subscribed to: it is remote, its owner
    /// is live, and no active subscription is kept for it. An owner out of reach is never resolved.
    pub open spec fn wants(&self, m: IdentityModel, now: u64) -> bool {
        &&& m.owner != self.config.node_id
        &&& self.dissemination.live(m.owner, now)
        &&& !self.subscribed(m.name)
        &&& crate::names::valid_name(m.name)
    }

    /// The names of the members in `list` that are to be subscribed to.
    pub open spec fn wanted(&self, list: Seq<IdentityModel>, now: u64) -> Seq<Seq<char>>
        decreases list.len(),
    {
        if list.len() == 0 {
            Seq::empty()
        } else {
            let rest = self.wanted(list.drop_last(), now);
            if self.wants(list.last(), now) {
                rest.push(list.last().name)
            } else {
                rest
            }
        }
    }

    /// The names of the members to be subscribed to, topic by topic.
    pub open spec fn all_wanted(
        &self,
        topics: Seq<(Seq<char>, TopicModel)>,
        now: u64,
    ) -> Seq<Seq<char>>
        decreases topics.len(),
    {
        if topics.len() == 0 {
            Seq::empty()
        } else {
            self.all_wanted(topics.drop_last(), now) + self.wanted(
                live_members(self.registry@, topics.last().0),
                now,
            )
        }
    }

    /// How the member `m` is to be attached to `topic`.
    pub open spec fn step_value(&self, topic: Seq<char>, m: IdentityModel) -> AttachModel {
        let remote = m.owner != self.config.node_id;
        AttachModel {
            topic,
            name: m.name,
            epoch: m.epoch,
            path: if remote {
                crate::names::replica_path_of(self.config.data_dir@, m.name)
            } else {
                crate::names::channel_path_of(self.config.data_dir@, m.name)
            },
            replica: remote,
        }
    }

    /// How the members in `list` that are not attached yet are to be attached to `topic`.
    pub open spec fn pending(
        &self,
        topic: Seq<char>,
        attached: Seq<(Seq<char>, u64)>,
        list: Seq<IdentityModel>,
    ) -> Seq<AttachModel>
        decreases list.len(),
    {
        if list.len() == 0 {
            Seq::empty()
        } else {
            let rest = self.pending(topic, attached, list.drop_last());
            let m = list.last();
            if !attached.contains((m.name, m.epoch)) && crate::names::valid_name(m.name) {
                rest.push(self.step_value(topic, m))
            } else {
                rest
            }
        }
    }

    /// How members are to be attached, topic by topic.
    pub open spec fn all_pending(&self, topics: Seq<(Seq<char>, TopicModel)>) -> Seq<AttachModel>
        decreases topics.len(),
    {
        if topics.len() == 0 {
            Seq::empty()
        } else {
            self.all_pending(topics.drop_last()) + self.pending(
                topics.last().0,
                topics.last().1.members,
                live_members(self.registry@, topics.last().0),
            )
        }
    }

    /// Whether the owner of `name` is in `live` and was not live at the last pass.
    pub open spec fn revived(&self, live: Seq<NodeId>, name: Seq<char>) -> bool {
        &&& self.registry@.contains_key(name)
        &&& live.contains(self.registry@[name].owner)
        &&& !self.last_live_owners@.contains(self.registry@[name].owner)
    }

    // ---------------- reading ----------------
    /// Whether the listings of the registry and of the topics hold the entries of these maps, each
    /// once, in name order.
    pub open spec fn listable(&self) -> bool {
        &&& crate::registry::enumerates(
            crate::registry::listing(self.registry@),
            self.registry@,
        )
        &&& crate::name_map::lists(crate::name_map::listing(self.muxes@), self.muxes@)
        &&& crate::name_map::lists(crate::name_map::listing(self.topic_reap@), self.topic_reap@)
    }

    /// The live members of `topic`, in name order.
    pub fn members_of_topic(&self, topic: &str) -> (ids: Vec<ChannelIdentity>)
        ensures
            crate::identity::models(ids@) == live_members(self.registry@, topic@),
            crate::registry::enumerates(
                crate::registry::listing(self.registry@),
                self.registry@,
            ),
    {
        let n = self.registry.len();
        let ghost list = crate::registry::listing(self.registry@);
        let mut ids: Vec<ChannelIdentity> = Vec::new();
        let mut i: usize = 0;
        assert(list.take(0) =~= Seq::<IdentityModel>::empty());
        assert(crate::identity::models(ids@) =~= members_of(list.take(0), topic@));
        while i < n
            invariant
                i <= n == list.len(),
                list == crate::registry::listing(self.registry@),
                crate::identity::models(ids@) == members_of(list.take(i as int), topic@),
            decreases n - i,
        {
            let id = self.registry.at(i);
            proof {
                assert(list.take(i + 1).drop_last() =~= list.take(i as int));
                assert(list.take(i + 1).last() == id@);
            }
            if !id.deleted && feeds(id, topic) {
                let ghost before = crate::identity::models(ids@);
                ids.push(id.clone());
                assert(crate::identity::models(ids@) =~= before.push(id@));
            }
            i = i + 1;
        }
        assert(list.take(n as int) =~= list);
        ids
    }

    /// Whether an active subscription is kept for `name`.
    pub fn is_subscribed(&self, name: &str) -> (b: bool)
        ensures
            b == self.subscribed(name@),
    {
        match self.subscriptions.get(name) {
            Some(id) => match self.conducted.get(*id) {
                Some(c) => c.sub.is_active(),
                None => false,
            },
            None => false,
        }
    }

    fn left_topic(&self, topic: &str, name: &str) -> (b: bool)
        ensures
            b == has_left(self.registry@, topic@, name@),
    {
        match self.registry.get_raw(name) {
            Some(id) => id.deleted || !feeds(id, topic),
            None => false,
        }
    }

    fn members_leaving(&self) -> (gone: Vec<Departure>)
        ensures
            departures(gone@) == all_leaving(
                self.registry@,
                crate::name_map::listing(self.muxes@),
            ),
    {
        let ghost topics = crate::name_map::listing(self.muxes@);
        let n = self.muxes.len();
        let mut gone: Vec<Departure> = Vec::new();
        let mut t: usize = 0;
        assert(topics.take(0) =~= Seq::<(Seq<char>, TopicModel)>::empty());
        assert(departures(gone@) =~= all_leaving(self.registry@, topics.take(0)));
        while t < n
            invariant
                t <= n == topics.len(),
                topics == crate::name_map::listing(self.muxes@),
                departures(gone@) == all_leaving(self.registry@, topics.take(t as int)),
            decreases n - t,
        {
            let topic = self.muxes.name_at(t);
            let members = &self.muxes.value_at(t).members;
            let ghost values = topics[t as int].1.members;
            let ghost base = departures(gone@);
            let mut i: usize = 0;
            assert(values.take(0) =~= Seq::<(Seq<char>, u64)>::empty());
            assert(base =~= base + leaving(self.registry@, topic@, values.take(0)));
            while i < members.len()
                invariant
                    i <= members@.len(),
                    values == crate::node::incarnations(members@),
                    departures(gone@) == base + leaving(
                        self.registry@,
                        topic@,
                        values.take(i as int),
                    ),
                decreases members@.len() - i,
            {
                let m = &members[i];
                proof {
                    assert(values.take(i + 1).drop_last() =~= values.take(i as int));
                    assert(values.take(i + 1).last() == m@);
                }
                if self.left_topic(topic.as_str(), m.name.as_str()) {
                    let ghost before = departures(gone@);
                    gone.push(
                        Departure {
                            topic: topic.clone(),
                            name: m.name.clone(),
                            epoch: m.epoch,
                        },
                    );
                    assert(departures(gone@) =~= before.push((topic@, m@.0, m@.1)));
                    assert(departures(gone@) =~= base + leaving(
                        self.registry@,
                        topic@,
                        values.take(i + 1),
                    ));
                }
                i = i + 1;
            }
            proof {
                assert(values.take(i as int) =~= values);
                assert(topics.take(t + 1).drop_last() =~= topics.take(t as int));
                assert(topics.take(t + 1).last() == topics[t as int]);
            }
            t = t + 1;
        }
        assert(topics.take(n as int) =~= topics);
        gone
    }

    fn members_wanted(&self, now: u64) -> (names: Vec<String>)
        ensures
            texts(names@) == self.all_wanted(crate::name_map::listing(self.muxes@), now),
    {
        let live = self.dissemination.live_members(now);
        let ghost topics = crate::name_map::listing(self.muxes@);
        let n = self.muxes.len();
        let mut names: Vec<String> = Vec::new();
        let mut t: usize = 0;
        assert(topics.take(0) =~= Seq::<(Seq<char>, TopicModel)>::empty());
        assert(texts(names@) =~= self.all_wanted(topics.take(0), now));
        while t < n
            invariant
                t <= n == topics.len(),
                topics == crate::name_map::listing(self.muxes@),
                forall|x: NodeId| live@.contains(x) <==> self.dissemination.live(x, now),
                texts(names@) == self.all_wanted(topics.take(t as int), now),
            decreases n - t,
        {
            let topic = self.muxes.name_at(t);
            let members = self.members_of_topic(topic.as_str());
            let ghost values = crate::identity::models(members@);
            let ghost base = texts(names@);
            let mut i: usize = 0;
            assert(values.take(0) =~= Seq::<IdentityModel>::empty());
            assert(base =~= base + self.wanted(values.take(0), now));
            while i < members.len()
                invariant
                    i <= members@.len(),
                    values == crate::identity::models(members@),
                    forall|x: NodeId| live@.contains(x) <==> self.dissemination.live(x, now),
                    texts(names@) == base + self.wanted(values.take(i as int), now),
                decreases members@.len() - i,
            {
                let m = &members[i];
                proof {
                    assert(values.take(i + 1).drop_last() =~= values.take(i as int));
                    assert(values.take(i + 1).last() == m@);
                }
                if m.owner.0 != self.config.node_id.0 && contains_node(&live, m.owner)
                    && !self.is_subscribed(m.name.as_str()) && crate::names::validate_channel_name(
                    m.name.as_str(),
                ).is_ok() {
                    let ghost before = texts(names@);
                    names.push(m.name.clone());
                    assert(texts(names@) =~= before.push(m@.name));
                    assert(texts(names@) =~= base + self.wanted(values.take(i + 1), now));
                }
                i = i + 1;
            }
            proof {
                assert(values.take(i as int) =~= values);
                assert(topics.take(t + 1).drop_last() =~= topics.take(t as int));
                assert(topics.take(t + 1).last() == topics[t as int]);
            }
            t = t + 1;
        }
        assert(topics.take(n as int) =~= topics);
        names
    }

    fn members_pending(&self) -> (plan: Vec<AttachStep>)
        ensures
            steps(plan@) == self.all_pending(crate::name_map::listing(self.muxes@)),
    {
        let ghost topics = crate::name_map::listing(self.muxes@);
        let n = self.muxes.len();
        let mut plan: Vec<AttachStep> = Vec::new();
        let mut t: usize = 0;
        assert(topics.take(0) =~= Seq::<(Seq<char>, TopicModel)>::empty());
        assert(steps(plan@) =~= self.all_pending(topics.take(0)));
        while t < n
            invariant
                t <= n == topics.len(),
                topics == crate::name_map::listing(self.muxes@),
                steps(plan@) == self.all_pending(topics.take(t as int)),
            decreases n - t,
        {
            let topic = self.muxes.name_at(t);
            let mux = self.muxes.value_at(t);
            let members = self.members_of_topic(topic.as_str());
            let ghost values = crate::identity::models(members@);
            let ghost base = steps(plan@);
            let mut i: usize = 0;
            assert(values.take(0) =~= Seq::<IdentityModel>::empty());
            assert(base =~= base + self.pending(topic@, mux@.members, values.take(0)));
            while i < members.len()
                invariant
                    i <= members@.len(),
                    values == crate::identity::models(members@),
                    steps(plan@) == base + self.pending(
                        topic@,
                        mux@.members,
                        values.take(i as int),
                    ),
                decreases members@.len() - i,
            {
                let m = &members[i];
                proof {
                    assert(values.take(i + 1).drop_last() =~= values.take(i as int));
                    assert(values.take(i + 1).last() == m@);
                }
                if !has_member(mux, m.name.as_str(), m.epoch) {
                    let remote = m.owner.0 != self.config.node_id.0;
                    let path = if remote {
                        replica_path(self.config.data_dir.as_str(), m.name.as_str())
                    } else {
                        channel_path(self.config.data_dir.as_str(), m.name.as_str())
                    };
                    if let Ok(path) = path {
                        let ghost before = steps(plan@);
                        plan.push(
                            AttachStep {
                                topic: topic.clone(),
                                name: m.name.clone(),
                                epoch: m.epoch,
                                path,
                                replica: remote,
                            },
                        );
                        assert(steps(plan@) =~= before.push(self.step_value(topic@, m@)));
                        assert(steps(plan@) =~= base + self.pending(
                            topic@,
                            mux@.members,
                            values.take(i + 1),
                        ));
                    }
                }
                i = i + 1;
            }
            proof {
                assert(values.take(i as int) =~= values);
                assert(topics.take(t + 1).drop_last() =~= topics.take(t as int));
                assert(topics.take(t + 1).last() == topics[t as int]);
            }
            t = t + 1;
        }
        assert(topics.take(n as int) =~= topics);
        plan
    }

    // ---------------- the attach pass ----------------
    /// Returns `live_now`, having first dropped the attach penalties of channels whose owner has
    /// just become reachable: what earned them is gone, and all they could do is delay the resume.
    pub fn live_owners_noting_revivals(&mut self, live_now: Vec<NodeId>) -> (live: Vec<NodeId>)
        ensures
            Node::in_step(*old(self), *final(self)),
            live@ == live_now@,
            final(self).last_live_owners@ == live_now@,
            forall|k: Seq<char>| #[trigger]
                final(self).attach_backoff@.contains_key(k) <==> old(
                    self,
                ).attach_backoff@.contains_key(k) && !old(self).revived(live_now@, k),
            forall|k: Seq<char>| #[trigger]
                final(self).attach_backoff@.contains_key(k) ==> final(self).attach_backoff@[k]
                    == old(self).attach_backoff@[k],
            *final(self) == (Node {
                last_live_owners: final(self).last_live_owners,
                attach_backoff: final(self).attach_backoff,
                ..*old(self)
            }),
    {
        let ghost list = crate::registry::listing(self.registry@);
        let n = self.registry.len();
        let mut i: usize = 0;
        while i < n
            invariant
                i <= n == list.len(),
                list == crate::registry::listing(self.registry@),
                crate::registry::enumerates(list, self.registry@),
                *self == (Node { attach_backoff: self.attach_backoff, ..*old(self) }),
                forall|k: Seq<char>| #[trigger]
                    self.attach_backoff@.contains_key(k) <==> old(
                        self,
                    ).attach_backoff@.contains_key(k) && !revived_among(
                        list.take(i as int),
                        live_now@,
                        self.last_live_owners@,
                        k,
                    ),
                forall|k: Seq<char>| #[trigger]
                    self.attach_backoff@.contains_key(k) ==> self.attach_backoff@[k] == old(
                        self,
                    ).attach_backoff@[k],
            decreases n - i,
        {
            let id = self.registry.at(i);
            let ghost before = self.attach_backoff@;
            proof {
                assert(list.take(i + 1) =~= list.take(i as int).push(id@));
                assert forall|k: Seq<char>| #[trigger]
                    revived_among(list.take(i + 1), live_now@, self.last_live_owners@, k)
                        <==> revived_among(
                        list.take(i as int),
                        live_now@,
                        self.last_live_owners@,
                        k,
                    ) || (id@.name == k && live_now@.contains(id@.owner)
                        && !self.last_live_owners@.contains(id@.owner)) by {
                    lemma_revived_push(
                        list.take(i as int),
                        id@,
                        live_now@,
                        self.last_live_owners@,
                        k,
                    );
                }
            }
            if contains_node(&live_now, id.owner) && !contains_node(
                &self.last_live_owners,
                id.owner,
            ) {
                let _ = self.attach_backoff.remove(id.name.as_str());
            }
            i = i + 1;
        }
        proof {
            assert(list.take(n as int) =~= list);
            assert forall|k: Seq<char>|
                revived_among(list, live_now@, self.last_live_owners@, k) <==> old(self).revived(
                    live_now@,
                    k,
                ) by {
                lemma_revived_listing(*old(self), live_now@, k);
            }
        }
        self.last_live_owners = copy_nodes(&live_now);
        live_now
    }

    /// What an attach pass does, and plans.
    pub open spec fn attach_planned(before: Node, after: Node, now: u64, plan: AttachPlan) -> bool {
        &&& before.listable()
        &&& departures(plan.detach@) == all_leaving(
            before.registry@,
            crate::name_map::listing(before.muxes@),
        )
        &&& (after.subscriptions@, after.conducted@) == without_all(
            before.subscriptions@,
            before.conducted@,
            names_of(departures(plan.detach@)),
        )
        &&& after.conducted.ids() == before.conducted.ids()
        &&& after.conducted.next_id() == before.conducted.next_id()
        &&& texts(plan.subscribe@) == after.all_wanted(
            crate::name_map::listing(before.muxes@),
            now,
        )
        &&& steps(plan.attach@) == before.all_pending(
            crate::name_map::listing(before.muxes@),
        )
        &&& forall|x: NodeId|
            after.last_live_owners@.contains(x) <==> before.dissemination.live(x, now)
        &&& forall|k: Seq<char>| #[trigger]
            after.attach_backoff@.contains_key(k) <==> before.attach_backoff@.contains_key(k)
                && !before.revived(after.last_live_owners@, k)
        &&& forall|k: Seq<char>| #[trigger]
            after.attach_backoff@.contains_key(k) ==> after.attach_backoff@[k]
                == before.attach_backoff@[k]
        &&& after == (Node {
            subscriptions: after.subscriptions,
            conducted: after.conducted,
            last_live_owners: after.last_live_owners,
            attach_backoff: after.attach_backoff,
            ..before
        })
    }

    /// Reacts to registrations: which members of the topics hosted here are to be subscribed to,
    /// attached, or detached. Those that have left are unsubscribed at once.
    pub fn attach_pending_members(&mut self, now: u64) -> (plan: AttachPlan)
        ensures
            Node::in_step(*old(self), *final(self)),
            Node::attach_planned(*old(self), *final(self), now, plan),
    {
        let _ = (self.registry.len(), self.muxes.len(), self.topic_reap.len());
        let live = self.dissemination.live_members(now);
        let _ = self.live_owners_noting_revivals(live);
        let ghost noted = *self;
        let detach = self.members_leaving();
        let attach = self.members_pending();
        let ghost gone = names_of(departures(detach@));
        let mut i: usize = 0;
        assert(gone.take(0) =~= Seq::<Seq<char>>::empty());
        while i < detach.len()
            invariant
                i <= detach@.len(),
                gone == names_of(departures(detach@)),
                (self.subscriptions@, self.conducted@) == without_all(
                    old(self).subscriptions@,
                    old(self).conducted@,
                    gone.take(i as int),
                ),
                self.conducted.ids() == old(self).conducted.ids(),
                self.conducted.next_id() == old(self).conducted.next_id(),
                *self == (Node {
                    subscriptions: self.subscriptions,
                    conducted: self.conducted,
                    ..noted
                }),
            decreases detach@.len() - i,
        {
            proof {
                assert(gone.take(i + 1).drop_last() =~= gone.take(i as int));
                assert(gone.take(i + 1).last() == detach@[i as int].name@);
            }
            let _ = self.unsubscribe(detach[i].name.as_str());
            i = i + 1;
        }
        assert(gone.take(i as int) =~= gone);
        let subscribe = self.members_wanted(now);
        proof {
            lemma_pending_alike(noted, *old(self), crate::name_map::listing(old(self).muxes@));
            crate::node::subscribing::lemma_without_all_in_step(*old(self), *self, gone);
        }
        AttachPlan { detach, subscribe, attach }
    }
}

/// Where members go depends on the registry and the configuration alone.
proof fn lemma_pending_alike(a: Node, b: Node, topics: Seq<(Seq<char>, TopicModel)>)
    requires
        a.registry == b.registry,
        a.config == b.config,
    ensures
        a.all_pending(topics) == b.all_pending(topics),
    decreases topics.len(),
{
    if topics.len() > 0 {
        lemma_pending_alike(a, b, topics.drop_last());
        lemma_pending_of_alike(
            a,
            b,
            topics.last().0,
            topics.last().1.members,
            live_members(a.registry@, topics.last().0),
        );
    }
}

proof fn lemma_pending_of_alike(
    a: Node,
    b: Node,
    topic: Seq<char>,
    attached: Seq<(Seq<char>, u64)>,
    list: Seq<IdentityModel>,
)
    requires
        a.registry == b.registry,
        a.config == b.config,
    ensures
        a.pending(topic, attached, list) == b.pending(topic, attached, list),
    decreases list.len(),
{
    if list.len() > 0 {
        lemma_pending_of_alike(a, b, topic, attached, list.drop_last());
    }
}

/// Whether the entry for `k` in `list` has an owner in `live` that is not in `was`.
spec fn revived_among(
    list: Seq<IdentityModel>,
    live: Seq<NodeId>,
    was: Seq<NodeId>,
    k: Seq<char>,
) -> bool {
    exists|i: int|
        0 <= i < list.len() && (#[trigger] list[i]).name == k && live.contains(list[i].owner)
            && !was.contains(list[i].owner)
}

proof fn lemma_revived_push(
    list: Seq<IdentityModel>,
    id: IdentityModel,
    live: Seq<NodeId>,
    was: Seq<NodeId>,
    k: Seq<char>,
)
    ensures
        revived_among(list.push(id), live, was, k) <==> revived_among(list, live, was, k) || (
        id.name == k && live.contains(id.owner) && !was.contains(id.owner)),
{
    let all = list.push(id);
    if revived_among(list, live, was, k) {
        let i = choose|i: int|
            0 <= i < list.len() && (#[trigger] list[i]).name == k && live.contains(list[i].owner)
                && !was.contains(list[i].owner);
        assert(all[i] == list[i]);
    }
    if revived_among(all, live, was, k) {
        let i = choose|i: int|
            0 <= i < all.len() && (#[trigger] all[i]).name == k && live.contains(all[i].owner)
                && !was.contains(all[i].owner);
        if i < list.len() {
            assert(list[i] == all[i]);
        }
    }
    assert(all[list.len() as int] == id);
}

proof fn lemma_revived_listing(node: Node, live: Seq<NodeId>, k: Seq<char>)
    requires
        crate::registry::enumerates(
            crate::registry::listing(node.registry@),
            node.registry@,
        ),
    ensures
        revived_among(
            crate::registry::listing(node.registry@),
            live,
            node.last_live_owners@,
            k,
        ) <==> node.revived(live, k),
{
    let list = crate::registry::listing(node.registry@);
    let pairs = Seq::new(list.len(), |i: int| (list[i].name, list[i]));
    if revived_among(list, live, node.last_live_owners@, k) {
        let i = choose|i: int|
            0 <= i < list.len() && (#[trigger] list[i]).name == k && live.contains(list[i].owner)
                && !node.last_live_owners@.contains(list[i].owner);
        assert(pairs[i].0 == k);
        assert(node.registry@.contains_key(pairs[i].0) && node.registry@[pairs[i].0]
            == pairs[i].1);
    }
    if node.revived(live, k) {
        let i = choose|i: int| 0 <= i < pairs.len() && #[trigger] pairs[i].0 == k;
        assert(node.registry@[pairs[i].0] == pairs[i].1);
        assert(list[i].name == k);
    }
}

/// Whether `id` feeds `topic`.
pub fn feeds(id: &ChannelIdentity, topic: &str) -> (b: bool)
    ensures
        b == (id@.member_of == Some(topic@)),
{
    match &id.member_of {
        Some(t) => same(t.as_str(), topic),
        None => false,
    }
}

/// Whether `name`, in its incarnation `epoch`, is attached to `mux`.
pub fn has_member(mux: &TopicMux, name: &str, epoch: u64) -> (b: bool)
    ensures
        b == mux@.members.contains((name@, epoch)),
{
    let mut i: usize = 0;
    while i < mux.members.len()
        invariant
            i <= mux.members@.len(),
            forall|j: int| 0 <= j < i ==> mux@.members[j] != (name@, epoch),
        decreases mux.members@.len() - i,
    {
        let m = &mux.members[i];
        assert(mux@.members[i as int] == m@);
        if m.epoch == epoch && same(m.name.as_str(), name) {
            assert(mux@.members[i as int] == (name@, epoch));
            return true;
        }
        i = i + 1;
    }
    false
}

/// Whether `nodes` holds `node`.
pub fn contains_node(nodes: &Vec<NodeId>, node: NodeId) -> (b: bool)
    ensures
        b == nodes@.contains(node),
{
    let mut i: usize = 0;
    while i < nodes.len()
        invariant
            i <= nodes@.len(),
            forall|j: int| 0 <= j < i ==> nodes@[j] != node,
        decreases nodes@.len() - i,
    {
        if nodes[i].0 == node.0 {
            assert(nodes@[i as int] == node);
            return true;
        }
        i = i + 1;
    }
    false
}

fn copy_nodes(nodes: &Vec<NodeId>) -> (r: Vec<NodeId>)
    ensures
        r@ == nodes@,
{
    let mut r: Vec<NodeId> = Vec::new();
    let mut i: usize = 0;
    while i < nodes.len()
        invariant
            i <= nodes@.len(),
            r@ == nodes@.take(i as int),
        decreases nodes@.len() - i,
    {
        r.push(nodes[i]);
        assert(r@ =~= nodes@.take(i + 1));
        i = i + 1;
    }
    assert(nodes@.take(i as int) =~= nodes@);
    r
}

} // verus!
