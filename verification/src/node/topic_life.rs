//! How topics come to be, gain and lose members, and end.
use vstd::prelude::*;

use crate::config::is_listed;
use crate::error::NodeError;
use crate::identity::{ChannelIdentity, IdentityModel};
use crate::limits::MAX_BATCH_PER_MEMBER;
use crate::names::channel_dir;
use crate::node::registration::{disseminated, name_taken, OriginPlan};
use crate::node::topics::{feeds, has_member, without_all};
use crate::node::{Node, TopicModel, TopicMux};
use crate::registry::Directory;
use crate::table::Incarnation;
use crate::time::{elapsed, Duration};
use crate::wire::{ChannelOptions, ControlModel, TopicOptions, NO_PEER};

verus! {

/// What creating a topic calls for: its channel, and then a merge into it that takes `batch` records
/// per member and poll.
pub struct TopicPlan {
    pub origin: OriginPlan,
    pub batch: usize,
}

/// `members` with `m` attached, unless it is already.
pub open spec fn with_member(
    members: Seq<(Seq<char>, u64)>,
    m: (Seq<char>, u64),
) -> Seq<(Seq<char>, u64)> {
    if members.contains(m) {
        members
    } else {
        members.push(m)
    }
}

/// `members` with every mention of `m` detached.
pub open spec fn without_member(
    members: Seq<(Seq<char>, u64)>,
    m: (Seq<char>, u64),
) -> Seq<(Seq<char>, u64)>
    decreases members.len(),
{
    if members.len() == 0 {
        members
    } else if members.last() == m {
        without_member(members.drop_last(), m)
    } else {
        without_member(members.drop_last(), m).push(members.last())
    }
}

/// The topics hosted here once the member `m` has been attached to `topic`.
pub open spec fn with_attached(
    muxes: Map<Seq<char>, TopicModel>,
    topic: Seq<char>,
    m: (Seq<char>, u64),
) -> Map<Seq<char>, TopicModel> {
    if muxes.contains_key(topic) {
        muxes.insert(
            topic,
            TopicModel {
                serial: muxes[topic].serial,
                members: with_member(muxes[topic].members, m),
            },
        )
    } else {
        muxes
    }
}

/// The topics hosted here once the member `m` has been detached from `topic`.
pub open spec fn with_detached(
    muxes: Map<Seq<char>, TopicModel>,
    topic: Seq<char>,
    m: (Seq<char>, u64),
) -> Map<Seq<char>, TopicModel> {
    if muxes.contains_key(topic) {
        muxes.insert(
            topic,
            TopicModel {
                serial: muxes[topic].serial,
                members: without_member(muxes[topic].members, m),
            },
        )
    } else {
        muxes
    }
}

/// The names of the entries of `list` that feed `topic`, tombstones among them.
pub open spec fn feeders(list: Seq<IdentityModel>, topic: Seq<char>) -> Seq<Seq<char>>
    decreases list.len(),
{
    if list.len() == 0 {
        Seq::empty()
    } else {
        let rest = feeders(list.drop_last(), topic);
        if list.last().member_of == Some(topic) {
            rest.push(list.last().name)
        } else {
            rest
        }
    }
}

/// A member under watch: its entry, and how long its owner may be out of reach.
pub struct Watched {
    pub id: ChannelIdentity,
    pub reap_after: Duration,
}

impl View for Watched {
    type V = (IdentityModel, nat);

    open spec fn view(&self) -> (IdentityModel, nat) {
        (self.id@, self.reap_after@)
    }
}

pub open spec fn watched_values(list: Seq<Watched>) -> Seq<(IdentityModel, nat)> {
    Seq::new(list.len(), |i: int| list[i]@)
}

/// Each of `members`, with the span `after`.
pub open spec fn each_within(
    members: Seq<IdentityModel>,
    after: nat,
) -> Seq<(IdentityModel, nat)> {
    Seq::new(members.len(), |i: int| (members[i], after))
}

/// The members under watch, topic by topic: those of the topics that retire members.
pub open spec fn watched(
    m: Directory,
    topics: Seq<(Seq<char>, nat)>,
) -> Seq<(IdentityModel, nat)>
    decreases topics.len(),
{
    if topics.len() == 0 {
        Seq::empty()
    } else {
        watched(m, topics.drop_last()) + each_within(
            crate::node::topics::live_members(m, topics.last().0),
            topics.last().1,
        )
    }
}

/// Where a reaping pass stands.
#[verifier::ext_equal]
pub struct ReapState {
    pub registry: Directory,
    pub dead_since: Map<(Seq<char>, u64), u64>,
    /// The tombstones produced, in order.
    pub tombstones: Seq<IdentityModel>,
}

/// What a reaping pass does with one member. A live owner stops its clock; an unreachable one starts
/// it, and once the clock has run for `after` the member is tombstoned.
pub open spec fn reap_one(
    s: ReapState,
    m: IdentityModel,
    after: nat,
    owner_live: bool,
    now: u64,
) -> ReapState {
    let key = (m.name, m.epoch);
    if owner_live {
        ReapState { dead_since: s.dead_since.remove(key), ..s }
    } else {
        let since = if s.dead_since.contains_key(key) {
            s.dead_since[key]
        } else {
            now
        };
        if crate::time::elapsed_nanos(since, now) < after {
            ReapState { dead_since: s.dead_since.insert(key, since), ..s }
        } else {
            match crate::registry::live_entry(s.registry, m.name) {
                Some(id) => {
                    let t = crate::registry::tombstone_of(id);
                    ReapState {
                        registry: s.registry.insert(m.name, t),
                        dead_since: s.dead_since.remove(key),
                        tombstones: s.tombstones.push(t),
                    }
                },
                None => ReapState { dead_since: s.dead_since.remove(key), ..s },
            }
        }
    }
}

impl Node {
    /// What a reaping pass over `members` does, from the state `s`.
    pub open spec fn reap_all(
        &self,
        s: ReapState,
        members: Seq<(IdentityModel, nat)>,
        now: u64,
    ) -> ReapState
        decreases members.len(),
    {
        if members.len() == 0 {
            s
        } else {
            let (m, after) = members.last();
            reap_one(
                self.reap_all(s, members.drop_last(), now),
                m,
                after,
                self.owner_live(m.owner, now),
                now,
            )
        }
    }

    // ---------------- creating ----------------
    /// Claims `name` for a new topic.
    pub fn create_topic(&mut self, name: &str, options: TopicOptions, now: u64, wall: u64) -> (r:
        Result<TopicPlan, NodeError>)
        ensures
            ({
                let claim = old(self).claim(
                    name@,
                    options.channel.region_size,
                    options.channel.mtu,
                    None,
                    wall,
                );
                if !crate::names::valid_name(name@) {
                    &&& r matches Err(e) && e@ == crate::names::bad_name()
                    &&& *final(self) == *old(self)
                } else {
                    &&& r is Ok <==> old(self).claim_succeeds(claim)
                    &&& r matches Ok(plan) ==> plan.origin@ == old(self).plan_value(
                        claim,
                        options.channel,
                    ) && plan.batch == if options.max_batch_per_member == 0 {
                        MAX_BATCH_PER_MEMBER as int
                    } else {
                        options.max_batch_per_member as int
                    }
                    &&& r matches Err(e) ==> e@ == name_taken(name@, old(self).holder(claim))
                    &&& Node::claimed(*old(self), *final(self), claim, now)
                }
            }),
            *final(self) == (Node {
                registry: final(self).registry,
                discovery: final(self).discovery,
                ..*old(self)
            }),
    {
        let batch: usize = if options.max_batch_per_member == 0 {
            MAX_BATCH_PER_MEMBER
        } else {
            options.max_batch_per_member as usize
        };
        match self.create_for_client(name, options.channel, now, wall) {
            Ok(origin) => Ok(TopicPlan { origin, batch }),
            Err(e) => Err(e),
        }
    }

    /// The merge of the topic `name` is open: this node owns it from now on. Returns whether the
    /// topic merges on a thread of its own.
    pub fn topic_opened(&mut self, name: &str, member_reap_after_ms: u64) -> (promoted: bool)
        requires
            old(self).next_mux < u64::MAX,
        ensures
            final(self).muxes@ == old(self).muxes@.insert(
                name@,
                TopicModel { serial: old(self).next_mux, members: Seq::empty() },
            ),
            final(self).next_mux == old(self).next_mux + 1,
            final(self).topic_reap@ == if member_reap_after_ms != 0 {
                old(self).topic_reap@.insert(
                    name@,
                    (member_reap_after_ms * crate::time::NANOS_PER_MILLI) as nat,
                )
            } else {
                old(self).topic_reap@
            },
            promoted == crate::config::listed(old(self).config.promoted_topics@, name@),
            *final(self) == (Node {
                muxes: final(self).muxes,
                next_mux: final(self).next_mux,
                topic_reap: final(self).topic_reap,
                ..*old(self)
            }),
    {
        let mux = TopicMux { serial: self.next_mux, members: Vec::new() };
        assert(mux@.members =~= Seq::<(Seq<char>, u64)>::empty());
        self.next_mux = self.next_mux + 1;
        self.muxes.insert(name.to_owned(), mux);
        if member_reap_after_ms != 0 {
            self.topic_reap.insert(name.to_owned(), Duration::from_millis(member_reap_after_ms));
        }
        is_listed(&self.config.promoted_topics, name)
    }

    /// Whether the merge of `topic` is still the one numbered `serial`. A topic retired and created
    /// again has another.
    pub fn still_merging(&self, topic: &str, serial: u64) -> (b: bool)
        ensures
            b == (self.muxes@.contains_key(topic@) && self.muxes@[topic@].serial == serial),
    {
        match self.muxes.get(topic) {
            Some(mux) => mux.serial == serial,
            None => false,
        }
    }

    // ---------------- members ----------------
    /// Claims `member` for a new channel that feeds `topic`, which any node may own.
    pub fn publish_to_topic(
        &mut self,
        topic: &str,
        member: &str,
        options: ChannelOptions,
        now: u64,
        wall: u64,
    ) -> (r: Result<OriginPlan, NodeError>)
        ensures
            ({
                let claim = old(self).claim(
                    member@,
                    options.region_size,
                    options.mtu,
                    Some(topic@),
                    wall,
                );
                if !crate::names::valid_name(member@) {
                    &&& r matches Err(e) && e@ == crate::names::bad_name()
                    &&& *final(self) == *old(self)
                } else {
                    &&& r is Ok <==> old(self).claim_succeeds(claim)
                    &&& r matches Ok(plan) ==> plan@ == old(self).plan_value(claim, options)
                    &&& r matches Err(e) ==> e@ == name_taken(member@, old(self).holder(claim))
                    &&& Node::claimed(*old(self), *final(self), claim, now)
                }
            }),
            *final(self) == (Node {
                registry: final(self).registry,
                discovery: final(self).discovery,
                ..*old(self)
            }),
    {
        self.create_origin(member, options, Some(topic.to_owned()), now, wall)
    }

    /// The incarnation in which a member just created is to be attached at once, which it is if this
    /// node owns the topic.
    pub fn attach_epoch(&self, topic: &str, member: &str) -> (r: Option<u64>)
        ensures
            r == if !self.muxes@.contains_key(topic@) {
                None
            } else if self.registry@.contains_key(member@) {
                Some(self.registry@[member@].epoch)
            } else {
                Some(0)
            },
    {
        if !self.muxes.contains(topic) {
            return None;
        }
        match self.registry.get_raw(member) {
            Some(id) => Some(id.epoch),
            None => Some(0),
        }
    }

    /// The member `name`, in its incarnation `epoch`, has been attached to the merge of `topic`.
    pub fn member_attached(&mut self, topic: &str, name: &str, epoch: u64)
        ensures
            final(self).muxes@ == with_attached(old(self).muxes@, topic@, (name@, epoch)),
            *final(self) == (Node { muxes: final(self).muxes, ..*old(self) }),
    {
        match self.muxes.remove(topic) {
            Some(mux) => {
                let mut mux = mux;
                let ghost before = mux@.members;
                if !has_member(&mux, name, epoch) {
                    mux.members.push(Incarnation { name: name.to_owned(), epoch });
                    assert(mux@.members =~= before.push((name@, epoch)));
                }
                self.muxes.insert(topic.to_owned(), mux);
                assert(self.muxes@ =~= old(self).muxes@.insert(topic@, mux@));
            },
            None => {
                assert(self.muxes@ =~= old(self).muxes@);
            },
        }
    }

    /// The member `name`, in its incarnation `epoch`, has been drained and detached from the merge
    /// of `topic`.
    pub fn member_detached(&mut self, topic: &str, name: &str, epoch: u64)
        ensures
            final(self).muxes@ == with_detached(old(self).muxes@, topic@, (name@, epoch)),
            *final(self) == (Node { muxes: final(self).muxes, ..*old(self) }),
    {
        match self.muxes.remove(topic) {
            Some(mux) => {
                let ghost all = mux@.members;
                let serial = mux.serial;
                let mut kept: Vec<Incarnation> = Vec::new();
                assert(all.take(0) =~= Seq::<(Seq<char>, u64)>::empty());
                assert(crate::node::incarnations(kept@) =~= without_member(
                    all.take(0),
                    (name@, epoch),
                ));
                let members = mux.members;
                for m in it: members
                    invariant
                        it.seq() == members@,
                        all == crate::node::incarnations(members@),
                        crate::node::incarnations(kept@) == without_member(
                            all.take(it.index()),
                            (name@, epoch),
                        ),
                {
                    let ghost i = it.index();
                    proof {
                        assert(m == members@[i]);
                        assert(all.take(i + 1).drop_last() =~= all.take(i));
                        assert(all.take(i + 1).last() == m@);
                    }
                    if !(m.epoch == epoch && crate::text::same(m.name.as_str(), name)) {
                        let ghost before = crate::node::incarnations(kept@);
                        kept.push(m);
                        assert(crate::node::incarnations(kept@) =~= before.push(m@));
                    }
                }
                assert(all.take(all.len() as int) =~= all);
                let ghost value = TopicModel {
                    serial,
                    members: without_member(all, (name@, epoch)),
                };
                self.muxes.insert(topic.to_owned(), TopicMux { serial, members: kept });
                assert(self.muxes@ =~= old(self).muxes@.insert(topic@, value));
            },
            None => {
                assert(self.muxes@ =~= old(self).muxes@);
            },
        }
    }

    /// How many members are attached to a topic hosted here.
    pub fn topic_member_count(&self, topic: &str) -> (r: Option<usize>)
        ensures
            match r {
                Some(n) => self.muxes@.contains_key(topic@) && n
                    == self.muxes@[topic@].members.len(),
                None => !self.muxes@.contains_key(topic@),
            },
    {
        match self.muxes.get(topic) {
            Some(mux) => Some(mux.members.len()),
            None => None,
        }
    }

    // ---------------- ending ----------------
    /// Takes a topic out of the merge loop. Returns whether this node owned it; its merge is then to
    /// be drained and closed, and [`topic_finished`](Self::topic_finished) called.
    pub fn retire_topic(&mut self, topic: &str) -> (found: bool)
        ensures
            found == old(self).muxes@.contains_key(topic@),
            final(self).muxes@ == old(self).muxes@.remove(topic@),
            *final(self) == (Node { muxes: final(self).muxes, ..*old(self) }),
    {
        match self.muxes.remove(topic) {
            Some(_) => true,
            None => false,
        }
    }

    fn feeder_names(&self, topic: &str) -> (names: Vec<String>)
        ensures
            crate::registry::enumerates(
                crate::registry::listing(self.registry@),
                self.registry@,
            ),
            crate::node::topics::texts(names@) == feeders(
                crate::registry::listing(self.registry@),
                topic@,
            ),
    {
        let n = self.registry.len();
        let ghost list = crate::registry::listing(self.registry@);
        let mut names: Vec<String> = Vec::new();
        let mut i: usize = 0;
        assert(list.take(0) =~= Seq::<IdentityModel>::empty());
        assert(crate::node::topics::texts(names@) =~= feeders(list.take(0), topic@));
        while i < n
            invariant
                i <= n == list.len(),
                list == crate::registry::listing(self.registry@),
                crate::node::topics::texts(names@) == feeders(list.take(i as int), topic@),
            decreases n - i,
        {
            let id = self.registry.at(i);
            proof {
                assert(list.take(i + 1).drop_last() =~= list.take(i as int));
                assert(list.take(i + 1).last() == id@);
            }
            if feeds(id, topic) {
                let ghost before = crate::node::topics::texts(names@);
                names.push(id.name.clone());
                assert(crate::node::topics::texts(names@) =~= before.push(id@.name));
            }
            i = i + 1;
        }
        assert(list.take(n as int) =~= list);
        names
    }

    /// The merge of a topic taken out of the loop is closed: stop replicating its members, and
    /// tombstone its channel. Members keep their own channels. Returns the directory to delete.
    pub fn topic_finished(&mut self, topic: &str) -> (remove_dir: Option<String>)
        ensures
            Node::in_step(*old(self), *final(self)),
            final(self).topic_reap@ == old(self).topic_reap@.remove(topic@),
            crate::registry::enumerates(
                crate::registry::listing(old(self).registry@),
                old(self).registry@,
            ),
            (final(self).subscriptions@, final(self).conducted@) == without_all(
                old(self).subscriptions@,
                old(self).conducted@,
                feeders(crate::registry::listing(old(self).registry@), topic@),
            ),
            final(self).conducted.ids() == old(self).conducted.ids(),
            final(self).conducted.next_id() == old(self).conducted.next_id(),
            forall|k: Seq<char>| #[trigger]
                old(self).registry@.contains_key(k) && old(self).registry@[k].member_of == Some(
                    topic@,
                ) ==> !final(self).subscriptions@.contains_key(k),
            match old(self).owned_entry(topic@) {
                Some(id) => {
                    let t = crate::registry::tombstone_of(id);
                    &&& final(self).registry@ == old(self).registry@.insert(topic@, t)
                    &&& final(self).hosted@ == old(self).hosted@.remove(topic@)
                    &&& disseminated(*old(self), *final(self), t)
                },
                None => {
                    &&& final(self).registry == old(self).registry
                    &&& final(self).hosted == old(self).hosted
                    &&& final(self).discovery == old(self).discovery
                    &&& final(self).dissemination == old(self).dissemination
                },
            },
            crate::identity::opt_text(remove_dir) == if crate::names::valid_name(topic@) {
                Some(crate::names::channel_dir_of(old(self).config.data_dir@, topic@))
            } else {
                None
            },
            *final(self) == (Node {
                topic_reap: final(self).topic_reap,
                subscriptions: final(self).subscriptions,
                conducted: final(self).conducted,
                registry: final(self).registry,
                hosted: final(self).hosted,
                discovery: final(self).discovery,
                dissemination: final(self).dissemination,
                ..*old(self)
            }),
    {
        let _ = self.topic_reap.remove(topic);
        let names = self.feeder_names(topic);
        let ghost gone = crate::node::topics::texts(names@);
        let mut i: usize = 0;
        assert(gone.take(0) =~= Seq::<Seq<char>>::empty());
        while i < names.len()
            invariant
                i <= names@.len(),
                gone == crate::node::topics::texts(names@),
                (self.subscriptions@, self.conducted@) == without_all(
                    old(self).subscriptions@,
                    old(self).conducted@,
                    gone.take(i as int),
                ),
                self.conducted.ids() == old(self).conducted.ids(),
                self.conducted.next_id() == old(self).conducted.next_id(),
                self.topic_reap@ == old(self).topic_reap@.remove(topic@),
                *self == (Node {
                    topic_reap: self.topic_reap,
                    subscriptions: self.subscriptions,
                    conducted: self.conducted,
                    ..*old(self)
                }),
            decreases names@.len() - i,
        {
            proof {
                assert(gone.take(i + 1).drop_last() =~= gone.take(i as int));
                assert(gone.take(i + 1).last() == names@[i as int]@);
            }
            let _ = self.unsubscribe(names[i].as_str());
            i = i + 1;
        }
        assert(gone.take(i as int) =~= gone);
        let owner = self.config.node_id;
        match self.registry.deregister(topic, owner) {
            Some(tombstone) => {
                let _ = self.hosted.remove(topic);
                self.disseminate_tombstone(tombstone);
            },
            None => {},
        }
        proof {
            crate::node::subscribing::lemma_without_all_in_step(*old(self), *self, gone);
            assert forall|k: Seq<char>| #[trigger]
                old(self).registry@.contains_key(k) && old(self).registry@[k].member_of == Some(
                    topic@,
                ) implies !self.subscriptions@.contains_key(k) by {
                crate::promises::topics::law_an_ended_topic_is_not_replicated(
                    *old(self),
                    *self,
                    topic@,
                    k,
                );
            }
        }
        match channel_dir(self.config.data_dir.as_str(), topic) {
            Ok(dir) => Some(dir),
            Err(_) => None,
        }
    }

    // ---------------- reaping ----------------
    fn members_watched(&self) -> (list: Vec<Watched>)
        ensures
            watched_values(list@) == watched(
                self.registry@,
                crate::name_map::listing(self.topic_reap@),
            ),
    {
        let ghost topics = crate::name_map::listing(self.topic_reap@);
        let n = self.topic_reap.len();
        let mut list: Vec<Watched> = Vec::new();
        let mut t: usize = 0;
        assert(topics.take(0) =~= Seq::<(Seq<char>, nat)>::empty());
        assert(watched_values(list@) =~= watched(self.registry@, topics.take(0)));
        while t < n
            invariant
                t <= n == topics.len(),
                topics == crate::name_map::listing(self.topic_reap@),
                watched_values(list@) == watched(self.registry@, topics.take(t as int)),
            decreases n - t,
        {
            let topic = self.topic_reap.name_at(t);
            let reap_after = *self.topic_reap.value_at(t);
            let members = self.members_of_topic(topic.as_str());
            let ghost values = crate::identity::models(members@);
            let ghost base = watched_values(list@);
            assert(base =~= base + each_within(values.take(0), reap_after@));
            for id in it: members
                invariant
                    it.seq() == members@,
                    values == crate::identity::models(members@),
                    watched_values(list@) == base + each_within(
                        values.take(it.index()),
                        reap_after@,
                    ),
            {
                let ghost i = it.index();
                let ghost before = watched_values(list@);
                assert(id == members@[i]);
                list.push(Watched { id, reap_after });
                proof {
                    assert(watched_values(list@) =~= before.push((values[i], reap_after@)));
                    assert(watched_values(list@) =~= base + each_within(
                        values.take(i + 1),
                        reap_after@,
                    ));
                }
            }
            proof {
                assert(values.take(values.len() as int) =~= values);
                assert(topics.take(t + 1).drop_last() =~= topics.take(t as int));
                assert(topics.take(t + 1).last() == topics[t as int]);
            }
            t = t + 1;
        }
        assert(topics.take(n as int) =~= topics);
        list
    }

    /// What retiring the members of unreachable owners does.
    pub open spec fn reaped(before: Node, after: Node, now: u64) -> bool {
        &&& before.listable()
        &&& ({
            let s = before.reap_all(
                ReapState {
                    registry: before.registry@,
                    dead_since: before.member_dead_since@,
                    tombstones: Seq::empty(),
                },
                watched(before.registry@, crate::name_map::listing(before.topic_reap@)),
                now,
            );
            &&& after.registry@ == s.registry
            &&& after.member_dead_since@ == s.dead_since
            &&& all_disseminated(before, after, s.tombstones)
        })
        &&& after == (Node {
            registry: after.registry,
            member_dead_since: after.member_dead_since,
            discovery: after.discovery,
            dissemination: after.dissemination,
            ..before
        })
    }

    /// Retires the members whose owners have been out of reach for too long, in the topics that
    /// asked for it: they are tombstoned, so that a respawn can claim the name anew.
    pub fn reap_dead_members(&mut self, now: u64)
        ensures
            Node::reaped(*old(self), *final(self), now),
    {
        let members = self.members_watched();
        let _ = (self.registry.len(), self.muxes.len(), self.topic_reap.len());
        let ghost values = watched_values(members@);
        let ghost start = ReapState {
            registry: self.registry@,
            dead_since: self.member_dead_since@,
            tombstones: Seq::<IdentityModel>::empty(),
        };
        assert(values.take(0) =~= Seq::<(IdentityModel, nat)>::empty());
        assert(all_disseminated(*old(self), *self, start.tombstones));
        let mut i: usize = 0;
        while i < members.len()
            invariant
                i <= members@.len(),
                values == watched_values(members@),
                ({
                    let s = old(self).reap_all(start, values.take(i as int), now);
                    &&& self.registry@ == s.registry
                    &&& self.member_dead_since@ == s.dead_since
                    &&& all_disseminated(*old(self), *self, s.tombstones)
                }),
                *self == (Node {
                    registry: self.registry,
                    member_dead_since: self.member_dead_since,
                    discovery: self.discovery,
                    dissemination: self.dissemination,
                    ..*old(self)
                }),
            decreases members@.len() - i,
        {
            let id = &members[i].id;
            let reap_after = members[i].reap_after;
            let ghost s = old(self).reap_all(start, values.take(i as int), now);
            let ghost before = *self;
            proof {
                assert(values.take(i + 1).drop_last() =~= values.take(i as int));
                assert(values.take(i + 1).last() == members@[i as int]@);
            }
            let key = Incarnation { name: id.name.clone(), epoch: id.epoch };
            assert(self.owner_live(id@.owner, now) == old(self).owner_live(id@.owner, now));
            if self.is_owner_live(id.owner, now) {
                self.member_dead_since.remove(&key);
            } else {
                let since = match self.member_dead_since.get(&key) {
                    Some(t) => *t,
                    None => now,
                };
                if elapsed(since, now).shorter_than(reap_after) {
                    self.member_dead_since.insert(key, since);
                } else {
                    self.member_dead_since.remove(&key);
                    match self.registry.reap(id.name.as_str()) {
                        Some(tombstone) => {
                            self.disseminate_tombstone(tombstone);
                            proof {
                                lemma_disseminated_next(
                                    *old(self),
                                    before,
                                    *self,
                                    s.tombstones,
                                    tombstone@,
                                );
                            }
                        },
                        None => {},
                    }
                }
            }
            i = i + 1;
        }
        assert(values.take(i as int) =~= values);
    }
}

/// What announcing `ids`, one by one, to the peers that `d` has sends.
pub open spec fn announcements(
    d: crate::broadcast::BroadcastDissemination,
    ids: Seq<IdentityModel>,
) -> Seq<(Seq<crate::wire::PeerId>, ControlModel)> {
    Seq::new(
        ids.len(),
        |i: int|
            (
                crate::broadcast::recipients(d.peers@, NO_PEER),
                ControlModel::RegistryDelta(seq![ids[i]]),
            ),
    )
}

/// What disseminating `tombstones` does, one after the other: each goes into the discovery log, and
/// to every peer.
pub open spec fn all_disseminated(
    before: Node,
    after: Node,
    tombstones: Seq<IdentityModel>,
) -> bool {
    &&& crate::wire::changes(after.discovery@) == crate::wire::changes(before.discovery@)
        + Seq::new(
        tombstones.len(),
        |i: int| crate::node::registration::removal(tombstones[i]),
    )
    &&& crate::broadcast::dispatches(after.dissemination.outbox@) == crate::broadcast::dispatches(
        before.dissemination.outbox@,
    ) + announcements(before.dissemination, tombstones)
    &&& after.dissemination == (crate::broadcast::BroadcastDissemination {
        outbox: after.dissemination.outbox,
        ..before.dissemination
    })
}

proof fn lemma_disseminated_next(
    a: Node,
    b: Node,
    c: Node,
    tombstones: Seq<IdentityModel>,
    t: IdentityModel,
)
    requires
        all_disseminated(a, b, tombstones),
        disseminated(b, c, t),
    ensures
        all_disseminated(a, c, tombstones.push(t)),
{
    let all = tombstones.push(t);
    let removals = Seq::new(
        all.len(),
        |i: int| crate::node::registration::removal(all[i]),
    );
    assert(crate::wire::changes(c.discovery@) =~= crate::wire::changes(a.discovery@) + removals);
    assert(crate::broadcast::dispatches(c.dissemination.outbox@) =~= crate::broadcast::dispatches(
        a.dissemination.outbox@,
    ) + announcements(a.dissemination, all));
}

} // verus!
