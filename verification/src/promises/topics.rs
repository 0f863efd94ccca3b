//! Topics: who feeds one, who joins and leaves, who is retired, and what is left when it ends.
use vstd::prelude::*;

use crate::identity::IdentityModel;
use crate::node::passes::{
    lemma_all_leaving, lemma_all_pending, lemma_all_wanted, lemma_live_members, lemma_place,
    pending_at,
};
use crate::node::topic_health::{merged_records, unpromoted, MemberState, MergedMember};
use crate::node::topic_life::{feeders, with_attached, with_detached, without_member};
use crate::node::topics::{
    departures, live_members, members_of, names_of, steps, texts, without_all, AttachPlan,
};
use crate::node::{Node, TopicModel};
use crate::promises::discovery::can_reach;
use crate::promises::sequences::{lemma_filter_map_last, lemma_filter_map_none};
use crate::registry::Directory;
use crate::subscription::{Conducted, SubId, Subscription};

verus! {

// ---------------- who feeds a topic ----------------
pub open spec fn feeds_it(topic: Seq<char>) -> spec_fn(IdentityModel) -> bool {
    |id: IdentityModel| id.member_of == Some(topic)
}

pub open spec fn feeds_it_live(topic: Seq<char>) -> spec_fn(IdentityModel) -> bool {
    |id: IdentityModel| !id.deleted && id.member_of == Some(topic)
}

pub open spec fn entry_name() -> spec_fn(IdentityModel) -> Seq<char> {
    |id: IdentityModel| id.name
}

/// Everything registered as a member of a topic feeds it, live or tombstoned, and nothing else does.
pub proof fn law_feeders_are_all_members(list: Seq<IdentityModel>, topic: Seq<char>)
    ensures
        feeders(list, topic) == list.filter(feeds_it(topic)).map_values(entry_name()),
        members_of(list, topic) == list.filter(feeds_it_live(topic)),
    decreases list.len(),
{
    let (p, g) = (feeds_it(topic), entry_name());
    reveal(Seq::filter);
    if list.len() > 0 {
        law_feeders_are_all_members(list.drop_last(), topic);
        lemma_filter_map_last(list, p, g);
    } else {
        lemma_filter_map_none(list, p, g);
    }
}

proof fn lemma_feeders(list: Seq<IdentityModel>, topic: Seq<char>, k: Seq<char>)
    ensures
        feeders(list, topic).contains(k) <==> exists|i: int|
            0 <= i < list.len() && (#[trigger] list[i]).name == k && list[i].member_of == Some(topic),
    decreases list.len(),
{
    if list.len() > 0 {
        let front = list.drop_last();
        lemma_feeders(front, topic, k);
        crate::broadcast::lemma_push_contains(feeders(front, topic), list.last().name);
        assert(list[list.len() - 1] == list.last());
        assert(forall|i: int| 0 <= i < front.len() ==> front[i] == list[i]);
        if exists|i: int|
            0 <= i < front.len() && (#[trigger] front[i]).name == k && front[i].member_of == Some(
                topic,
            ) {
            let i = choose|i: int|
                0 <= i < front.len() && (#[trigger] front[i]).name == k && front[i].member_of
                    == Some(topic);
            assert(list[i].name == k && list[i].member_of == Some(topic));
        }
    }
}

// ---------------- ending subscriptions ----------------
/// Ending the subscriptions for some names forgets those kept for them and stops them, and leaves every
/// other one as it was.
pub proof fn law_only_the_named_subscriptions_end(
    subscriptions: Map<Seq<char>, SubId>,
    conducted: Map<SubId, Conducted>,
    gone: Seq<Seq<char>>,
)
    ensures
        ({
            let (s, c) = without_all(subscriptions, conducted, gone);
            &&& forall|k: Seq<char>| #[trigger]
                s.contains_key(k) <==> subscriptions.contains_key(k) && !gone.contains(k)
            &&& forall|k: Seq<char>| #[trigger] s.contains_key(k) ==> s[k] == subscriptions[k]
            &&& forall|id: SubId| #[trigger] c.contains_key(id) <==> conducted.contains_key(id)
            &&& forall|k: Seq<char>| #[trigger]
                gone.contains(k) && subscriptions.contains_key(k) && conducted.contains_key(
                    subscriptions[k],
                ) ==> c[subscriptions[k]].sub.stopped
            &&& forall|id: SubId| #[trigger]
                c.contains_key(id) ==> c[id] == conducted[id] || exists|k: Seq<char>|
                    {
                        &&& #[trigger] gone.contains(k)
                        &&& subscriptions.contains_key(k)
                        &&& subscriptions[k] == id
                        &&& c[id].name == conducted[id].name
                        &&& c[id].sub == (Subscription { stopped: true, ..conducted[id].sub })
                    }
        }),
    decreases gone.len(),
{
    if gone.len() > 0 {
        let front = gone.drop_last();
        let name = gone.last();
        law_only_the_named_subscriptions_end(subscriptions, conducted, front);
        let (s0, c0) = without_all(subscriptions, conducted, front);
        let (s, c) = without_all(subscriptions, conducted, gone);
        crate::broadcast::lemma_push_contains(front, name);
        assert(gone =~= front.push(name));
        assert(gone.contains(name));
        assert forall|k: Seq<char>| #[trigger]
            s.contains_key(k) <==> subscriptions.contains_key(k) && !gone.contains(k) by {
            assert(s0.contains_key(k) <==> subscriptions.contains_key(k) && !front.contains(k));
            assert(front.push(name).contains(k) <==> front.contains(k) || k == name);
        }
        assert forall|k: Seq<char>| #[trigger] s.contains_key(k) implies s[k] == subscriptions[k] by {
            assert(s0.contains_key(k));
        }
        assert forall|id: SubId| #[trigger] c.contains_key(id) <==> conducted.contains_key(id) by {
            assert(c0.contains_key(id) <==> conducted.contains_key(id));
        }
        assert forall|k: Seq<char>| #[trigger]
            gone.contains(k) && subscriptions.contains_key(k) && conducted.contains_key(
                subscriptions[k],
            ) implies c[subscriptions[k]].sub.stopped by {
            let id = subscriptions[k];
            assert(c0.contains_key(id));
            if front.contains(k) {
                assert(c0[id].sub.stopped);
            } else {
                assert(k == name);
                assert(s0.contains_key(k));
            }
        }
        assert forall|id: SubId| #[trigger] c.contains_key(id) implies c[id] == conducted[id]
            || exists|k: Seq<char>|
            {
                &&& #[trigger] gone.contains(k)
                &&& subscriptions.contains_key(k)
                &&& subscriptions[k] == id
                &&& c[id].name == conducted[id].name
                &&& c[id].sub == (Subscription { stopped: true, ..conducted[id].sub })
            } by {
            assert(c0.contains_key(id));
            let now_it = s0.contains_key(name) && s0[name] == id;
            if c0[id] == conducted[id] {
                if now_it {
                    assert(gone.contains(name));
                    assert(subscriptions[name] == id);
                }
            } else {
                let k = choose|k: Seq<char>|
                    {
                        &&& #[trigger] front.contains(k)
                        &&& subscriptions.contains_key(k)
                        &&& subscriptions[k] == id
                        &&& c0[id].name == conducted[id].name
                        &&& c0[id].sub == (Subscription { stopped: true, ..conducted[id].sub })
                    };
                assert(gone.contains(k));
                assert(c[id].sub == c0[id].sub);
            }
        }
    } else {
        let (s, c) = without_all(subscriptions, conducted, gone);
        assert(s == subscriptions && c == conducted);
        assert forall|k: Seq<char>| #[trigger] s.contains_key(k) implies !gone.contains(k) by {}
    }
}

/// When a topic ends, this node stops replicating whatever feeds it: no subscription is kept for any
/// name that the registry has as a member of the topic, live or tombstoned, and the one that was kept
/// is stopped. Subscriptions for other names stay as they were.
pub proof fn law_an_ended_topic_is_not_replicated(
    before: Node,
    after: Node,
    topic: Seq<char>,
    k: Seq<char>,
)
    requires
        crate::registry::enumerates(crate::registry::listing(before.registry@), before.registry@),
        (after.subscriptions@, after.conducted@) == without_all(
            before.subscriptions@,
            before.conducted@,
            feeders(crate::registry::listing(before.registry@), topic),
        ),
    ensures
        ({
            let feeds = before.registry@.contains_key(k) && before.registry@[k].member_of == Some(
                topic,
            );
            &&& feeds ==> !after.subscriptions@.contains_key(k)
            &&& feeds && before.subscriptions@.contains_key(k) && before.conducted@.contains_key(
                before.subscriptions@[k],
            ) ==> after.conducted@.contains_key(before.subscriptions@[k])
                && after.conducted@[before.subscriptions@[k]].sub.stopped
            &&& !feeds ==> after.subscriptions@.contains_key(k)
                == before.subscriptions@.contains_key(k)
            &&& !feeds && before.subscriptions@.contains_key(k) ==> after.subscriptions@[k]
                == before.subscriptions@[k]
            &&& !feeds && before.kept_are_conducted() && before.subscriptions@.contains_key(k)
                ==> after.conducted@[before.subscriptions@[k]]
                == before.conducted@[before.subscriptions@[k]]
        }),
{
    let m = before.registry@;
    let list = crate::registry::listing(m);
    let gone = feeders(list, topic);
    let pairs = Seq::new(list.len(), |i: int| (list[i].name, list[i]));
    lemma_feeders(list, topic, k);
    law_only_the_named_subscriptions_end(before.subscriptions@, before.conducted@, gone);
    let (s, c) = without_all(before.subscriptions@, before.conducted@, gone);
    assert(s == after.subscriptions@ && c == after.conducted@);
    let feeds = m.contains_key(k) && m[k].member_of == Some(topic);
    if feeds {
        let i = choose|i: int| 0 <= i < pairs.len() && #[trigger] pairs[i].0 == k;
        assert(list[i] == m[k] && list[i].name == k);
        assert(gone.contains(k));
    }
    if gone.contains(k) {
        let i = choose|i: int|
            0 <= i < list.len() && (#[trigger] list[i]).name == k && list[i].member_of == Some(topic);
        assert(m.contains_key(pairs[i].0) && m[pairs[i].0] == pairs[i].1);
        assert(feeds);
    }
    if !feeds && before.kept_are_conducted() && before.subscriptions@.contains_key(k) {
        let id = before.subscriptions@[k];
        assert(before.conducted@.contains_key(id) && before.conducted@[id].name@ == k);
        assert(c.contains_key(id));
        if c[id] != before.conducted@[id] {
            let other = choose|o: Seq<char>|
                {
                    &&& #[trigger] gone.contains(o)
                    &&& before.subscriptions@.contains_key(o)
                    &&& before.subscriptions@[o] == id
                    &&& c[id].name == before.conducted@[id].name
                    &&& c[id].sub == (Subscription { stopped: true, ..before.conducted@[id].sub })
                };
            assert(before.conducted@[before.subscriptions@[other]].name@ == other);
        }
    }
}

// ---------------- joining and leaving ----------------
/// Whoever is detached was attached to a topic hosted here, and the registry says that it is
/// tombstoned or feeds another topic or none; and whoever is so is detached.
pub proof fn law_who_is_detached(
    before: Node,
    after: Node,
    now: u64,
    plan: AttachPlan,
    topic: Seq<char>,
    name: Seq<char>,
    epoch: u64,
)
    requires
        Node::attach_planned(before, after, now, plan),
    ensures
        (exists|i: int|
            {
                &&& 0 <= i < plan.detach@.len()
                &&& (#[trigger] plan.detach@[i]).topic@ == topic
                &&& plan.detach@[i].name@ == name
                &&& plan.detach@[i].epoch == epoch
            }) <==> {
            &&& before.muxes@.contains_key(topic)
            &&& before.muxes@[topic].members.contains((name, epoch))
            &&& before.registry@.contains_key(name)
            &&& before.registry@[name].deleted || before.registry@[name].member_of != Some(topic)
        },
{
    let topics = crate::name_map::listing(before.muxes@);
    let x = (topic, name, epoch);
    let gone = departures(plan.detach@);
    lemma_all_leaving(before.registry@, topics, x);
    if gone.contains(x) {
        let i = choose|i: int| 0 <= i < gone.len() && gone[i] == x;
        assert(plan.detach@[i]@ == x);
        let t = choose|t: int|
            0 <= t < topics.len() && (#[trigger] topics[t]).0 == x.0
                && topics[t].1.members.contains((x.1, x.2)) && crate::node::topics::has_left(
                before.registry@,
                x.0,
                x.1,
            );
        assert(before.muxes@.contains_key(topics[t].0));
        assert(plan.detach@[i].topic@ == topic);
    }
    if exists|i: int|
        {
            &&& 0 <= i < plan.detach@.len()
            &&& (#[trigger] plan.detach@[i]).topic@ == topic
            &&& plan.detach@[i].name@ == name
            &&& plan.detach@[i].epoch == epoch
        } {
        let i = choose|i: int|
            {
                &&& 0 <= i < plan.detach@.len()
                &&& (#[trigger] plan.detach@[i]).topic@ == topic
                &&& plan.detach@[i].name@ == name
                &&& plan.detach@[i].epoch == epoch
            };
        assert(gone[i] == x);
        assert(gone.contains(x));
    }
    if before.muxes@.contains_key(topic) {
        let t = lemma_place(before, topic);
        assert(topics[t].0 == topic);
    }
}

/// Whether the registry has `name` as a live member, of another node, of a topic that `node` hosts.
pub open spec fn feeds_from_afar(node: Node, name: Seq<char>) -> bool {
    let id = node.registry@[name];
    &&& node.registry@.contains_key(name)
    &&& !id.deleted
    &&& id.member_of is Some
    &&& node.muxes@.contains_key(id.member_of->0)
    &&& id.owner != node.config.node_id
}

/// Whom a pass subscribes to: every live member of another node that feeds a topic hosted here, whose
/// owner can be reached, and for which no active subscription is kept; and nobody else.
pub proof fn law_who_is_subscribed_to(
    before: Node,
    after: Node,
    now: u64,
    plan: AttachPlan,
    name: Seq<char>,
)
    requires
        Node::attach_planned(before, after, now, plan),
        crate::names::valid_name(name),
    ensures
        (exists|i: int|
            0 <= i < plan.subscribe@.len() && (#[trigger] plan.subscribe@[i])@ == name) <==> {
            &&& feeds_from_afar(before, name)
            &&& can_reach(before, before.registry@[name].owner, now)
            &&& !(after.subscriptions@.contains_key(name) && after.conducted@.contains_key(
                after.subscriptions@[name],
            ) && !after.conducted@[after.subscriptions@[name]].sub.stopped)
        },
{
    let topics = crate::name_map::listing(before.muxes@);
    let wanted = texts(plan.subscribe@);
    let id = before.registry@[name];
    if exists|i: int| 0 <= i < plan.subscribe@.len() && (#[trigger] plan.subscribe@[i])@ == name {
        let i = choose|i: int|
            0 <= i < plan.subscribe@.len() && (#[trigger] plan.subscribe@[i])@ == name;
        assert(wanted[i] == name);
        assert(wanted.contains(name));
        lemma_all_wanted(after, topics, name, now);
        let (t, m) = choose|t: int, m: IdentityModel|
            0 <= t < topics.len() && #[trigger] live_members(
                after.registry@,
                topics[t].0,
            ).contains(m) && m.name == name && after.wants(m, now);
        lemma_live_members(before.registry@, topics[t].0);
        assert(before.muxes@.contains_key(topics[t].0));
    }
    if feeds_from_afar(before, name) && can_reach(before, id.owner, now) && !(
    after.subscriptions@.contains_key(name) && after.conducted@.contains_key(
        after.subscriptions@[name],
    ) && !after.conducted@[after.subscriptions@[name]].sub.stopped) {
        let topic = id.member_of->0;
        let t = lemma_place(before, topic);
        lemma_live_members(before.registry@, topic);
        lemma_named(before.registry@, name);
        assert(live_members(after.registry@, topics[t].0).contains(id));
        assert(after.wants(id, now));
        crate::node::laws::law_no_live_member_is_starved(after, topics, t, id, now);
        let i = choose|i: int| 0 <= i < wanted.len() && wanted[i] == name;
        assert(plan.subscribe@[i]@ == name);
    }
}

/// An entry stands under its own name.
proof fn lemma_named(m: Directory, name: Seq<char>)
    requires
        crate::registry::enumerates(crate::registry::listing(m), m),
        m.contains_key(name),
    ensures
        m[name].name == name,
{
    let list = crate::registry::listing(m);
    let pairs = Seq::new(list.len(), |i: int| (list[i].name, list[i]));
    let i = choose|i: int| 0 <= i < pairs.len() && #[trigger] pairs[i].0 == name;
    assert(m[pairs[i].0] == pairs[i].1);
}

/// Whom a pass attaches: every live member of a topic hosted here that is not attached in its present
/// generation; one of this node from its origin, one of another from its replica; and nobody else.
pub proof fn law_who_is_attached(
    before: Node,
    after: Node,
    now: u64,
    plan: AttachPlan,
    topic: Seq<char>,
    name: Seq<char>,
)
    requires
        Node::attach_planned(before, after, now, plan),
        crate::names::valid_name(name),
    ensures
        (exists|i: int|
            {
                &&& 0 <= i < plan.attach@.len()
                &&& (#[trigger] plan.attach@[i]).topic@ == topic
                &&& plan.attach@[i].name@ == name
            }) <==> {
            let id = before.registry@[name];
            &&& before.muxes@.contains_key(topic)
            &&& before.registry@.contains_key(name)
            &&& !id.deleted
            &&& id.member_of == Some(topic)
            &&& !before.muxes@[topic].members.contains((name, id.epoch))
        },
        forall|i: int|
            {
                &&& 0 <= i < plan.attach@.len()
                &&& (#[trigger] plan.attach@[i]).topic@ == topic
                &&& plan.attach@[i].name@ == name
            } ==> {
                let id = before.registry@[name];
                let s = plan.attach@[i];
                &&& s.epoch == id.epoch
                &&& s.replica == (id.owner != before.config.node_id)
                &&& s.replica ==> s.path@ == crate::names::replica_path_of(
                    before.config.data_dir@,
                    name,
                )
                &&& !s.replica ==> s.path@ == crate::names::channel_path_of(
                    before.config.data_dir@,
                    name,
                )
            },
{
    let topics = crate::name_map::listing(before.muxes@);
    let all = steps(plan.attach@);
    assert forall|i: int|
        {
            &&& 0 <= i < plan.attach@.len()
            &&& (#[trigger] plan.attach@[i]).topic@ == topic
            &&& plan.attach@[i].name@ == name
        } implies {
        let id = before.registry@[name];
        let s = plan.attach@[i];
        &&& before.muxes@.contains_key(topic)
        &&& before.registry@.contains_key(name)
        &&& !id.deleted
        &&& id.member_of == Some(topic)
        &&& !before.muxes@[topic].members.contains((name, id.epoch))
        &&& s.epoch == id.epoch
        &&& s.replica == (id.owner != before.config.node_id)
        &&& s.replica ==> s.path@ == crate::names::replica_path_of(before.config.data_dir@, name)
        &&& !s.replica ==> s.path@ == crate::names::channel_path_of(before.config.data_dir@, name)
    } by {
        let s = plan.attach@[i]@;
        assert(all[i] == s);
        assert(all.contains(s));
        lemma_all_pending(before, topics, s);
        let (t, m) = choose|t: int, m: IdentityModel| #[trigger] pending_at(before, topics, t, m, s);
        lemma_live_members(before.registry@, topics[t].0);
        assert(before.muxes@.contains_key(topics[t].0));
    }
    let id = before.registry@[name];
    if before.muxes@.contains_key(topic) && before.registry@.contains_key(name) && !id.deleted
        && id.member_of == Some(topic) && !before.muxes@[topic].members.contains((name, id.epoch)) {
        let t = lemma_place(before, topic);
        lemma_live_members(before.registry@, topic);
        lemma_named(before.registry@, name);
        let s = before.step_value(topic, id);
        lemma_all_pending(before, topics, s);
        assert(pending_at(before, topics, t, id, s));
        let i = choose|i: int| 0 <= i < all.len() && all[i] == s;
        assert(plan.attach@[i]@ == s);
        assert(plan.attach@[i].topic@ == topic && plan.attach@[i].name@ == name);
    }
}

/// A pass unsubscribes from whoever it detaches, and from nobody else.
pub proof fn law_a_pass_unsubscribes_who_left(
    before: Node,
    after: Node,
    now: u64,
    plan: AttachPlan,
    k: Seq<char>,
)
    requires
        Node::attach_planned(before, after, now, plan),
    ensures
        after.subscriptions@.contains_key(k) <==> before.subscriptions@.contains_key(k) && !exists|
            i: int,
        |
            0 <= i < plan.detach@.len() && (#[trigger] plan.detach@[i]).name@ == k,
        after.subscriptions@.contains_key(k) ==> after.subscriptions@[k] == before.subscriptions@[k],
        after.registry == before.registry,
        after.muxes == before.muxes,
        after.hosted == before.hosted,
        after.dissemination == before.dissemination,
        after.discovery == before.discovery,
{
    let gone = names_of(departures(plan.detach@));
    law_only_the_named_subscriptions_end(before.subscriptions@, before.conducted@, gone);
    let (s, c) = without_all(before.subscriptions@, before.conducted@, gone);
    assert(s == after.subscriptions@);
    assert(s.contains_key(k) <==> before.subscriptions@.contains_key(k) && !gone.contains(k));
    if gone.contains(k) {
        let i = choose|i: int| 0 <= i < gone.len() && gone[i] == k;
        assert(plan.detach@[i].name@ == k);
    }
    if exists|i: int| 0 <= i < plan.detach@.len() && (#[trigger] plan.detach@[i]).name@ == k {
        let i = choose|i: int|
            0 <= i < plan.detach@.len() && (#[trigger] plan.detach@[i]).name@ == k;
        assert(gone[i] == k);
    }
}

pub open spec fn is_other(m: (Seq<char>, u64)) -> spec_fn((Seq<char>, u64)) -> bool {
    |x: (Seq<char>, u64)| x != m
}

/// Attaching adds the member if it is not there, after those that are; detaching takes it out, and
/// leaves the rest in order. Neither touches another topic.
pub proof fn law_attaching_and_detaching(
    muxes: Map<Seq<char>, TopicModel>,
    topic: Seq<char>,
    m: (Seq<char>, u64),
    other: Seq<char>,
)
    requires
        muxes.contains_key(topic),
        other != topic,
    ensures
        with_attached(muxes, topic, m).contains_key(topic),
        with_attached(muxes, topic, m)[topic].serial == muxes[topic].serial,
        with_attached(muxes, topic, m)[topic].members == if muxes[topic].members.contains(m) {
            muxes[topic].members
        } else {
            muxes[topic].members.push(m)
        },
        with_detached(muxes, topic, m).contains_key(topic),
        with_detached(muxes, topic, m)[topic].serial == muxes[topic].serial,
        with_detached(muxes, topic, m)[topic].members == muxes[topic].members.filter(is_other(m)),
        with_attached(muxes, topic, m).contains_key(other) == muxes.contains_key(other),
        with_detached(muxes, topic, m).contains_key(other) == muxes.contains_key(other),
        muxes.contains_key(other) ==> with_attached(muxes, topic, m)[other] == muxes[other],
        muxes.contains_key(other) ==> with_detached(muxes, topic, m)[other] == muxes[other],
{
    lemma_without_member_filter(muxes[topic].members, m);
}

proof fn lemma_without_member_filter(members: Seq<(Seq<char>, u64)>, m: (Seq<char>, u64))
    ensures
        without_member(members, m) == members.filter(is_other(m)),
    decreases members.len(),
{
    reveal(Seq::filter);
    if members.len() > 0 {
        lemma_without_member_filter(members.drop_last(), m);
    } else {
        assert(members.filter(is_other(m)) =~= members);
    }
}

// ---------------- merging ----------------
pub open spec fn is_shared(promoted: Seq<String>) -> spec_fn((Seq<char>, TopicModel)) -> bool {
    |t: (Seq<char>, TopicModel)|
        !exists|i: int| 0 <= i < promoted.len() && (#[trigger] promoted[i])@ == t.0
}

pub open spec fn topic_name() -> spec_fn((Seq<char>, TopicModel)) -> Seq<char> {
    |t: (Seq<char>, TopicModel)| t.0
}

/// The shared loop polls every topic that has no loop of its own, and no other.
pub proof fn law_the_shared_loop_polls_the_rest(
    topics: Seq<(Seq<char>, TopicModel)>,
    promoted: Seq<String>,
)
    ensures
        unpromoted(topics, promoted) == topics.filter(is_shared(promoted)).map_values(topic_name()),
    decreases topics.len(),
{
    let (p, g) = (is_shared(promoted), topic_name());
    if topics.len() > 0 {
        law_the_shared_loop_polls_the_rest(topics.drop_last(), promoted);
        lemma_filter_map_last(topics, p, g);
    } else {
        lemma_filter_map_none(topics, p, g);
    }
}

/// A sweep counts what each topic merged, and nothing for one that failed.
pub proof fn law_a_sweep_adds_up(a: Seq<Option<usize>>, b: Seq<Option<usize>>, n: usize)
    ensures
        merged_records(a + b) == merged_records(a) + merged_records(b),
        merged_records(seq![Some(n)]) == n,
        merged_records(seq![None::<usize>]) == 0,
    decreases b.len(),
{
    if b.len() > 0 {
        law_a_sweep_adds_up(a, b.drop_last(), n);
        assert((a + b).drop_last() =~= a + b.drop_last());
        assert((a + b).last() == b.last());
    } else {
        assert(a + b =~= a);
    }
    assert(seq![Some(n)].drop_last() =~= Seq::<Option<usize>>::empty());
    assert(seq![None::<usize>].drop_last() =~= Seq::<Option<usize>>::empty());
    assert(merged_records(Seq::<Option<usize>>::empty()) == 0);
}

/// A member reads as unreachable exactly if its owner is not known or cannot be reached; else as quiet
/// exactly if its merge has caught up. The rest of its row is what the merge reports.
pub proof fn law_how_a_member_reads(node: Node, m: MergedMember, now: u64)
    ensures
        ({
            let row = node.member_row(m, now);
            let reachable = node.registry@.contains_key(m.name@) && can_reach(
                node,
                node.registry@[m.name@].owner,
                now,
            );
            &&& row.state == MemberState::Unreachable <==> !reachable
            &&& row.state == MemberState::Quiet <==> reachable && m.lag == 0
            &&& row.state == MemberState::Active <==> reachable && m.lag > 0
            &&& row.name == m.name@
            &&& row.epoch == m.epoch
            &&& row.merged == m.merged
            &&& row.head == m.head
            &&& row.lag == m.lag
            &&& row.rejected == m.rejected
        }),
{
}

} // verus!
