//! What holds across the operations of a node.
use vstd::prelude::*;

use crate::error::NodeError;
use crate::identity::{IdentityModel, NodeId};
use crate::node::maintenance::PumpState;
use crate::node::registration::{disseminated, removal};
use crate::node::subscribing::{Establish, Started};
use crate::node::topic_life::{reap_one, ReapState};
use crate::node::topics::{leaving, live_members};
use crate::node::{Node, TopicModel};
use crate::registry::Directory;
use crate::wire::{ChangeModel, ChannelOptions, InfoModel, PeerId};

verus! {

// ---------------- watching ----------------
/// The live channels of a registry as a client holds them, by name. Whether an owner is live is the
/// answering node's opinion of the moment, and left out.
pub open spec fn catalogue(m: Directory) -> Map<Seq<char>, InfoModel> {
    Map::new(
        |k: Seq<char>| crate::registry::live_entry(m, k) is Some,
        |k: Seq<char>| crate::wire::info_of(m[k], false),
    )
}

/// What a client makes of one record of the discovery log.
pub open spec fn followed(held: Map<Seq<char>, InfoModel>, change: ChangeModel) -> Map<
    Seq<char>,
    InfoModel,
> {
    match change {
        ChangeModel::Upserted(info) => held.insert(
            info.name,
            InfoModel { owner_live: false, ..info },
        ),
        ChangeModel::Removed { name, .. } => held.remove(name),
    }
}

/// What a client makes of a run of records.
pub open spec fn followed_all(
    held: Map<Seq<char>, InfoModel>,
    changes: Seq<ChangeModel>,
) -> Map<Seq<char>, InfoModel>
    decreases changes.len(),
{
    if changes.len() == 0 {
        held
    } else {
        followed(followed_all(held, changes.drop_last()), changes.last())
    }
}

/// Whether a client that held `listed` when the discovery log was empty, and has followed the log
/// since, holds what this node would list now.
pub open spec fn up_to_date(listed: Map<Seq<char>, InfoModel>, node: Node) -> bool {
    followed_all(listed, crate::wire::changes(node.discovery@)) == catalogue(node.registry@)
}

/// A client that follows the log misses nothing of a claim.
pub proof fn law_a_watcher_follows_claims(
    listed: Map<Seq<char>, InfoModel>,
    before: Node,
    after: Node,
    claim: IdentityModel,
    now: u64,
)
    requires
        up_to_date(listed, before),
        Node::claimed(before, after, claim, now),
    ensures
        up_to_date(listed, after),
{
    lemma_followed_merge(before, before.registry@, claim, now);
    let log = crate::wire::changes(before.discovery@);
    lemma_followed_push(listed, log, before.change_value(claim, now));
}

/// A client that follows the log misses nothing of a channel retired here, by its owner or by an
/// operator.
pub proof fn law_a_watcher_follows_tombstones(
    listed: Map<Seq<char>, InfoModel>,
    before: Node,
    after: Node,
    name: Seq<char>,
    t: IdentityModel,
)
    requires
        up_to_date(listed, before),
        t.name == name,
        t.deleted,
        after.registry@ == before.registry@.insert(name, t),
        disseminated(before, after, t),
    ensures
        up_to_date(listed, after),
{
    lemma_followed_tombstone(before.registry@, t);
    lemma_followed_push(listed, crate::wire::changes(before.discovery@), removal(t));
}

/// A client that follows the log misses nothing of what peers tell this node.
pub proof fn law_a_watcher_follows_gossip(
    listed: Map<Seq<char>, InfoModel>,
    before: Node,
    after: Node,
    now: u64,
)
    requires
        up_to_date(listed, before),
        Node::absorbed(before, after, now),
    ensures
        up_to_date(listed, after),
{
    let all = crate::broadcast::received(before.dissemination.inbox@);
    lemma_followed_pump(before, before.pump_start(), all, now);
    let s = before.pump_all(before.pump_start(), all, now);
    lemma_followed_concat(listed, crate::wire::changes(before.discovery@), s.changes);
}

/// A client that follows the log misses nothing of the members this node retires.
pub proof fn law_a_watcher_follows_reaping(
    listed: Map<Seq<char>, InfoModel>,
    before: Node,
    after: Node,
    now: u64,
)
    requires
        up_to_date(listed, before),
        crate::registry::well_named(before.registry@),
        Node::reaped(before, after, now),
    ensures
        up_to_date(listed, after),
{
    let start = ReapState {
        registry: before.registry@,
        dead_since: before.member_dead_since@,
        tombstones: Seq::<IdentityModel>::empty(),
    };
    let members = crate::node::topic_life::watched(
        before.registry@,
        crate::name_map::listing(before.topic_reap@),
    );
    lemma_followed_reaping(before, start, members, now);
    let s = before.reap_all(start, members, now);
    lemma_followed_concat(
        listed,
        crate::wire::changes(before.discovery@),
        removals(s.tombstones),
    );
    assert(removals(s.tombstones) =~= Seq::new(
        s.tombstones.len(),
        |i: int| removal(s.tombstones[i]),
    ));
}

spec fn removals(tombstones: Seq<IdentityModel>) -> Seq<ChangeModel> {
    Seq::new(tombstones.len(), |i: int| removal(tombstones[i]))
}

proof fn lemma_followed_push(
    held: Map<Seq<char>, InfoModel>,
    log: Seq<ChangeModel>,
    change: ChangeModel,
)
    ensures
        followed_all(held, log.push(change)) == followed(followed_all(held, log), change),
{
    assert(log.push(change).drop_last() =~= log);
}

proof fn lemma_followed_concat(
    held: Map<Seq<char>, InfoModel>,
    a: Seq<ChangeModel>,
    b: Seq<ChangeModel>,
)
    ensures
        followed_all(held, a + b) == followed_all(followed_all(held, a), b),
    decreases b.len(),
{
    if b.len() == 0 {
        assert(a + b =~= a);
    } else {
        lemma_followed_concat(held, a, b.drop_last());
        assert((a + b).drop_last() =~= a + b.drop_last());
    }
}

proof fn lemma_followed_merge(node: Node, m: Directory, id: IdentityModel, now: u64)
    ensures
        crate::registry::moves(m, id) ==> catalogue(crate::registry::merged(m, id)) == followed(
            catalogue(m),
            node.change_value(id, now),
        ),
{
    if crate::registry::moves(m, id) {
        let after = m.insert(id.name, id);
        assert(catalogue(after) =~= followed(catalogue(m), node.change_value(id, now)));
    }
}

proof fn lemma_followed_tombstone(m: Directory, t: IdentityModel)
    requires
        t.deleted,
    ensures
        catalogue(m.insert(t.name, t)) == followed(catalogue(m), removal(t)),
{
    assert(catalogue(m.insert(t.name, t)) =~= followed(catalogue(m), removal(t)));
}

proof fn lemma_followed_pump(
    node: Node,
    s: PumpState,
    all: Seq<(PeerId, IdentityModel)>,
    now: u64,
)
    requires
        s.changes.len() == 0,
    ensures
        followed_all(catalogue(s.registry), node.pump_all(s, all, now).changes) == catalogue(
            node.pump_all(s, all, now).registry,
        ),
    decreases all.len(),
{
    if all.len() > 0 {
        lemma_followed_pump(node, s, all.drop_last(), now);
        let before = node.pump_all(s, all.drop_last(), now);
        let id = all.last().1;
        lemma_followed_merge(node, before.registry, id, now);
        lemma_followed_push(
            catalogue(s.registry),
            before.changes,
            node.change_value(id, now),
        );
    }
}

proof fn lemma_followed_reaping(
    node: Node,
    s: ReapState,
    members: Seq<(IdentityModel, nat)>,
    now: u64,
)
    requires
        s.tombstones.len() == 0,
        crate::registry::well_named(s.registry),
    ensures
        crate::registry::well_named(node.reap_all(s, members, now).registry),
        followed_all(
            catalogue(s.registry),
            removals(node.reap_all(s, members, now).tombstones),
        ) == catalogue(node.reap_all(s, members, now).registry),
    decreases members.len(),
{
    if members.len() == 0 {
        assert(removals(s.tombstones) =~= Seq::<ChangeModel>::empty());
    } else {
        lemma_followed_reaping(node, s, members.drop_last(), now);
        let before = node.reap_all(s, members.drop_last(), now);
        let (m, span) = members.last();
        let after = reap_one(before, m, span, node.owner_live(m.owner, now), now);
        if after.tombstones != before.tombstones {
            let t = crate::registry::tombstone_of(before.registry[m.name]);
            assert(t.name == m.name);
            lemma_followed_tombstone(before.registry, t);
            lemma_followed_push(catalogue(s.registry), removals(before.tombstones), removal(t));
            assert(removals(before.tombstones.push(t)) =~= removals(before.tombstones).push(
                removal(t),
            ));
        }
    }
}

// ---------------- names ----------------
/// A name that was claimed is live, and this node's.
pub proof fn law_a_claimed_name_is_held(
    before: Node,
    after: Node,
    name: Seq<char>,
    options: ChannelOptions,
    member_of: Option<Seq<char>>,
    now: u64,
    wall: u64,
)
    requires
        before.creation(name, options, member_of, wall) is Ok,
        Node::created(before, after, name, options, member_of, now, wall),
    ensures
        after.owned_entry(name) is Some,
{
    let claim = before.claim(name, options.region_size, options.mtu, member_of, wall);
    let m = before.registry@;
    assert(crate::registry::merged(m, claim)[name].owner == before.config.node_id);
    assert(crate::registry::live_entry(after.registry@, name) is Some) by {
        if !crate::registry::moves(m, claim) {
            assert(m.contains_key(name));
            if m[name].deleted {
                assert(claim.epoch == m[name].epoch + 1);
                assert(crate::identity::beats(claim, m[name]));
            }
        }
    }
}

/// Creating a channel anew that this node holds already succeeds, as a restarted application does.
pub proof fn law_an_owner_may_create_again(
    node: Node,
    name: Seq<char>,
    options: ChannelOptions,
    member_of: Option<Seq<char>>,
    wall: u64,
)
    requires
        crate::names::valid_name(name),
        node.owned_entry(name) is Some,
    ensures
        node.creation(name, options, member_of, wall) is Ok,
{
}

/// Once a name has been retired, by its owner or by an operator, any node may claim it, and the claim
/// belongs to the next generation.
pub proof fn law_a_retired_name_can_be_claimed(
    node: Node,
    name: Seq<char>,
    options: ChannelOptions,
    member_of: Option<Seq<char>>,
    wall: u64,
)
    requires
        crate::names::valid_name(name),
        node.registry@.contains_key(name),
        node.registry@[name].deleted,
        node.registry@[name].epoch < u64::MAX,
    ensures
        node.creation(name, options, member_of, wall) is Ok,
        node.claim(name, options.region_size, options.mtu, member_of, wall).epoch
            == node.registry@[name].epoch + 1,
{
}

/// A name that another node holds is refused to a claim made later, and the refusal changes nothing.
pub proof fn law_a_held_name_is_refused(
    before: Node,
    after: Node,
    name: Seq<char>,
    options: ChannelOptions,
    member_of: Option<Seq<char>>,
    now: u64,
    wall: u64,
)
    requires
        crate::registry::live_entry(before.registry@, name) is Some,
        before.registry@[name].owner != before.config.node_id,
        before.registry@[name].registered_at_nanos < wall,
        Node::created(before, after, name, options, member_of, now, wall),
    ensures
        before.creation(name, options, member_of, wall) is Err,
        after.registry@ == before.registry@,
        crate::wire::changes(after.discovery@) == crate::wire::changes(before.discovery@),
{
}

/// A node that has observed nothing of an owner yet, however long it has been up itself, reclaims
/// none of its channels.
pub proof fn law_a_fresh_node_reclaims_nothing(node: Node, name: Seq<char>, now: u64)
    requires
        crate::registry::live_entry(node.registry@, name) is Some,
        crate::membership::silence(
            node.dissemination.membership@,
            node.registry@[name].owner,
            now,
        ) is None,
        !node.owner_unreachable_since@.contains_key(node.registry@[name].owner),
        node.config.reclaim_after@ > 0,
    ensures
        node.force_verdict(name, now) is Err,
{
}

// ---------------- topics ----------------
/// A member that the registry does not know is never taken to have left its topic: the registry of a
/// node just started may be incomplete.
pub proof fn law_absence_retires_no_member(
    m: Directory,
    topic: Seq<char>,
    members: Seq<(Seq<char>, u64)>,
    name: Seq<char>,
    epoch: u64,
)
    requires
        !m.contains_key(name),
    ensures
        !leaving(m, topic, members).contains((topic, name, epoch)),
    decreases members.len(),
{
    if members.len() > 0 {
        law_absence_retires_no_member(m, topic, members.drop_last(), name, epoch);
        let (last, at) = members.last();
        crate::broadcast::lemma_push_contains(
            leaving(m, topic, members.drop_last()),
            (topic, last, at),
        );
    }
}

/// However many members of a topic have owners out of reach, one whose owner is live is subscribed
/// to in the same pass.
pub proof fn law_no_live_member_is_starved(
    node: Node,
    topics: Seq<(Seq<char>, TopicModel)>,
    i: int,
    m: IdentityModel,
    now: u64,
)
    requires
        0 <= i < topics.len(),
        live_members(node.registry@, topics[i].0).contains(m),
        node.wants(m, now),
    ensures
        node.all_wanted(topics, now).contains(m.name),
    decreases topics.len(),
{
    let rest = topics.drop_last();
    let before = node.all_wanted(rest, now);
    let here = node.wanted(live_members(node.registry@, topics.last().0), now);
    let all = before + here;
    if i < rest.len() {
        law_no_live_member_is_starved(node, rest, i, m, now);
        let k = choose|k: int| 0 <= k < before.len() && before[k] == m.name;
        assert(all[k] == m.name);
    } else {
        lemma_wanted(node, live_members(node.registry@, topics.last().0), m, now);
        let k = choose|k: int| 0 <= k < here.len() && here[k] == m.name;
        assert(all[before.len() + k] == m.name);
    }
}

proof fn lemma_wanted(node: Node, list: Seq<IdentityModel>, m: IdentityModel, now: u64)
    requires
        list.contains(m),
        node.wants(m, now),
    ensures
        node.wanted(list, now).contains(m.name),
    decreases list.len(),
{
    let rest = list.drop_last();
    crate::broadcast::lemma_push_contains(node.wanted(rest, now), list.last().name);
    if list.last() != m {
        let i = choose|i: int| 0 <= i < list.len() && list[i] == m;
        assert(rest[i] == m);
        lemma_wanted(node, rest, m, now);
    }
}

// ---------------- subscriptions ----------------
/// Whoever asks for a subscription gets an attempt at once, whatever penalty stood against the name,
/// and the penalty is gone.
pub proof fn law_a_caller_is_never_throttled(
    before: Node,
    after: Node,
    name: Seq<char>,
    now: u64,
    started: Started,
)
    requires
        Node::subscribed_as(
            before,
            after,
            name,
            Establish::Caller,
            now,
            Ok::<Started, NodeError>(started),
        ),
    ensures
        started.establish,
        !after.attach_backoff@.contains_key(name),
{
}

/// An owner that comes back finds no penalty against its channels.
pub proof fn law_a_returning_owner_is_retried_at_once(
    before: Node,
    after: Node,
    name: Seq<char>,
    plan: crate::node::topics::AttachPlan,
    now: u64,
)
    requires
        Node::attach_planned(before, after, now, plan),
        before.registry@.contains_key(name),
        before.dissemination.live(before.registry@[name].owner, now),
        !before.last_live_owners@.contains(before.registry@[name].owner),
    ensures
        !after.attach_backoff@.contains_key(name),
{
    let owner: NodeId = before.registry@[name].owner;
    assert(after.last_live_owners@.contains(owner));
}

/// An owner that stays live, or stays away, forgives nothing: only its return does. Otherwise every
/// pass would undo the throttle.
pub proof fn law_only_a_return_forgives(
    before: Node,
    after: Node,
    name: Seq<char>,
    plan: crate::node::topics::AttachPlan,
    now: u64,
)
    requires
        Node::attach_planned(before, after, now, plan),
        before.attach_backoff@.contains_key(name),
        before.registry@.contains_key(name) ==> before.last_live_owners@.contains(
            before.registry@[name].owner,
        ) || !before.dissemination.live(before.registry@[name].owner, now),
    ensures
        after.attach_backoff@.contains_key(name),
        after.attach_backoff@[name] == before.attach_backoff@[name],
{
    if before.revived(after.last_live_owners@, name) {
        assert(after.last_live_owners@.contains(before.registry@[name].owner));
    }
}

} // verus!
