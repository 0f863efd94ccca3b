//! Names: who may claim one, and how one is given up or taken away.
use vstd::prelude::*;

use crate::broadcast::{dispatches, BroadcastDissemination};
use crate::error::ErrorKind;
use crate::identity::{IdentityModel, NodeId, RecordIndex};
use crate::node::registration::{announced, disseminated};
use crate::node::Node;
use crate::promises::discovery::{can_reach, describes};
use crate::promises::gossip::outranks;
use crate::promises::mesh::{is_not, its_id, law_recipients_are_the_other_links};
use crate::wire::{ChangeModel, ChannelOptions, ControlModel, NO_PEER};

verus! {

/// What telling peers of entries sends: one message with those entries, over every link.
pub proof fn law_an_announcement_reaches_every_link(
    before: BroadcastDissemination,
    after: BroadcastDissemination,
    delta: Seq<IdentityModel>,
)
    requires
        announced(before, after, delta),
    ensures
        after.outbox@.len() == before.outbox@.len() + 1,
        forall|k: int|
            0 <= k < before.outbox@.len() ==> (#[trigger] after.outbox@[k])@ == before.outbox@[k]@,
        after.outbox@.last().to@ == before.peers@.filter(is_not(NO_PEER)).map_values(its_id()),
        after.outbox@.last().msg@ == ControlModel::RegistryDelta(delta),
        after.peers == before.peers,
        after.membership == before.membership,
        after.inbox == before.inbox,
        after.hints == before.hints,
        after.connected == before.connected,
{
    law_recipients_are_the_other_links(before.peers@, NO_PEER);
    let (old, new) = (dispatches(before.outbox@), dispatches(after.outbox@));
    assert(new.len() == old.len() + 1);
    assert forall|k: int| 0 <= k < new.len() implies new[k] == (#[trigger] after.outbox@[k])@ by {}
    assert forall|k: int| 0 <= k < old.len() implies (#[trigger] after.outbox@[k])@
        == before.outbox@[k]@ by {
        assert(new[k] == old[k]);
    }
    assert(after.outbox@[old.len() as int]@ == new[old.len() as int]);
}

/// A tombstone is recorded for watchers and told to every link.
pub proof fn law_a_retired_name_is_told_to_all(before: Node, after: Node, t: IdentityModel)
    requires
        disseminated(before, after, t),
    ensures
        after.discovery@.len() == before.discovery@.len() + 1,
        forall|c: int|
            0 <= c < before.discovery@.len() ==> (#[trigger] after.discovery@[c])@
                == before.discovery@[c]@,
        after.discovery@.last()@ == (ChangeModel::Removed { name: t.name, epoch: t.epoch }),
        ({
            let (d, e) = (before.dissemination, after.dissemination);
            &&& e.outbox@.len() == d.outbox@.len() + 1
            &&& e.outbox@.last().to@ == d.peers@.filter(is_not(NO_PEER)).map_values(its_id())
            &&& e.outbox@.last().msg@ is RegistryDelta
            &&& e.outbox@.last().msg@->RegistryDelta_0 == seq![t]
        }),
{
    law_an_announcement_reaches_every_link(before.dissemination, after.dissemination, seq![t]);
    let (c0, c1) = (crate::wire::changes(before.discovery@), crate::wire::changes(after.discovery@));
    assert(c1.len() == c0.len() + 1);
    assert forall|c: int| 0 <= c < c0.len() implies (#[trigger] after.discovery@[c])@
        == before.discovery@[c]@ by {
        assert(c1[c] == c0[c]);
    }
    assert(after.discovery@[c0.len() as int]@ == c1[c0.len() as int]);
    assert(seq![t][0] == t);
}

/// A claim is this node's, live, of the generation that is free, and says what was asked for.
pub proof fn law_what_a_claim_says(
    node: Node,
    name: Seq<char>,
    region_size: u32,
    mtu: u32,
    member_of: Option<Seq<char>>,
    wall: u64,
)
    ensures
        ({
            let c = node.claim(name, region_size, mtu, member_of, wall);
            let m = node.registry@;
            &&& c.name == name
            &&& c.owner == node.config.node_id
            &&& c.region_size == region_size
            &&& c.mtu == mtu
            &&& c.member_of == member_of
            &&& c.registered_at_nanos == wall
            &&& c.earliest_index == RecordIndex(0)
            &&& !c.deleted
            &&& !m.contains_key(name) ==> c.epoch == 0
            &&& m.contains_key(name) && !m[name].deleted ==> c.epoch == m[name].epoch
            &&& m.contains_key(name) && m[name].deleted && m[name].epoch < u64::MAX ==> c.epoch
                == m[name].epoch + 1
        }),
{
}

/// Whether this node may have the name that it claims as `c`: nobody holds it, or its last holder gave
/// it up and a generation is left, or it is this node's already, or this node's claim is the earlier.
pub open spec fn may_have(node: Node, c: IdentityModel) -> bool {
    let m = node.registry@;
    ||| !m.contains_key(c.name)
    ||| m[c.name].deleted && m[c.name].epoch < u64::MAX
    ||| !m[c.name].deleted && m[c.name].owner == node.config.node_id
    ||| !m[c.name].deleted && outranks(c, m[c.name])
}

/// A claim succeeds exactly if this node may have the name. Then the name is live and this node's; if
/// not, it is held as before. Nobody else's name is touched, and what changed is published.
pub proof fn law_who_gets_a_name(
    before: Node,
    after: Node,
    name: Seq<char>,
    region_size: u32,
    mtu: u32,
    member_of: Option<Seq<char>>,
    now: u64,
    wall: u64,
)
    requires
        Node::claimed(before, after, before.claim(name, region_size, mtu, member_of, wall), now),
    ensures
        ({
            let c = before.claim(name, region_size, mtu, member_of, wall);
            let m = before.registry@;
            &&& before.claim_succeeds(c) <==> may_have(before, c)
            &&& may_have(before, c) ==> after.registry@.contains_key(name)
                && !after.registry@[name].deleted && after.registry@[name].owner
                == before.config.node_id
            &&& may_have(before, c) && (!m.contains_key(name) || m[name].deleted
                || m[name].owner != before.config.node_id) ==> after.registry@[name] == c
            &&& !may_have(before, c) ==> after.registry@ == m && crate::wire::changes(
                after.discovery@,
            ) == crate::wire::changes(before.discovery@)
            &&& forall|k: Seq<char>|
                k != name ==> (#[trigger] after.registry@.contains_key(k) <==> m.contains_key(k))
                    && (m.contains_key(k) ==> after.registry@[k] == m[k])
            &&& after.registry@ != m ==> {
                let added = crate::wire::changes(after.discovery@);
                &&& added.len() == before.discovery@.len() + 1
                &&& added.last() is Upserted
                &&& describes(
                    added.last()->Upserted_0,
                    c,
                    can_reach(before, before.config.node_id, now),
                )
            }
        }),
{
    let c = before.claim(name, region_size, mtu, member_of, wall);
    let m = before.registry@;
    if m.contains_key(name) && m[name].deleted && m[name].epoch < u64::MAX {
        assert(c.epoch == m[name].epoch + 1);
    }
    if !crate::registry::moves(m, c) {
        assert(crate::registry::merged(m, c) == m);
    }
    crate::promises::discovery::law_a_change_describes_its_entry(before, c, now);
    assert(crate::wire::changes(before.discovery@).len() == before.discovery@.len());
}

/// A channel is created exactly if its name is one and this node may have it; a name that is none is
/// refused as such, and one that is held as taken. The log goes where that channel's log belongs, with
/// the bounds asked for.
pub proof fn law_what_creating_comes_to(
    node: Node,
    name: Seq<char>,
    options: ChannelOptions,
    member_of: Option<Seq<char>>,
    wall: u64,
    after: Node,
    now: u64,
)
    requires
        Node::created(node, after, name, options, member_of, now, wall),
    ensures
        ({
            let c = node.claim(name, options.region_size, options.mtu, member_of, wall);
            match node.creation(name, options, member_of, wall) {
                Ok(plan) => {
                    &&& crate::names::valid_name(name)
                    &&& may_have(node, c)
                    &&& plan.identity == c
                    &&& plan.path == crate::names::channel_path_of(node.config.data_dir@, name)
                    &&& plan.dir == crate::names::channel_dir_of(node.config.data_dir@, name)
                    &&& plan.file_roll_size == options.file_roll_size
                    &&& plan.keep_files == options.keep_files
                    &&& after.registry@.contains_key(name)
                    &&& after.registry@[name].owner == node.config.node_id
                },
                Err((kind, message)) => {
                    &&& !(crate::names::valid_name(name) && may_have(node, c))
                    &&& kind == ErrorKind::InvalidInput <==> !crate::names::valid_name(name)
                    &&& kind == ErrorKind::AlreadyExists <==> crate::names::valid_name(name)
                    &&& kind == ErrorKind::AlreadyExists ==> message
                        == crate::node::registration::name_taken(
                        name,
                        node.registry@[name].owner,
                    ).1
                    &&& after.registry@ == node.registry@
                },
            }
        }),
        after.hosted == node.hosted,
        after.dissemination == node.dissemination,
        after.subscriptions == node.subscriptions,
        after.muxes == node.muxes,
{
    if crate::names::valid_name(name) {
        law_who_gets_a_name(
            node,
            after,
            name,
            options.region_size,
            options.mtu,
            member_of,
            now,
            wall,
        );
    }
}

/// What is served of a channel is its log where it is, with the geometry it was claimed with and the
/// bounds it was created with.
pub proof fn law_what_is_served(id: IdentityModel, path: Seq<char>, roll: u64, keep: u32)
    ensures
        ({
            let s = Node::source_value(id, path, roll, keep);
            &&& s.path == path
            &&& s.region_size == id.region_size
            &&& s.mtu == id.mtu
            &&& s.file_roll_size == roll
            &&& s.keep_files == keep
        }),
{
}

/// Only a live channel that this node owns can be given up by it.
pub proof fn law_what_can_be_given_up(node: Node, name: Seq<char>)
    ensures
        node.owned_entry(name) is Some <==> node.registry@.contains_key(name)
            && !node.registry@[name].deleted && node.registry@[name].owner == node.config.node_id,
        node.owned_entry(name) is Some ==> node.owned_entry(name)->0 == node.registry@[name],
{
}

/// Giving up a name by request: if it was a live channel of this node, it is tombstoned in its
/// generation, no longer served, and told to all; if not, nothing of that happens. Either way no
/// subscription is kept for it, the one that was is stopped, and its penalty is gone. No other name is
/// touched.
pub proof fn law_what_deregistering_comes_to(before: Node, after: Node, name: Seq<char>)
    requires
        Node::deregistered(before, after, name),
    ensures
        ({
            let m = before.registry@;
            let mine = m.contains_key(name) && !m[name].deleted && m[name].owner
                == before.config.node_id;
            &&& mine ==> {
                &&& after.registry@.contains_key(name)
                &&& after.registry@[name].deleted
                &&& after.registry@[name].epoch == m[name].epoch
                &&& after.registry@[name].owner == m[name].owner
                &&& !after.hosted@.contains_key(name)
                &&& after.discovery@.len() == before.discovery@.len() + 1
                &&& after.dissemination.outbox@.len() == before.dissemination.outbox@.len() + 1
                &&& after.dissemination.outbox@.last().to@ == before.dissemination.peers@.filter(
                    is_not(NO_PEER),
                ).map_values(its_id())
                &&& after.dissemination.outbox@.last().msg@->RegistryDelta_0
                    == seq![after.registry@[name]]
            }
            &&& !mine ==> {
                &&& after.registry == before.registry
                &&& after.hosted == before.hosted
                &&& after.dissemination == before.dissemination
                &&& after.discovery == before.discovery
            }
            &&& !after.subscriptions@.contains_key(name)
            &&& !after.attach_backoff@.contains_key(name)
            &&& before.subscriptions@.contains_key(name) && before.conducted@.contains_key(
                before.subscriptions@[name],
            ) ==> after.conducted@[before.subscriptions@[name]].sub.stopped
            &&& forall|k: Seq<char>|
                k != name ==> {
                    &&& #[trigger] after.registry@.contains_key(k) == m.contains_key(k)
                    &&& m.contains_key(k) ==> after.registry@[k] == m[k]
                    &&& after.hosted@.contains_key(k) == before.hosted@.contains_key(k)
                    &&& after.subscriptions@.contains_key(k) == before.subscriptions@.contains_key(
                        k,
                    )
                }
        }),
        after.muxes == before.muxes,
        after.config == before.config,
{
    let m = before.registry@;
    if m.contains_key(name) && !m[name].deleted && m[name].owner == before.config.node_id {
        law_a_retired_name_is_told_to_all(
            before,
            after,
            crate::registry::tombstone_of(m[name]),
        );
    }
}

/// How long this node has been unable to reach `owner`: since it was last heard from, if it ever was;
/// else since this node first noticed; else for no time at all.
pub open spec fn unreached_for(node: Node, owner: NodeId, now: u64) -> nat {
    let known = node.dissemination.membership@;
    let since = if known.contains_key(owner) && known[owner].heard_at is Some {
        known[owner].heard_at->0
    } else if node.owner_unreachable_since@.contains_key(owner) {
        node.owner_unreachable_since@[owner]
    } else {
        now
    };
    if since <= now {
        (now - since) as nat
    } else {
        0
    }
}

/// An operator may take a name away exactly if it is live, not this node's, its owner cannot be
/// reached, and has been out of reach for the time required. Asked of a name that nobody holds, the
/// answer is that there was none. Every refusal has its reason, and changes no name.
pub proof fn law_when_a_name_may_be_taken_away(before: Node, after: Node, name: Seq<char>, now: u64)
    requires
        Node::forced(before, after, name, now),
    ensures
        ({
            let m = before.registry@;
            let held = m.contains_key(name) && !m[name].deleted;
            let mine = m[name].owner == before.config.node_id;
            let reachable = can_reach(before, m[name].owner, now);
            let long = unreached_for(before, m[name].owner, now) >= before.config.reclaim_after@;
            &&& before.force_verdict(name, now) == Ok::<bool, (ErrorKind, Seq<char>)>(false)
                <==> !held
            &&& before.force_verdict(name, now) == Ok::<bool, (ErrorKind, Seq<char>)>(true)
                <==> held && !mine && !reachable && long
            &&& (before.force_verdict(name, now) matches Err((kind, _)) && kind
                == ErrorKind::InvalidInput) <==> held && mine
            &&& (before.force_verdict(name, now) matches Err((kind, _)) && kind
                == ErrorKind::ResourceBusy) <==> held && !mine && (reachable || !long)
            &&& held && !mine && !reachable && long ==> {
                &&& after.registry@.contains_key(name)
                &&& after.registry@[name].deleted
                &&& after.registry@[name].epoch == m[name].epoch
                &&& after.discovery@.len() == before.discovery@.len() + 1
                &&& after.dissemination.outbox@.last().msg@->RegistryDelta_0
                    == seq![after.registry@[name]]
                &&& after.dissemination.outbox@.last().to@ == before.dissemination.peers@.filter(
                    is_not(NO_PEER),
                ).map_values(its_id())
                &&& !after.subscriptions@.contains_key(name)
                &&& !after.attach_backoff@.contains_key(name)
            }
            &&& !(held && !mine && !reachable && long) ==> {
                &&& after.registry == before.registry
                &&& after.dissemination == before.dissemination
                &&& after.discovery == before.discovery
                &&& after.subscriptions == before.subscriptions
                &&& after.conducted == before.conducted
            }
            &&& forall|k: Seq<char>|
                k != name ==> #[trigger] after.registry@.contains_key(k) == m.contains_key(k) && (
                m.contains_key(k) ==> after.registry@[k] == m[k])
        }),
        after.hosted == before.hosted,
        after.muxes == before.muxes,
{
    let m = before.registry@;
    if m.contains_key(name) && !m[name].deleted {
        let owner = m[name].owner;
        assert(before.out_of_reach(owner, now) == unreached_for(before, owner, now));
        assert(before.owner_live(owner, now) == can_reach(before, owner, now));
        if owner != before.config.node_id && !can_reach(before, owner, now) && unreached_for(
            before,
            owner,
            now,
        ) >= before.config.reclaim_after@ {
            law_a_retired_name_is_told_to_all(
                before,
                after,
                crate::registry::tombstone_of(m[name]),
            );
        }
    }
}

/// Asking how long an owner has been out of reach starts its clock, if none runs and it was never heard
/// from; no other clock is touched.
pub proof fn law_asking_starts_the_clock(node: Node, owner: NodeId, other: NodeId, now: u64)
    ensures
        node.out_of_reach(owner, now) == unreached_for(node, owner, now),
        ({
            let known = node.dissemination.membership@;
            let heard = known.contains_key(owner) && known[owner].heard_at is Some;
            let (b, a) = (node.owner_unreachable_since@, node.clocks_after_asking(owner, now));
            &&& heard ==> a == b
            &&& b.contains_key(owner) ==> a == b
            &&& !heard && !b.contains_key(owner) ==> a.contains_key(owner) && a[owner] == now
            &&& other != owner ==> a.contains_key(other) == b.contains_key(other) && (
            b.contains_key(other) ==> a[other] == b[other])
        }),
{
}

} // verus!
