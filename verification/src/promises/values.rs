//! Values: what the models of things show of them, and small steps from one to the next.
use vstd::prelude::*;

use crate::addr::SocketAddr;
use crate::broadcast::{Dispatch, Hint, Link, Received};
use crate::identity::{ChannelIdentity, NodeId};
use crate::membership::{Acquaintances, Introduction, Member};
use crate::node::registration::OriginPlan;
use crate::node::topic_health::MemberInfo;
use crate::node::topics::{AttachStep, Departure};
use crate::node::{ChannelSource, TopicMux};
use crate::startup::{holds_channels, holds_identity};
use crate::subscription::RebuildStats;
use crate::wire::{ChannelChange, ChannelInfo, ClientReply, ControlMsg, DiscoveryCursor, PeerId};

verus! {

// ---------------- models ----------------
/// Nothing of an entry is left out of its model.
pub proof fn law_an_entry_is_shown_whole(a: ChannelIdentity)
    ensures
        a@.name == a.name@,
        a@.owner == a.owner,
        a@.region_size == a.region_size,
        a@.mtu == a.mtu,
        a@.earliest_index == a.earliest_index,
        a@.registered_at_nanos == a.registered_at_nanos,
        a@.epoch == a.epoch,
        a@.deleted == a.deleted,
        a.member_of is Some <==> a@.member_of is Some,
        a.member_of is Some ==> a@.member_of->0 == (a.member_of->0)@,
{
}

/// Nothing of what is known of a node, or told of it, is left out.
pub proof fn law_a_node_is_shown_whole(m: Member, i: Introduction)
    ensures
        m@.addr == m.addr,
        m@.control_addr == m.control_addr,
        m@.name == m.name@,
        m@.heard_at == m.heard_at,
        m@.departed == m.departed,
        i@.node == i.node,
        i@.addr == i.addr,
        i@.control_addr == i.control_addr,
        i@.name == i.name@,
{
}

/// Nothing of a message is left out: whom it goes to, what kind it is, and what it says.
pub proof fn law_a_message_is_shown_whole(d: Dispatch, h: Hint, r: Received)
    ensures
        d@.0 == d.to@,
        d@.1 == d.msg@,
        h@.0 == h.from,
        h@.1 == h.about@,
        r@.0 == r.from,
        r@.1 == r.id@,
        match d.msg {
            ControlMsg::RegistryDelta(ids) => {
                &&& d.msg@ is RegistryDelta
                &&& (d.msg@->RegistryDelta_0).len() == ids@.len()
                &&& forall|k: int|
                    0 <= k < ids@.len() ==> (d.msg@->RegistryDelta_0)[k] == (#[trigger] ids@[k])@
            },
            ControlMsg::RegistrySync(ids) => {
                &&& d.msg@ is RegistrySync
                &&& (d.msg@->RegistrySync_0).len() == ids@.len()
                &&& forall|k: int|
                    0 <= k < ids@.len() ==> (d.msg@->RegistrySync_0)[k] == (#[trigger] ids@[k])@
            },
            ControlMsg::Heartbeat(i) => d.msg@ is Heartbeat && d.msg@->Heartbeat_0 == i@,
            ControlMsg::PeerHint(i) => d.msg@ is PeerHint && d.msg@->PeerHint_0 == i@,
            ControlMsg::Leaving { node } => d.msg@ is Leaving && d.msg@->node == node,
            ControlMsg::Unexpected => d.msg@ is Unexpected,
        },
{
}

/// Nothing of a channel in a listing, or of a record of the discovery log, is left out.
pub proof fn law_a_listing_is_shown_whole(i: ChannelInfo, c: ChannelChange, at: DiscoveryCursor)
    ensures
        i@.name == i.name@,
        i@.owner == i.owner,
        i@.epoch == i.epoch,
        i@.owner_live == i.owner_live,
        i.member_of is Some <==> i@.member_of is Some,
        i.member_of is Some ==> i@.member_of->0 == (i.member_of->0)@,
        i@.region_size == i.region_size,
        i@.mtu == i.mtu,
        i@.earliest_index == i.earliest_index,
        match c {
            ChannelChange::Upserted(info) => c@ is Upserted && c@->Upserted_0 == info@,
            ChannelChange::Removed { name, epoch } => c@ is Removed && c@->name == name@
                && c@->epoch == epoch,
        },
        at@.log_path == at.log_path@,
        at@.generation == at.generation,
        at@.from == at.from,
{
}

/// Nothing of a reply is left out.
pub proof fn law_a_reply_is_shown_whole(r: ClientReply)
    ensures
        match r {
            ClientReply::Created { path } => r@ is Created && r@->path == path@,
            ClientReply::Subscribed { replica_path } => r@ is Subscribed && r@->replica_path
                == replica_path@,
            ClientReply::Deregistered { existed } => r@ is Deregistered && r@->existed == existed,
            ClientReply::Channels { channels, cursor } => {
                &&& r@ is Channels
                &&& (r@->channels).len() == channels@.len()
                &&& forall|k: int|
                    0 <= k < channels@.len() ==> (r@->channels)[k] == (#[trigger] channels@[k])@
                &&& r@->cursor == cursor@
            },
            ClientReply::Status(status) => r@ is Status && r@->Status_0 == status,
            ClientReply::Error { message } => r@ is Error && r@->message == message@,
        },
{
}

/// Nothing of what is to be created, served, attached or detached is left out.
pub proof fn law_work_is_shown_whole(
    p: OriginPlan,
    s: ChannelSource,
    a: AttachStep,
    d: Departure,
    t: TopicMux,
    m: MemberInfo,
)
    ensures
        p@.identity == p.identity@,
        p@.dir == p.dir@,
        p@.path == p.path@,
        p@.file_roll_size == p.file_roll_size,
        p@.keep_files == p.keep_files,
        s@.path == s.path@,
        s@.region_size == s.region_size,
        s@.mtu == s.mtu,
        s@.file_roll_size == s.file_roll_size,
        s@.keep_files == s.keep_files,
        a@.topic == a.topic@,
        a@.name == a.name@,
        a@.epoch == a.epoch,
        a@.path == a.path@,
        a@.replica == a.replica,
        d@ == (d.topic@, d.name@, d.epoch),
        t@.serial == t.serial,
        t@.members.len() == t.members@.len(),
        forall|k: int|
            0 <= k < t.members@.len() ==> t@.members[k] == ((#[trigger] t.members@[k]).name@,
                t.members@[k].epoch),
        m@.name == m.name@,
        m@.epoch == m.epoch,
        m@.merged == m.merged,
        m@.head == m.head,
        m@.lag == m.lag,
        m@.rejected == m.rejected,
        m@.state == m.state,
{
}

/// Runs of things are shown one by one, in order.
pub proof fn law_runs_are_shown_one_by_one(
    ids: Seq<ChannelIdentity>,
    out: Seq<Dispatch>,
    log: Seq<ChannelChange>,
    names: Seq<String>,
    gone: Seq<Departure>,
    steps: Seq<AttachStep>,
    k: int,
)
    ensures
        crate::identity::models(ids).len() == ids.len(),
        0 <= k < ids.len() ==> crate::identity::models(ids)[k] == ids[k]@,
        crate::broadcast::dispatches(out).len() == out.len(),
        0 <= k < out.len() ==> crate::broadcast::dispatches(out)[k] == out[k]@,
        crate::wire::changes(log).len() == log.len(),
        0 <= k < log.len() ==> crate::wire::changes(log)[k] == log[k]@,
        crate::node::topics::texts(names).len() == names.len(),
        0 <= k < names.len() ==> crate::node::topics::texts(names)[k] == names[k]@,
        crate::node::topics::departures(gone).len() == gone.len(),
        0 <= k < gone.len() ==> crate::node::topics::departures(gone)[k] == gone[k]@,
        crate::node::topics::steps(steps).len() == steps.len(),
        0 <= k < steps.len() ==> crate::node::topics::steps(steps)[k] == steps[k]@,
{
}

// ---------------- listings ----------------
/// A listing of a map holds each of its keys once with its value, nothing else, and in the order of
/// the keys' bytes.
pub proof fn law_what_a_listing_holds<W>(
    list: Seq<(Seq<char>, W)>,
    map: Map<Seq<char>, W>,
    i: int,
    j: int,
    key: Seq<char>,
)
    requires
        crate::name_map::lists(list, map),
    ensures
        map.contains_key(key) <==> exists|n: int| 0 <= n < list.len() && (#[trigger] list[n]).0 == key,
        0 <= i < list.len() ==> map.contains_key(list[i].0) && map[list[i].0] == list[i].1,
        0 <= i < j < list.len() ==> crate::text::name_before(list[i].0, list[j].0) && list[i].0
            != list[j].0,
{
    if 0 <= i < j < list.len() {
        crate::text::lemma_name_before_irreflexive(list[i].0);
    }
}

/// A listing of the registry holds each of its entries once, nothing else, and in name order.
pub proof fn law_what_a_listing_of_the_registry_holds(
    list: Seq<crate::identity::IdentityModel>,
    m: crate::registry::Directory,
    i: int,
    j: int,
    key: Seq<char>,
)
    requires
        crate::registry::enumerates(list, m),
    ensures
        m.contains_key(key) <==> exists|n: int| 0 <= n < list.len() && (#[trigger] list[n]).name == key,
        0 <= i < list.len() ==> m.contains_key(list[i].name) && m[list[i].name] == list[i],
        0 <= i < j < list.len() ==> crate::text::name_before(list[i].name, list[j].name),
{
    let pairs = Seq::new(list.len(), |n: int| (list[n].name, list[n]));
    law_what_a_listing_holds(pairs, m, i, j, key);
    assert(forall|n: int| 0 <= n < list.len() ==> (#[trigger] pairs[n]).0 == list[n].name);
    if m.contains_key(key) {
        let n = choose|n: int| 0 <= n < pairs.len() && (#[trigger] pairs[n]).0 == key;
        assert(list[n].name == key);
    }
    if exists|n: int| 0 <= n < list.len() && (#[trigger] list[n]).name == key {
        let n = choose|n: int| 0 <= n < list.len() && (#[trigger] list[n]).name == key;
        assert(pairs[n].0 == key);
    }
}

// ---------------- acquaintances ----------------
/// After a heartbeat its sender is known as it introduced itself, as heard from at that moment, and as
/// not having left; of no other node is anything changed.
pub proof fn law_a_heartbeat_is_taken_at_its_word(
    known: Acquaintances,
    node: NodeId,
    addr: SocketAddr,
    control_addr: SocketAddr,
    name: Seq<char>,
    now: u64,
    other: NodeId,
)
    requires
        other != node,
    ensures
        ({
            let k = crate::membership::after_heartbeat(known, node, addr, control_addr, name, now);
            &&& k.contains_key(node)
            &&& k[node].addr == addr
            &&& k[node].control_addr == control_addr
            &&& k[node].name == name
            &&& k[node].heard_at == Some(now)
            &&& !k[node].departed
            &&& k.contains_key(other) == known.contains_key(other)
            &&& known.contains_key(other) ==> k[other] == known[other]
        }),
{
}

/// Hearsay makes a node known, or corrects what hearsay said of it before; of one that was heard from
/// directly it changes nothing. It never makes one count as heard from.
pub proof fn law_hearsay_yields_to_what_was_heard(
    known: Acquaintances,
    node: NodeId,
    addr: SocketAddr,
    control_addr: SocketAddr,
    name: Seq<char>,
    other: NodeId,
)
    requires
        other != node,
    ensures
        ({
            let k = crate::membership::after_hearsay(known, node, addr, control_addr, name);
            let heard = known.contains_key(node) && known[node].heard_at is Some;
            let same = known.contains_key(node) && known[node].addr == addr
                && known[node].control_addr == control_addr && known[node].name == name;
            &&& k.contains_key(node)
            &&& heard || same ==> k == known
            &&& !heard ==> k[node].addr == addr && k[node].control_addr == control_addr
                && k[node].name == name && k[node].heard_at is None
            &&& !heard && !same ==> !k[node].departed
            &&& k.contains_key(other) == known.contains_key(other)
            &&& known.contains_key(other) ==> k[other] == known[other]
        }),
{
}

/// A node that says it is leaving is remembered with everything known of it, but as having left; one
/// that is not known is not made known by it.
pub proof fn law_a_departure_is_remembered(known: Acquaintances, node: NodeId, other: NodeId)
    requires
        other != node,
    ensures
        ({
            let k = crate::membership::after_departure(known, node);
            &&& k.contains_key(node) == known.contains_key(node)
            &&& known.contains_key(node) ==> {
                &&& k[node].departed
                &&& k[node].addr == known[node].addr
                &&& k[node].control_addr == known[node].control_addr
                &&& k[node].name == known[node].name
                &&& k[node].heard_at == known[node].heard_at
            }
            &&& k.contains_key(other) == known.contains_key(other)
            &&& known.contains_key(other) ==> k[other] == known[other]
        }),
{
}

/// Something told of a node is news unless the node is known with just those addresses and that label.
pub proof fn law_what_is_news(
    known: Acquaintances,
    node: NodeId,
    addr: SocketAddr,
    control_addr: SocketAddr,
    name: Seq<char>,
)
    ensures
        !crate::membership::is_news(known, node, addr, control_addr, name) <==> known.contains_key(
            node,
        ) && known[node].addr == addr && known[node].control_addr == control_addr
            && known[node].name == name,
{
}

/// A node has a label exactly if it is known by a name that is not empty.
pub proof fn law_who_has_a_label(known: Acquaintances, node: NodeId)
    ensures
        crate::membership::label_name(known, node) is Some <==> known.contains_key(node)
            && known[node].name.len() > 0,
        crate::membership::label_name(known, node) is Some ==> crate::membership::label_name(
            known,
            node,
        )->0 == known[node].name,
{
}

/// Learning where a link leads changes that of that link, and nothing of any other.
pub proof fn law_only_the_link_heard_over_is_identified(
    peers: Seq<Link>,
    id: PeerId,
    node: NodeId,
    control_addr: SocketAddr,
    i: int,
)
    requires
        0 <= i < peers.len(),
    ensures
        ({
            let r = crate::broadcast::identified(peers, id, node, control_addr);
            &&& r.len() == peers.len()
            &&& r[i].id == peers[i].id
            &&& r[i].dialled == peers[i].dialled
            &&& peers[i].id == id ==> r[i].peer == Some((node, control_addr))
            &&& peers[i].id != id ==> r[i] == peers[i]
        }),
{
}

// ---------------- counting ----------------
/// A rebuild counts for its own cause and not for the other, and is the latest.
pub proof fn law_a_rebuild_counts_for_its_cause(s: RebuildStats, diverged: bool, now_ms: u64)
    ensures
        ({
            let r = s.with_rebuild(diverged, now_ms);
            &&& r.last_at_ms == now_ms
            &&& diverged ==> r.gap == s.gap
            &&& !diverged ==> r.diverged == s.diverged
            &&& diverged && s.diverged < u64::MAX ==> r.diverged == s.diverged + 1
            &&& !diverged && s.gap < u64::MAX ==> r.gap == s.gap + 1
        }),
{
}

/// A time of zero stands for none, and any other for itself.
pub proof fn law_zero_stands_for_no_time(ms: u64)
    ensures
        crate::subscription::since_epoch(ms) is None <==> ms == 0,
        ms > 0 ==> crate::subscription::since_epoch(ms) == Some(ms),
{
}

// ---------------- directories ----------------
/// A data directory holds channels exactly if there is a directory in it whose name begins with no
/// dot, and an identity exactly if there is anything in it called `.node_id`.
pub proof fn law_what_a_data_directory_holds(entries: Seq<crate::node::reconstruct::DirEntry>)
    ensures
        holds_channels(entries) <==> exists|i: int|
            {
                &&& 0 <= i < entries.len()
                &&& (#[trigger] entries[i]).is_dir
                &&& entries[i].name@.len() == 0 || entries[i].name@[0] != '.'
            },
        holds_identity(entries) <==> exists|i: int|
            0 <= i < entries.len() && (#[trigger] entries[i]).name@ == ".node_id"@,
{
    reveal_strlit(".");
    assert forall|i: int| 0 <= i < entries.len() implies ("."@.is_prefix_of(
        (#[trigger] entries[i]).name@,
    ) <==> entries[i].name@.len() > 0 && entries[i].name@[0] == '.') by {
        let n = entries[i].name@;
        if n.len() > 0 && n[0] == '.' {
            assert("."@ =~= n.subrange(0, 1));
        }
        if "."@.is_prefix_of(n) {
            assert(n.subrange(0, 1)[0] == '.');
        }
    }
}

} // verus!
