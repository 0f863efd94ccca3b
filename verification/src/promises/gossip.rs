//! Gossip: what a node makes of what it hears, and what it passes on.
use vstd::prelude::*;

use crate::addr::SocketAddr;
use crate::broadcast::{
    contested, dispatches, hint_relays, hint_values, needed, received, took_in, twins, unconnected,
    BroadcastDissemination, Link,
};
use crate::identity::{IdentityModel, NodeId};
use crate::membership::{Acquaintances, IntroductionModel, MemberModel};
use crate::node::maintenance::{tells, PumpState};
use crate::node::topics::without_all;
use crate::node::Node;
use crate::promises::discovery::{can_reach, describes};
use crate::promises::mesh::{is_not, its_id, law_recipients_are_the_other_links};
use crate::promises::sequences::{lemma_filter_map_last, lemma_filter_map_none};
use crate::registry::{merged_all, Directory};
use crate::wire::{ChangeModel, ControlModel, PeerId, NO_PEER};

verus! {

// ---------------- claims ----------------
/// Whether the claim `a` takes a name from `b`: a later generation over an earlier one; in one
/// generation a tombstone over a live claim; then the earlier registration; then the lower owner.
pub open spec fn outranks(a: IdentityModel, b: IdentityModel) -> bool {
    ||| a.epoch > b.epoch
    ||| a.epoch == b.epoch && a.deleted && !b.deleted
    ||| a.epoch == b.epoch && a.deleted == b.deleted && a.registered_at_nanos
        < b.registered_at_nanos
    ||| a.epoch == b.epoch && a.deleted == b.deleted && a.registered_at_nanos
        == b.registered_at_nanos && a.owner.0 < b.owner.0
}

/// Of two claims the one that outranks the other wins, whichever came first; otherwise the one that is
/// there stays.
pub proof fn law_the_higher_claim_wins(a: IdentityModel, b: IdentityModel)
    ensures
        crate::identity::beats(a, b) <==> outranks(a, b),
        crate::identity::winner(b, a) == if outranks(a, b) {
            a
        } else {
            b
        },
        crate::identity::rank(a) == crate::identity::rank(b) <==> !outranks(a, b) && !outranks(b, a),
{
}

/// Once claims have been merged, a name is held by one of them, or by whoever held it, and none of
/// them outranks the holder. A name that none of them is about is held as before.
pub proof fn law_the_best_claim_holds(m: Directory, ids: Seq<IdentityModel>, k: Seq<char>)
    ensures
        merged_all(m, ids).contains_key(k) <==> m.contains_key(k) || exists|i: int|
            0 <= i < ids.len() && (#[trigger] ids[i]).name == k,
        merged_all(m, ids).contains_key(k) ==> {
            ||| m.contains_key(k) && merged_all(m, ids)[k] == m[k]
            ||| exists|i: int|
                0 <= i < ids.len() && (#[trigger] ids[i]).name == k && merged_all(m, ids)[k]
                    == ids[i]
        },
        m.contains_key(k) ==> !outranks(m[k], merged_all(m, ids)[k]),
        forall|i: int|
            0 <= i < ids.len() && (#[trigger] ids[i]).name == k ==> !outranks(
                ids[i],
                merged_all(m, ids)[k],
            ),
    decreases ids.len(),
{
    if ids.len() > 0 {
        let front = ids.drop_last();
        let x = ids.last();
        law_the_best_claim_holds(m, front, k);
        let (was, is) = (merged_all(m, front), merged_all(m, ids));
        assert(ids[ids.len() - 1] == x);
        assert(forall|i: int| 0 <= i < front.len() ==> front[i] == ids[i]);
        if exists|i: int| 0 <= i < front.len() && (#[trigger] front[i]).name == k {
            let i = choose|i: int| 0 <= i < front.len() && (#[trigger] front[i]).name == k;
            assert(ids[i].name == k);
        }
        if was.contains_key(k) && !(m.contains_key(k) && was[k] == m[k]) {
            let i = choose|i: int|
                0 <= i < front.len() && (#[trigger] front[i]).name == k && was[k] == front[i];
            assert(ids[i].name == k && ids[i] == was[k]);
        }
        assert forall|i: int| 0 <= i < ids.len() && (#[trigger] ids[i]).name == k implies !outranks(
            ids[i],
            is[k],
        ) by {
            if i < front.len() {
                assert(front[i].name == k);
                assert(!outranks(front[i], was[k]));
            }
        }
    }
}

/// A name is free to claim at the first generation if never used, at the next if its last holder was
/// tombstoned, and at the present one while it is held.
pub proof fn law_which_generation_a_claim_is_of(m: Directory, name: Seq<char>)
    ensures
        !m.contains_key(name) ==> crate::registry::next_epoch(m, name) == 0,
        m.contains_key(name) && m[name].deleted ==> crate::registry::next_epoch(m, name)
            == m[name].epoch + 1,
        m.contains_key(name) && !m[name].deleted ==> crate::registry::next_epoch(m, name)
            == m[name].epoch,
        crate::registry::live_entry(m, name) is Some <==> m.contains_key(name) && !m[name].deleted,
        crate::registry::live_entry(m, name) is Some ==> crate::registry::live_entry(m, name)->0
            == m[name],
{
}

/// A tombstone says what the claim said, and that it is gone.
pub proof fn law_a_tombstone_keeps_everything_else(id: IdentityModel)
    ensures
        ({
            let t = crate::registry::tombstone_of(id);
            &&& t.deleted
            &&& t.name == id.name
            &&& t.owner == id.owner
            &&& t.epoch == id.epoch
            &&& t.registered_at_nanos == id.registered_at_nanos
            &&& t.region_size == id.region_size
            &&& t.mtu == id.mtu
            &&& t.earliest_index == id.earliest_index
            &&& t.member_of == id.member_of
        }),
{
}

// ---------------- hearing ----------------
/// What a node makes of a message. Registry entries wait, in order, with the link they came over. A
/// heartbeat makes its sender known as it says, and heard from now, and tells whom the link leads to.
/// Hearsay makes a node known that was never heard from. A departure is noted of a node that is known.
/// What was not known is passed on later, and nothing else is.
pub proof fn law_what_a_message_teaches(
    before: BroadcastDissemination,
    after: BroadcastDissemination,
    link: PeerId,
    msg: ControlModel,
    now: u64,
)
    requires
        took_in(before, after, link, msg, now),
    ensures
        after.outbox == before.outbox,
        after.connected == before.connected,
        after.next_peer_id == before.next_peer_id,
        match msg {
            ControlModel::RegistryDelta(ids) | ControlModel::RegistrySync(ids) => {
                &&& after.inbox@.len() == before.inbox@.len() + ids.len()
                &&& forall|i: int|
                    0 <= i < before.inbox@.len() ==> (#[trigger] after.inbox@[i])@
                        == before.inbox@[i]@
                &&& forall|i: int|
                    before.inbox@.len() <= i < after.inbox@.len() ==> (
                    #[trigger] after.inbox@[i]).from == link && after.inbox@[i].id@ == ids[i
                        - before.inbox@.len()]
                &&& after.membership == before.membership
                &&& after.peers == before.peers
                &&& after.hints == before.hints
            },
            ControlModel::Heartbeat(i) => {
                let m = before.membership@;
                let told = m.contains_key(i.node) && m[i.node].addr == i.addr
                    && m[i.node].control_addr == i.control_addr && m[i.node].name == i.name;
                &&& after.membership@ == m.insert(
                    i.node,
                    MemberModel {
                        addr: i.addr,
                        control_addr: i.control_addr,
                        name: i.name,
                        heard_at: Some(now),
                        departed: false,
                    },
                )
                &&& after.peers@.len() == before.peers@.len()
                &&& forall|j: int|
                    0 <= j < after.peers@.len() ==> {
                        let (a, b) = (#[trigger] after.peers@[j], before.peers@[j]);
                        &&& a.id == b.id
                        &&& a.dialled == b.dialled
                        &&& b.id == link ==> a.peer == Some((i.node, i.control_addr))
                        &&& b.id != link ==> a.peer == b.peer
                    }
                &&& after.hints@.len() == before.hints@.len() + if told {
                    0int
                } else {
                    1
                }
                &&& !told ==> after.hints@.last().from == link && after.hints@.last().about@ == i
                &&& forall|j: int|
                    0 <= j < before.hints@.len() ==> (#[trigger] after.hints@[j])@
                        == before.hints@[j]@
                &&& after.inbox == before.inbox
            },
            ControlModel::PeerHint(i) => {
                let m = before.membership@;
                let heard = m.contains_key(i.node) && m[i.node].heard_at is Some;
                let told = m.contains_key(i.node) && m[i.node].addr == i.addr
                    && m[i.node].control_addr == i.control_addr && m[i.node].name == i.name;
                let learned = !heard && !told;
                &&& after.membership@ == if learned {
                    m.insert(
                        i.node,
                        MemberModel {
                            addr: i.addr,
                            control_addr: i.control_addr,
                            name: i.name,
                            heard_at: None,
                            departed: false,
                        },
                    )
                } else {
                    m
                }
                &&& after.hints@.len() == before.hints@.len() + if learned {
                    1int
                } else {
                    0
                }
                &&& learned ==> after.hints@.last().from == link && after.hints@.last().about@ == i
                &&& forall|j: int|
                    0 <= j < before.hints@.len() ==> (#[trigger] after.hints@[j])@
                        == before.hints@[j]@
                &&& after.peers == before.peers
                &&& after.inbox == before.inbox
            },
            ControlModel::Leaving { node } => {
                let m = before.membership@;
                &&& after.membership@.dom() == m.dom()
                &&& forall|n: NodeId| #[trigger]
                    m.contains_key(n) ==> {
                        let (a, b) = (after.membership@[n], m[n]);
                        &&& a.addr == b.addr
                        &&& a.control_addr == b.control_addr
                        &&& a.name == b.name
                        &&& a.heard_at == b.heard_at
                        &&& a.departed == (b.departed || n == node)
                    }
                &&& after.peers == before.peers
                &&& after.hints == before.hints
                &&& after.inbox == before.inbox
            },
            ControlModel::Unexpected => after == before,
        },
{
    let (h0, h1) = (hint_values(before.hints@), hint_values(after.hints@));
    let (r0, r1) = (received(before.inbox@), received(after.inbox@));
    assert(h0.len() == before.hints@.len() && h1.len() == after.hints@.len());
    assert(r0.len() == before.inbox@.len() && r1.len() == after.inbox@.len());
    assert forall|j: int| 0 <= j < h1.len() implies h1[j] == (#[trigger] after.hints@[j])@ by {}
    assert forall|j: int| 0 <= j < h0.len() implies h0[j] == (#[trigger] before.hints@[j])@ by {}
    match msg {
        ControlModel::RegistryDelta(ids) | ControlModel::RegistrySync(ids) => {
            assert(r1 == r0 + crate::broadcast::tagged(link, ids));
            assert forall|i: int| 0 <= i < r0.len() implies (#[trigger] after.inbox@[i])@
                == before.inbox@[i]@ by {
                assert(r1[i] == r0[i]);
            }
            assert forall|i: int| r0.len() <= i < r1.len() implies (
            #[trigger] after.inbox@[i]).from == link && after.inbox@[i].id@ == ids[i
                - r0.len()] by {
                assert(r1[i] == crate::broadcast::tagged(link, ids)[i - r0.len()]);
                assert(r1[i] == after.inbox@[i]@);
            }
        },
        ControlModel::Heartbeat(i) => {
            assert forall|j: int| 0 <= j < h0.len() implies (#[trigger] after.hints@[j])@
                == before.hints@[j]@ by {
                assert(h1[j] == h0[j]);
            }
            if h1.len() > h0.len() {
                assert(h1[h0.len() as int] == (link, i));
                assert(after.hints@[h0.len() as int]@ == h1[h0.len() as int]);
            }
        },
        ControlModel::PeerHint(i) => {
            assert forall|j: int| 0 <= j < h0.len() implies (#[trigger] after.hints@[j])@
                == before.hints@[j]@ by {
                assert(h1[j] == h0[j]);
            }
            if h1.len() > h0.len() {
                assert(h1[h0.len() as int] == (link, i));
                assert(after.hints@[h0.len() as int]@ == h1[h0.len() as int]);
            }
        },
        ControlModel::Leaving { node } => {
            assert(after.membership@.dom() =~= before.membership@.dom());
        },
        ControlModel::Unexpected => {},
    }
}

// ---------------- passing on ----------------
pub open spec fn is_about_another(me: NodeId) -> spec_fn((PeerId, IntroductionModel)) -> bool {
    |h: (PeerId, IntroductionModel)| h.1.node != me
}

pub open spec fn to_the_others(peers: Seq<Link>) -> spec_fn((PeerId, IntroductionModel)) -> (
    Seq<PeerId>,
    ControlModel,
) {
    |h: (PeerId, IntroductionModel)|
        (peers.filter(is_not(h.0)).map_values(its_id()), ControlModel::PeerHint(h.1))
}

/// Everything learned is passed on, in order, to every link but the one it came over; except what is
/// about this node itself.
pub proof fn law_news_of_peers_is_passed_on(
    peers: Seq<Link>,
    me: NodeId,
    hints: Seq<(PeerId, IntroductionModel)>,
)
    ensures
        hint_relays(peers, me, hints) == hints.filter(is_about_another(me)).map_values(
            to_the_others(peers),
        ),
    decreases hints.len(),
{
    let (p, g) = (is_about_another(me), to_the_others(peers));
    if hints.len() > 0 {
        law_news_of_peers_is_passed_on(peers, me, hints.drop_last());
        lemma_filter_map_last(hints, p, g);
        law_recipients_are_the_other_links(peers, hints.last().0);
    } else {
        lemma_filter_map_none(hints, p, g);
    }
}

// ---------------- links ----------------
/// Whether `l` was dialled by that of its two ends that has the lower id.
pub open spec fn dialled_from_below(me: NodeId, l: Link) -> bool {
    (l.dialled is Some && me.0 < (l.peer->0).0.0) || (l.dialled is None && (l.peer->0).0.0 <= me.0)
}

/// Whether `a` leads to where `b` leads, and is to be kept rather than `b`: it was dialled by the lower
/// end and `b` was not, or both were or neither, and it is older.
pub open spec fn stands_before(me: NodeId, a: Link, b: Link) -> bool {
    &&& a.peer is Some
    &&& b.peer is Some
    &&& a.peer->0 == b.peer->0
    &&& {
        ||| dialled_from_below(me, a) && !dialled_from_below(me, b)
        ||| dialled_from_below(me, a) == dialled_from_below(me, b) && a.id < b.id
    }
}

pub open spec fn is_needed(me: NodeId, all: Seq<Link>) -> spec_fn(Link) -> bool {
    |l: Link| forall|i: int| 0 <= i < all.len() ==> !stands_before(me, #[trigger] all[i], l)
}

/// Of the links that lead to one node at one address, one is kept; a link that has not told where it
/// leads is always kept.
pub proof fn law_one_link_to_each_place_is_kept(me: NodeId, all: Seq<Link>, some: Seq<Link>)
    ensures
        needed(me, all, some) == some.filter(is_needed(me, all)),
    decreases some.len(),
{
    reveal(Seq::filter);
    if some.len() > 0 {
        law_one_link_to_each_place_is_kept(me, all, some.drop_last());
        let l = some.last();
        assert forall|i: int| 0 <= i < all.len() implies (crate::broadcast::preferred(
            me,
            #[trigger] all[i],
            l,
        ) <==> stands_before(me, all[i], l)) by {}
        if crate::broadcast::superfluous(me, all, l) {
            let i = choose|i: int|
                0 <= i < all.len() && crate::broadcast::preferred(me, #[trigger] all[i], l);
            assert(stands_before(me, all[i], l));
            assert(!is_needed(me, all)(l));
        } else {
            assert forall|i: int| 0 <= i < all.len() implies !stands_before(
                me,
                #[trigger] all[i],
                l,
            ) by {
                assert(!crate::broadcast::preferred(me, all[i], l));
            }
            assert(is_needed(me, all)(l));
        }
    }
}

/// An id is claimed twice exactly if two links give different control addresses for it, or if it is
/// this node's own and a link gives an address for it that is not this node's.
pub proof fn law_when_an_id_is_claimed_twice(
    peers: Seq<Link>,
    me: NodeId,
    mine: SocketAddr,
    node: NodeId,
)
    ensures
        contested(peers, me, mine, node) <==> {
            ||| exists|i: int, j: int|
                {
                    &&& 0 <= i < peers.len()
                    &&& 0 <= j < peers.len()
                    &&& (#[trigger] peers[i]).peer is Some
                    &&& (#[trigger] peers[j]).peer is Some
                    &&& (peers[i].peer->0).0 == node
                    &&& (peers[j].peer->0).0 == node
                    &&& (peers[i].peer->0).1 != (peers[j].peer->0).1
                }
            ||| node == me && exists|i: int|
                {
                    &&& 0 <= i < peers.len()
                    &&& (#[trigger] peers[i]).peer is Some
                    &&& (peers[i].peer->0).0 == node
                    &&& (peers[i].peer->0).1 != mine
                }
        },
{
    if contested(peers, me, mine, node) {
        let i = choose|i: int|
            0 <= i < peers.len() && crate::broadcast::contests(
                peers,
                me,
                mine,
                node,
                #[trigger] peers[i],
            );
        let at = (peers[i].peer->0).1;
        if !(node == me && at != mine) {
            let j = choose|j: int|
                0 <= j < peers.len() && crate::broadcast::claims_elsewhere(
                    #[trigger] peers[j],
                    node,
                    at,
                );
            assert((peers[i].peer->0).1 != (peers[j].peer->0).1);
        }
    }
    if exists|i: int, j: int|
        {
            &&& 0 <= i < peers.len()
            &&& 0 <= j < peers.len()
            &&& (#[trigger] peers[i]).peer is Some
            &&& (#[trigger] peers[j]).peer is Some
            &&& (peers[i].peer->0).0 == node
            &&& (peers[j].peer->0).0 == node
            &&& (peers[i].peer->0).1 != (peers[j].peer->0).1
        } {
        let (i, j) = choose|i: int, j: int|
            {
                &&& 0 <= i < peers.len()
                &&& 0 <= j < peers.len()
                &&& (#[trigger] peers[i]).peer is Some
                &&& (#[trigger] peers[j]).peer is Some
                &&& (peers[i].peer->0).0 == node
                &&& (peers[j].peer->0).0 == node
                &&& (peers[i].peer->0).1 != (peers[j].peer->0).1
            };
        assert(crate::broadcast::claims_elsewhere(peers[j], node, (peers[i].peer->0).1));
        assert(crate::broadcast::contests(peers, me, mine, node, peers[i]));
    }
    if node == me && exists|i: int|
        {
            &&& 0 <= i < peers.len()
            &&& (#[trigger] peers[i]).peer is Some
            &&& (peers[i].peer->0).0 == node
            &&& (peers[i].peer->0).1 != mine
        } {
        let i = choose|i: int|
            {
                &&& 0 <= i < peers.len()
                &&& (#[trigger] peers[i]).peer is Some
                &&& (peers[i].peer->0).0 == node
                &&& (peers[i].peer->0).1 != mine
            };
        assert(crate::broadcast::contests(peers, me, mine, node, peers[i]));
    }
}

pub open spec fn is_unlinked(me: NodeId, connected: Seq<SocketAddr>) -> spec_fn(
    (NodeId, MemberModel),
) -> bool {
    |e: (NodeId, MemberModel)| e.0 != me && !connected.contains(e.1.control_addr)
}

pub open spec fn its_place() -> spec_fn((NodeId, MemberModel)) -> (NodeId, SocketAddr) {
    |e: (NodeId, MemberModel)| (e.0, e.1.control_addr)
}

/// The peers to be linked are all that are known, but this node and those at an address that was
/// dialled already. A twin is this node's own id known at an address that is not this node's.
pub proof fn law_whom_there_is_to_link(
    list: Seq<(NodeId, MemberModel)>,
    me: NodeId,
    connected: Seq<SocketAddr>,
    known: Acquaintances,
    mine: SocketAddr,
    addr: SocketAddr,
)
    ensures
        unconnected(list, me, connected) == list.filter(is_unlinked(me, connected)).map_values(
            its_place(),
        ),
        twins(known, me, mine).contains(addr) <==> known.contains_key(me)
            && known[me].control_addr == addr && addr != mine,
        twins(known, me, mine).len() <= 1,
    decreases list.len(),
{
    let (p, g) = (is_unlinked(me, connected), its_place());
    if list.len() > 0 {
        law_whom_there_is_to_link(list.drop_last(), me, connected, known, mine, addr);
        lemma_filter_map_last(list, p, g);
    } else {
        lemma_filter_map_none(list, p, g);
    }
    if known.contains_key(me) && known[me].control_addr != mine {
        assert(twins(known, me, mine)[0] == known[me].control_addr);
    }
}

/// What begins a tick: a heartbeat that says who this node is goes over every link, then everything
/// learned is passed on, and nothing else is sent. Then only the links that are needed are kept, and
/// the ids claimed twice are found.
pub proof fn law_how_a_tick_begins(before: Node, after: Node, conflicts: Seq<NodeId>)
    requires
        Node::began_tick(before, after, conflicts),
    ensures
        ({
            let (d, e) = (before.dissemination, after.dissemination);
            let n = d.outbox@.len() as int;
            let relayed = hint_values(d.hints@).filter(is_about_another(d.self_node)).map_values(
                to_the_others(d.peers@),
            );
            &&& e.outbox@.len() == n + 1 + relayed.len()
            &&& forall|k: int| 0 <= k < n ==> (#[trigger] e.outbox@[k])@ == d.outbox@[k]@
            &&& e.outbox@[n].to@ == d.peers@.filter(is_not(NO_PEER)).map_values(its_id())
            &&& e.outbox@[n].msg@ == ControlModel::Heartbeat(
                IntroductionModel {
                    node: d.self_node,
                    addr: d.self_addr,
                    control_addr: d.self_control_addr,
                    name: d.self_name@,
                },
            )
            &&& forall|k: int|
                n < k < e.outbox@.len() ==> (#[trigger] e.outbox@[k])@ == relayed[k - n - 1]
            &&& e.hints@.len() == 0
            &&& e.peers@ == d.peers@.filter(is_needed(d.self_node, d.peers@))
            &&& e.membership == d.membership
            &&& e.connected == d.connected
            &&& e.inbox == d.inbox
            &&& forall|x: NodeId| #[trigger]
                conflicts.contains(x) <==> contested(
                    d.peers@,
                    d.self_node,
                    d.self_control_addr,
                    x,
                )
        }),
        after.registry == before.registry,
        after.subscriptions == before.subscriptions,
        after.conducted == before.conducted,
        after.discovery == before.discovery,
{
    let (d, e) = (before.dissemination, after.dissemination);
    let n = d.outbox@.len() as int;
    let (old, new) = (dispatches(d.outbox@), dispatches(e.outbox@));
    let hints = hint_values(d.hints@);
    law_news_of_peers_is_passed_on(d.peers@, d.self_node, hints);
    law_recipients_are_the_other_links(d.peers@, NO_PEER);
    law_one_link_to_each_place_is_kept(d.self_node, d.peers@, d.peers@);
    let relayed = hint_relays(d.peers@, d.self_node, hints);
    assert(new.len() == n + 1 + relayed.len());
    assert forall|k: int| 0 <= k < new.len() implies new[k] == (#[trigger] e.outbox@[k])@ by {}
    assert forall|k: int| 0 <= k < n implies (#[trigger] e.outbox@[k])@ == d.outbox@[k]@ by {
        assert(new[k] == old[k]);
    }
    assert(e.outbox@[n]@ == new[n]);
    assert forall|k: int| n < k < e.outbox@.len() implies (#[trigger] e.outbox@[k])@ == relayed[k - n
        - 1] by {
        assert(new[k] == relayed[k - n - 1]);
    }
}

// ---------------- merging ----------------
/// The claims among what was received.
pub open spec fn claims(all: Seq<(PeerId, IdentityModel)>) -> Seq<IdentityModel> {
    all.map(|i: int, e: (PeerId, IdentityModel)| e.1)
}

proof fn lemma_pump(node: Node, s: PumpState, all: Seq<(PeerId, IdentityModel)>, now: u64, k: Seq<char>)
    requires
        s.retired.len() == 0,
        s.changes.len() == 0,
    ensures
        ({
            let r = node.pump_all(s, all, now);
            &&& r.registry == merged_all(s.registry, claims(all))
            &&& r.retired.contains(k) ==> exists|i: int|
                0 <= i < all.len() && (#[trigger] all[i]).1.name == k
            &&& (exists|i: int| 0 <= i < all.len() && (#[trigger] all[i]).1.name == k)
                && r.registry[k].deleted ==> r.retired.contains(k)
            &&& r.retired.contains(k) ==> {
                ||| s.registry.contains_key(k) && s.registry[k].deleted
                ||| exists|i: int|
                    0 <= i < all.len() && (#[trigger] all[i]).1.name == k && all[i].1.deleted
            }
            &&& forall|c: int|
                0 <= c < r.changes.len() ==> exists|i: int|
                    0 <= i < all.len() && #[trigger] r.changes[c] == node.change_value(
                        (#[trigger] all[i]).1,
                        now,
                    )
        }),
    decreases all.len(),
{
    crate::node::maintenance::law_a_pump_merges_everything(node, s, all, now);
    if all.len() > 0 {
        let front = all.drop_last();
        let x = all.last();
        lemma_pump(node, s, front, now, k);
        crate::node::maintenance::law_a_pump_merges_everything(node, s, front, now);
        let (b, r) = (node.pump_all(s, front, now), node.pump_all(s, all, now));
        crate::broadcast::lemma_push_contains(b.retired, x.1.name);
        law_the_best_claim_holds(s.registry, claims(all), k);
        assert(all[all.len() - 1] == x);
        assert(forall|i: int| 0 <= i < front.len() ==> front[i] == all[i]);
        assert(claims(all).drop_last() =~= claims(front));
        if b.retired.contains(k) {
            let i = choose|i: int| 0 <= i < front.len() && (#[trigger] front[i]).1.name == k;
            assert(all[i].1.name == k);
            if !(s.registry.contains_key(k) && s.registry[k].deleted) {
                let j = choose|j: int|
                    0 <= j < front.len() && (#[trigger] front[j]).1.name == k && front[j].1.deleted;
                assert(all[j].1.name == k && all[j].1.deleted);
            }
        }
        if x.1.name == k && r.registry[k].deleted {
            if !(s.registry.contains_key(k) && r.registry[k] == s.registry[k]) {
                let c = claims(all);
                let i = choose|i: int|
                    0 <= i < c.len() && (#[trigger] c[i]).name == k && r.registry[k] == c[i];
                assert(all[i].1 == c[i]);
                assert(all[i].1.name == k && all[i].1.deleted);
            }
        }
        if x.1.name != k {
            assert(r.registry[k] == b.registry[k]);
            if exists|i: int| 0 <= i < all.len() && (#[trigger] all[i]).1.name == k {
                let i = choose|i: int| 0 <= i < all.len() && (#[trigger] all[i]).1.name == k;
                assert(front[i].1.name == k);
            }
        }
        assert forall|c: int| 0 <= c < r.changes.len() implies exists|i: int|
            0 <= i < all.len() && #[trigger] r.changes[c] == node.change_value(
                (#[trigger] all[i]).1,
                now,
            ) by {
            if c < b.changes.len() {
                assert(r.changes[c] == b.changes[c]);
                let i = choose|i: int|
                    0 <= i < front.len() && #[trigger] b.changes[c] == node.change_value(
                        (#[trigger] front[i]).1,
                        now,
                    );
                assert(r.changes[c] == node.change_value(all[i].1, now));
            } else {
                assert(r.changes[c] == node.change_value(all[all.len() - 1].1, now));
            }
        }
    }
}

/// Where the entry that holds `k` in the end came in, if it was not there before.
proof fn lemma_came_in(
    node: Node,
    s: PumpState,
    all: Seq<(PeerId, IdentityModel)>,
    now: u64,
    k: Seq<char>,
) -> (i: int)
    requires
        ({
            let r = node.pump_all(s, all, now).registry;
            r.contains_key(k) && !(s.registry.contains_key(k) && s.registry[k] == r[k])
        }),
    ensures
        0 <= i < all.len(),
        all[i].1 == node.pump_all(s, all, now).registry[k],
        crate::registry::moves(node.pump_all(s, all.take(i), now).registry, all[i].1),
    decreases all.len(),
{
    if all.len() == 0 {
        0
    } else {
        let front = all.drop_last();
        let b = node.pump_all(s, front, now).registry;
        let x = all.last().1;
        if crate::registry::moves(b, x) && x.name == k {
            assert(all.take(all.len() - 1) =~= front);
            all.len() - 1
        } else {
            let i = lemma_came_in(node, s, front, now, k);
            assert(all.take(i) =~= front.take(i));
            i
        }
    }
}

/// What merging everything received comes to. Each name is held by the best claim to it. Whoever holds
/// a name anew is told to every link but the one it was heard over. Whoever claimed a name that an
/// entry here outranks is told, over its own link, of a claim that does. A subscription for a name that
/// turned out to be tombstoned is over, and no other is touched. What is published describes what was
/// received.
pub proof fn law_what_merging_comes_to(before: Node, after: Node, now: u64, k: Seq<char>)
    requires
        Node::absorbed(before, after, now),
        crate::registry::well_named(before.registry@),
    ensures
        ({
            let (d, e) = (before.dissemination, after.dissemination);
            let n = d.outbox@.len() as int;
            let heard = d.inbox@;
            let about = exists|i: int| 0 <= i < heard.len() && (#[trigger] heard[i]).id@.name == k;
            &&& after.registry@.contains_key(k) <==> before.registry@.contains_key(k) || about
            &&& after.registry@.contains_key(k) ==> {
                ||| before.registry@.contains_key(k) && after.registry@[k] == before.registry@[k]
                ||| exists|i: int|
                    0 <= i < heard.len() && (#[trigger] heard[i]).id@ == after.registry@[k]
            }
            &&& before.registry@.contains_key(k) ==> !outranks(
                before.registry@[k],
                after.registry@[k],
            )
            &&& forall|i: int|
                0 <= i < heard.len() && (#[trigger] heard[i]).id@.name == k ==> !outranks(
                    heard[i].id@,
                    after.registry@[k],
                )
            &&& after.registry@.contains_key(k) && !(before.registry@.contains_key(k)
                && before.registry@[k] == after.registry@[k]) ==> exists|j: int, i: int|
                {
                    &&& n <= j < e.outbox@.len()
                    &&& 0 <= i < heard.len()
                    &&& (#[trigger] heard[i]).id@ == after.registry@[k]
                    &&& (#[trigger] e.outbox@[j]).to@ == d.peers@.filter(
                        is_not(heard[i].from),
                    ).map_values(its_id())
                    &&& e.outbox@[j].msg@ is RegistryDelta
                    &&& (e.outbox@[j].msg@->RegistryDelta_0).contains(after.registry@[k])
                }
            &&& forall|i: int|
                {
                    &&& 0 <= i < heard.len()
                    &&& (#[trigger] heard[i]).id@.name == k
                    &&& before.registry@.contains_key(k)
                    &&& outranks(before.registry@[k], heard[i].id@)
                } ==> exists|j: int, w: IdentityModel|
                    {
                        &&& n <= j < e.outbox@.len()
                        &&& (#[trigger] e.outbox@[j]).to@ == seq![heard[i].from]
                        &&& e.outbox@[j].msg@ is RegistryDelta
                        &&& #[trigger] (e.outbox@[j].msg@->RegistryDelta_0).contains(w)
                        &&& w.name == k
                        &&& outranks(w, heard[i].id@)
                    }
            &&& forall|j: int| 0 <= j < n ==> (#[trigger] e.outbox@[j])@ == d.outbox@[j]@
            &&& e.inbox@.len() == 0
            &&& e.membership == d.membership
            &&& e.peers == d.peers
            &&& e.connected == d.connected
            &&& about && after.registry@[k].deleted ==> !after.subscriptions@.contains_key(k)
                && !after.attach_backoff@.contains_key(k)
            &&& !after.subscriptions@.contains_key(k) && before.subscriptions@.contains_key(k) ==> {
                ||| before.registry@.contains_key(k) && before.registry@[k].deleted && about
                ||| exists|i: int|
                    0 <= i < heard.len() && (#[trigger] heard[i]).id@.name == k
                        && heard[i].id@.deleted
            }
            &&& after.subscriptions@.contains_key(k) ==> before.subscriptions@.contains_key(k)
                && after.subscriptions@[k] == before.subscriptions@[k]
        }),
        ({
            let m = before.discovery@.len() as int;
            let heard = before.dissemination.inbox@;
            &&& forall|c: int|
                0 <= c < m ==> (#[trigger] after.discovery@[c])@ == before.discovery@[c]@
            &&& forall|c: int|
                m <= c < after.discovery@.len() ==> exists|i: int|
                    {
                        let (x, id) = ((#[trigger] after.discovery@[c])@, (
                        #[trigger] heard[i]).id@);
                        &&& 0 <= i < heard.len()
                        &&& id.deleted ==> x == (ChangeModel::Removed {
                            name: id.name,
                            epoch: id.epoch,
                        })
                        &&& !id.deleted ==> x is Upserted && describes(
                            x->Upserted_0,
                            id,
                            can_reach(before, id.owner, now),
                        )
                    }
        }),
{
    let (d, e) = (before.dissemination, after.dissemination);
    let n = d.outbox@.len() as int;
    let heard = d.inbox@;
    let all = received(heard);
    let s = before.pump_start();
    let r = before.pump_all(s, all, now);
    let cl = claims(all);
    lemma_pump(before, s, all, now, k);
    law_the_best_claim_holds(before.registry@, cl, k);
    assert(all.len() == heard.len() && cl.len() == heard.len());
    assert forall|i: int| 0 <= i < heard.len() implies all[i] == (
        (#[trigger] heard[i]).from,
        heard[i].id@,
    ) && cl[i] == heard[i].id@ by {}
    if exists|i: int| 0 <= i < cl.len() && (#[trigger] cl[i]).name == k {
        let i = choose|i: int| 0 <= i < cl.len() && (#[trigger] cl[i]).name == k;
        assert(heard[i].id@.name == k);
    }
    if exists|i: int| 0 <= i < heard.len() && (#[trigger] heard[i]).id@.name == k {
        let i = choose|i: int| 0 <= i < heard.len() && (#[trigger] heard[i]).id@.name == k;
        assert(cl[i].name == k);
        assert(all[i].1.name == k);
    }
    if r.registry.contains_key(k) && !(before.registry@.contains_key(k) && r.registry[k]
        == before.registry@[k]) {
        let i = choose|i: int|
            0 <= i < cl.len() && (#[trigger] cl[i]).name == k && r.registry[k] == cl[i];
        assert(heard[i].id@ == r.registry[k]);
    }
    assert forall|i: int| 0 <= i < heard.len() && (#[trigger] heard[i]).id@.name == k implies !outranks(
        heard[i].id@,
        after.registry@[k],
    ) by {
        assert(cl[i].name == k);
    }
    // What is sent.
    let (old, new) = (dispatches(d.outbox@), dispatches(e.outbox@));
    let (rel, rep) = (
        crate::node::maintenance::relays(d, r.relay),
        crate::node::maintenance::replies(r.reply),
    );
    assert(new.len() == n + rel.len() + rep.len());
    assert forall|j: int| 0 <= j < new.len() implies new[j] == (#[trigger] e.outbox@[j])@ by {}
    assert forall|j: int| 0 <= j < n implies (#[trigger] e.outbox@[j])@ == d.outbox@[j]@ by {
        assert(new[j] == old[j]);
    }
    if after.registry@.contains_key(k) && !(before.registry@.contains_key(k)
        && before.registry@[k] == after.registry@[k]) {
        let i = lemma_came_in(before, s, all, now, k);
        crate::node::maintenance::law_news_travels_and_losers_are_answered(before, s, all, i, now);
        let from = all[i].0;
        let g = choose|g: int|
            0 <= g < r.relay.len() && (#[trigger] r.relay[g]).0 == from && r.relay[g].1.contains(
                all[i].1,
            );
        let j = n + g;
        assert(new[j] == rel[g]);
        law_recipients_are_the_other_links(d.peers@, from);
        assert(heard[i].id@ == after.registry@[k]);
        assert(e.outbox@[j]@ == new[j]);
    }
    assert forall|i: int|
        {
            &&& 0 <= i < heard.len()
            &&& (#[trigger] heard[i]).id@.name == k
            &&& before.registry@.contains_key(k)
            &&& outranks(before.registry@[k], heard[i].id@)
        } implies exists|j: int, w: IdentityModel|
        {
            &&& n <= j < e.outbox@.len()
            &&& (#[trigger] e.outbox@[j]).to@ == seq![heard[i].from]
            &&& e.outbox@[j].msg@ is RegistryDelta
            &&& #[trigger] (e.outbox@[j].msg@->RegistryDelta_0).contains(w)
            &&& w.name == k
            &&& outranks(w, heard[i].id@)
        } by {
        let (from, id) = all[i];
        let part = all.take(i);
        lemma_pump(before, s, part, now, k);
        law_the_best_claim_holds(before.registry@, claims(part), k);
        let met = before.pump_all(s, part, now).registry;
        crate::node::maintenance::law_news_travels_and_losers_are_answered(before, s, all, i, now);
        let w = met[k];
        assert(!outranks(before.registry@[k], w));
        assert(outranks(w, id));
        assert(crate::registry::merged(met, id)[k] == w);
        if !(w == before.registry@[k]) {
            let c = claims(part);
            let h = choose|h: int| 0 <= h < c.len() && (#[trigger] c[h]).name == k && w == c[h];
            assert(w.name == k);
        }
        assert(tells(r.reply, from, w));
        let g = choose|g: int|
            0 <= g < r.reply.len() && (#[trigger] r.reply[g]).0 == from && r.reply[g].1.contains(w);
        let j = n + rel.len() + g;
        assert(new[j] == rep[g]);
        assert(e.outbox@[j]@ == new[j]);
        assert((e.outbox@[j].msg@->RegistryDelta_0).contains(w));
    }
    // Subscriptions.
    crate::promises::topics::law_only_the_named_subscriptions_end(
        before.subscriptions@,
        before.conducted@,
        r.retired,
    );
    let (subs, cond) = without_all(before.subscriptions@, before.conducted@, r.retired);
    assert(subs == after.subscriptions@);
    assert(subs.contains_key(k) <==> before.subscriptions@.contains_key(k) && !r.retired.contains(k));
    if r.retired.contains(k) {
        assert(r.retired.to_set().contains(k));
        let i = choose|i: int| 0 <= i < all.len() && (#[trigger] all[i]).1.name == k;
        assert(heard[i].id@.name == k);
        if !(before.registry@.contains_key(k) && before.registry@[k].deleted) {
            let j = choose|j: int|
                0 <= j < all.len() && (#[trigger] all[j]).1.name == k && all[j].1.deleted;
            assert(heard[j].id@.name == k && heard[j].id@.deleted);
        }
    }
    // What is published.
    let (c0, c1) = (crate::wire::changes(before.discovery@), crate::wire::changes(after.discovery@));
    let m = before.discovery@.len() as int;
    assert(c1 == c0 + r.changes);
    assert forall|c: int| 0 <= c < m implies (#[trigger] after.discovery@[c])@
        == before.discovery@[c]@ by {
        assert(c1[c] == c0[c]);
    }
    assert forall|c: int| m <= c < after.discovery@.len() implies exists|i: int|
        {
            let (x, id) = ((#[trigger] after.discovery@[c])@, (#[trigger] heard[i]).id@);
            &&& 0 <= i < heard.len()
            &&& id.deleted ==> x == (ChangeModel::Removed { name: id.name, epoch: id.epoch })
            &&& !id.deleted ==> x is Upserted && describes(
                x->Upserted_0,
                id,
                can_reach(before, id.owner, now),
            )
        } by {
        let x = after.discovery@[c]@;
        assert(x == c1[c] && c1[c] == r.changes[c - m]);
        let i = choose|i: int|
            0 <= i < all.len() && #[trigger] r.changes[c - m] == before.change_value(
                (#[trigger] all[i]).1,
                now,
            );
        crate::promises::discovery::law_a_change_describes_its_entry(before, all[i].1, now);
        assert(heard[i].id@ == all[i].1);
    }
}

} // verus!
