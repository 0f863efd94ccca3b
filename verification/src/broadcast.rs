//! Dissemination: eager broadcast, join-time anti-entropy, and heartbeat liveness.
//!
//! On a local registry change a delta goes to every peer; on a new link the whole registry goes to
//! that peer, then a heartbeat, then an introduction to everyone known. Nothing here touches a
//! socket: what is to be sent collects in `outbox`, and what was received is handed to
//! [`receive`](BroadcastDissemination::receive).
use vstd::prelude::*;

use crate::addr::SocketAddr;
use crate::identity::{ChannelIdentity, IdentityModel, NodeId};
use crate::membership::{Acquaintances, Introduction, IntroductionModel, MemberModel, Membership};
use crate::time::Duration;
use crate::wire::{ControlModel, ControlMsg, PeerId, NO_PEER};

verus! {

/// A link to a peer.
#[derive(Clone, Copy, PartialEq, Eq, Debug)]
pub struct Link {
    pub id: PeerId,
    /// The address this node dialled; `None` if the peer dialled us.
    pub dialled: Option<SocketAddr>,
    /// Who has sent heartbeats over it, and the control address it gave.
    pub peer: Option<(NodeId, SocketAddr)>,
}

/// A message and the links it is to be sent over.
pub struct Dispatch {
    pub to: Vec<PeerId>,
    pub msg: ControlMsg,
}

impl View for Dispatch {
    type V = (Seq<PeerId>, ControlModel);

    open spec fn view(&self) -> (Seq<PeerId>, ControlModel) {
        (self.to@, self.msg@)
    }
}

/// The values of a run of dispatches.
pub open spec fn dispatches(list: Seq<Dispatch>) -> Seq<(Seq<PeerId>, ControlModel)> {
    Seq::new(list.len(), |i: int| list[i]@)
}

/// Peer knowledge worth passing on, and the link it came over.
pub struct Hint {
    pub from: PeerId,
    pub about: Introduction,
}

impl View for Hint {
    type V = (PeerId, IntroductionModel);

    open spec fn view(&self) -> (PeerId, IntroductionModel) {
        (self.from, self.about@)
    }
}

pub open spec fn hint_values(list: Seq<Hint>) -> Seq<(PeerId, IntroductionModel)> {
    Seq::new(list.len(), |i: int| list[i]@)
}

/// A registry entry that was received, and the link it came over.
pub struct Received {
    pub from: PeerId,
    pub id: ChannelIdentity,
}

impl View for Received {
    type V = (PeerId, IdentityModel);

    open spec fn view(&self) -> (PeerId, IdentityModel) {
        (self.from, self.id@)
    }
}

pub open spec fn received(list: Seq<Received>) -> Seq<(PeerId, IdentityModel)> {
    Seq::new(list.len(), |i: int| list[i]@)
}

/// Each of `ids`, tagged with the link `from`.
pub open spec fn tagged(from: PeerId, ids: Seq<IdentityModel>) -> Seq<(PeerId, IdentityModel)> {
    Seq::new(ids.len(), |i: int| (from, ids[i]))
}

/// The ids of `peers` but for `except`, in order.
pub open spec fn recipients(peers: Seq<Link>, except: PeerId) -> Seq<PeerId>
    decreases peers.len(),
{
    if peers.len() == 0 {
        Seq::empty()
    } else if peers.last().id == except {
        recipients(peers.drop_last(), except)
    } else {
        recipients(peers.drop_last(), except).push(peers.last().id)
    }
}

/// The introductions, one each, to the nodes of `list` but for `me`, sent over the link `id`.
pub open spec fn introductions(
    id: PeerId,
    me: NodeId,
    list: Seq<(NodeId, MemberModel)>,
) -> Seq<(Seq<PeerId>, ControlModel)>
    decreases list.len(),
{
    if list.len() == 0 {
        Seq::empty()
    } else if list.last().0 == me {
        introductions(id, me, list.drop_last())
    } else {
        introductions(id, me, list.drop_last()).push(
            (
                seq![id],
                ControlModel::PeerHint(crate::membership::introduction_of(list.last())),
            ),
        )
    }
}

/// What passing on `hints` sends: each that is not about `me`, to every peer but its source.
pub open spec fn hint_relays(
    peers: Seq<Link>,
    me: NodeId,
    hints: Seq<(PeerId, IntroductionModel)>,
) -> Seq<(Seq<PeerId>, ControlModel)>
    decreases hints.len(),
{
    if hints.len() == 0 {
        Seq::empty()
    } else if hints.last().1.node == me {
        hint_relays(peers, me, hints.drop_last())
    } else {
        hint_relays(peers, me, hints.drop_last()).push(
            (recipients(peers, hints.last().0), ControlModel::PeerHint(hints.last().1)),
        )
    }
}

/// The known nodes of `list`, but for `me` and those at an address in `connected`, with their
/// control addresses.
pub open spec fn unconnected(
    list: Seq<(NodeId, MemberModel)>,
    me: NodeId,
    connected: Seq<SocketAddr>,
) -> Seq<(NodeId, SocketAddr)>
    decreases list.len(),
{
    if list.len() == 0 {
        Seq::empty()
    } else {
        let rest = unconnected(list.drop_last(), me, connected);
        let (node, m) = list.last();
        if node != me && !connected.contains(m.control_addr) {
            rest.push((node, m.control_addr))
        } else {
            rest
        }
    }
}

/// Whether `link` was dialled by the end with the lower node id.
pub open spec fn dialled_by_lower(me: NodeId, link: Link) -> bool {
    link.peer matches Some((node, _)) && (link.dialled is Some) == (me.0 < node.0)
}

/// Whether `a` makes `b` superfluous: both lead to the same node at the same address, and `a` is the
/// one to keep, which is the one dialled by the lower node id, or else the older.
pub open spec fn preferred(me: NodeId, a: Link, b: Link) -> bool {
    &&& a.peer is Some
    &&& a.peer == b.peer
    &&& if dialled_by_lower(me, a) != dialled_by_lower(me, b) {
        dialled_by_lower(me, a)
    } else {
        a.id < b.id
    }
}

/// Whether some link in `peers` makes `link` superfluous.
pub open spec fn superfluous(me: NodeId, peers: Seq<Link>, link: Link) -> bool {
    exists|i: int| 0 <= i < peers.len() && preferred(me, #[trigger] peers[i], link)
}

/// The links of `some` that none of `all` makes superfluous, in order.
pub open spec fn needed(me: NodeId, all: Seq<Link>, some: Seq<Link>) -> Seq<Link>
    decreases some.len(),
{
    if some.len() == 0 {
        Seq::empty()
    } else if superfluous(me, all, some.last()) {
        needed(me, all, some.drop_last())
    } else {
        needed(me, all, some.drop_last()).push(some.last())
    }
}

/// Whether two machines claim `node`: two links give different control addresses for it, or it is
/// this node and a link gives an address for it that is not this node's own.
pub open spec fn contested(
    peers: Seq<Link>,
    me: NodeId,
    my_addr: SocketAddr,
    node: NodeId,
) -> bool {
    contested_before(peers, me, my_addr, node, peers.len() as int)
}

/// Whether one of the first `k` links shows `node` to be claimed by two machines.
pub open spec fn contested_before(
    peers: Seq<Link>,
    me: NodeId,
    my_addr: SocketAddr,
    node: NodeId,
    k: int,
) -> bool {
    exists|i: int| 0 <= i < k && contests(peers, me, my_addr, node, #[trigger] peers[i])
}

proof fn lemma_contested_next(
    peers: Seq<Link>,
    me: NodeId,
    my_addr: SocketAddr,
    node: NodeId,
    k: int,
)
    requires
        0 <= k < peers.len(),
    ensures
        contested_before(peers, me, my_addr, node, k + 1) <==> contested_before(
            peers,
            me,
            my_addr,
            node,
            k,
        ) || contests(peers, me, my_addr, node, peers[k]),
{
    if contested_before(peers, me, my_addr, node, k) {
        let i = choose|i: int|
            0 <= i < k && contests(peers, me, my_addr, node, #[trigger] peers[i]);
        assert(contests(peers, me, my_addr, node, peers[i]));
    }
    if contests(peers, me, my_addr, node, peers[k]) {
        assert(0 <= k < k + 1);
    }
}

/// Whether the link `l` shows `node` to be claimed by two machines.
pub open spec fn contests(
    peers: Seq<Link>,
    me: NodeId,
    my_addr: SocketAddr,
    node: NodeId,
    l: Link,
) -> bool {
    &&& l.peer matches Some((n, at)) && n == node && ((n == me && at != my_addr) || exists|j: int|
        0 <= j < peers.len() && claims_elsewhere(#[trigger] peers[j], n, at))
}

/// Whether `l` leads to `node` at an address other than `at`.
pub open spec fn claims_elsewhere(l: Link, node: NodeId, at: SocketAddr) -> bool {
    l.peer matches Some((n, a)) && n == node && a != at
}

/// Eager-broadcast dissemination over a set of peer links.
pub struct BroadcastDissemination {
    pub self_node: NodeId,
    /// The stream address this node advertises.
    pub self_addr: SocketAddr,
    /// The control address this node advertises.
    pub self_control_addr: SocketAddr,
    pub self_name: String,
    /// A node is live if it was heard from within this.
    pub liveness_timeout: Duration,
    pub peers: Vec<Link>,
    pub next_peer_id: PeerId,
    /// Peer knowledge to pass on at the next tick.
    pub hints: Vec<Hint>,
    /// Registry entries received and not yet pumped.
    pub inbox: Vec<Received>,
    pub membership: Membership,
    /// Dialled addresses whose links are believed to be up.
    pub connected: Vec<SocketAddr>,
    /// What is to be sent, in order.
    pub outbox: Vec<Dispatch>,
}

impl BroadcastDissemination {
    pub fn new(self_node: NodeId, self_addr: SocketAddr, liveness_timeout: Duration) -> (d: Self)
        ensures
            d.self_node == self_node,
            d.self_addr == self_addr,
            d.self_control_addr == self_addr,
            d.self_name@ == Seq::<char>::empty(),
            d.liveness_timeout == liveness_timeout,
            d.peers@ == Seq::<Link>::empty(),
            d.next_peer_id == NO_PEER + 1,
            d.hints@.len() == 0,
            d.inbox@.len() == 0,
            d.membership@ == Map::<NodeId, MemberModel>::empty(),
            d.connected@ == Seq::<SocketAddr>::empty(),
            d.outbox@.len() == 0,
    {
        BroadcastDissemination {
            self_node,
            self_addr,
            self_control_addr: self_addr,
            self_name: String::new(),
            liveness_timeout,
            peers: Vec::new(),
            next_peer_id: NO_PEER + 1,
            hints: Vec::new(),
            inbox: Vec::new(),
            membership: Membership::new(),
            connected: Vec::new(),
            outbox: Vec::new(),
        }
    }

    /// Sets the stream address that peers are told, once it is known where the plane is bound.
    pub fn set_self_addr(&mut self, addr: SocketAddr)
        ensures
            *final(self) == (BroadcastDissemination { self_addr: addr, ..*old(self) }),
    {
        self.self_addr = addr;
    }

    /// Sets the control address that peers are told: one that takes their links.
    pub fn set_self_control_addr(&mut self, addr: SocketAddr)
        ensures
            *final(self) == (BroadcastDissemination { self_control_addr: addr, ..*old(self) }),
    {
        self.self_control_addr = addr;
    }

    /// Sets the label that peers are told.
    pub fn set_self_name(&mut self, name: String)
        ensures
            *final(self) == (BroadcastDissemination { self_name: name, ..*old(self) }),
    {
        self.self_name = name;
    }

    /// This node, as its heartbeats introduce it.
    pub open spec fn introduction(&self) -> IntroductionModel {
        IntroductionModel {
            node: self.self_node,
            addr: self.self_addr,
            control_addr: self.self_control_addr,
            name: self.self_name@,
        }
    }

    fn heartbeat(&self) -> (msg: ControlMsg)
        ensures
            msg@ == ControlModel::Heartbeat(self.introduction()),
    {
        ControlMsg::Heartbeat(
            Introduction {
                node: self.self_node,
                addr: self.self_addr,
                control_addr: self.self_control_addr,
                name: self.self_name.clone(),
            },
        )
    }

    /// The peers of this node but for `except`.
    fn others(&self, except: PeerId) -> (to: Vec<PeerId>)
        ensures
            to@ == recipients(self.peers@, except),
    {
        let mut to: Vec<PeerId> = Vec::new();
        let mut i: usize = 0;
        assert(self.peers@.take(0) =~= Seq::<Link>::empty());
        while i < self.peers.len()
            invariant
                i <= self.peers@.len(),
                to@ == recipients(self.peers@.take(i as int), except),
            decreases self.peers@.len() - i,
        {
            proof {
                assert(self.peers@.take(i + 1).drop_last() =~= self.peers@.take(i as int));
                assert(self.peers@.take(i + 1).last() == self.peers@[i as int]);
            }
            if self.peers[i].id != except {
                to.push(self.peers[i].id);
            }
            i = i + 1;
        }
        assert(self.peers@.take(i as int) =~= self.peers@);
        to
    }

    /// Queues `msg` to be sent to every peer but `from`.
    fn send_except(&mut self, from: PeerId, msg: ControlMsg)
        ensures
            dispatches(final(self).outbox@) == dispatches(old(self).outbox@).push(
                (recipients(old(self).peers@, from), msg@),
            ),
            *final(self) == (BroadcastDissemination {
                outbox: final(self).outbox,
                ..*old(self)
            }),
    {
        let to = self.others(from);
        let ghost before = dispatches(self.outbox@);
        self.outbox.push(Dispatch { to, msg });
        assert(dispatches(self.outbox@) =~= before.push((recipients(old(self).peers@, from), msg@)));
    }

    /// Queues a heartbeat to every peer.
    pub fn emit_heartbeat(&mut self)
        ensures
            dispatches(final(self).outbox@) == dispatches(old(self).outbox@).push(
                (
                    recipients(old(self).peers@, NO_PEER),
                    ControlModel::Heartbeat(old(self).introduction()),
                ),
            ),
            *final(self) == (BroadcastDissemination {
                outbox: final(self).outbox,
                ..*old(self)
            }),
    {
        let msg = self.heartbeat();
        self.send_except(NO_PEER, msg);
    }

    /// Queues word to every peer that this node is shutting down.
    pub fn announce_leaving(&mut self)
        ensures
            dispatches(final(self).outbox@) == dispatches(old(self).outbox@).push(
                (
                    recipients(old(self).peers@, NO_PEER),
                    ControlModel::Leaving { node: old(self).self_node },
                ),
            ),
            *final(self) == (BroadcastDissemination {
                outbox: final(self).outbox,
                ..*old(self)
            }),
    {
        let node = self.self_node;
        self.send_except(NO_PEER, ControlMsg::Leaving { node });
    }

    /// Queues `delta` to every peer.
    pub fn announce(&mut self, delta: Vec<ChannelIdentity>)
        ensures
            dispatches(final(self).outbox@) == dispatches(old(self).outbox@).push(
                (
                    recipients(old(self).peers@, NO_PEER),
                    ControlModel::RegistryDelta(crate::identity::models(delta@)),
                ),
            ),
            *final(self) == (BroadcastDissemination {
                outbox: final(self).outbox,
                ..*old(self)
            }),
    {
        self.send_except(NO_PEER, ControlMsg::RegistryDelta(delta));
    }

    /// Queues `delta` to every peer but the one it came from.
    pub fn relay(&mut self, from: PeerId, delta: Vec<ChannelIdentity>)
        ensures
            dispatches(final(self).outbox@) == dispatches(old(self).outbox@).push(
                (
                    recipients(old(self).peers@, from),
                    ControlModel::RegistryDelta(crate::identity::models(delta@)),
                ),
            ),
            *final(self) == (BroadcastDissemination {
                outbox: final(self).outbox,
                ..*old(self)
            }),
    {
        self.send_except(from, ControlMsg::RegistryDelta(delta));
    }

    /// Queues `delta` to one peer.
    pub fn reply(&mut self, to: PeerId, delta: Vec<ChannelIdentity>)
        ensures
            dispatches(final(self).outbox@) == dispatches(old(self).outbox@).push(
                (seq![to], ControlModel::RegistryDelta(crate::identity::models(delta@))),
            ),
            *final(self) == (BroadcastDissemination {
                outbox: final(self).outbox,
                ..*old(self)
            }),
    {
        self.send_to(to, ControlMsg::RegistryDelta(delta));
    }

    fn send_to(&mut self, to: PeerId, msg: ControlMsg)
        ensures
            dispatches(final(self).outbox@) == dispatches(old(self).outbox@).push(
                (seq![to], msg@),
            ),
            *final(self) == (BroadcastDissemination {
                outbox: final(self).outbox,
                ..*old(self)
            }),
    {
        let mut one: Vec<PeerId> = Vec::new();
        one.push(to);
        let ghost before = dispatches(self.outbox@);
        assert(one@ =~= seq![to]);
        self.outbox.push(Dispatch { to: one, msg });
        assert(dispatches(self.outbox@) =~= before.push((seq![to], msg@)));
    }

    /// Takes what has been received.
    pub fn pump(&mut self) -> (all: Vec<Received>)
        ensures
            all@ == old(self).inbox@,
            final(self).inbox@.len() == 0,
            *final(self) == (BroadcastDissemination { inbox: final(self).inbox, ..*old(self) }),
    {
        let mut all: Vec<Received> = Vec::new();
        std::mem::swap(&mut all, &mut self.inbox);
        all
    }

    // ---------------- links ----------------
    /// Takes up a link that the peer dialled. See [`adopt`](Self::adopt).
    pub fn add_peer(&mut self, initial_sync: Vec<ChannelIdentity>) -> (id: PeerId)
        requires
            old(self).next_peer_id < u64::MAX,
        ensures
            adopted(*old(self), *final(self), None, crate::identity::models(initial_sync@), id),
            final(self).connected == old(self).connected,
    {
        self.adopt(None, initial_sync)
    }

    /// Takes up a link dialled to `addr`, and remembers that the address is connected.
    pub fn add_outbound_peer(&mut self, addr: SocketAddr, initial_sync: Vec<ChannelIdentity>) -> (id:
        PeerId)
        requires
            old(self).next_peer_id < u64::MAX,
        ensures
            adopted(
                *old(self),
                *final(self),
                Some(addr),
                crate::identity::models(initial_sync@),
                id,
            ),
            forall|a: SocketAddr|
                final(self).connected@.contains(a) <==> old(self).connected@.contains(a) || a
                    == addr,
    {
        if !self.is_connected(addr) {
            let ghost before = self.connected@;
            self.connected.push(addr);
            proof {
                assert(self.connected@ =~= before.push(addr));
                lemma_push_contains(before, addr);
            }
        }
        self.adopt(Some(addr), initial_sync)
    }

    /// Takes up a link: gives it an id, and queues the registry, a heartbeat, and an introduction to
    /// everyone known but this node.
    fn adopt(&mut self, dialled: Option<SocketAddr>, initial_sync: Vec<ChannelIdentity>) -> (id:
        PeerId)
        requires
            old(self).next_peer_id < u64::MAX,
        ensures
            adopted(
                *old(self),
                *final(self),
                dialled,
                crate::identity::models(initial_sync@),
                id,
            ),
            final(self).connected == old(self).connected,
    {
        let id = self.next_peer_id;
        self.next_peer_id = id + 1;
        self.send_to(id, ControlMsg::RegistrySync(initial_sync));
        let hello = self.heartbeat();
        self.send_to(id, hello);
        let everyone = self.membership.directory();
        let ghost list = self.membership.list();
        let ghost base = dispatches(self.outbox@);
        assert(list.take(0) =~= Seq::<(NodeId, MemberModel)>::empty());
        assert(base =~= base + introductions(id, self.self_node, list.take(0)));
        for intro in it: everyone
            invariant
                it.seq() == everyone@,
                everyone@.len() == list.len(),
                forall|j: int|
                    0 <= j < everyone@.len() ==> (#[trigger] everyone@[j])@
                        == crate::membership::introduction_of(list[j]),
                dispatches(self.outbox@) == base + introductions(
                    id,
                    self.self_node,
                    list.take(it.index()),
                ),
                *self == (BroadcastDissemination {
                    outbox: self.outbox,
                    next_peer_id: self.next_peer_id,
                    ..*old(self)
                }),
                self.next_peer_id == id + 1,
        {
            let ghost i = it.index();
            proof {
                assert(intro == everyone@[i]);
                assert(list.take(i + 1).drop_last() =~= list.take(i));
                assert(list.take(i + 1).last() == list[i]);
            }
            if intro.node.0 != self.self_node.0 {
                self.send_to(id, ControlMsg::PeerHint(intro));
                assert(dispatches(self.outbox@) =~= base + introductions(
                    id,
                    self.self_node,
                    list.take(i + 1),
                ));
            }
        }
        assert(list.take(list.len() as int) =~= list);
        self.peers.push(Link { id, dialled, peer: None });
        id
    }

    /// Whether a link dialled to `addr` is believed to be up.
    pub fn is_connected(&self, addr: SocketAddr) -> (b: bool)
        ensures
            b == self.connected@.contains(addr),
    {
        let mut i: usize = 0;
        while i < self.connected.len()
            invariant
                i <= self.connected@.len(),
                forall|j: int| 0 <= j < i ==> self.connected@[j] != addr,
            decreases self.connected@.len() - i,
        {
            if self.connected[i] == addr {
                assert(self.connected@[i as int] == addr);
                return true;
            }
            i = i + 1;
        }
        false
    }

    /// A send over the link `id` failed: the link is dropped.
    pub fn send_failed(&mut self, id: PeerId)
        ensures
            final(self).peers@ == without(old(self).peers@, id),
            *final(self) == (BroadcastDissemination { peers: final(self).peers, ..*old(self) }),
    {
        let mut kept: Vec<Link> = Vec::new();
        let mut i: usize = 0;
        assert(self.peers@.take(0) =~= Seq::<Link>::empty());
        while i < self.peers.len()
            invariant
                i <= self.peers@.len(),
                kept@ == without(self.peers@.take(i as int), id),
                *self == *old(self),
            decreases self.peers@.len() - i,
        {
            proof {
                assert(self.peers@.take(i + 1).drop_last() =~= self.peers@.take(i as int));
                assert(self.peers@.take(i + 1).last() == self.peers@[i as int]);
            }
            if self.peers[i].id != id {
                kept.push(self.peers[i]);
            }
            i = i + 1;
        }
        assert(self.peers@.take(i as int) =~= self.peers@);
        self.peers = kept;
    }

    /// The reader of a link dialled to `addr` has ended: the address is no longer connected.
    pub fn disconnected(&mut self, addr: SocketAddr)
        ensures
            forall|a: SocketAddr|
                final(self).connected@.contains(a) <==> old(self).connected@.contains(a) && a
                    != addr,
            *final(self) == (BroadcastDissemination {
                connected: final(self).connected,
                ..*old(self)
            }),
    {
        let mut kept: Vec<SocketAddr> = Vec::new();
        let mut i: usize = 0;
        while i < self.connected.len()
            invariant
                i <= self.connected@.len(),
                forall|a: SocketAddr|
                    kept@.contains(a) <==> a != addr && self.connected@.take(i as int).contains(a),
                *self == *old(self),
            decreases self.connected@.len() - i,
        {
            let a = self.connected[i];
            proof {
                assert(self.connected@.take(i + 1) =~= self.connected@.take(i as int).push(a));
                lemma_push_contains(self.connected@.take(i as int), a);
                lemma_push_contains(kept@, a);
            }
            if a != addr {
                kept.push(a);
            }
            i = i + 1;
        }
        assert(self.connected@.take(i as int) =~= self.connected@);
        self.connected = kept;
    }

    /// How many links there are.
    pub fn peer_count(&self) -> (n: usize)
        ensures
            n == self.peers@.len(),
    {
        self.peers.len()
    }

    /// The nodes that links lead to, as far as they have identified themselves.
    pub fn linked_nodes(&self) -> (nodes: Vec<NodeId>)
        ensures
            forall|n: NodeId| nodes@.contains(n) <==> linked(self.peers@, n),
    {
        let mut nodes: Vec<NodeId> = Vec::new();
        let mut i: usize = 0;
        while i < self.peers.len()
            invariant
                i <= self.peers@.len(),
                forall|n: NodeId|
                    nodes@.contains(n) <==> linked(self.peers@.take(i as int), n),
            decreases self.peers@.len() - i,
        {
            let l = self.peers[i];
            let ghost front = self.peers@.take(i as int);
            let ghost was = nodes@;
            proof {
                assert(self.peers@.take(i + 1) =~= front.push(l));
            }
            if let Some((n, _)) = l.peer {
                nodes.push(n);
                proof {
                    lemma_push_contains(was, n);
                }
            }
            proof {
                assert forall|n: NodeId| #[trigger]
                    nodes@.contains(n) <==> linked(self.peers@.take(i + 1), n) by {
                    lemma_linked_push(front, l, n);
                    assert(was.contains(n) <==> linked(front, n));
                }
            }
            i = i + 1;
        }
        assert(self.peers@.take(i as int) =~= self.peers@);
        nodes
    }

    /// Drops links that another link makes superfluous, and reports the node ids that two machines
    /// claim. Both ends of a pair that dialled each other keep the same link.
    pub fn dedup_links(&mut self) -> (conflicts: Vec<NodeId>)
        ensures
            final(self).peers@ == needed(old(self).self_node, old(self).peers@, old(self).peers@),
            *final(self) == (BroadcastDissemination { peers: final(self).peers, ..*old(self) }),
            forall|n: NodeId|
                conflicts@.contains(n) <==> contested(
                    old(self).peers@,
                    old(self).self_node,
                    old(self).self_control_addr,
                    n,
                ),
    {
        let conflicts = self.conflicts();
        let mut kept: Vec<Link> = Vec::new();
        let mut i: usize = 0;
        assert(self.peers@.take(0) =~= Seq::<Link>::empty());
        while i < self.peers.len()
            invariant
                i <= self.peers@.len(),
                kept@ == needed(self.self_node, self.peers@, self.peers@.take(i as int)),
                *self == *old(self),
            decreases self.peers@.len() - i,
        {
            proof {
                assert(self.peers@.take(i + 1).drop_last() =~= self.peers@.take(i as int));
                assert(self.peers@.take(i + 1).last() == self.peers@[i as int]);
            }
            if !self.is_superfluous(self.peers[i]) {
                kept.push(self.peers[i]);
            }
            i = i + 1;
        }
        assert(self.peers@.take(i as int) =~= self.peers@);
        self.peers = kept;
        conflicts
    }

    fn is_superfluous(&self, link: Link) -> (b: bool)
        ensures
            b == superfluous(self.self_node, self.peers@, link),
    {
        let mut i: usize = 0;
        while i < self.peers.len()
            invariant
                i <= self.peers@.len(),
                forall|j: int|
                    0 <= j < i ==> !preferred(self.self_node, #[trigger] self.peers@[j], link),
            decreases self.peers@.len() - i,
        {
            if is_preferred(self.self_node, self.peers[i], link) {
                assert(preferred(self.self_node, self.peers@[i as int], link));
                return true;
            }
            i = i + 1;
        }
        false
    }

    fn conflicts(&self) -> (nodes: Vec<NodeId>)
        ensures
            forall|n: NodeId|
                nodes@.contains(n) <==> contested(
                    self.peers@,
                    self.self_node,
                    self.self_control_addr,
                    n,
                ),
    {
        let mut nodes: Vec<NodeId> = Vec::new();
        let mut i: usize = 0;
        while i < self.peers.len()
            invariant
                i <= self.peers@.len(),
                forall|n: NodeId| #[trigger]
                    nodes@.contains(n) <==> contested_before(
                        self.peers@,
                        self.self_node,
                        self.self_control_addr,
                        n,
                        i as int,
                    ),
            decreases self.peers@.len() - i,
        {
            let l = self.peers[i];
            let ghost was = nodes@;
            if let Some((n, at)) = l.peer {
                if (n.0 == self.self_node.0 && at != self.self_control_addr) || self.is_elsewhere(
                    n,
                    at,
                ) {
                    nodes.push(n);
                    proof {
                        lemma_push_contains(was, n);
                        assert(contests(
                            self.peers@,
                            self.self_node,
                            self.self_control_addr,
                            n,
                            self.peers@[i as int],
                        ));
                    }
                }
            }
            proof {
                assert forall|n: NodeId| #[trigger]
                    nodes@.contains(n) <==> contested_before(
                        self.peers@,
                        self.self_node,
                        self.self_control_addr,
                        n,
                        i + 1,
                    ) by {
                    assert(was.contains(n) <==> contested_before(
                        self.peers@,
                        self.self_node,
                        self.self_control_addr,
                        n,
                        i as int,
                    ));
                    lemma_contested_next(
                        self.peers@,
                        self.self_node,
                        self.self_control_addr,
                        n,
                        i as int,
                    );
                }
            }
            i = i + 1;
        }
        nodes
    }

    fn is_elsewhere(&self, node: NodeId, at: SocketAddr) -> (b: bool)
        ensures
            b == exists|j: int|
                0 <= j < self.peers@.len() && claims_elsewhere(
                    #[trigger] self.peers@[j],
                    node,
                    at,
                ),
    {
        let mut i: usize = 0;
        while i < self.peers.len()
            invariant
                i <= self.peers@.len(),
                forall|j: int|
                    0 <= j < i ==> !claims_elsewhere(#[trigger] self.peers@[j], node, at),
            decreases self.peers@.len() - i,
        {
            if let Some((n, a)) = self.peers[i].peer {
                if n.0 == node.0 && a != at {
                    assert(claims_elsewhere(self.peers@[i as int], node, at));
                    return true;
                }
            }
            i = i + 1;
        }
        false
    }

    // ---------------- gossip ----------------
    /// Queues what was learned since the last tick to every peer but the one it came from.
    pub fn relay_hints(&mut self)
        ensures
            dispatches(final(self).outbox@) == dispatches(old(self).outbox@) + hint_relays(
                old(self).peers@,
                old(self).self_node,
                hint_values(old(self).hints@),
            ),
            final(self).hints@.len() == 0,
            *final(self) == (BroadcastDissemination {
                outbox: final(self).outbox,
                hints: final(self).hints,
                ..*old(self)
            }),
    {
        let mut pending: Vec<Hint> = Vec::new();
        std::mem::swap(&mut pending, &mut self.hints);
        let ghost values = hint_values(pending@);
        let ghost base = dispatches(self.outbox@);
        assert(values.take(0) =~= Seq::<(PeerId, IntroductionModel)>::empty());
        assert(base =~= base + hint_relays(self.peers@, self.self_node, values.take(0)));
        for hint in it: pending
            invariant
                it.seq() == pending@,
                values == hint_values(pending@),
                dispatches(self.outbox@) == base + hint_relays(
                    self.peers@,
                    self.self_node,
                    values.take(it.index()),
                ),
                self.hints@.len() == 0,
                *self == (BroadcastDissemination {
                    outbox: self.outbox,
                    hints: self.hints,
                    ..*old(self)
                }),
        {
            let ghost i = it.index();
            proof {
                assert(hint == pending@[i]);
                assert(values.take(i + 1).drop_last() =~= values.take(i));
                assert(values.take(i + 1).last() == hint@);
            }
            if hint.about.node.0 != self.self_node.0 {
                self.send_except(hint.from, ControlMsg::PeerHint(hint.about));
                assert(dispatches(self.outbox@) =~= base + hint_relays(
                    self.peers@,
                    self.self_node,
                    values.take(i + 1),
                ));
            }
        }
        assert(values.take(values.len() as int) =~= values);
    }

    /// A message came over the link `id`. Registry entries wait for the next pump; a heartbeat
    /// makes its sender live and tells whom the link leads to; hearsay is learned. What was new is
    /// passed on at the next tick.
    pub fn receive(&mut self, id: PeerId, msg: ControlMsg, now: u64)
        ensures
            took_in(*old(self), *final(self), id, msg@, now),
    {
        match msg {
            ControlMsg::RegistryDelta(ids) => {
                self.take_entries(id, ids);
            },
            ControlMsg::RegistrySync(ids) => {
                self.take_entries(id, ids);
            },
            ControlMsg::Heartbeat(about) => {
                let news = self.membership.record(
                    about.node,
                    about.addr,
                    about.control_addr,
                    about.name.as_str(),
                    now,
                );
                self.identify(id, about.node, about.control_addr);
                if news {
                    let ghost before = hint_values(self.hints@);
                    self.hints.push(Hint { from: id, about });
                    assert(hint_values(self.hints@) =~= before.push((id, about@)));
                }
            },
            ControlMsg::PeerHint(about) => {
                let news = self.membership.learn(
                    about.node,
                    about.addr,
                    about.control_addr,
                    about.name.as_str(),
                );
                if news {
                    let ghost before = hint_values(self.hints@);
                    self.hints.push(Hint { from: id, about });
                    assert(hint_values(self.hints@) =~= before.push((id, about@)));
                }
            },
            ControlMsg::Leaving { node } => {
                self.membership.depart(node);
            },
            ControlMsg::Unexpected => {},
        }
    }

    fn take_entries(&mut self, from: PeerId, ids: Vec<ChannelIdentity>)
        ensures
            received(final(self).inbox@) == received(old(self).inbox@) + tagged(
                from,
                crate::identity::models(ids@),
            ),
            *final(self) == (BroadcastDissemination { inbox: final(self).inbox, ..*old(self) }),
    {
        let ghost values = crate::identity::models(ids@);
        let ghost base = received(self.inbox@);
        assert(base =~= base + tagged(from, values.take(0)));
        for id in it: ids
            invariant
                it.seq() == ids@,
                values == crate::identity::models(ids@),
                received(self.inbox@) == base + tagged(from, values.take(it.index())),
                *self == (BroadcastDissemination { inbox: self.inbox, ..*old(self) }),
        {
            let ghost i = it.index();
            let ghost before = received(self.inbox@);
            assert(id == ids@[i]);
            self.inbox.push(Received { from, id });
            proof {
                assert(received(self.inbox@) =~= before.push((from, values[i])));
                assert(tagged(from, values.take(i + 1)) =~= tagged(from, values.take(i)).push(
                    (from, values[i]),
                ));
                assert(received(self.inbox@) =~= base + tagged(from, values.take(i + 1)));
            }
        }
        assert(values.take(values.len() as int) =~= values);
    }

    fn identify(&mut self, id: PeerId, node: NodeId, control_addr: SocketAddr)
        ensures
            final(self).peers@ == identified(old(self).peers@, id, node, control_addr),
            *final(self) == (BroadcastDissemination { peers: final(self).peers, ..*old(self) }),
    {
        let mut i: usize = 0;
        while i < self.peers.len()
            invariant
                i <= self.peers@.len(),
                self.peers@.len() == old(self).peers@.len(),
                forall|j: int|
                    0 <= j < i ==> self.peers@[j] == identified(
                        old(self).peers@,
                        id,
                        node,
                        control_addr,
                    )[j],
                forall|j: int| i <= j < self.peers@.len() ==> self.peers@[j] == old(self).peers@[j],
                *self == (BroadcastDissemination { peers: self.peers, ..*old(self) }),
            decreases self.peers@.len() - i,
        {
            let l = self.peers[i];
            if l.id == id {
                self.peers.set(i, Link { id: l.id, dialled: l.dialled, peer: Some((node, control_addr)) });
            }
            i = i + 1;
        }
        assert(self.peers@ =~= identified(old(self).peers@, id, node, control_addr));
    }

    // ---------------- what is known of peers ----------------
    /// Peers known of but not dialled, with their control addresses.
    pub fn unconnected_peers(&self) -> (peers: Vec<(NodeId, SocketAddr)>)
        ensures
            peers@ == unconnected(self.membership.list(), self.self_node, self.connected@),
    {
        let known = self.membership.known_peers();
        let ghost list = self.membership.list();
        let mut peers: Vec<(NodeId, SocketAddr)> = Vec::new();
        let mut i: usize = 0;
        assert(list.take(0) =~= Seq::<(NodeId, MemberModel)>::empty());
        while i < known.len()
            invariant
                i <= known@.len() == list.len(),
                forall|j: int|
                    0 <= j < list.len() ==> known@[j] == (list[j].0, list[j].1.control_addr),
                peers@ == unconnected(list.take(i as int), self.self_node, self.connected@),
            decreases known@.len() - i,
        {
            proof {
                assert(list.take(i + 1).drop_last() =~= list.take(i as int));
                assert(list.take(i + 1).last() == list[i as int]);
            }
            let (node, control) = known[i];
            if node.0 != self.self_node.0 && !self.is_connected(control) {
                peers.push((node, control));
            }
            i = i + 1;
        }
        assert(list.take(i as int) =~= list);
        peers
    }

    /// The control addresses, other than this node's own, at which this node's id has been reported.
    pub fn same_id_candidates(&self) -> (addrs: Vec<SocketAddr>)
        ensures
            addrs@ == twins(self.membership@, self.self_node, self.self_control_addr),
    {
        let known = self.membership.known_peers();
        let mut addrs: Vec<SocketAddr> = Vec::new();
        let mut i: usize = 0;
        let ghost list = self.membership.list();
        while i < known.len()
            invariant
                i <= known@.len() == list.len(),
                forall|j: int|
                    0 <= j < list.len() ==> known@[j] == (list[j].0, list[j].1.control_addr),
                crate::table::holds(list, self.membership@),
                addrs@.len() == 0,
                forall|j: int| 0 <= j < i ==> (#[trigger] list[j]).0 != self.self_node,
            decreases known@.len() - i,
        {
            let (node, control) = known[i];
            assert(list[i as int].0 == node);
            if node.0 == self.self_node.0 {
                if control != self.self_control_addr {
                    addrs.push(control);
                }
                assert(self.membership@.contains_key(self.self_node));
                assert(addrs@ =~= twins(
                    self.membership@,
                    self.self_node,
                    self.self_control_addr,
                ));
                return addrs;
            }
            i = i + 1;
        }
        proof {
            if self.membership@.contains_key(self.self_node) {
                let j = choose|j: int|
                    0 <= j < list.len() && (#[trigger] list[j]).0 == self.self_node;
                assert(list[j].0 != self.self_node);
            }
            assert(addrs@ =~= twins(self.membership@, self.self_node, self.self_control_addr));
        }
        addrs
    }

    pub fn addr_of(&self, node: NodeId) -> (r: Option<SocketAddr>)
        ensures
            r == if self.membership@.contains_key(node) {
                Some(self.membership@[node].addr)
            } else {
                None
            },
    {
        self.membership.addr_of(node)
    }

    /// Whether `node` is a live member at `now`.
    pub open spec fn live(&self, node: NodeId, now: u64) -> bool {
        crate::membership::node_alive(self.membership@, node, self.liveness_timeout@, now)
    }

    /// The stream address of `node`, only if it is a live member.
    pub fn live_addr_of(&self, node: NodeId, now: u64) -> (r: Option<SocketAddr>)
        ensures
            r == if self.live(node, now) {
                Some(self.membership@[node].addr)
            } else {
                None
            },
    {
        self.membership.live_addr_of(node, self.liveness_timeout, now)
    }

    pub fn silent_for(&self, node: NodeId, now: u64) -> (r: Option<Duration>)
        ensures
            match crate::membership::silence(self.membership@, node, now) {
                Some(n) => r matches Some(d) && d@ == n,
                None => r is None,
            },
    {
        self.membership.silent_for(node, now)
    }

    pub fn live_members(&self, now: u64) -> (nodes: Vec<NodeId>)
        ensures
            nodes@ == crate::membership::live_in(
                self.membership.list(),
                self.liveness_timeout@,
                now,
            ),
            forall|n: NodeId| nodes@.contains(n) <==> self.live(n, now),
    {
        self.membership.live_members(self.liveness_timeout, now)
    }
}

fn is_preferred(me: NodeId, a: Link, b: Link) -> (r: bool)
    ensures
        r == preferred(me, a, b),
{
    match (a.peer, b.peer) {
        (Some((n, at)), Some((m, bt))) => {
            if n.0 != m.0 || at != bt {
                return false;
            }
            let a_lower = a.dialled.is_some() == (me.0 < n.0);
            let b_lower = b.dialled.is_some() == (me.0 < n.0);
            if a_lower != b_lower {
                a_lower
            } else {
                a.id < b.id
            }
        },
        _ => false,
    }
}

/// The links of `peers` but for `id`, in order.
pub open spec fn without(peers: Seq<Link>, id: PeerId) -> Seq<Link>
    decreases peers.len(),
{
    if peers.len() == 0 {
        Seq::empty()
    } else if peers.last().id == id {
        without(peers.drop_last(), id)
    } else {
        without(peers.drop_last(), id).push(peers.last())
    }
}

/// `peers` once the link `id` is known to lead to `node`.
pub open spec fn identified(
    peers: Seq<Link>,
    id: PeerId,
    node: NodeId,
    control_addr: SocketAddr,
) -> Seq<Link> {
    Seq::new(
        peers.len(),
        |i: int|
            if peers[i].id == id {
                Link { peer: Some((node, control_addr)), ..peers[i] }
            } else {
                peers[i]
            },
    )
}

/// Whether a link of `peers` leads to `n`.
pub open spec fn linked(peers: Seq<Link>, n: NodeId) -> bool {
    exists|i: int| 0 <= i < peers.len() && leads_to(#[trigger] peers[i], n)
}

pub open spec fn leads_to(l: Link, n: NodeId) -> bool {
    l.peer matches Some((m, _)) && m == n
}

proof fn lemma_linked_push(front: Seq<Link>, l: Link, n: NodeId)
    ensures
        linked(front.push(l), n) <==> linked(front, n) || leads_to(l, n),
{
    let all = front.push(l);
    if linked(front, n) {
        let i = choose|i: int| 0 <= i < front.len() && leads_to(#[trigger] front[i], n);
        assert(leads_to(all[i], n));
    }
    if leads_to(l, n) {
        assert(leads_to(all[front.len() as int], n));
    }
    if linked(all, n) {
        let i = choose|i: int| 0 <= i < all.len() && leads_to(#[trigger] all[i], n);
        if i < front.len() {
            assert(leads_to(front[i], n));
        }
    }
}

pub proof fn lemma_push_contains<A>(s: Seq<A>, x: A)
    ensures
        forall|y: A| #[trigger] s.push(x).contains(y) <==> s.contains(y) || y == x,
{
    assert forall|y: A| #[trigger] s.push(x).contains(y) <==> s.contains(y) || y == x by {
        if s.contains(y) {
            let i = choose|i: int| 0 <= i < s.len() && s[i] == y;
            assert(s.push(x)[i] == y);
        }
        assert(s.push(x)[s.len() as int] == x);
    }
}

/// The control addresses, other than `mine`, at which `me` is known.
pub open spec fn twins(known: Acquaintances, me: NodeId, mine: SocketAddr) -> Seq<SocketAddr> {
    if known.contains_key(me) && known[me].control_addr != mine {
        seq![known[me].control_addr]
    } else {
        Seq::empty()
    }
}

/// What taking up a link does to everything but `connected`.
pub open spec fn adopted(
    before: BroadcastDissemination,
    after: BroadcastDissemination,
    dialled: Option<SocketAddr>,
    initial_sync: Seq<IdentityModel>,
    id: PeerId,
) -> bool {
    &&& crate::table::holds(before.membership.list(), before.membership@)
    &&& id == before.next_peer_id
    &&& after.next_peer_id == before.next_peer_id + 1
    &&& after.peers@ == before.peers@.push(Link { id, dialled, peer: None })
    &&& dispatches(after.outbox@) == dispatches(before.outbox@).push(
        (seq![id], ControlModel::RegistrySync(initial_sync)),
    ).push((seq![id], ControlModel::Heartbeat(before.introduction()))) + introductions(
        id,
        before.self_node,
        before.membership.list(),
    )
    &&& after == (BroadcastDissemination {
        next_peer_id: after.next_peer_id,
        peers: after.peers,
        outbox: after.outbox,
        connected: after.connected,
        ..before
    })
}

/// What receiving `msg` over the link `id` does.
pub open spec fn took_in(
    before: BroadcastDissemination,
    after: BroadcastDissemination,
    id: PeerId,
    msg: ControlModel,
    now: u64,
) -> bool {
    let known = before.membership@;
    match msg {
        ControlModel::RegistryDelta(ids) => {
            &&& received(after.inbox@) == received(before.inbox@) + tagged(id, ids)
            &&& after == (BroadcastDissemination { inbox: after.inbox, ..before })
        },
        ControlModel::RegistrySync(ids) => {
            &&& received(after.inbox@) == received(before.inbox@) + tagged(id, ids)
            &&& after == (BroadcastDissemination { inbox: after.inbox, ..before })
        },
        ControlModel::Heartbeat(i) => {
            &&& after.membership@ == crate::membership::after_heartbeat(
                known,
                i.node,
                i.addr,
                i.control_addr,
                i.name,
                now,
            )
            &&& after.peers@ == identified(before.peers@, id, i.node, i.control_addr)
            &&& hint_values(after.hints@) == if crate::membership::is_news(
                known,
                i.node,
                i.addr,
                i.control_addr,
                i.name,
            ) {
                hint_values(before.hints@).push((id, i))
            } else {
                hint_values(before.hints@)
            }
            &&& after == (BroadcastDissemination {
                membership: after.membership,
                peers: after.peers,
                hints: after.hints,
                ..before
            })
        },
        ControlModel::PeerHint(i) => {
            &&& after.membership@ == crate::membership::after_hearsay(
                known,
                i.node,
                i.addr,
                i.control_addr,
                i.name,
            )
            &&& hint_values(after.hints@) == if crate::membership::hearsay_counts(
                known,
                i.node,
                i.addr,
                i.control_addr,
                i.name,
            ) {
                hint_values(before.hints@).push((id, i))
            } else {
                hint_values(before.hints@)
            }
            &&& after == (BroadcastDissemination {
                membership: after.membership,
                hints: after.hints,
                ..before
            })
        },
        ControlModel::Leaving { node } => {
            &&& after.membership@ == crate::membership::after_departure(known, node)
            &&& after == (BroadcastDissemination { membership: after.membership, ..before })
        },
        ControlModel::Unexpected => after == before,
    }
}

// ---------------- laws ----------------
/// A relay reaches every peer but its source, and never the source.
pub proof fn law_a_relay_skips_only_its_source(peers: Seq<Link>, from: PeerId, id: PeerId)
    ensures
        recipients(peers, from).contains(id) <==> id != from && exists|i: int|
            0 <= i < peers.len() && (#[trigger] peers[i]).id == id,
    decreases peers.len(),
{
    if peers.len() > 0 {
        let front = peers.drop_last();
        law_a_relay_skips_only_its_source(front, from, id);
        lemma_push_contains(recipients(front, from), peers.last().id);
        if exists|i: int| 0 <= i < front.len() && (#[trigger] front[i]).id == id {
            let i = choose|i: int| 0 <= i < front.len() && (#[trigger] front[i]).id == id;
            assert(peers[i].id == id);
        }
        if exists|i: int| 0 <= i < peers.len() && (#[trigger] peers[i]).id == id {
            let i = choose|i: int| 0 <= i < peers.len() && (#[trigger] peers[i]).id == id;
            if i < front.len() {
                assert(front[i].id == id);
            }
        }
        assert(peers[peers.len() - 1].id == peers.last().id);
    }
}

/// When two nodes have dialled each other, both ends keep the same link: the one that one end finds
/// superfluous is the one that the other end finds superfluous.
pub proof fn law_both_ends_keep_the_same_link(
    a: NodeId,
    a_control: SocketAddr,
    b: NodeId,
    b_control: SocketAddr,
    a_out: Link,
    a_in: Link,
    b_out: Link,
    b_in: Link,
)
    requires
        a != b,
        a_out.dialled is Some && a_out.peer == Some((b, b_control)),
        a_in.dialled is None && a_in.peer == Some((b, b_control)),
        b_out.dialled is Some && b_out.peer == Some((a, a_control)),
        b_in.dialled is None && b_in.peer == Some((a, a_control)),
    ensures
// The link that `a` dialled is `a_out` at one end and `b_in` at the other.

        superfluous(a, seq![a_out, a_in], a_out) == superfluous(b, seq![b_out, b_in], b_in),
        superfluous(a, seq![a_out, a_in], a_in) == superfluous(b, seq![b_out, b_in], b_out),
        superfluous(a, seq![a_out, a_in], a_out) != superfluous(a, seq![a_out, a_in], a_in),
{
    let (x, y) = (seq![a_out, a_in], seq![b_out, b_in]);
    assert(x[0] == a_out && x[1] == a_in && y[0] == b_out && y[1] == b_in);
    if a.0 < b.0 {
        assert(preferred(a, x[0], a_in));
        assert(preferred(b, y[1], b_out));
        assert(!superfluous(a, x, a_out));
        assert(!superfluous(b, y, b_in));
    } else {
        assert(preferred(a, x[1], a_out));
        assert(preferred(b, y[0], b_in));
        assert(!superfluous(a, x, a_in));
        assert(!superfluous(b, y, b_out));
    }
}

/// Dropping superfluous links never cuts a node off: a node that a link led to is still led to.
pub proof fn law_dedup_keeps_every_node_linked(me: NodeId, peers: Seq<Link>, n: NodeId)
    requires
        forall|i: int, j: int|
            0 <= i < j < peers.len() ==> (#[trigger] peers[i]).id != (#[trigger] peers[j]).id,
    ensures
        linked(needed(me, peers, peers), n) <==> linked(peers, n),
{
    lemma_needed(me, peers, peers);
    let kept = needed(me, peers, peers);
    if linked(kept, n) {
        let i = choose|i: int| 0 <= i < kept.len() && leads_to(#[trigger] kept[i], n);
        assert(kept.contains(kept[i]));
        assert(peers.contains(kept[i]));
        let j = choose|j: int| 0 <= j < peers.len() && peers[j] == kept[i];
        assert(leads_to(peers[j], n));
    }
    if linked(peers, n) {
        let i = choose|i: int| 0 <= i < peers.len() && leads_to(#[trigger] peers[i], n);
        let best = lemma_best_link(me, peers, peers[i], peers.len() as int);
        assert(peers.contains(best));
        assert(!superfluous(me, peers, best));
        assert(kept.contains(best));
        let k = choose|k: int| 0 <= k < kept.len() && kept[k] == best;
        assert(leads_to(kept[k], n));
    }
}

proof fn lemma_needed(me: NodeId, all: Seq<Link>, some: Seq<Link>)
    ensures
        forall|l: Link| #[trigger]
            needed(me, all, some).contains(l) <==> some.contains(l) && !superfluous(me, all, l),
    decreases some.len(),
{
    if some.len() > 0 {
        let front = some.drop_last();
        lemma_needed(me, all, front);
        lemma_push_contains(front, some.last());
        assert(some =~= front.push(some.last()));
        lemma_push_contains(needed(me, all, front), some.last());
        assert forall|l: Link| #[trigger] needed(me, all, some).contains(l) <==> some.contains(l)
            && !superfluous(me, all, l) by {
            assert(needed(me, all, front).contains(l) <==> front.contains(l) && !superfluous(
                me,
                all,
                l,
            ));
            assert(front.push(some.last()).contains(l) <==> front.contains(l) || l == some.last());
        }
    }
}

/// The link to keep among those of the first `k` that lead where `l` leads, and `l`.
proof fn lemma_best_link(me: NodeId, peers: Seq<Link>, l: Link, k: int) -> (best: Link)
    requires
        0 <= k <= peers.len(),
        peers.contains(l),
        l.peer is Some,
    ensures
        peers.contains(best),
        best.peer == l.peer,
        forall|i: int| 0 <= i < k ==> !preferred(me, #[trigger] peers[i], best),
        best == l || preferred(me, best, l),
    decreases k,
{
    if k == 0 {
        l
    } else {
        let b = lemma_best_link(me, peers, l, k - 1);
        if preferred(me, peers[k - 1], b) {
            assert(peers.contains(peers[k - 1]));
            assert forall|i: int| 0 <= i < k implies !preferred(
                me,
                #[trigger] peers[i],
                peers[k - 1],
            ) by {
                if preferred(me, peers[i], peers[k - 1]) {
                    assert(preferred(me, peers[i], b));
                }
            }
            peers[k - 1]
        } else {
            b
        }
    }
}

} // verus!
