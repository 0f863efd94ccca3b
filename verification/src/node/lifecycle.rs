//! Starting a node, binding its planes, taking up links, and leaving.
use vstd::prelude::*;

use crate::addr::SocketAddr;
use crate::backoff::DialPenalty;
use crate::broadcast::BroadcastDissemination;
use crate::config::NodeConfig;
use crate::identity::{ChannelIdentity, NodeId};
use crate::limits::{LIVENESS_TIMEOUT_MS, MAX_CONNECTIONS};
use crate::name_map::NameMap;
use crate::node::Node;
use crate::registry::Registry;
use crate::subscription::Subscriptions;
use crate::table::Table;
use crate::time::Duration;
use crate::wire::{ControlModel, PeerId, NO_PEER};

verus! {

impl Node {
    /// Whether this is a node that nothing has happened to yet.
    pub open spec fn fresh(&self) -> bool {
        &&& self.registry@ == Map::<Seq<char>, crate::identity::IdentityModel>::empty()
        &&& self.bound_stream_addr is None
        &&& self.hosted@ == Map::<Seq<char>, crate::node::SourceModel>::empty()
        &&& self.subscriptions@ == Map::<Seq<char>, crate::subscription::SubId>::empty()
        &&& self.conducted@ == Map::<
            crate::subscription::SubId,
            crate::subscription::Conducted,
        >::empty()
        &&& self.conducted.next_id() == 0
        &&& self.muxes@ == Map::<Seq<char>, crate::node::TopicModel>::empty()
        &&& self.next_mux == 0
        &&& self.topic_reap@ == Map::<Seq<char>, nat>::empty()
        &&& self.member_dead_since@ == Map::<(Seq<char>, u64), u64>::empty()
        &&& self.owner_unreachable_since@ == Map::<NodeId, u64>::empty()
        &&& self.attach_backoff@ == Map::<Seq<char>, DialPenalty>::empty()
        &&& self.last_live_owners@ == Seq::<NodeId>::empty()
        &&& self.dup_reported@ == Seq::<NodeId>::empty()
        &&& self.dial_backoff@ == Map::<SocketAddr, DialPenalty>::empty()
        &&& self.dial_cursor_seeds == 0
        &&& self.dial_cursor_learned == 0
        &&& self.dial_cursor_twins == 0
        &&& self.discovery@.len() == 0
        &&& self.conns == 0
    }

    /// A node that knows of nothing and hosts nothing. `generation` tells its discovery log from
    /// that of an earlier run: the time of starting, in nanoseconds since the Unix epoch.
    pub fn new(config: NodeConfig, generation: u64) -> (node: Node)
        ensures
            node.config == config,
            node.discovery_generation == generation,
            node.fresh(),
            node.dial_gaps_in_range(),
            node.kept_are_conducted(),
            node.attach_gaps_in_range(),
            node.dissemination.self_node == config.node_id,
            node.dissemination.self_addr == config.stream_addr,
            node.dissemination.self_control_addr == config.stream_addr,
            node.dissemination.self_name@ == config.node_name@,
            node.dissemination.liveness_timeout@ == LIVENESS_TIMEOUT_MS
                * crate::time::NANOS_PER_MILLI,
            node.dissemination.peers@.len() == 0,
            node.dissemination.next_peer_id == NO_PEER + 1,
            node.dissemination.hints@.len() == 0,
            node.dissemination.inbox@.len() == 0,
            node.dissemination.membership@ == Map::<
                NodeId,
                crate::membership::MemberModel,
            >::empty(),
            node.dissemination.connected@.len() == 0,
            node.dissemination.outbox@.len() == 0,
    {
        let mut dissemination = BroadcastDissemination::new(
            config.node_id,
            config.stream_addr,
            Duration::from_millis(LIVENESS_TIMEOUT_MS),
        );
        dissemination.set_self_name(config.node_name.clone());
        Node {
            config,
            registry: Registry::new(),
            dissemination,
            bound_stream_addr: None,
            hosted: NameMap::new(),
            subscriptions: NameMap::new(),
            conducted: Subscriptions::new(),
            muxes: NameMap::new(),
            next_mux: 0,
            topic_reap: NameMap::new(),
            member_dead_since: Table::new(),
            owner_unreachable_since: Table::new(),
            attach_backoff: NameMap::new(),
            last_live_owners: Vec::new(),
            dup_reported: Vec::new(),
            dial_backoff: Table::new(),
            dial_cursor_seeds: 0,
            dial_cursor_learned: 0,
            dial_cursor_twins: 0,
            discovery_generation: generation,
            discovery: Vec::new(),
            conns: 0,
        }
    }

    /// The stream plane is bound to `addr`. What is advertised to peers is what they can reach,
    /// which is not always what was bound.
    pub fn stream_bound(&mut self, addr: SocketAddr)
        ensures
            final(self).bound_stream_addr == Some(addr),
            final(self).dissemination == (BroadcastDissemination {
                self_addr: match old(self).config.advertise_stream_addr {
                    Some(advertised) => advertised,
                    None => addr,
                },
                ..old(self).dissemination
            }),
            *final(self) == (Node {
                bound_stream_addr: final(self).bound_stream_addr,
                dissemination: final(self).dissemination,
                ..*old(self)
            }),
    {
        let advertised = match self.config.advertise_stream_addr {
            Some(advertised) => advertised,
            None => addr,
        };
        self.dissemination.set_self_addr(advertised);
        self.bound_stream_addr = Some(addr);
    }

    /// The control plane is bound to `addr`.
    pub fn control_bound(&mut self, addr: SocketAddr)
        ensures
            final(self).dissemination == (BroadcastDissemination {
                self_control_addr: match old(self).config.advertise_control_addr {
                    Some(advertised) => advertised,
                    None => addr,
                },
                ..old(self).dissemination
            }),
            *final(self) == (Node { dissemination: final(self).dissemination, ..*old(self) }),
    {
        let advertised = match self.config.advertise_control_addr {
            Some(advertised) => advertised,
            None => addr,
        };
        self.dissemination.set_self_control_addr(advertised);
    }

    /// Everything in the registry, tombstones too, in name order.
    pub fn registry_snapshot(&self) -> (ids: Vec<ChannelIdentity>)
        ensures
            crate::identity::models(ids@) == crate::registry::listing(self.registry@),
            crate::registry::enumerates(
                crate::registry::listing(self.registry@),
                self.registry@,
            ),
    {
        self.registry.iter()
    }

    /// Takes up a link that a peer dialled. The peer is sent the whole registry as it is at this
    /// moment, so that no change falls between the snapshot and the first message that follows it.
    pub fn link_accepted(&mut self) -> (id: PeerId)
        requires
            old(self).dissemination.next_peer_id < u64::MAX,
        ensures
            crate::registry::enumerates(
                crate::registry::listing(old(self).registry@),
                old(self).registry@,
            ),
            crate::broadcast::adopted(
                old(self).dissemination,
                final(self).dissemination,
                None,
                crate::registry::listing(old(self).registry@),
                id,
            ),
            final(self).dissemination.connected == old(self).dissemination.connected,
            *final(self) == (Node { dissemination: final(self).dissemination, ..*old(self) }),
    {
        let snapshot = self.registry_snapshot();
        self.dissemination.add_peer(snapshot)
    }

    /// Takes up a link dialled to `addr`, likewise.
    pub fn link_dialled(&mut self, addr: SocketAddr) -> (id: PeerId)
        requires
            old(self).dissemination.next_peer_id < u64::MAX,
        ensures
            crate::registry::enumerates(
                crate::registry::listing(old(self).registry@),
                old(self).registry@,
            ),
            crate::broadcast::adopted(
                old(self).dissemination,
                final(self).dissemination,
                Some(addr),
                crate::registry::listing(old(self).registry@),
                id,
            ),
            forall|a: SocketAddr|
                final(self).dissemination.connected@.contains(a)
                    <==> old(self).dissemination.connected@.contains(a) || a == addr,
            *final(self) == (Node { dissemination: final(self).dissemination, ..*old(self) }),
    {
        let snapshot = self.registry_snapshot();
        self.dissemination.add_outbound_peer(addr, snapshot)
    }

    /// Takes a slot for an inbound connection, if there is one left.
    pub fn acquire_conn(&mut self) -> (taken: bool)
        ensures
            taken == (old(self).conns < MAX_CONNECTIONS),
            *final(self) == (Node {
                conns: if taken {
                    (old(self).conns + 1) as usize
                } else {
                    old(self).conns
                },
                ..*old(self)
            }),
    {
        if self.conns >= MAX_CONNECTIONS {
            false
        } else {
            self.conns = self.conns + 1;
            true
        }
    }

    /// Gives back the slot of an inbound connection that ended.
    pub fn release_conn(&mut self)
        requires
            old(self).conns > 0,
        ensures
            *final(self) == (Node { conns: (old(self).conns - 1) as usize, ..*old(self) }),
    {
        self.conns = self.conns - 1;
    }

    /// Tells peers that this node is leaving, so that they stop counting on it at once. Nothing else
    /// needs unwinding. Returns the client socket, which is to be removed.
    pub fn shutdown(&mut self) -> (client_path: String)
        ensures
            client_path@ == old(self).config.client_path@,
            crate::broadcast::dispatches(final(self).dissemination.outbox@)
                == crate::broadcast::dispatches(old(self).dissemination.outbox@).push(
                (
                    crate::broadcast::recipients(old(self).dissemination.peers@, NO_PEER),
                    ControlModel::Leaving { node: old(self).dissemination.self_node },
                ),
            ),
            final(self).dissemination == (BroadcastDissemination {
                outbox: final(self).dissemination.outbox,
                ..old(self).dissemination
            }),
            *final(self) == (Node { dissemination: final(self).dissemination, ..*old(self) }),
    {
        self.dissemination.announce_leaving();
        self.config.client_path.clone()
    }
}

} // verus!
