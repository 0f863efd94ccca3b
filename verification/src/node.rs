//! The node manager: hosting, serving, discovery, and subscribing.
//!
//! A [`Node`] is the whole of a daemon's state and every decision it takes. It touches neither
//! sockets nor files nor clocks: readings of the clock and outcomes of input and output come in as
//! arguments, and what is to be done goes out as return values, as entries of the discovery log
//! (`discovery`), and as messages to peers (`dissemination.outbox`).
//!
//! Times called `now` are readings of the monotonic clock in nanoseconds; those called `wall` are
//! nanoseconds since the Unix epoch.
use vstd::prelude::*;

use crate::addr::SocketAddr;
use crate::backoff::DialPenalty;
use crate::broadcast::BroadcastDissemination;
use crate::config::NodeConfig;
use crate::identity::NodeId;
use crate::name_map::NameMap;
use crate::registry::Registry;
use crate::subscription::{SubId, Subscriptions};
use crate::table::{Incarnation, Table};
use crate::time::Duration;
use crate::wire::ChannelChange;

pub mod client;
pub mod dialling;
pub mod discovery;
pub mod duplicates;
pub mod duty;
pub mod laws;
pub mod lifecycle;
pub mod maintenance;
pub mod passes;
pub mod reconstruct;
pub mod registration;
pub mod subscribing;
pub mod tick;
pub mod topic_health;
pub mod topic_life;
pub mod topics;

verus! {

/// A channel this node hosts: where it is, its geometry, and how much of it is kept.
#[derive(PartialEq, Eq, Debug)]
pub struct ChannelSource {
    pub path: String,
    pub region_size: u32,
    pub mtu: u32,
    pub file_roll_size: u64,
    pub keep_files: u32,
}

/// A [`ChannelSource`] as a value.
#[verifier::ext_equal]
pub struct SourceModel {
    pub path: Seq<char>,
    pub region_size: u32,
    pub mtu: u32,
    pub file_roll_size: u64,
    pub keep_files: u32,
}

impl View for ChannelSource {
    type V = SourceModel;

    open spec fn view(&self) -> SourceModel {
        SourceModel {
            path: self.path@,
            region_size: self.region_size,
            mtu: self.mtu,
            file_roll_size: self.file_roll_size,
            keep_files: self.keep_files,
        }
    }
}

/// The merge of a topic this node owns: which members feed it.
pub struct TopicMux {
    /// Tells this merge from an earlier one of the same name.
    pub serial: u64,
    pub members: Vec<Incarnation>,
}

/// A [`TopicMux`] as a value.
#[verifier::ext_equal]
pub struct TopicModel {
    pub serial: u64,
    pub members: Seq<(Seq<char>, u64)>,
}

pub open spec fn incarnations(list: Seq<Incarnation>) -> Seq<(Seq<char>, u64)> {
    Seq::new(list.len(), |i: int| list[i]@)
}

impl View for TopicMux {
    type V = TopicModel;

    open spec fn view(&self) -> TopicModel {
        TopicModel { serial: self.serial, members: incarnations(self.members@) }
    }
}

/// A node's whole state.
pub struct Node {
    pub config: NodeConfig,
    /// The network-wide channel directory, as converged here.
    pub registry: Registry,
    pub dissemination: BroadcastDissemination,
    /// Where this node serves streams, once bound. A node never hears its own heartbeat.
    pub bound_stream_addr: Option<SocketAddr>,
    /// Channels this node is the origin of.
    pub hosted: NameMap<ChannelSource>,
    /// The subscription kept for each channel that clients or topics read.
    pub subscriptions: NameMap<SubId>,
    /// All subscriptions, whether or not they stand in the map above.
    pub conducted: Subscriptions,
    /// Topics this node owns.
    pub muxes: NameMap<TopicMux>,
    pub next_mux: u64,
    /// How long a member's owner may be unreachable, for the topics that retire such members.
    pub topic_reap: NameMap<Duration>,
    /// When the owner of a topic member was first found unreachable.
    pub member_dead_since: Table<Incarnation, u64>,
    /// Since when an owner never heard from has been known of and out of reach.
    pub owner_unreachable_since: Table<NodeId, u64>,
    /// Penalties of subscriptions that could not be established.
    pub attach_backoff: NameMap<DialPenalty>,
    /// Owners that were live at the last attach pass.
    pub last_live_owners: Vec<NodeId>,
    /// Duplicate ids already complained about.
    pub dup_reported: Vec<NodeId>,
    /// Penalties of dialled addresses.
    pub dial_backoff: Table<SocketAddr, DialPenalty>,
    /// Where the last tick's dial budget stopped in each candidate list.
    pub dial_cursor_seeds: usize,
    pub dial_cursor_learned: usize,
    pub dial_cursor_twins: usize,
    /// The incarnation of this node's discovery log.
    pub discovery_generation: u64,
    /// Changes to be written to the discovery log, in order.
    pub discovery: Vec<ChannelChange>,
    /// Live inbound stream and client connections.
    pub conns: usize,
}

} // verus!
