//! What goes over the wire, as plain values: control messages between peers, and the requests and
//! replies of local clients.
use vstd::prelude::*;

use crate::identity::{ChannelIdentity, IdentityModel, NodeId, RecordIndex};
use crate::membership::{Introduction, IntroductionModel};

verus! {

/// A peer link. Ids are stable: a link that goes away never passes its id on.
pub type PeerId = u64;

/// The id of no link.
pub const NO_PEER: PeerId = 0;

// ---------------- peers ----------------
/// A message between peers.
pub enum ControlMsg {
    /// Registry entries that changed.
    RegistryDelta(Vec<ChannelIdentity>),
    /// The whole registry, sent once when a link comes up.
    RegistrySync(Vec<ChannelIdentity>),
    /// The sender itself, and where it is.
    Heartbeat(Introduction),
    /// Another node, and where it is.
    PeerHint(Introduction),
    /// The sender is shutting down.
    Leaving { node: NodeId },
    /// A message of another plane, not expected on a peer link.
    Unexpected,
}

/// A [`ControlMsg`] as a value.
pub enum ControlModel {
    RegistryDelta(Seq<IdentityModel>),
    RegistrySync(Seq<IdentityModel>),
    Heartbeat(IntroductionModel),
    PeerHint(IntroductionModel),
    Leaving { node: NodeId },
    Unexpected,
}

impl View for ControlMsg {
    type V = ControlModel;

    open spec fn view(&self) -> ControlModel {
        match self {
            ControlMsg::RegistryDelta(ids) => ControlModel::RegistryDelta(
                crate::identity::models(ids@),
            ),
            ControlMsg::RegistrySync(ids) => ControlModel::RegistrySync(
                crate::identity::models(ids@),
            ),
            ControlMsg::Heartbeat(i) => ControlModel::Heartbeat(i@),
            ControlMsg::PeerHint(i) => ControlModel::PeerHint(i@),
            ControlMsg::Leaving { node } => ControlModel::Leaving { node: *node },
            ControlMsg::Unexpected => ControlModel::Unexpected,
        }
    }
}

// ---------------- clients ----------------
/// How a channel is laid out and how much of it is kept.
#[derive(Clone, Copy, PartialEq, Eq, Debug, Structural)]
pub struct ChannelOptions {
    pub region_size: u32,
    pub mtu: u32,
    /// Size at which the log rolls over to a new file; zero never rolls.
    pub file_roll_size: u64,
    /// How many files are kept; zero keeps all.
    pub keep_files: u32,
}

impl Default for ChannelOptions {
    fn default() -> (o: ChannelOptions)
        ensures
            o.region_size == 0x10_0000,
            o.mtu == 0,
            o.file_roll_size == 0,
            o.keep_files == 0,
    {
        ChannelOptions { region_size: 0x10_0000, mtu: 0, file_roll_size: 0, keep_files: 0 }
    }
}

#[derive(Clone, Copy, PartialEq, Eq, Debug, Structural)]
pub struct TopicOptions {
    pub channel: ChannelOptions,
    /// Records merged per member and poll; zero takes the default.
    pub max_batch_per_member: u32,
    /// How long a member's owner may be unreachable before the member is retired; zero never
    /// retires one.
    pub member_reap_after_ms: u64,
}

impl Default for TopicOptions {
    fn default() -> (o: TopicOptions)
        ensures
            o.channel.region_size == 0x10_0000,
            o.channel.mtu == 0,
            o.channel.file_roll_size == 0,
            o.channel.keep_files == 0,
            o.max_batch_per_member == 0,
            o.member_reap_after_ms == 0,
    {
        TopicOptions {
            channel: ChannelOptions::default(),
            max_batch_per_member: 0,
            member_reap_after_ms: 0,
        }
    }
}

/// A channel as a listing shows it.
#[derive(PartialEq, Eq, Debug)]
pub struct ChannelInfo {
    pub name: String,
    pub owner: NodeId,
    pub epoch: u64,
    /// Whether the owner can be reached from the node that made the listing.
    pub owner_live: bool,
    pub member_of: Option<String>,
    pub region_size: u32,
    pub mtu: u32,
    pub earliest_index: RecordIndex,
}

/// A [`ChannelInfo`] as a value.
#[verifier::ext_equal]
pub struct InfoModel {
    pub name: Seq<char>,
    pub owner: NodeId,
    pub epoch: u64,
    pub owner_live: bool,
    pub member_of: Option<Seq<char>>,
    pub region_size: u32,
    pub mtu: u32,
    pub earliest_index: RecordIndex,
}

impl View for ChannelInfo {
    type V = InfoModel;

    open spec fn view(&self) -> InfoModel {
        InfoModel {
            name: self.name@,
            owner: self.owner,
            epoch: self.epoch,
            owner_live: self.owner_live,
            member_of: crate::identity::opt_text(self.member_of),
            region_size: self.region_size,
            mtu: self.mtu,
            earliest_index: self.earliest_index,
        }
    }
}

/// How a listing shows the entry `id`.
pub open spec fn info_of(id: IdentityModel, owner_live: bool) -> InfoModel {
    InfoModel {
        name: id.name,
        owner: id.owner,
        epoch: id.epoch,
        owner_live,
        member_of: id.member_of,
        region_size: id.region_size,
        mtu: id.mtu,
        earliest_index: id.earliest_index,
    }
}

/// Shows the entry `id`.
pub fn channel_info(id: &ChannelIdentity, owner_live: bool) -> (info: ChannelInfo)
    ensures
        info@ == info_of(id@, owner_live),
{
    ChannelInfo {
        name: id.name.clone(),
        owner: id.owner,
        epoch: id.epoch,
        owner_live,
        member_of: crate::identity::clone_opt(&id.member_of),
        region_size: id.region_size,
        mtu: id.mtu,
        earliest_index: id.earliest_index,
    }
}

/// One record of the discovery log.
#[derive(PartialEq, Eq, Debug)]
pub enum ChannelChange {
    Upserted(ChannelInfo),
    Removed { name: String, epoch: u64 },
}

/// A [`ChannelChange`] as a value.
pub enum ChangeModel {
    Upserted(InfoModel),
    Removed { name: Seq<char>, epoch: u64 },
}

impl View for ChannelChange {
    type V = ChangeModel;

    open spec fn view(&self) -> ChangeModel {
        match self {
            ChannelChange::Upserted(info) => ChangeModel::Upserted(info@),
            ChannelChange::Removed { name, epoch } => ChangeModel::Removed {
                name: name@,
                epoch: *epoch,
            },
        }
    }
}

/// The values of a run of changes.
pub open spec fn changes(list: Seq<ChannelChange>) -> Seq<ChangeModel> {
    Seq::new(list.len(), |i: int| list[i]@)
}

/// Where to pick up the changes that follow a listing.
#[derive(PartialEq, Eq, Debug)]
pub struct DiscoveryCursor {
    pub log_path: String,
    /// The incarnation of the log that `from` refers to.
    pub generation: u64,
    pub from: RecordIndex,
}

/// A [`DiscoveryCursor`] as a value.
#[verifier::ext_equal]
pub struct CursorModel {
    pub log_path: Seq<char>,
    pub generation: u64,
    pub from: RecordIndex,
}

impl View for DiscoveryCursor {
    type V = CursorModel;

    open spec fn view(&self) -> CursorModel {
        CursorModel { log_path: self.log_path@, generation: self.generation, from: self.from }
    }
}

/// The health of a channel that a node reads.
#[derive(Clone, Copy, PartialEq, Eq, Debug, Structural)]
pub struct SubscriptionStatus {
    /// The channel is hosted here and read from its origin.
    pub local: bool,
    pub active: bool,
    pub synced: RecordIndex,
    pub head_at_connect: RecordIndex,
    pub owner: NodeId,
    pub owner_live: bool,
    pub generation: u64,
    /// Zero if no record has been applied.
    pub last_record_at_ms: u64,
    pub rebuilds_gap: u64,
    pub rebuilds_diverged: u64,
    /// Zero if the replica was never rebuilt.
    pub last_rebuild_at_ms: u64,
}

/// What a local client asks for.
#[derive(PartialEq, Eq, Debug)]
#[allow(inconsistent_fields)]
pub enum ClientRequest {
    Create { name: String, options: ChannelOptions },
    Subscribe { name: String, wait_ms: u64 },
    CreateTopic { name: String, options: TopicOptions },
    PublishToTopic { topic: String, member: String, options: ChannelOptions },
    Deregister { name: String },
    ListChannels { prefix: String },
    ForceDeregister { name: String },
    SubscriptionStatus { name: String },
}

/// What it is answered.
#[derive(PartialEq, Eq, Debug)]
pub enum ClientReply {
    Created { path: String },
    Subscribed { replica_path: String },
    Deregistered { existed: bool },
    Channels { channels: Vec<ChannelInfo>, cursor: DiscoveryCursor },
    Status(SubscriptionStatus),
    Error { message: String },
}

/// A [`ClientReply`] as a value.
pub enum ReplyModel {
    Created { path: Seq<char> },
    Subscribed { replica_path: Seq<char> },
    Deregistered { existed: bool },
    Channels { channels: Seq<InfoModel>, cursor: CursorModel },
    Status(SubscriptionStatus),
    Error { message: Seq<char> },
}

pub open spec fn infos(list: Seq<ChannelInfo>) -> Seq<InfoModel> {
    Seq::new(list.len(), |i: int| list[i]@)
}

impl View for ClientReply {
    type V = ReplyModel;

    open spec fn view(&self) -> ReplyModel {
        match self {
            ClientReply::Created { path } => ReplyModel::Created { path: path@ },
            ClientReply::Subscribed { replica_path } => ReplyModel::Subscribed {
                replica_path: replica_path@,
            },
            ClientReply::Deregistered { existed } => ReplyModel::Deregistered {
                existed: *existed,
            },
            ClientReply::Channels { channels, cursor } => ReplyModel::Channels {
                channels: infos(channels@),
                cursor: cursor@,
            },
            ClientReply::Status(status) => ReplyModel::Status(*status),
            ClientReply::Error { message } => ReplyModel::Error { message: message@ },
        }
    }
}

} // verus!
