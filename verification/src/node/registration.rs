//! Claiming names, hosting channels, and retiring them.
use vstd::prelude::*;
use vstd::string::*;

use crate::broadcast::BroadcastDissemination;
use crate::error::{ErrorKind, NodeError};
use crate::identity::{ChannelIdentity, IdentityModel, NodeId, RecordIndex};
use crate::names::{channel_dir, channel_path};
use crate::node::subscribing::SubEvent;
use crate::node::{ChannelSource, Node, SourceModel};
use crate::registry::Merged;
use crate::subscription::{Conducted, Subscription};
use crate::text::decimal;
use crate::time::{elapsed, Duration};
use crate::wire::{channel_info, ChangeModel, ChannelChange, ChannelOptions, ControlModel, NO_PEER};

verus! {

/// What creating an origin calls for: a log, made with these settings, and then
/// [`origin_created`](Node::origin_created).
pub struct OriginPlan {
    /// The claim that this node made to the name.
    pub identity: ChannelIdentity,
    /// The directory to create the log in.
    pub dir: String,
    pub path: String,
    pub file_roll_size: u64,
    /// How many files to keep; zero keeps all.
    pub keep_files: u32,
}

/// An [`OriginPlan`] as a value.
#[verifier::ext_equal]
pub struct PlanModel {
    pub identity: IdentityModel,
    pub dir: Seq<char>,
    pub path: Seq<char>,
    pub file_roll_size: u64,
    pub keep_files: u32,
}

impl View for OriginPlan {
    type V = PlanModel;

    open spec fn view(&self) -> PlanModel {
        PlanModel {
            identity: self.identity@,
            dir: self.dir@,
            path: self.path@,
            file_roll_size: self.file_roll_size,
            keep_files: self.keep_files,
        }
    }
}

impl OriginPlan {
    /// How many files the log's writer is to keep; `None` leaves it unlimited.
    pub fn retention(&self) -> (r: Option<u64>)
        ensures
            r == if self.keep_files > 0 {
                Some(self.keep_files as u64)
            } else {
                None
            },
    {
        if self.keep_files > 0 {
            Some(self.keep_files as u64)
        } else {
            None
        }
    }

    /// The incarnation to stamp into the log: the generation of the name.
    pub fn generation(&self) -> (g: u64)
        ensures
            g == self.identity.epoch,
    {
        self.identity.epoch
    }
}

/// What retiring a channel calls for.
pub struct Retirement {
    /// Whether there was a channel to retire.
    pub existed: bool,
    /// The directory to delete, so that a restart cannot find the channel again.
    pub remove_dir: Option<String>,
}

// ---------------- messages ----------------
/// The error for a name that another node holds.
pub open spec fn name_taken(name: Seq<char>, owner: NodeId) -> (ErrorKind, Seq<char>) {
    (
        ErrorKind::AlreadyExists,
        "channel '"@ + name + "' already registered by node "@ + crate::text::decimal_text(
            owner.0 as nat,
        ) + " — registration rejected"@,
    )
}

/// The error for retiring one's own channel by force.
pub open spec fn own_channel(name: Seq<char>) -> (ErrorKind, Seq<char>) {
    (
        ErrorKind::InvalidInput,
        "channel '"@ + name + "' is owned by this node — use deregister"@,
    )
}

/// The error for retiring a live node's channel.
pub open spec fn owner_is_live(name: Seq<char>, label: Seq<char>) -> (ErrorKind, Seq<char>) {
    (
        ErrorKind::ResourceBusy,
        "owner of '"@ + name + "' (node "@ + label
            + ") is a live member — it has not gone anywhere"@,
    )
}

/// The text of a span of time.
pub open spec fn span_text(nanos: nat) -> Seq<char> {
    crate::time::duration_text(
        (nanos / (crate::time::NANOS_PER_SEC as nat)) as u64,
        (nanos % (crate::time::NANOS_PER_SEC as nat)) as u32,
    )
}

/// The error for retiring the channel of a node that has not been gone for long enough.
pub open spec fn gone_too_recently(
    name: Seq<char>,
    owner: NodeId,
    gone: nat,
    required: nat,
) -> (ErrorKind, Seq<char>) {
    (
        ErrorKind::ResourceBusy,
        "owner of '"@ + name + "' (node "@ + crate::text::decimal_text(owner.0 as nat)
            + ") has been unreachable for "@ + span_text(gone) + ", less than the "@ + span_text(
            required,
        ) + " required to reclaim it"@,
    )
}

/// A node's label: its name if it advertised one, and its id.
pub open spec fn label_text(
    known: crate::membership::Acquaintances,
    node: NodeId,
) -> Seq<char> {
    match crate::membership::label_name(known, node) {
        Some(name) => name + " ("@ + crate::text::decimal_text(node.0 as nat) + ")"@,
        None => crate::text::decimal_text(node.0 as nat),
    }
}

// ---------------- effects ----------------
/// Whether `after` is `before` with `delta` queued to every peer.
pub open spec fn announced(
    before: BroadcastDissemination,
    after: BroadcastDissemination,
    delta: Seq<IdentityModel>,
) -> bool {
    &&& crate::broadcast::dispatches(after.outbox@) == crate::broadcast::dispatches(
        before.outbox@,
    ).push(
        (
            crate::broadcast::recipients(before.peers@, NO_PEER),
            ControlModel::RegistryDelta(delta),
        ),
    )
    &&& after == (BroadcastDissemination { outbox: after.outbox, ..before })
}

/// The discovery record of a tombstone.
pub open spec fn removal(t: IdentityModel) -> ChangeModel {
    ChangeModel::Removed { name: t.name, epoch: t.epoch }
}

/// What disseminating the tombstone `t` does: it goes into the discovery log, and to every peer.
pub open spec fn disseminated(before: Node, after: Node, t: IdentityModel) -> bool {
    &&& crate::wire::changes(after.discovery@) == crate::wire::changes(before.discovery@).push(
        removal(t),
    )
    &&& announced(before.dissemination, after.dissemination, seq![t])
}

impl Node {
    /// Whether `owner` is this node or a live member.
    pub open spec fn owner_live(&self, owner: NodeId, now: u64) -> bool {
        owner == self.config.node_id || self.dissemination.live(owner, now)
    }

    pub fn is_owner_live(&self, owner: NodeId, now: u64) -> (b: bool)
        ensures
            b == self.owner_live(owner, now),
    {
        owner.0 == self.config.node_id.0 || self.dissemination.live_addr_of(owner, now).is_some()
    }

    /// The discovery record that describes an entry.
    pub open spec fn change_value(&self, id: IdentityModel, now: u64) -> ChangeModel {
        if id.deleted {
            removal(id)
        } else {
            ChangeModel::Upserted(crate::wire::info_of(id, self.owner_live(id.owner, now)))
        }
    }

    /// The discovery record that describes an entry.
    pub fn change_of(&self, id: &ChannelIdentity, now: u64) -> (c: ChannelChange)
        ensures
            c@ == self.change_value(id@, now),
    {
        if id.deleted {
            return ChannelChange::Removed { name: id.name.clone(), epoch: id.epoch };
        }
        ChannelChange::Upserted(channel_info(id, self.is_owner_live(id.owner, now)))
    }

    fn publish_change(&mut self, change: ChannelChange)
        ensures
            crate::wire::changes(final(self).discovery@) == crate::wire::changes(
                old(self).discovery@,
            ).push(change@),
            *final(self) == (Node { discovery: final(self).discovery, ..*old(self) }),
    {
        let ghost before = crate::wire::changes(self.discovery@);
        self.discovery.push(change);
        assert(crate::wire::changes(self.discovery@) =~= before.push(change@));
    }

    /// Merges a claim into the registry, and publishes the result if and only if the map changed.
    pub fn merge_and_publish(&mut self, incoming: ChannelIdentity, now: u64) -> (r: Merged)
        ensures
            final(self).registry@ == crate::registry::merged(old(self).registry@, incoming@),
            crate::registry::well_named(final(self).registry@),
            final(self).registry@.contains_key(incoming@.name),
            r.winner@ == final(self).registry@[incoming@.name],
            r.changed == crate::registry::moves(old(self).registry@, incoming@),
            crate::wire::changes(final(self).discovery@) == if r.changed {
                crate::wire::changes(old(self).discovery@).push(
                    old(self).change_value(incoming@, now),
                )
            } else {
                crate::wire::changes(old(self).discovery@)
            },
            !r.changed ==> *final(self) == *old(self),
            *final(self) == (Node {
                registry: final(self).registry,
                discovery: final(self).discovery,
                ..*old(self)
            }),
    {
        let r = self.registry.merge_tracked(incoming);
        if r.changed {
            let change = self.change_of(&r.winner, now);
            self.publish_change(change);
        }
        r
    }

    /// Disseminates a tombstone this node just produced: to its own discovery log and to its peers.
    /// Both, always: peers publish what they merge, so leaving out the local half would leave the
    /// watchers of this node alone with an entry that everyone else agrees is gone.
    pub fn disseminate_tombstone(&mut self, tombstone: ChannelIdentity)
        requires
            tombstone@.deleted,
        ensures
            disseminated(*old(self), *final(self), tombstone@),
            *final(self) == (Node {
                discovery: final(self).discovery,
                dissemination: final(self).dissemination,
                ..*old(self)
            }),
    {
        let change = ChannelChange::Removed {
            name: tombstone.name.clone(),
            epoch: tombstone.epoch,
        };
        self.publish_change(change);
        self.announce_one(tombstone);
    }

    fn announce_one(&mut self, id: ChannelIdentity)
        ensures
            announced(old(self).dissemination, final(self).dissemination, seq![id@]),
            *final(self) == (Node { dissemination: final(self).dissemination, ..*old(self) }),
    {
        let mut delta: Vec<ChannelIdentity> = Vec::new();
        let ghost value = id@;
        delta.push(id);
        assert(crate::identity::models(delta@) =~= seq![value]);
        self.dissemination.announce(delta);
    }

    // ---------------- hosting ----------------
    /// The claim that this node makes to `name` at `wall`.
    pub open spec fn claim(
        &self,
        name: Seq<char>,
        region_size: u32,
        mtu: u32,
        member_of: Option<Seq<char>>,
        wall: u64,
    ) -> IdentityModel {
        IdentityModel {
            name,
            owner: self.config.node_id,
            region_size,
            mtu,
            earliest_index: RecordIndex(0),
            registered_at_nanos: wall,
            epoch: crate::registry::next_epoch(self.registry@, name) as u64,
            deleted: false,
            member_of,
        }
    }

    /// Whether a claim by this node to `name` at `wall` succeeds: the name has a generation left,
    /// and once the claim is merged the name is this node's.
    pub open spec fn claim_succeeds(&self, claim: IdentityModel) -> bool {
        &&& crate::registry::has_epoch(self.registry@, claim.name)
        &&& crate::registry::merged(self.registry@, claim)[claim.name].owner
            == self.config.node_id
    }

    /// Who holds `name` if a claim to it fails.
    pub open spec fn holder(&self, claim: IdentityModel) -> NodeId {
        self.registry@[claim.name].owner
    }

    /// What a claim does: it is merged, and published if that changed the map.
    pub open spec fn claimed(before: Node, after: Node, claim: IdentityModel, now: u64) -> bool {
        let fits = crate::registry::has_epoch(before.registry@, claim.name);
        let moved = fits && crate::registry::moves(before.registry@, claim);
        &&& after.registry@ == if fits {
            crate::registry::merged(before.registry@, claim)
        } else {
            before.registry@
        }
        &&& crate::wire::changes(after.discovery@) == if moved {
            crate::wire::changes(before.discovery@).push(before.change_value(claim, now))
        } else {
            crate::wire::changes(before.discovery@)
        }
    }

    /// Claims `name` for this node. Returns the claim, or `AlreadyExists` if another node holds the
    /// name. Claiming comes before any file is created, so a refused claim leaves none behind.
    pub fn claim_name(
        &mut self,
        name: &str,
        region_size: u32,
        mtu: u32,
        member_of: Option<String>,
        now: u64,
        wall: u64,
    ) -> (r: Result<ChannelIdentity, NodeError>)
        ensures
            ({
                let claim = old(self).claim(
                    name@,
                    region_size,
                    mtu,
                    crate::identity::opt_text(member_of),
                    wall,
                );
                &&& r is Ok <==> old(self).claim_succeeds(claim)
                &&& r matches Ok(id) ==> id@ == claim
                &&& r matches Err(e) ==> e@ == name_taken(name@, old(self).holder(claim))
                &&& Node::claimed(*old(self), *final(self), claim, now)
            }),
            *final(self) == (Node {
                registry: final(self).registry,
                discovery: final(self).discovery,
                ..*old(self)
            }),
    {
        if !self.registry.claimable(name) {
            return Err(
                taken(
                    name,
                    match self.registry.get_raw(name) {
                        Some(id) => id.owner,
                        None => self.config.node_id,
                    },
                ),
            );
        }
        let identity = ChannelIdentity {
            name: name.to_owned(),
            owner: self.config.node_id,
            region_size,
            mtu,
            earliest_index: RecordIndex(0),
            registered_at_nanos: wall,
            epoch: self.registry.claim_epoch(name),
            deleted: false,
            member_of,
        };
        let merged = self.merge_and_publish(identity.clone(), now);
        let winner = merged.winner;
        if winner.owner.0 != self.config.node_id.0 || winner.deleted {
            return Err(taken(name, winner.owner));
        }
        Ok(identity)
    }

    /// The plan for an origin that this node has claimed as `identity`.
    pub open spec fn plan_value(
        &self,
        identity: IdentityModel,
        options: ChannelOptions,
    ) -> PlanModel {
        PlanModel {
            identity,
            dir: crate::names::channel_dir_of(self.config.data_dir@, identity.name),
            path: crate::names::channel_path_of(self.config.data_dir@, identity.name),
            file_roll_size: options.file_roll_size,
            keep_files: options.keep_files,
        }
    }

    /// What a request to create an origin is answered.
    pub open spec fn creation(
        &self,
        name: Seq<char>,
        options: ChannelOptions,
        member_of: Option<Seq<char>>,
        wall: u64,
    ) -> Result<PlanModel, (ErrorKind, Seq<char>)> {
        let claim = self.claim(name, options.region_size, options.mtu, member_of, wall);
        if !crate::names::valid_name(name) {
            Err(crate::names::bad_name())
        } else if self.claim_succeeds(claim) {
            Ok(self.plan_value(claim, options))
        } else {
            Err(name_taken(name, self.holder(claim)))
        }
    }

    /// What a request to create an origin does: it claims the name, if that is one.
    pub open spec fn created(
        before: Node,
        after: Node,
        name: Seq<char>,
        options: ChannelOptions,
        member_of: Option<Seq<char>>,
        now: u64,
        wall: u64,
    ) -> bool {
        let claim = before.claim(name, options.region_size, options.mtu, member_of, wall);
        &&& if crate::names::valid_name(name) {
            Node::claimed(before, after, claim, now)
        } else {
            after == before
        }
        &&& after == (Node { registry: after.registry, discovery: after.discovery, ..before })
    }

    /// Claims `name` for a new origin, which feeds the topic `member_of` if one is given.
    pub fn create_origin(
        &mut self,
        name: &str,
        options: ChannelOptions,
        member_of: Option<String>,
        now: u64,
        wall: u64,
    ) -> (r: Result<OriginPlan, NodeError>)
        ensures
            ({
                let claim = old(self).claim(
                    name@,
                    options.region_size,
                    options.mtu,
                    crate::identity::opt_text(member_of),
                    wall,
                );
                if !crate::names::valid_name(name@) {
                    &&& r matches Err(e) && e@ == crate::names::bad_name()
                    &&& *final(self) == *old(self)
                } else {
                    &&& r is Ok <==> old(self).claim_succeeds(claim)
                    &&& r matches Ok(plan) ==> plan@ == old(self).plan_value(claim, options)
                    &&& r matches Err(e) ==> e@ == name_taken(name@, old(self).holder(claim))
                    &&& Node::claimed(*old(self), *final(self), claim, now)
                }
            }),
            *final(self) == (Node {
                registry: final(self).registry,
                discovery: final(self).discovery,
                ..*old(self)
            }),
    {
        let path = match channel_path(self.config.data_dir.as_str(), name) {
            Ok(p) => p,
            Err(e) => {
                return Err(e);
            },
        };
        let dir = match channel_dir(self.config.data_dir.as_str(), name) {
            Ok(p) => p,
            Err(e) => {
                return Err(e);
            },
        };
        match self.claim_name(name, options.region_size, options.mtu, member_of, now, wall) {
            Ok(identity) => Ok(
                OriginPlan {
                    identity,
                    dir,
                    path,
                    file_roll_size: options.file_roll_size,
                    keep_files: options.keep_files,
                },
            ),
            Err(e) => Err(e),
        }
    }

    /// [`create_origin`](Self::create_origin) for a client, with the client's options.
    pub fn create_for_client(
        &mut self,
        name: &str,
        options: ChannelOptions,
        now: u64,
        wall: u64,
    ) -> (r: Result<OriginPlan, NodeError>)
        ensures
            ({
                let claim = old(self).claim(name@, options.region_size, options.mtu, None, wall);
                if !crate::names::valid_name(name@) {
                    &&& r matches Err(e) && e@ == crate::names::bad_name()
                    &&& *final(self) == *old(self)
                } else {
                    &&& r is Ok <==> old(self).claim_succeeds(claim)
                    &&& r matches Ok(plan) ==> plan@ == old(self).plan_value(claim, options)
                    &&& r matches Err(e) ==> e@ == name_taken(name@, old(self).holder(claim))
                    &&& Node::claimed(*old(self), *final(self), claim, now)
                }
            }),
            *final(self) == (Node {
                registry: final(self).registry,
                discovery: final(self).discovery,
                ..*old(self)
            }),
    {
        self.create_origin(name, options, None, now, wall)
    }

    /// [`create_origin`](Self::create_origin) for an embedder, which configures rolling and
    /// retention itself: none is announced, so replicas keep everything.
    pub fn host_channel(
        &mut self,
        name: &str,
        region_size: u32,
        mtu: u32,
        now: u64,
        wall: u64,
    ) -> (r: Result<OriginPlan, NodeError>)
        ensures
            ({
                let claim = old(self).claim(name@, region_size, mtu, None, wall);
                let options = ChannelOptions { region_size, mtu, file_roll_size: 0, keep_files: 0 };
                if !crate::names::valid_name(name@) {
                    &&& r matches Err(e) && e@ == crate::names::bad_name()
                    &&& *final(self) == *old(self)
                } else {
                    &&& r is Ok <==> old(self).claim_succeeds(claim)
                    &&& r matches Ok(plan) ==> plan@ == old(self).plan_value(claim, options)
                    &&& r matches Err(e) ==> e@ == name_taken(name@, old(self).holder(claim))
                    &&& Node::claimed(*old(self), *final(self), claim, now)
                }
            }),
            *final(self) == (Node {
                registry: final(self).registry,
                discovery: final(self).discovery,
                ..*old(self)
            }),
    {
        self.create_origin(
            name,
            ChannelOptions { region_size, mtu, file_roll_size: 0, keep_files: 0 },
            None,
            now,
            wall,
        )
    }

    /// What is served of a channel announced as `id`.
    pub open spec fn source_value(
        id: IdentityModel,
        path: Seq<char>,
        file_roll_size: u64,
        keep_files: u32,
    ) -> SourceModel {
        SourceModel {
            path,
            region_size: id.region_size,
            mtu: id.mtu,
            file_roll_size,
            keep_files,
        }
    }

    /// Announces a freshly claimed origin to peers, and hosts it from then on. Rolling and retention
    /// go with it, so that replicas inherit the same disk bounds.
    pub fn announce_hosted(
        &mut self,
        identity: &ChannelIdentity,
        path: String,
        file_roll_size: u64,
        keep_files: u32,
    )
        ensures
            announced(old(self).dissemination, final(self).dissemination, seq![identity@]),
            final(self).hosted@ == old(self).hosted@.insert(
                identity@.name,
                Node::source_value(identity@, path@, file_roll_size, keep_files),
            ),
            *final(self) == (Node {
                dissemination: final(self).dissemination,
                hosted: final(self).hosted,
                ..*old(self)
            }),
    {
        self.announce_one(identity.clone());
        self.hosted.insert(
            identity.name.clone(),
            ChannelSource {
                path,
                region_size: identity.region_size,
                mtu: identity.mtu,
                file_roll_size,
                keep_files,
            },
        );
    }

    /// The log of a planned origin exists: announce it, host it, and return its path.
    pub fn origin_created(&mut self, plan: OriginPlan) -> (path: String)
        ensures
            path@ == plan@.path,
            announced(
                old(self).dissemination,
                final(self).dissemination,
                seq![plan@.identity],
            ),
            final(self).hosted@ == old(self).hosted@.insert(
                plan@.identity.name,
                Node::source_value(
                    plan@.identity,
                    plan@.path,
                    plan@.file_roll_size,
                    plan@.keep_files,
                ),
            ),
            *final(self) == (Node {
                dissemination: final(self).dissemination,
                hosted: final(self).hosted,
                ..*old(self)
            }),
    {
        let path = plan.path.clone();
        self.announce_hosted(&plan.identity, plan.path, plan.file_roll_size, plan.keep_files);
        path
    }

    // ---------------- retiring ----------------
    /// The live entry for `name`, if this node owns it.
    pub open spec fn owned_entry(&self, name: Seq<char>) -> Option<IdentityModel> {
        match crate::registry::live_entry(self.registry@, name) {
            Some(id) if id.owner == self.config.node_id => Some(id),
            _ => None,
        }
    }

    /// Deregisters a channel this node owns: it is tombstoned, no longer hosted, and the tombstone
    /// is disseminated.
    pub fn deregister(&mut self, name: &str) -> (r: Retirement)
        ensures
            match old(self).owned_entry(name@) {
                Some(id) => {
                    let t = crate::registry::tombstone_of(id);
                    &&& r.existed
                    &&& final(self).registry@ == old(self).registry@.insert(name@, t)
                    &&& final(self).hosted@ == old(self).hosted@.remove(name@)
                    &&& disseminated(*old(self), *final(self), t)
                    &&& crate::identity::opt_text(r.remove_dir) == if crate::names::valid_name(
                        name@,
                    ) {
                        Some(
                            crate::names::channel_dir_of(old(self).config.data_dir@, name@),
                        )
                    } else {
                        None
                    }
                },
                None => !r.existed && r.remove_dir is None && *final(self) == *old(self),
            },
            *final(self) == (Node {
                registry: final(self).registry,
                hosted: final(self).hosted,
                discovery: final(self).discovery,
                dissemination: final(self).dissemination,
                ..*old(self)
            }),
    {
        let owner = self.config.node_id;
        match self.registry.deregister(name, owner) {
            Some(tombstone) => {
                let _ = self.hosted.remove(name);
                self.disseminate_tombstone(tombstone);
                let remove_dir = match channel_dir(self.config.data_dir.as_str(), name) {
                    Ok(dir) => Some(dir),
                    Err(_) => None,
                };
                Retirement { existed: true, remove_dir }
            },
            None => Retirement { existed: false, remove_dir: None },
        }
    }

    /// How long `owner` has been out of this node's reach at `now`: its silence, if it was ever heard
    /// from; else how long it has been known of and not reached.
    pub open spec fn out_of_reach(&self, owner: NodeId, now: u64) -> nat {
        match crate::membership::silence(self.dissemination.membership@, owner, now) {
            Some(n) => n,
            None => if self.owner_unreachable_since@.contains_key(owner) {
                crate::time::elapsed_nanos(self.owner_unreachable_since@[owner], now)
            } else {
                0
            },
        }
    }

    /// The clocks of unreachable owners, once asked about `owner` at `now`: the first question
    /// starts the clock.
    pub open spec fn clocks_after_asking(&self, owner: NodeId, now: u64) -> Map<NodeId, u64> {
        if crate::membership::silence(self.dissemination.membership@, owner, now) is None
            && !self.owner_unreachable_since@.contains_key(owner) {
            self.owner_unreachable_since@.insert(owner, now)
        } else {
            self.owner_unreachable_since@
        }
    }

    /// How long `owner` has been out of this node's reach. Never this node's own uptime: only what
    /// was observed of the owner counts.
    pub fn unreachable_for(&mut self, owner: NodeId, now: u64) -> (d: Duration)
        ensures
            d@ == old(self).out_of_reach(owner, now),
            final(self).owner_unreachable_since@ == old(self).clocks_after_asking(owner, now),
            *final(self) == (Node {
                owner_unreachable_since: final(self).owner_unreachable_since,
                ..*old(self)
            }),
    {
        match self.dissemination.silent_for(owner, now) {
            Some(silence) => {
                return silence;
            },
            None => {},
        }
        match self.owner_unreachable_since.get(&owner) {
            Some(since) => {
                return elapsed(*since, now);
            },
            None => {},
        }
        self.owner_unreachable_since.insert(owner, now);
        Duration::zero()
    }

    /// A node's label for messages that people read.
    pub fn label(&self, node: NodeId) -> (s: String)
        ensures
            s@ == label_text(self.dissemination.membership@, node),
    {
        match self.dissemination.membership.name_of(node) {
            Some(name) => {
                let mut s = name.clone();
                s.append(" (");
                s.append(decimal(node.0).as_str());
                s.append(")");
                s
            },
            None => decimal(node.0),
        }
    }

    /// What stopping the subscription kept for `name` leaves.
    pub open spec fn subscriptions_without(
        &self,
        name: Seq<char>,
    ) -> Map<crate::subscription::SubId, Conducted> {
        if self.subscriptions@.contains_key(name) && self.conducted@.contains_key(
            self.subscriptions@[name],
        ) {
            let id = self.subscriptions@[name];
            let c = self.conducted@[id];
            self.conducted@.insert(
                id,
                Conducted { name: c.name, sub: Subscription { stopped: true, ..c.sub } },
            )
        } else {
            self.conducted@
        }
    }

    /// Whether `after` is `before` with the subscription kept for `name` stopped and forgotten.
    pub open spec fn unsubscribed(before: Node, after: Node, name: Seq<char>) -> bool {
        &&& after.subscriptions@ == before.subscriptions@.remove(name)
        &&& after.conducted@ == before.subscriptions_without(name)
        &&& after.conducted.ids() == before.conducted.ids()
        &&& after.conducted.next_id() == before.conducted.next_id()
    }

    /// Stops and forgets the subscription kept for `name`. Returns whether there was one.
    pub fn unsubscribe(&mut self, name: &str) -> (found: bool)
        ensures
            Node::in_step(*old(self), *final(self)),
            found == old(self).subscriptions@.contains_key(name@),
            Node::unsubscribed(*old(self), *final(self), name@),
            !found ==> *final(self) == *old(self),
            *final(self) == (Node {
                subscriptions: final(self).subscriptions,
                conducted: final(self).conducted,
                ..*old(self)
            }),
    {
        if !self.subscriptions.contains(name) {
            assert(self.subscriptions@ =~= self.subscriptions@.remove(name@));
            return false;
        }
        match self.subscriptions.remove(name) {
            Some(id) => {
                self.stop_subscription(id);
                true
            },
            None => false,
        }
    }

    /// Stops a subscription.
    pub fn stop_subscription(&mut self, id: crate::subscription::SubId)
        ensures
            Node::in_step(*old(self), *final(self)),
            final(self).conducted@ == if old(self).conducted@.contains_key(id) {
                let c = old(self).conducted@[id];
                old(self).conducted@.insert(
                    id,
                    Conducted { name: c.name, sub: c.sub.after(SubEvent::Stopped) },
                )
            } else {
                old(self).conducted@
            },
            final(self).conducted.ids() == old(self).conducted.ids(),
            final(self).conducted.next_id() == old(self).conducted.next_id(),
            *final(self) == (Node { conducted: final(self).conducted, ..*old(self) }),
    {
        let stopped = match self.conducted.get(id) {
            Some(c) => {
                let mut sub = c.sub.clone();
                sub.stop();
                Conducted { name: c.name.clone(), sub }
            },
            None => {
                return ;
            },
        };
        self.conducted.set(id, stopped);
    }

    /// Stops and forgets the subscription for a name that the network has agreed is gone, and its
    /// attach penalty with it: a name reclaimed later must not inherit its predecessor's. The
    /// replica's files stay; the records in them are still history.
    pub fn retire_subscription(&mut self, name: &str)
        ensures
            Node::in_step(*old(self), *final(self)),
            Node::unsubscribed(*old(self), *final(self), name@),
            final(self).attach_backoff@ == old(self).attach_backoff@.remove(name@),
            *final(self) == (Node {
                subscriptions: final(self).subscriptions,
                conducted: final(self).conducted,
                attach_backoff: final(self).attach_backoff,
                ..*old(self)
            }),
    {
        let _ = self.unsubscribe(name);
        self.attach_now(name);
    }

    /// Forgets a name's attach penalty, so that the next attempt is immediate.
    pub fn attach_now(&mut self, name: &str)
        ensures
            Node::in_step(*old(self), *final(self)),
            final(self).attach_backoff@ == old(self).attach_backoff@.remove(name@),
            *final(self) == (Node { attach_backoff: final(self).attach_backoff, ..*old(self) }),
    {
        let _ = self.attach_backoff.remove(name);
    }

    /// What an operator's request to retire `name` is answered.
    pub open spec fn force_verdict(&self, name: Seq<char>, now: u64) -> Result<
        bool,
        (ErrorKind, Seq<char>),
    > {
        match crate::registry::live_entry(self.registry@, name) {
            None => Ok(false),
            Some(id) => if id.owner == self.config.node_id {
                Err(own_channel(name))
            } else if self.dissemination.live(id.owner, now) {
                Err(owner_is_live(name, label_text(self.dissemination.membership@, id.owner)))
            } else if self.out_of_reach(id.owner, now) < self.config.reclaim_after@ {
                Err(
                    gone_too_recently(
                        name,
                        id.owner,
                        self.out_of_reach(id.owner, now),
                        self.config.reclaim_after@,
                    ),
                )
            } else {
                Ok(true)
            },
        }
    }

    /// What an operator's request to retire `name` does. A refused one changes nothing, except that
    /// asking about an owner never heard from starts its clock.
    pub open spec fn forced(before: Node, after: Node, name: Seq<char>, now: u64) -> bool {
        match crate::registry::live_entry(before.registry@, name) {
            None => after == before,
            Some(id) => if id.owner == before.config.node_id || before.dissemination.live(
                id.owner,
                now,
            ) {
                after == before
            } else if before.out_of_reach(id.owner, now) < before.config.reclaim_after@ {
                &&& after.owner_unreachable_since@ == before.clocks_after_asking(id.owner, now)
                &&& after == (Node {
                    owner_unreachable_since: after.owner_unreachable_since,
                    ..before
                })
            } else {
                let t = crate::registry::tombstone_of(id);
                &&& after.registry@ == before.registry@.insert(name, t)
                &&& disseminated(before, after, t)
                &&& Node::unsubscribed(before, after, name)
                &&& after.attach_backoff@ == before.attach_backoff@.remove(name)
                &&& after.owner_unreachable_since@ == before.clocks_after_asking(id.owner, now)
                &&& after == (Node {
                    owner_unreachable_since: after.owner_unreachable_since,
                    registry: after.registry,
                    discovery: after.discovery,
                    dissemination: after.dissemination,
                    subscriptions: after.subscriptions,
                    conducted: after.conducted,
                    attach_backoff: after.attach_backoff,
                    ..before
                })
            },
        }
    }

    /// Retires the channel of a node that is gone, so that its name can be claimed elsewhere. This
    /// is for an operator to invoke, never automatic: under a partition each side sees the other as
    /// gone. Refused for this node's own channels, for those of live members, and for those of
    /// owners out of reach for less than `reclaim_after`.
    pub fn force_deregister(&mut self, name: &str, now: u64) -> (r: Result<bool, NodeError>)
        ensures
            Node::in_step(*old(self), *final(self)),
            match r {
                Ok(existed) => old(self).force_verdict(name@, now) == Ok::<
                    bool,
                    (ErrorKind, Seq<char>),
                >(existed),
                Err(e) => old(self).force_verdict(name@, now) == Err::<
                    bool,
                    (ErrorKind, Seq<char>),
                >(e@),
            },
            Node::forced(*old(self), *final(self), name@, now),
    {
        let owner = match self.registry.get(name) {
            Some(id) => id.owner,
            None => {
                return Ok(false);
            },
        };
        if owner.0 == self.config.node_id.0 {
            let mut message = "channel '".to_owned();
            message.append(name);
            message.append("' is owned by this node — use deregister");
            return Err(NodeError { kind: ErrorKind::InvalidInput, message });
        }
        if self.dissemination.live_addr_of(owner, now).is_some() {
            let mut message = "owner of '".to_owned();
            message.append(name);
            message.append("' (node ");
            message.append(self.label(owner).as_str());
            message.append(") is a live member — it has not gone anywhere");
            return Err(NodeError { kind: ErrorKind::ResourceBusy, message });
        }
        let gone = self.unreachable_for(owner, now);
        if gone.shorter_than(self.config.reclaim_after) {
            let mut message = "owner of '".to_owned();
            message.append(name);
            message.append("' (node ");
            message.append(decimal(owner.0).as_str());
            message.append(") has been unreachable for ");
            message.append(gone.text().as_str());
            message.append(", less than the ");
            message.append(self.config.reclaim_after.text().as_str());
            message.append(" required to reclaim it");
            return Err(NodeError { kind: ErrorKind::ResourceBusy, message });
        }
        match self.registry.reap(name) {
            Some(tombstone) => {
                self.disseminate_tombstone(tombstone);
                self.retire_subscription(name);
                Ok(true)
            },
            None => Ok(false),
        }
    }
}

fn taken(name: &str, owner: NodeId) -> (e: NodeError)
    ensures
        e@ == name_taken(name@, owner),
{
    let mut message = "channel '".to_owned();
    message.append(name);
    message.append("' already registered by node ");
    message.append(decimal(owner.0).as_str());
    message.append(" — registration rejected");
    NodeError { kind: ErrorKind::AlreadyExists, message }
}

} // verus!
