//! The client plane: one request, one reply.
//!
//! What of a request is left to be done outside the node, a log to create or a channel to wait for,
//! is a [`RequestStep`].
use vstd::prelude::*;

use crate::identity::RecordIndex;
use crate::node::registration::OriginPlan;
use crate::node::topic_life::TopicPlan;
use crate::node::Node;
use crate::time::Duration;
use crate::wire::{ClientReply, ClientRequest, ReplyModel, SubscriptionStatus};

verus! {

/// What a request calls for.
#[allow(inconsistent_fields)]
pub enum RequestStep {
    /// Send this reply.
    Reply(ClientReply),
    /// Create the log, report it with [`Node::origin_created`], and reply
    /// [`created_or_error`].
    CreateOrigin(OriginPlan),
    /// Create the log and report it likewise, open the merge, and report that with
    /// [`Node::topic_opened`].
    CreateTopic { plan: TopicPlan, member_reap_after_ms: u64 },
    /// Create the log and report it likewise; if [`Node::attach_epoch`] then gives an incarnation,
    /// attach the member in it.
    Publish { plan: OriginPlan, topic: String },
    /// Search for the channel, for ever if `wait` is `None`, then subscribe and reply
    /// [`subscribed_or_error`].
    Subscribe { name: String, wait: Option<Duration> },
    /// Delete the directory, if any, and reply.
    Delete { remove_dir: Option<String>, reply: ClientReply },
    /// Write the pending changes to the discovery log, and reply what
    /// [`Node::list_channels`] lists.
    List { prefix: String },
    /// Read the head of the log at `path`, zero if it cannot be read, and reply the
    /// [`Node::subscription_status`] that has it.
    ReadHead { name: String, path: String },
}

pub open spec fn not_read_here(name: Seq<char>) -> Seq<char> {
    "channel '"@ + name + "' is neither hosted nor subscribed here"@
}

/// Whether `step` is the reply `r` and nothing else.
pub open spec fn replies_with(step: RequestStep, r: ReplyModel) -> bool {
    step matches RequestStep::Reply(reply) && reply@ == r
}

/// Replies to a request to create a log: its path, or why there is none.
pub fn created_or_error(r: Result<String, String>) -> (reply: ClientReply)
    ensures
        reply@ == match r {
            Ok(path) => ReplyModel::Created { path: path@ },
            Err(message) => ReplyModel::Error { message: message@ },
        },
{
    match r {
        Ok(path) => ClientReply::Created { path },
        Err(message) => ClientReply::Error { message },
    }
}

/// Replies to a request to subscribe: where the replica is, or why there is none.
pub fn subscribed_or_error(r: Result<String, String>) -> (reply: ClientReply)
    ensures
        reply@ == match r {
            Ok(replica_path) => ReplyModel::Subscribed { replica_path: replica_path@ },
            Err(message) => ReplyModel::Error { message: message@ },
        },
{
    match r {
        Ok(replica_path) => ClientReply::Subscribed { replica_path },
        Err(message) => ClientReply::Error { message },
    }
}

impl Node {
    /// Whether `after` is `before` with the channel `name`, which this node owns or does not,
    /// deregistered, and the subscription to it retired.
    pub open spec fn deregistered(before: Node, after: Node, name: Seq<char>) -> bool {
        &&& match before.owned_entry(name) {
            Some(id) => {
                let t = crate::registry::tombstone_of(id);
                &&& after.registry@ == before.registry@.insert(name, t)
                &&& after.hosted@ == before.hosted@.remove(name)
                &&& crate::node::registration::disseminated(before, after, t)
            },
            None => {
                &&& after.registry == before.registry
                &&& after.hosted == before.hosted
                &&& after.dissemination == before.dissemination
                &&& after.discovery == before.discovery
            },
        }
        &&& Node::unsubscribed(before, after, name)
        &&& after.attach_backoff@ == before.attach_backoff@.remove(name)
        &&& after == (Node {
            registry: after.registry,
            hosted: after.hosted,
            discovery: after.discovery,
            dissemination: after.dissemination,
            subscriptions: after.subscriptions,
            conducted: after.conducted,
            attach_backoff: after.attach_backoff,
            ..before
        })
    }

    /// What a request asks of this node, and what it does to it.
    pub open spec fn handled(
        before: Node,
        after: Node,
        req: ClientRequest,
        step: RequestStep,
        now: u64,
        wall: u64,
    ) -> bool {
        match req {
            ClientRequest::Create { name, options } => {
                &&& match before.creation(name@, options, None, wall) {
                    Ok(plan) => step matches RequestStep::CreateOrigin(p) && p@ == plan,
                    Err(e) => replies_with(step, ReplyModel::Error { message: e.1 }),
                }
                &&& Node::created(before, after, name@, options, None, now, wall)
            },
            ClientRequest::CreateTopic { name, options } => {
                &&& match before.creation(name@, options.channel, None, wall) {
                    Ok(plan) => {
                        &&& step matches RequestStep::CreateTopic { plan: p, member_reap_after_ms }
                        &&& p.origin@ == plan
                        &&& p.batch == if options.max_batch_per_member == 0 {
                            crate::limits::MAX_BATCH_PER_MEMBER as int
                        } else {
                            options.max_batch_per_member as int
                        }
                        &&& member_reap_after_ms == options.member_reap_after_ms
                    },
                    Err(e) => replies_with(step, ReplyModel::Error { message: e.1 }),
                }
                &&& Node::created(before, after, name@, options.channel, None, now, wall)
            },
            ClientRequest::PublishToTopic { topic, member, options } => {
                &&& match before.creation(member@, options, Some(topic@), wall) {
                    Ok(plan) => {
                        &&& step matches RequestStep::Publish { plan: p, topic: t }
                        &&& p@ == plan
                        &&& t@ == topic@
                    },
                    Err(e) => replies_with(step, ReplyModel::Error { message: e.1 }),
                }
                &&& Node::created(before, after, member@, options, Some(topic@), now, wall)
            },
            ClientRequest::Subscribe { name, wait_ms } => {
                &&& if before.hosted@.contains_key(name@) {
                    replies_with(
                        step,
                        ReplyModel::Subscribed { replica_path: before.hosted@[name@].path },
                    )
                } else if before.subscribed(name@) {
                    replies_with(
                        step,
                        ReplyModel::Subscribed {
                            replica_path: before.kept(name@)->0.replica_path@,
                        },
                    )
                } else {
                    &&& step matches RequestStep::Subscribe { name: n, wait }
                    &&& n@ == name@
                    &&& match wait {
                        Some(w) => wait_ms != 0 && w@ == wait_ms * crate::time::NANOS_PER_MILLI,
                        None => wait_ms == 0,
                    }
                }
                &&& after == before
            },
            ClientRequest::Deregister { name } => {
                &&& step matches RequestStep::Delete { remove_dir, reply }
                &&& reply@ == (ReplyModel::Deregistered {
                    existed: before.owned_entry(name@) is Some,
                })
                &&& crate::identity::opt_text(remove_dir) == if before.owned_entry(name@) is Some
                    && crate::names::valid_name(name@) {
                    Some(crate::names::channel_dir_of(before.config.data_dir@, name@))
                } else {
                    None
                }
                &&& Node::deregistered(before, after, name@)
            },
            ClientRequest::ListChannels { prefix } => {
                &&& step matches RequestStep::List { prefix: p }
                &&& p@ == prefix@
                &&& after == before
            },
            ClientRequest::ForceDeregister { name } => {
                &&& replies_with(
                    step,
                    match before.force_verdict(name@, now) {
                        Ok(existed) => ReplyModel::Deregistered { existed },
                        Err(e) => ReplyModel::Error { message: e.1 },
                    },
                )
                &&& Node::forced(before, after, name@, now)
            },
            ClientRequest::SubscriptionStatus { name } => {
                &&& if before.hosted@.contains_key(name@) {
                    &&& step matches RequestStep::ReadHead { name: n, path }
                    &&& n@ == name@
                    &&& path@ == before.hosted@[name@].path
                } else {
                    replies_with(
                        step,
                        match before.status_value(name@, 0, now) {
                            Some(status) => ReplyModel::Status(status),
                            None => ReplyModel::Error { message: not_read_here(name@) },
                        },
                    )
                }
                &&& after == before
            },
        }
    }

    /// Takes a client's request. A channel hosted here is already local: a reader gets its origin,
    /// rather than a second copy of it that this node would stream to itself. A subscription that
    /// is active is used again.
    pub fn handle_request(&mut self, req: ClientRequest, now: u64, wall: u64) -> (step: RequestStep)
        ensures
            Node::in_step(*old(self), *final(self)),
            Node::handled(*old(self), *final(self), req, step, now, wall),
    {
        match req {
            ClientRequest::Create { name, options } => {
                match self.create_for_client(name.as_str(), options, now, wall) {
                    Ok(plan) => RequestStep::CreateOrigin(plan),
                    Err(e) => RequestStep::Reply(ClientReply::Error { message: e.message }),
                }
            },
            ClientRequest::CreateTopic { name, options } => {
                match self.create_topic(name.as_str(), options, now, wall) {
                    Ok(plan) => RequestStep::CreateTopic {
                        plan,
                        member_reap_after_ms: options.member_reap_after_ms,
                    },
                    Err(e) => RequestStep::Reply(ClientReply::Error { message: e.message }),
                }
            },
            ClientRequest::PublishToTopic { topic, member, options } => {
                match self.publish_to_topic(topic.as_str(), member.as_str(), options, now, wall) {
                    Ok(plan) => RequestStep::Publish { plan, topic },
                    Err(e) => RequestStep::Reply(ClientReply::Error { message: e.message }),
                }
            },
            ClientRequest::Subscribe { name, wait_ms } => self.subscribe_step(name, wait_ms),
            ClientRequest::Deregister { name } => {
                let retired = self.deregister(name.as_str());
                self.retire_subscription(name.as_str());
                RequestStep::Delete {
                    remove_dir: retired.remove_dir,
                    reply: ClientReply::Deregistered { existed: retired.existed },
                }
            },
            ClientRequest::ListChannels { prefix } => RequestStep::List { prefix },
            ClientRequest::ForceDeregister { name } => {
                match self.force_deregister(name.as_str(), now) {
                    Ok(existed) => RequestStep::Reply(ClientReply::Deregistered { existed }),
                    Err(e) => RequestStep::Reply(ClientReply::Error { message: e.message }),
                }
            },
            ClientRequest::SubscriptionStatus { name } => self.status_step(name, now),
        }
    }

    fn subscribe_step(&self, name: String, wait_ms: u64) -> (step: RequestStep)
        ensures
            Node::handled(
                *self,
                *self,
                (ClientRequest::Subscribe { name, wait_ms }),
                step,
                0,
                0,
            ),
    {
        if let Some(src) = self.hosted.get(name.as_str()) {
            return RequestStep::Reply(
                ClientReply::Subscribed { replica_path: src.path.clone() },
            );
        }
        if let Some(id) = self.subscriptions.get(name.as_str()) {
            if let Some(c) = self.conducted.get(*id) {
                if c.sub.is_active() {
                    return RequestStep::Reply(
                        ClientReply::Subscribed { replica_path: c.sub.replica_path().clone() },
                    );
                }
            }
        }
        let wait = if wait_ms != 0 {
            Some(Duration::from_millis(wait_ms))
        } else {
            None
        };
        RequestStep::Subscribe { name, wait }
    }

    fn status_step(&self, name: String, now: u64) -> (step: RequestStep)
        ensures
            Node::handled(
                *self,
                *self,
                (ClientRequest::SubscriptionStatus { name }),
                step,
                now,
                0,
            ),
    {
        if let Some(src) = self.hosted.get(name.as_str()) {
            let path = src.path.clone();
            return RequestStep::ReadHead { name, path };
        }
        match self.subscription_status(name.as_str(), 0, now) {
            Some(status) => RequestStep::Reply(ClientReply::Status(status)),
            None => {
                let mut message = "channel '".to_owned();
                message.append(name.as_str());
                message.append("' is neither hosted nor subscribed here");
                RequestStep::Reply(ClientReply::Error { message })
            },
        }
    }

    /// The health of a channel this node reads. Of one it hosts, whose head is `head`, there is
    /// nothing to lag behind. Of one it subscribes to, both halves are told: how far the replica
    /// is, and whether the machinery behind it works, for a stalled number and a quiet source look
    /// the same. Whether the owner is live is membership, not whether its application still writes.
    pub open spec fn status_value(&self, name: Seq<char>, head: u64, now: u64) -> Option<
        SubscriptionStatus,
    > {
        let entry = crate::registry::live_entry(self.registry@, name);
        if self.hosted@.contains_key(name) {
            Some(
                SubscriptionStatus {
                    local: true,
                    active: true,
                    synced: RecordIndex(head),
                    head_at_connect: RecordIndex(head),
                    owner: self.config.node_id,
                    owner_live: true,
                    generation: match entry {
                        Some(id) => id.epoch,
                        None => 0,
                    },
                    last_record_at_ms: 0,
                    rebuilds_gap: 0,
                    rebuilds_diverged: 0,
                    last_rebuild_at_ms: 0,
                },
            )
        } else {
            match self.kept(name) {
                Some(sub) => {
                    let (owner, generation) = match entry {
                        Some(id) => (id.owner, id.epoch),
                        None => (self.config.node_id, 0),
                    };
                    Some(
                        SubscriptionStatus {
                            local: false,
                            active: !sub.stopped,
                            synced: RecordIndex(sub.synced),
                            head_at_connect: RecordIndex(sub.head_at_connect),
                            owner,
                            owner_live: self.dissemination.live(owner, now),
                            generation,
                            last_record_at_ms: sub.last_record_at_ms,
                            rebuilds_gap: sub.rebuilds.gap,
                            rebuilds_diverged: sub.rebuilds.diverged,
                            last_rebuild_at_ms: sub.rebuilds.last_at_ms,
                        },
                    )
                },
                None => None,
            }
        }
    }

    /// The health of a channel this node hosts or subscribes to. `head` is the head of the origin's
    /// log, and counts only for a channel hosted here.
    pub fn subscription_status(&self, name: &str, head: u64, now: u64) -> (r: Option<
        SubscriptionStatus,
    >)
        ensures
            r == self.status_value(name@, head, now),
    {
        let me = self.config.node_id;
        let (owner, generation) = match self.registry.get(name) {
            Some(id) => (id.owner, id.epoch),
            None => (me, 0),
        };
        if self.hosted.contains(name) {
            return Some(
                SubscriptionStatus {
                    local: true,
                    active: true,
                    synced: RecordIndex(head),
                    head_at_connect: RecordIndex(head),
                    owner: me,
                    owner_live: true,
                    generation,
                    last_record_at_ms: 0,
                    rebuilds_gap: 0,
                    rebuilds_diverged: 0,
                    last_rebuild_at_ms: 0,
                },
            );
        }
        let sub = match self.subscriptions.get(name) {
            Some(id) => match self.conducted.get(*id) {
                Some(c) => &c.sub,
                None => {
                    return None;
                },
            },
            None => {
                return None;
            },
        };
        let owner_live = self.dissemination.live_addr_of(owner, now).is_some();
        Some(
            SubscriptionStatus {
                local: false,
                active: sub.is_active(),
                synced: RecordIndex(sub.synced_index()),
                head_at_connect: RecordIndex(sub.head_at_connect()),
                owner,
                owner_live,
                generation,
                last_record_at_ms: or_zero(sub.last_record_at_ms()),
                rebuilds_gap: sub.rebuilds().gap(),
                rebuilds_diverged: sub.rebuilds().diverged(),
                last_rebuild_at_ms: or_zero(sub.rebuilds().last_at_ms()),
            },
        )
    }
}

fn or_zero(ms: Option<u64>) -> (r: u64)
    ensures
        forall|n: u64| ms == crate::subscription::since_epoch(n) ==> r == n,
{
    match ms {
        Some(n) => n,
        None => 0,
    }
}

} // verus!
