//! Subscribing: finding a channel's owner, and keeping a replica of the channel connected.
//!
//! Connecting blocks, so it happens beside the node: [`Node::spawn_establish`] says whether an
//! attempt may start, the attempt reports back through [`Node::subscribe_answered`] and
//! [`Node::establish_ended`], and the duty cycle reports its turns through
//! [`Node::client_polled`] and [`Node::client_released`].
use vstd::prelude::*;

use crate::addr::SocketAddr;
use crate::backoff::{charged, due, escalate, is_due, jitter_for, penalty, DialPenalty};
use crate::error::{ErrorKind, NodeError};
use crate::identity::{ChannelIdentity, IdentityModel};
use crate::limits::{ATTACH_BACKOFF_MAX_MS, ATTACH_BACKOFF_MIN_MS};
use crate::names::{replica_dir, replica_path};
use crate::node::topics::without_all;
use crate::node::Node;
use crate::subscription::{Conducted, SubId, Subscription};
use crate::time::{Duration, NANOS_PER_MILLI};

verus! {

/// Why an attempt to connect is made.
#[derive(Clone, Copy, PartialEq, Eq, Debug, Structural)]
pub enum Establish {
    /// Someone asked for the subscription now. Never throttled, and clears a standing penalty.
    Caller,
    /// A subscription that is wanted is not connected. Throttled, or an unattachable one would be
    /// tried on every tick for ever.
    Retry,
}

/// A search for a channel's owner, from one look to the next.
pub struct Resolving {
    /// When the search is given up; `None` for never.
    pub deadline: Option<u128>,
    /// Whether the last look that found the channel found its owner out of reach.
    pub owner_unreachable: bool,
}

/// What one look for a channel's owner found.
#[allow(inconsistent_fields)]
pub enum Resolution {
    Found { identity: ChannelIdentity, addr: SocketAddr },
    /// Not yet: look again a little later.
    Wait,
    Refused(NodeError),
}

/// How an attempt to connect ended.
#[derive(Clone, Copy, PartialEq, Eq, Debug, Structural)]
pub enum SubscribeOutcome {
    /// The source accepted, with its head at `head`; `adopted` tells whether the connection could
    /// then be handed to the duty cycle.
    Accepted { head: u64, adopted: bool },
    /// The source cannot extend this replica: it is behind what is retained, or, if `diverged`, it
    /// belongs to another incarnation of the name.
    Rebuild { diverged: bool },
    /// Anything else, such as a dropped connection. The replica is kept.
    Failed,
}

impl SubscribeOutcome {
    /// Whether the attempt gave the duty cycle a connection.
    pub open spec fn connected(self) -> bool {
        self matches SubscribeOutcome::Accepted { adopted, .. } && adopted
    }
}

/// A subscription that was just begun.
pub struct Started {
    pub id: SubId,
    pub replica_path: String,
    /// Whether an attempt to connect is to be started.
    pub establish: bool,
}

/// What the duty cycle is to do with a subscription's connection.
#[derive(Clone, Copy, PartialEq, Eq, Debug, Structural)]
pub enum ClientTurn {
    /// Shut it down, drop it, and report it released.
    Stop,
    Poll,
}

pub open spec fn not_resolvable(name: Seq<char>) -> (ErrorKind, Seq<char>) {
    (ErrorKind::TimedOut, "channel '"@ + name + "' not resolvable within timeout"@)
}

pub open spec fn owner_not_live(name: Seq<char>) -> (ErrorKind, Seq<char>) {
    (ErrorKind::HostUnreachable, "channel '"@ + name + "' known but its owner is not a live member"@)
}

pub open spec fn attach_gap_min() -> nat {
    ATTACH_BACKOFF_MIN_MS as nat * NANOS_PER_MILLI as nat
}

pub open spec fn attach_gap_max() -> nat {
    ATTACH_BACKOFF_MAX_MS as nat * NANOS_PER_MILLI as nat
}

/// The penalty standing against a name.
pub open spec fn attach_penalty(
    backoff: Map<Seq<char>, DialPenalty>,
    name: Seq<char>,
) -> Option<DialPenalty> {
    if backoff.contains_key(name) {
        Some(backoff[name])
    } else {
        None
    }
}

/// Whether `after` is `before` with an attempt at `name` charged at `now`.
pub open spec fn attach_charged(
    before: Map<Seq<char>, DialPenalty>,
    after: Map<Seq<char>, DialPenalty>,
    name: Seq<char>,
    now: u64,
) -> bool {
    &&& after == before.insert(name, after[name])
    &&& charged(
        after[name],
        attach_penalty(before, name),
        now,
        attach_gap_min(),
        attach_gap_max(),
        crate::backoff::jitter_nanos(name, after[name].gap@),
    )
}

/// `all` with `sub` as the state of `id`.
pub open spec fn with_sub(all: Map<SubId, Conducted>, id: SubId, sub: Subscription) -> Map<
    SubId,
    Conducted,
> {
    all.insert(id, Conducted { name: all[id].name, sub })
}

/// Something that happens to a subscription.
pub enum SubEvent {
    /// An attempt to connect began.
    Attempted,
    /// An attempt resumes the replica from this index.
    Resumed { from: u64 },
    /// The source answered an attempt, or none came.
    Answered { outcome: SubscribeOutcome, now_ms: u64 },
    /// An attempt is over.
    Ended,
    /// A turn of the duty cycle applied `moved` records, up to `head`.
    Polled { moved: usize, head: u64, wall: u64 },
    /// The duty cycle dropped the connection.
    Released,
    /// It is no longer wanted.
    Stopped,
}

impl Subscription {
    /// The subscription after `e` has happened to it.
    pub open spec fn after(self, e: SubEvent) -> Subscription {
        match e {
            SubEvent::Attempted => Subscription { establishing: true, ..self },
            SubEvent::Resumed { from } => Subscription { synced: from, ..self },
            SubEvent::Answered { outcome, now_ms } => self.answered(outcome, now_ms),
            SubEvent::Ended => Subscription { establishing: false, ..self },
            SubEvent::Polled { moved, head, wall } => self.advanced(moved, head, wall),
            SubEvent::Released => Subscription { connected: false, ..self },
            SubEvent::Stopped => Subscription { stopped: true, ..self },
        }
    }

    /// The subscription after all of `events` have happened to it, first to last.
    pub open spec fn after_all(self, events: Seq<SubEvent>) -> Subscription
        decreases events.len(),
    {
        if events.len() == 0 {
            self
        } else {
            self.after_all(events.drop_last()).after(events.last())
        }
    }

    /// The subscription after an attempt ended as `outcome`, at `now_ms` of Unix time. Only a
    /// refusal to extend the replica sends it back to the start.
    pub open spec fn answered(self, outcome: SubscribeOutcome, now_ms: u64) -> Subscription {
        match outcome {
            SubscribeOutcome::Accepted { head, adopted } => Subscription {
                head_at_connect: head,
                connected: self.connected || adopted,
                ..self
            },
            SubscribeOutcome::Rebuild { diverged } => Subscription {
                synced: 0,
                rebuilds: self.rebuilds.with_rebuild(diverged, now_ms),
                ..self
            },
            SubscribeOutcome::Failed => self,
        }
    }

    /// The subscription after a turn of the duty cycle applied `moved` records, up to `head`.
    pub open spec fn advanced(self, moved: usize, head: u64, wall: u64) -> Subscription {
        if moved > 0 {
            Subscription {
                synced: head,
                last_record_at_ms: wall / 1_000_000,
                ..self
            }
        } else {
            self
        }
    }
}

/// Begins a search that is given up after `timeout`, or never.
pub fn resolve_within(timeout: Option<Duration>, now: u64) -> (r: Resolving)
    ensures
        match timeout {
            Some(t) => r.deadline matches Some(d) && d == now + t@,
            None => r.deadline is None,
        },
        !r.owner_unreachable,
{
    let deadline = match timeout {
        Some(t) => Some(now as u128 + t.as_nanos()),
        None => None,
    };
    Resolving { deadline, owner_unreachable: false }
}

impl Resolving {
    /// Whether the search is to be given up at `now`.
    pub open spec fn over(self, now: u64) -> bool {
        self.deadline matches Some(d) && now >= d
    }
}

impl Node {
    /// Whether every subscription kept for a channel is one that this node conducts, and is to that
    /// channel.
    pub open spec fn kept_are_conducted(&self) -> bool {
        forall|name: Seq<char>| #[trigger]
            self.subscriptions@.contains_key(name) ==> {
                let id = self.subscriptions@[name];
                self.conducted@.contains_key(id) && self.conducted@[id].name@ == name
            }
    }

    /// Whether `id` is a subscription that has not been stopped.
    pub open spec fn active(&self, id: SubId) -> bool {
        self.conducted@.contains_key(id) && !self.conducted@[id].sub.stopped
    }

    /// Whether every attach gap is between the floor and the ceiling.
    pub open spec fn attach_gaps_in_range(&self) -> bool {
        forall|name: Seq<char>| #[trigger]
            self.attach_backoff@.contains_key(name) ==> attach_gap_min()
                <= self.attach_backoff@[name].gap@ <= attach_gap_max()
    }

    /// What every operation keeps of the subscriptions, from `before` to `after`: those kept for a
    /// channel are conducted, attach gaps stay in range, a subscription stays to one channel and
    /// keeps its replica in one place, and one that was stopped, or forgotten, is never active again.
    pub open spec fn in_step(before: Node, after: Node) -> bool {
        &&& before.kept_are_conducted() ==> after.kept_are_conducted()
        &&& before.attach_gaps_in_range() ==> after.attach_gaps_in_range()
        &&& before.conducted.next_id() <= after.conducted.next_id()
        &&& forall|id: SubId| #[trigger]
            after.conducted@.contains_key(id) && id.0 < before.conducted.next_id() ==> {
                let (b, a) = (before.conducted@[id], after.conducted@[id]);
                &&& before.conducted@.contains_key(id)
                &&& a.name@ == b.name@
                &&& a.sub.replica_path == b.sub.replica_path
            }
        &&& forall|id: SubId| #[trigger]
            after.active(id) && id.0 < before.conducted.next_id() ==> before.active(id)
    }

    /// Where a channel can be had from now: its own address for a channel of this node, else its
    /// owner's, if that is a live member.
    pub open spec fn source_of(&self, id: IdentityModel, now: u64) -> Option<SocketAddr> {
        if id.owner == self.config.node_id {
            self.bound_stream_addr
        } else if self.dissemination.live(id.owner, now) {
            Some(self.dissemination.membership@[id.owner].addr)
        } else {
            None
        }
    }

    /// Looks once for a channel and the address of its owner. Only a live owner counts, not one
    /// last known at some address, so that when the search ends a channel that is unknown here is
    /// told from one whose owner is out of reach.
    pub fn resolve(&self, name: &str, search: &mut Resolving, now: u64) -> (r: Resolution)
        ensures
            ({
                let entry = crate::registry::live_entry(self.registry@, name@);
                let found = match entry {
                    Some(id) => self.source_of(id, now),
                    None => None,
                };
                &&& final(search).deadline == old(search).deadline
                &&& final(search).owner_unreachable == match entry {
                    Some(id) => if id.owner != self.config.node_id {
                        found is None
                    } else {
                        old(search).owner_unreachable
                    },
                    None => old(search).owner_unreachable,
                }
                &&& match r {
                    Resolution::Found { identity, addr } => entry == Some(identity@) && found
                        == Some(addr),
                    Resolution::Wait => found is None && !old(search).over(now),
                    Resolution::Refused(e) => {
                        &&& found is None
                        &&& old(search).over(now)
                        &&& e@ == if final(search).owner_unreachable {
                            owner_not_live(name@)
                        } else {
                            not_resolvable(name@)
                        }
                    },
                }
            }),
    {
        match self.registry.get(name) {
            Some(identity) => {
                let found = if identity.owner.0 == self.config.node_id.0 {
                    self.bound_stream_addr
                } else {
                    let a = self.dissemination.live_addr_of(identity.owner, now);
                    search.owner_unreachable = a.is_none();
                    a
                };
                if let Some(addr) = found {
                    return Resolution::Found { identity: identity.clone(), addr };
                }
            },
            None => {},
        }
        match search.deadline {
            Some(d) => {
                if now as u128 >= d {
                    Resolution::Refused(search.refusal(name))
                } else {
                    Resolution::Wait
                }
            },
            None => Resolution::Wait,
        }
    }

    /// Whether a retry of `name` may be made now; if so, it is charged. The attempt is charged, not
    /// the failure, as with dialling, and each name is put off by its own jitter, so that the many
    /// members of one lost owner do not all come back at once.
    pub fn attach_due(&mut self, name: &str, now: u64) -> (b: bool)
        ensures
            Node::in_step(*old(self), *final(self)),
            old(self).attach_gaps_in_range() ==> final(self).attach_gaps_in_range(),
            b == due(attach_penalty(old(self).attach_backoff@, name@), now),
            b ==> attach_charged(
                old(self).attach_backoff@,
                final(self).attach_backoff@,
                name@,
                now,
            ),
            !b ==> *final(self) == *old(self),
            *final(self) == (Node { attach_backoff: final(self).attach_backoff, ..*old(self) }),
    {
        let last = self.attach_backoff.get(name);
        if !is_due(last, now) {
            return false;
        }
        let gap = escalate(
            last,
            now,
            Duration::from_millis(ATTACH_BACKOFF_MIN_MS),
            Duration::from_millis(ATTACH_BACKOFF_MAX_MS),
        );
        let p = penalty(now, gap, jitter_for(name, gap));
        self.attach_backoff.insert(name.to_owned(), p);
        proof {
            lemma_charge_in_step(*old(self), *self, name@, now);
        }
        true
    }

    /// Whether an attempt to connect `id` may start now.
    pub open spec fn may_establish(&self, id: SubId, why: Establish, now: u64) -> bool {
        &&& self.conducted@.contains_key(id)
        &&& !self.conducted@[id].sub.establishing
        &&& why is Caller || due(
            attach_penalty(self.attach_backoff@, self.conducted@[id].name@),
            now,
        )
    }

    /// Decides whether an attempt to connect `id` is to be started, and takes it as started if so.
    /// Every attempt passes here, so this is where retries are throttled: each one holds a thread
    /// for as long as the owner keeps it waiting, so the rate of retries is the number of threads.
    /// There is one attempt at a time for a subscription.
    pub fn spawn_establish(&mut self, id: SubId, why: Establish, now: u64) -> (start: bool)
        ensures
            Node::in_step(*old(self), *final(self)),
            start == old(self).may_establish(id, why, now),
            final(self).conducted@ == if start {
                with_sub(
                    old(self).conducted@,
                    id,
                    old(self).conducted@[id].sub.after(SubEvent::Attempted),
                )
            } else {
                old(self).conducted@
            },
            final(self).conducted.ids() == old(self).conducted.ids(),
            final(self).conducted.next_id() == old(self).conducted.next_id(),
            ({
                let (before, after) = (old(self).attach_backoff@, final(self).attach_backoff@);
                let name = old(self).conducted@[id].name@;
                if !old(self).conducted@.contains_key(id) {
                    after == before
                } else if why is Caller {
                    after == before.remove(name)
                } else if start {
                    attach_charged(before, after, name, now)
                } else {
                    after == before
                }
            }),
            *final(self) == (Node {
                conducted: final(self).conducted,
                attach_backoff: final(self).attach_backoff,
                ..*old(self)
            }),
    {
        let (name, sub) = match self.conducted.get(id) {
            Some(c) => (c.name.clone(), c.sub.clone()),
            None => {
                return false;
            },
        };
        let caller = match why {
            Establish::Caller => true,
            Establish::Retry => false,
        };
        if caller {
            self.attach_now(name.as_str());
        }
        if sub.establishing {
            return false;
        }
        if !caller && !self.attach_due(name.as_str(), now) {
            return false;
        }
        self.put(id, Subscription { establishing: true, ..sub });
        true
    }

    /// Sets the state of a subscription, if there is such a one.
    fn put(&mut self, id: SubId, sub: Subscription)
        ensures
            (old(self).active(id) || sub.stopped) && sub.replica_path == old(
                self,
            ).conducted@[id].sub.replica_path ==> Node::in_step(*old(self), *final(self)),
            final(self).conducted@ == if old(self).conducted@.contains_key(id) {
                with_sub(old(self).conducted@, id, sub)
            } else {
                old(self).conducted@
            },
            final(self).conducted.ids() == old(self).conducted.ids(),
            final(self).conducted.next_id() == old(self).conducted.next_id(),
            *final(self) == (Node { conducted: final(self).conducted, ..*old(self) }),
    {
        let name = match self.conducted.get(id) {
            Some(c) => c.name.clone(),
            None => {
                return ;
            },
        };
        self.conducted.set(id, Conducted { name, sub });
    }

    /// Where the replica of `name` is to be: its directory, which must be there before a connection
    /// is.
    pub fn replica_dir(&self, name: &str) -> (r: Result<String, NodeError>)
        ensures
            match r {
                Ok(dir) => crate::names::valid_name(name@) && dir@ == crate::names::replica_dir_of(
                    self.config.data_dir@,
                    name@,
                ),
                Err(e) => !crate::names::valid_name(name@) && e@ == crate::names::bad_name(),
            },
    {
        replica_dir(self.config.data_dir.as_str(), name)
    }

    /// Whether there is a handle left for another subscription.
    pub fn can_subscribe(&self) -> (b: bool)
        ensures
            b == (self.conducted.next_id() < u64::MAX),
    {
        self.conducted.has_room()
    }

    /// Subscribes someone who asked to the channel `name`, of which a search has found `found`. The
    /// subscription is connected at once rather than at the next tick.
    pub fn subscribe(&mut self, name: &str, found: Resolution, now: u64) -> (r: Result<
        Option<Started>,
        NodeError,
    >)
        requires
            found is Found ==> old(self).conducted.next_id() < u64::MAX,
        ensures
            Node::subscribed_once_found(
                *old(self),
                *final(self),
                name@,
                found,
                Establish::Caller,
                now,
                r,
            ),
            Node::in_step(*old(self), *final(self)),
    {
        self.subscribe_as(name, found, Establish::Caller, now)
    }

    /// What subscribing to `name` does and returns, once a search for it has found `found`. A
    /// channel that was not found is refused with the search's own reason; while the search goes on
    /// there is nothing to do.
    pub open spec fn subscribed_once_found(
        before: Node,
        after: Node,
        name: Seq<char>,
        found: Resolution,
        why: Establish,
        now: u64,
        r: Result<Option<Started>, NodeError>,
    ) -> bool {
        match found {
            Resolution::Refused(e) => r == Err::<Option<Started>, NodeError>(e) && after == before,
            Resolution::Wait => r == Ok::<Option<Started>, NodeError>(None) && after == before,
            Resolution::Found { .. } => match r {
                Ok(Some(s)) => Node::subscribed_as(before, after, name, why, now, Ok(s)),
                Ok(None) => false,
                Err(e) => Node::subscribed_as(before, after, name, why, now, Err(e)),
            },
        }
    }

    /// Whether `after` is `before` with a subscription to `name` begun, as `r` reports.
    pub open spec fn subscribed_as(
        before: Node,
        after: Node,
        name: Seq<char>,
        why: Establish,
        now: u64,
        r: Result<Started, NodeError>,
    ) -> bool {
        match r {
            Err(e) => {
                &&& !crate::names::valid_name(name)
                &&& e@ == crate::names::bad_name()
                &&& after == before
            },
            Ok(s) => {
                let id = SubId(before.conducted.next_id());
                let c = after.conducted@[id];
                &&& crate::names::valid_name(name)
                &&& s.id == id
                &&& !before.conducted@.contains_key(id)
                &&& s.replica_path@ == crate::names::replica_path_of(before.config.data_dir@, name)
                &&& s.establish == (why is Caller || due(
                    attach_penalty(before.attach_backoff@, name),
                    now,
                ))
                &&& after.conducted@ == before.conducted@.insert(id, c)
                &&& after.conducted.ids() == before.conducted.ids().push(id)
                &&& after.conducted.next_id() == before.conducted.next_id() + 1
                &&& c.name@ == name
                &&& Subscription { establishing: false, ..c.sub }.fresh(s.replica_path@)
                &&& c.sub.establishing == s.establish
                &&& if why is Caller {
                    after.attach_backoff@ == before.attach_backoff@.remove(name)
                } else if s.establish {
                    attach_charged(before.attach_backoff@, after.attach_backoff@, name, now)
                } else {
                    after.attach_backoff@ == before.attach_backoff@
                }
                &&& after == (Node {
                    conducted: after.conducted,
                    attach_backoff: after.attach_backoff,
                    ..before
                })
            },
        }
    }

    /// Subscribes to the channel `name`, of which a search has found `found`, for someone or for the
    /// node itself. Only the latter is throttled.
    pub fn subscribe_as(&mut self, name: &str, found: Resolution, why: Establish, now: u64) -> (r:
        Result<Option<Started>, NodeError>)
        requires
            found is Found ==> old(self).conducted.next_id() < u64::MAX,
        ensures
            Node::subscribed_once_found(*old(self), *final(self), name@, found, why, now, r),
            Node::in_step(*old(self), *final(self)),
    {
        match found {
            Resolution::Found { .. } => match self.begin_subscription(name, why, now) {
                Ok(started) => Ok(Some(started)),
                Err(e) => Err(e),
            },
            Resolution::Wait => Ok(None),
            Resolution::Refused(e) => Err(e),
        }
    }

    fn begin_subscription(&mut self, name: &str, why: Establish, now: u64) -> (r: Result<
        Started,
        NodeError,
    >)
        requires
            old(self).conducted.next_id() < u64::MAX,
        ensures
            Node::subscribed_as(*old(self), *final(self), name@, why, now, r),
            Node::in_step(*old(self), *final(self)),
    {
        let path = match replica_path(self.config.data_dir.as_str(), name) {
            Ok(path) => path,
            Err(e) => {
                return Err(e);
            },
        };
        let sub = Subscription::new(path.clone());
        let id = self.conducted.add(Conducted { name: name.to_owned(), sub });
        let ghost mid = *self;
        assert(mid.conducted@[id].sub.fresh(path@));
        let establish = self.spawn_establish(id, why, now);
        proof {
            let c = self.conducted@[id];
            assert(self.conducted@ =~= old(self).conducted@.insert(id, c));
            assert((Subscription { establishing: false, ..c.sub }) == mid.conducted@[id].sub);
        }
        Ok(Started { id, replica_path: path, establish })
    }

    /// Keeps `id` as the subscription for the channel it is to. One kept before is stopped: nothing
    /// holds on to it any more.
    pub fn keep_subscription(&mut self, id: SubId)
        requires
            old(self).conducted@.contains_key(id),
        ensures
            Node::in_step(*old(self), *final(self)),
            ({
                let name = old(self).conducted@[id].name@;
                let kept = old(self).subscriptions@;
                &&& final(self).subscriptions@ == kept.insert(name, id)
                &&& final(self).conducted@ == if kept.contains_key(name) && kept[name] != id
                    && old(self).conducted@.contains_key(kept[name]) {
                    with_sub(
                        old(self).conducted@,
                        kept[name],
                        old(self).conducted@[kept[name]].sub.after(SubEvent::Stopped),
                    )
                } else {
                    old(self).conducted@
                }
            }),
            final(self).conducted.ids() == old(self).conducted.ids(),
            final(self).conducted.next_id() == old(self).conducted.next_id(),
            *final(self) == (Node {
                conducted: final(self).conducted,
                subscriptions: final(self).subscriptions,
                ..*old(self)
            }),
    {
        let name = match self.conducted.get(id) {
            Some(c) => c.name.clone(),
            None => {
                return ;
            },
        };
        let before = match self.subscriptions.get(name.as_str()) {
            Some(kept) => Some(*kept),
            None => None,
        };
        if let Some(kept) = before {
            if kept.0 != id.0 {
                self.stop_subscription(kept);
            }
        }
        self.subscriptions.insert(name, id);
    }

    /// Whether nothing holds on to `id` any more: it was stopped, it has no connection and is not
    /// getting one, and it is not the one kept for its channel.
    pub open spec fn spent(&self, id: SubId) -> bool {
        let c = self.conducted@[id];
        &&& self.conducted@.contains_key(id)
        &&& c.sub.stopped
        &&& !c.sub.connected
        &&& !c.sub.establishing
        &&& !(self.subscriptions@.contains_key(c.name@) && self.subscriptions@[c.name@] == id)
    }

    /// Whether `id` is wanted and has no connection.
    pub open spec fn to_heal(&self, id: SubId) -> bool {
        &&& self.conducted@.contains_key(id)
        &&& !self.conducted@[id].sub.stopped
        &&& !self.conducted@[id].sub.connected
    }

    /// What servicing the subscriptions does, and which of them are to be tried again.
    pub open spec fn serviced(before: Node, after: Node, wanted: Seq<SubId>) -> bool {
        &&& forall|id: SubId| #[trigger] wanted.contains(id) <==> before.to_heal(id)
        &&& forall|i: int, j: int|
            0 <= i < j < wanted.len() ==> (#[trigger] wanted[i]).0 < (#[trigger] wanted[j]).0
        &&& forall|id: SubId| #[trigger]
            after.conducted@.contains_key(id) <==> before.conducted@.contains_key(id)
                && !before.spent(id)
        &&& forall|id: SubId| #[trigger]
            after.conducted@.contains_key(id) ==> after.conducted@[id]
                == before.conducted@[id]
        &&& after.conducted.next_id() == before.conducted.next_id()
        &&& after == (Node { conducted: after.conducted, ..before })
    }

    /// Forgets subscriptions that nothing holds on to, and returns those that are wanted but not
    /// connected, oldest first, for each to be tried again. This is what heals a dropped
    /// connection.
    pub fn service_subscriptions(&mut self) -> (wanted: Vec<SubId>)
        ensures
            Node::in_step(*old(self), *final(self)),
            Node::serviced(*old(self), *final(self), wanted@),
            forall|id: SubId| #[trigger]
                wanted@.contains(id) <==> old(self).conducted@.contains_key(id) && !old(
                    self,
                ).conducted@[id].sub.stopped && !old(self).conducted@[id].sub.connected,
    {
        let mut wanted: Vec<SubId> = Vec::new();
        let mut gone: Vec<SubId> = Vec::new();
        let n = self.conducted.len();
        let ghost ids = self.conducted.ids();
        let mut i: usize = 0;
        while i < n
            invariant
                i <= n == ids.len(),
                ids == self.conducted.ids(),
                *self == *old(self),
                forall|a: int, b: int| 0 <= a < b < n ==> (#[trigger] ids[a]).0 < (#[trigger] ids[b]).0,
                forall|id: SubId| #[trigger]
                    wanted@.contains(id) <==> ids.take(i as int).contains(id)
                        && old(self).to_heal(id),
                forall|a: int, b: int|
                    0 <= a < b < wanted@.len() ==> (#[trigger] wanted@[a]).0 < (
                    #[trigger] wanted@[b]).0,
                forall|a: int| 0 <= a < wanted@.len() && i < n ==> (#[trigger] wanted@[a]).0
                    < ids[i as int].0,
                forall|id: SubId| #[trigger]
                    gone@.contains(id) <==> ids.take(i as int).contains(id)
                        && old(self).spent(id),
            decreases n - i,
        {
            let id = self.conducted.id_at(i);
            let c = self.conducted.at(i);
            let ghost seen = ids.take(i as int);
            let (stopped, connected) = (c.sub.stopped, c.sub.connected);
            let kept = match self.subscriptions.get(c.name.as_str()) {
                Some(k) => k.0 == id.0,
                None => false,
            };
            let ghost wanted0 = wanted@;
            let ghost gone0 = gone@;
            if !stopped && !connected {
                wanted.push(id);
            }
            if stopped && !connected && !c.sub.establishing && !kept {
                gone.push(id);
            }
            proof {
                assert(ids.take(i + 1) =~= seen.push(id));
                crate::broadcast::lemma_push_contains(seen, id);
                crate::broadcast::lemma_push_contains(wanted0, id);
                crate::broadcast::lemma_push_contains(gone0, id);
                if i + 1 < n {
                    assert(ids[i as int].0 < ids[i + 1].0);
                }
                assert forall|x: SubId| #[trigger]
                    wanted@.contains(x) <==> ids.take(i + 1).contains(x)
                        && old(self).to_heal(x) by {
                    assert(wanted0.contains(x) <==> seen.contains(x) && old(self).to_heal(x));
                    assert(seen.push(id).contains(x) <==> seen.contains(x) || x == id);
                    assert(wanted0.push(id).contains(x) <==> wanted0.contains(x) || x == id);
                }
                assert forall|x: SubId| #[trigger]
                    gone@.contains(x) <==> ids.take(i + 1).contains(x)
                        && old(self).spent(x) by {
                    assert(gone0.contains(x) <==> seen.contains(x) && old(self).spent(x));
                    assert(seen.push(id).contains(x) <==> seen.contains(x) || x == id);
                    assert(gone0.push(id).contains(x) <==> gone0.contains(x) || x == id);
                }
            }
            i = i + 1;
        }
        proof {
            assert(ids.take(n as int) =~= ids);
        }
        let ghost before = self.conducted@;
        assert(gone@.take(0) =~= Seq::<SubId>::empty());
        let mut k: usize = 0;
        while k < gone.len()
            invariant
                k <= gone@.len(),
                forall|id: SubId| #[trigger]
                    self.conducted@.contains_key(id) <==> before.contains_key(id)
                        && !gone@.take(k as int).contains(id),
                forall|id: SubId| #[trigger]
                    self.conducted@.contains_key(id) ==> self.conducted@[id] == before[id],
                self.conducted.next_id() == old(self).conducted.next_id(),
                *self == (Node { conducted: self.conducted, ..*old(self) }),
            decreases gone@.len() - k,
        {
            proof {
                assert(gone@.take(k + 1) =~= gone@.take(k as int).push(gone@[k as int]));
                crate::broadcast::lemma_push_contains(gone@.take(k as int), gone@[k as int]);
            }
            self.conducted.remove(gone[k]);
            k = k + 1;
        }
        assert(gone@.take(k as int) =~= gone@);
        wanted
    }

    /// Whether an attempt to connect `id` still has a point: it is wanted, and has no connection.
    pub fn wants_connection(&self, id: SubId) -> (b: bool)
        ensures
            b == self.to_heal(id),
            b == (self.conducted@.contains_key(id) && !self.conducted@[id].sub.stopped
                && !self.conducted@[id].sub.connected),
    {
        match self.conducted.get(id) {
            Some(c) => !c.sub.stopped && !c.sub.connected,
            None => false,
        }
    }

    /// Notes the index that an attempt resumes the replica from.
    pub fn resume_from(&mut self, id: SubId, from: u64)
        ensures
            Node::in_step(*old(self), *final(self)),
            final(self).conducted@ == if old(self).conducted@.contains_key(id) {
                with_sub(
                    old(self).conducted@,
                    id,
                    old(self).conducted@[id].sub.after(SubEvent::Resumed { from }),
                )
            } else {
                old(self).conducted@
            },
            final(self).conducted.ids() == old(self).conducted.ids(),
            final(self).conducted.next_id() == old(self).conducted.next_id(),
            *final(self) == (Node { conducted: final(self).conducted, ..*old(self) }),
    {
        let sub = match self.conducted.get(id) {
            Some(c) => c.sub.clone(),
            None => {
                return ;
            },
        };
        self.put(id, Subscription { synced: from, ..sub });
    }

    /// Notes how an attempt to connect ended. A name that connected loses its penalty, so that a
    /// link dropped later is retried promptly. Returns the directory of a replica that is to be
    /// discarded and made anew: retrying its position would be refused for ever.
    pub fn subscribe_answered(&mut self, id: SubId, outcome: SubscribeOutcome, now_ms: u64) -> (rebuild:
        Option<String>)
        ensures
            Node::in_step(*old(self), *final(self)),
            ({
                let c = old(self).conducted@[id];
                let known = old(self).conducted@.contains_key(id);
                &&& final(self).conducted@ == if known {
                    with_sub(
                        old(self).conducted@,
                        id,
                        c.sub.after(SubEvent::Answered { outcome, now_ms }),
                    )
                } else {
                    old(self).conducted@
                }
                &&& final(self).attach_backoff@ == if known
                    && outcome.connected() {
                    old(self).attach_backoff@.remove(c.name@)
                } else {
                    old(self).attach_backoff@
                }
                &&& match rebuild {
                    Some(dir) => {
                        &&& known
                        &&& outcome is Rebuild
                        &&& crate::names::valid_name(c.name@)
                        &&& dir@ == crate::names::replica_dir_of(
                            old(self).config.data_dir@,
                            c.name@,
                        )
                    },
                    None => !(known && outcome is Rebuild && crate::names::valid_name(c.name@)),
                }
            }),
            final(self).conducted.ids() == old(self).conducted.ids(),
            final(self).conducted.next_id() == old(self).conducted.next_id(),
            *final(self) == (Node {
                conducted: final(self).conducted,
                attach_backoff: final(self).attach_backoff,
                ..*old(self)
            }),
    {
        let (name, sub) = match self.conducted.get(id) {
            Some(c) => (c.name.clone(), c.sub.clone()),
            None => {
                return None;
            },
        };
        match outcome {
            SubscribeOutcome::Accepted { head, adopted } => {
                let connected = sub.connected || adopted;
                self.put(id, Subscription { head_at_connect: head, connected, ..sub });
                if adopted {
                    self.attach_now(name.as_str());
                }
                None
            },
            SubscribeOutcome::Rebuild { diverged } => {
                let mut rebuilds = sub.rebuilds;
                rebuilds.record(diverged, now_ms);
                self.put(id, Subscription { synced: 0, rebuilds, ..sub });
                match replica_dir(self.config.data_dir.as_str(), name.as_str()) {
                    Ok(dir) => Some(dir),
                    Err(_) => None,
                }
            },
            SubscribeOutcome::Failed => {
                assert(self.conducted@ =~= with_sub(self.conducted@, id, sub));
                None
            },
        }
    }

    /// Notes that an attempt to connect is over, or could not be started at all.
    pub fn establish_ended(&mut self, id: SubId)
        ensures
            Node::in_step(*old(self), *final(self)),
            final(self).conducted@ == if old(self).conducted@.contains_key(id) {
                with_sub(
                    old(self).conducted@,
                    id,
                    old(self).conducted@[id].sub.after(SubEvent::Ended),
                )
            } else {
                old(self).conducted@
            },
            final(self).conducted.ids() == old(self).conducted.ids(),
            final(self).conducted.next_id() == old(self).conducted.next_id(),
            *final(self) == (Node { conducted: final(self).conducted, ..*old(self) }),
    {
        let sub = match self.conducted.get(id) {
            Some(c) => c.sub.clone(),
            None => {
                return ;
            },
        };
        self.put(id, Subscription { establishing: false, ..sub });
    }

    /// What the duty cycle is to do with the connection of `id`.
    pub fn client_turn(&self, id: SubId) -> (t: ClientTurn)
        ensures
            t is Poll <==> self.conducted@.contains_key(id) && !self.conducted@[id].sub.stopped,
    {
        match self.conducted.get(id) {
            Some(c) => if c.sub.stopped {
                ClientTurn::Stop
            } else {
                ClientTurn::Poll
            },
            None => ClientTurn::Stop,
        }
    }

    /// Notes that a turn of the duty cycle applied `moved` records to the replica of `id`, which is
    /// now at `head`.
    pub fn client_polled(&mut self, id: SubId, moved: usize, head: u64, wall: u64)
        ensures
            Node::in_step(*old(self), *final(self)),
            final(self).conducted@ == if old(self).conducted@.contains_key(id) {
                with_sub(
                    old(self).conducted@,
                    id,
                    old(self).conducted@[id].sub.after(SubEvent::Polled { moved, head, wall }),
                )
            } else {
                old(self).conducted@
            },
            final(self).conducted.ids() == old(self).conducted.ids(),
            final(self).conducted.next_id() == old(self).conducted.next_id(),
            *final(self) == (Node { conducted: final(self).conducted, ..*old(self) }),
    {
        let sub = match self.conducted.get(id) {
            Some(c) => c.sub.clone(),
            None => {
                return ;
            },
        };
        if moved > 0 {
            self.put(
                id,
                Subscription { synced: head, last_record_at_ms: wall / 1_000_000, ..sub },
            );
        } else {
            assert(self.conducted@ =~= with_sub(self.conducted@, id, sub));
        }
    }

    /// Notes that the duty cycle has dropped the connection of `id`. To be called after the
    /// replica's writer is gone, since from now on its files may be discarded.
    pub fn client_released(&mut self, id: SubId)
        ensures
            Node::in_step(*old(self), *final(self)),
            final(self).conducted@ == if old(self).conducted@.contains_key(id) {
                with_sub(
                    old(self).conducted@,
                    id,
                    old(self).conducted@[id].sub.after(SubEvent::Released),
                )
            } else {
                old(self).conducted@
            },
            final(self).conducted.ids() == old(self).conducted.ids(),
            final(self).conducted.next_id() == old(self).conducted.next_id(),
            *final(self) == (Node { conducted: final(self).conducted, ..*old(self) }),
    {
        let sub = match self.conducted.get(id) {
            Some(c) => c.sub.clone(),
            None => {
                return ;
            },
        };
        self.put(id, Subscription { connected: false, ..sub });
    }

    /// Sync progress of the subscription kept for `name`, if any.
    pub fn subscription_synced(&self, name: &str) -> (r: Option<u64>)
        ensures
            r == match self.kept(name@) {
                Some(sub) => Some(sub.synced),
                None => None,
            },
    {
        match self.subscriptions.get(name) {
            Some(id) => match self.conducted.get(*id) {
                Some(c) => Some(c.sub.synced_index()),
                None => None,
            },
            None => None,
        }
    }

    /// The subscription kept for `name`.
    pub open spec fn kept(&self, name: Seq<char>) -> Option<Subscription> {
        if self.subscriptions@.contains_key(name) && self.conducted@.contains_key(
            self.subscriptions@[name],
        ) {
            Some(self.conducted@[self.subscriptions@[name]].sub)
        } else {
            None
        }
    }
}

impl Resolving {
    fn refusal(&self, name: &str) -> (e: NodeError)
        ensures
            e@ == if self.owner_unreachable {
                owner_not_live(name@)
            } else {
                not_resolvable(name@)
            },
    {
        let mut message = "channel '".to_owned();
        message.append(name);
        if self.owner_unreachable {
            message.append("' known but its owner is not a live member");
            NodeError { kind: ErrorKind::HostUnreachable, message }
        } else {
            message.append("' not resolvable within timeout");
            NodeError { kind: ErrorKind::TimedOut, message }
        }
    }
}

/// A charged attempt leaves the gaps in range.
proof fn lemma_charge_in_step(before: Node, after: Node, name: Seq<char>, now: u64)
    requires
        attach_charged(before.attach_backoff@, after.attach_backoff@, name, now),
        after == (Node { attach_backoff: after.attach_backoff, ..before }),
    ensures
        Node::in_step(before, after),
{
    if before.attach_gaps_in_range() {
        crate::backoff::law_gap_stays_in_range(
            attach_penalty(before.attach_backoff@, name),
            now,
            attach_gap_min(),
            attach_gap_max(),
        );
    }
    assert forall|id: SubId| #[trigger] after.active(id) implies before.active(id) by {}
}

/// A step from `b` to `c` goes on from one that led to the subscriptions of `b`, and leads to a state
/// that has the subscriptions of `c`.
pub(crate) proof fn lemma_in_step_alike(a: Node, b: Node, c: Node, d: Node)
    requires
        (a.subscriptions == b.subscriptions && a.conducted == b.conducted && a.attach_backoff
            == b.attach_backoff) || Node::in_step(a, b),
        Node::in_step(b, c),
        c.subscriptions == d.subscriptions,
        c.conducted == d.conducted,
        c.attach_backoff == d.attach_backoff,
    ensures
        Node::in_step(a, d),
{
    assert forall|id: SubId| #[trigger]
        d.conducted@.contains_key(id) && id.0 < a.conducted.next_id() implies {
        &&& a.conducted@.contains_key(id)
        &&& d.conducted@[id].name@ == a.conducted@[id].name@
        &&& d.conducted@[id].sub.replica_path == a.conducted@[id].sub.replica_path
    } by {
        assert(c.conducted@.contains_key(id));
        assert(b.conducted@.contains_key(id));
    }
    assert forall|id: SubId| #[trigger]
        d.active(id) && id.0 < a.conducted.next_id() implies a.active(id) by {
        assert(c.active(id));
        assert(b.active(id));
    }
}

/// Stopping and forgetting subscriptions keeps the rest as they were.
pub(crate) proof fn lemma_without_all_in_step(before: Node, after: Node, gone: Seq<Seq<char>>)
    requires
        (after.subscriptions@, after.conducted@) == without_all(
            before.subscriptions@,
            before.conducted@,
            gone,
        ),
        after.conducted.next_id() == before.conducted.next_id(),
        forall|k: Seq<char>| #[trigger]
            after.attach_backoff@.contains_key(k) ==> before.attach_backoff@.contains_key(k)
                && after.attach_backoff@[k] == before.attach_backoff@[k],
    ensures
        Node::in_step(before, after),
{
    lemma_without_all(before.subscriptions@, before.conducted@, gone);
    let (s, c) = without_all(before.subscriptions@, before.conducted@, gone);
    assert(s == after.subscriptions@ && c == after.conducted@);
    assert forall|name: Seq<char>| before.kept_are_conducted() && #[trigger]
        after.subscriptions@.contains_key(name) implies after.conducted@.contains_key(
        after.subscriptions@[name],
    ) && after.conducted@[after.subscriptions@[name]].name@ == name by {
        assert(before.subscriptions@.contains_key(name));
        assert(after.conducted@.contains_key(before.subscriptions@[name]));
    }
}

proof fn lemma_without_all(
    subscriptions: Map<Seq<char>, SubId>,
    conducted: Map<SubId, Conducted>,
    gone: Seq<Seq<char>>,
)
    ensures
        ({
            let (s, c) = without_all(subscriptions, conducted, gone);
            &&& forall|name: Seq<char>| #[trigger]
                s.contains_key(name) ==> subscriptions.contains_key(name) && s[name]
                    == subscriptions[name]
            &&& forall|id: SubId| #[trigger] c.contains_key(id) <==> conducted.contains_key(id)
            &&& forall|id: SubId| #[trigger]
                c.contains_key(id) ==> c[id].name == conducted[id].name
                    && c[id].sub.replica_path == conducted[id].sub.replica_path && (
                c[id].sub.stopped || c[id] == conducted[id])
        }),
    decreases gone.len(),
{
    if gone.len() > 0 {
        lemma_without_all(subscriptions, conducted, gone.drop_last());
        let (s0, c0) = without_all(subscriptions, conducted, gone.drop_last());
        let (s, c) = without_all(subscriptions, conducted, gone);
        assert forall|name: Seq<char>| #[trigger] s.contains_key(name) implies
            subscriptions.contains_key(name) && s[name] == subscriptions[name] by {
            assert(s0.contains_key(name));
        }
        assert forall|id: SubId| #[trigger] c.contains_key(id) <==> conducted.contains_key(id) by {
            assert(c0.contains_key(id) <==> conducted.contains_key(id));
        }
        assert forall|id: SubId| #[trigger] c.contains_key(id) implies c[id].name
            == conducted[id].name && c[id].sub.replica_path == conducted[id].sub.replica_path && (
        c[id].sub.stopped || c[id] == conducted[id]) by {
            assert(c0.contains_key(id));
        }
    }
}

// ---------------- laws ----------------
/// A subscription is active until it is stopped, and never again after: whatever else happens to it,
/// connecting, losing its connection, being rebuilt, neither stops it nor revives it.
pub proof fn law_only_stopping_ends_a_subscription(sub: Subscription, events: Seq<SubEvent>)
    ensures
        sub.after_all(events).stopped <==> sub.stopped || events.contains(SubEvent::Stopped),
    decreases events.len(),
{
    if events.len() > 0 {
        let front = events.drop_last();
        law_only_stopping_ends_a_subscription(sub, front);
        crate::broadcast::lemma_push_contains(front, events.last());
        assert(events =~= front.push(events.last()));
    }
}

/// Nothing that happens to a subscription moves its replica.
pub proof fn law_a_replica_stays_in_place(sub: Subscription, events: Seq<SubEvent>)
    ensures
        sub.after_all(events).replica_path == sub.replica_path,
    decreases events.len(),
{
    if events.len() > 0 {
        law_a_replica_stays_in_place(sub, events.drop_last());
    }
}

/// The rebuilds among `events`: whether each was for divergence, and when it was.
pub open spec fn rebuilds_among(events: Seq<SubEvent>) -> Seq<(bool, u64)>
    decreases events.len(),
{
    if events.len() == 0 {
        Seq::empty()
    } else {
        let rest = rebuilds_among(events.drop_last());
        match events.last() {
            SubEvent::Answered { outcome: SubscribeOutcome::Rebuild { diverged }, now_ms } => {
                rest.push((diverged, now_ms))
            },
            _ => rest,
        }
    }
}

/// A subscription counts the rebuilds it went through, and nothing else.
pub proof fn law_only_rebuilds_are_counted(sub: Subscription, events: Seq<SubEvent>)
    ensures
        sub.after_all(events).rebuilds == sub.rebuilds.after_all(rebuilds_among(events)),
    decreases events.len(),
{
    if events.len() > 0 {
        let rest = rebuilds_among(events.drop_last());
        law_only_rebuilds_are_counted(sub, events.drop_last());
        if rebuilds_among(events) != rest {
            assert(rebuilds_among(events).drop_last() =~= rest);
        }
    }
}

/// Whatever leaves the subscriptions alone keeps everything about them.
pub proof fn law_untouched_subscriptions_are_in_step(before: Node, after: Node)
    requires
        after.subscriptions == before.subscriptions,
        after.conducted == before.conducted,
        after.attach_backoff == before.attach_backoff,
    ensures
        Node::in_step(before, after),
{
    assert forall|id: SubId| #[trigger] after.active(id) implies before.active(id) by {}
}

/// What every operation keeps holds from the first state to the last of any run of them: a
/// subscription once stopped is never active again, and those kept for a channel are conducted.
pub proof fn law_steps_compose(states: Seq<Node>)
    requires
        states.len() > 0,
        forall|i: int| 0 <= i < states.len() - 1 ==> #[trigger] Node::in_step(
            states[i],
            states[i + 1],
        ),
    ensures
        Node::in_step(states[0], states.last()),
    decreases states.len(),
{
    if states.len() > 1 {
        let front = states.drop_last();
        assert forall|i: int| 0 <= i < front.len() - 1 implies #[trigger] Node::in_step(
            front[i],
            front[i + 1],
        ) by {
            assert(Node::in_step(states[i], states[i + 1]));
        }
        law_steps_compose(front);
        let k = states.len() - 2;
        assert(Node::in_step(states[k], states[k + 1]));
    }
}

} // verus!
