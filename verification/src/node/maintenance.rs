//! The maintenance tick: heartbeats, merging what was heard, and keeping clocks.
use vstd::prelude::*;

use crate::broadcast::BroadcastDissemination;
use crate::identity::{lost_to, ChannelIdentity, IdentityModel, NodeId};
use crate::node::topics::{contains_node, without_all};
use crate::node::Node;
use crate::registry::Directory;
use crate::table::Table;
use crate::wire::{ChangeModel, ControlModel, PeerId, NO_PEER};

verus! {

/// Entries that are to go to, or that came from, one peer.
pub struct Group {
    pub peer: PeerId,
    pub delta: Vec<ChannelIdentity>,
}

impl View for Group {
    type V = (PeerId, Seq<IdentityModel>);

    open spec fn view(&self) -> (PeerId, Seq<IdentityModel>) {
        (self.peer, crate::identity::models(self.delta@))
    }
}

pub open spec fn groups(list: Seq<Group>) -> Seq<(PeerId, Seq<IdentityModel>)> {
    Seq::new(list.len(), |i: int| list[i]@)
}

/// `list` with `id` added to the group of `peer`, which is made if there is none.
pub open spec fn grouped(
    list: Seq<(PeerId, Seq<IdentityModel>)>,
    peer: PeerId,
    id: IdentityModel,
) -> Seq<(PeerId, Seq<IdentityModel>)>
    decreases list.len(),
{
    if list.len() == 0 {
        seq![(peer, seq![id])]
    } else if list[0].0 == peer {
        list.update(0, (peer, list[0].1.push(id)))
    } else {
        seq![list[0]] + grouped(list.drop_first(), peer, id)
    }
}

/// What a pump has done so far.
#[verifier::ext_equal]
pub struct PumpState {
    pub registry: Directory,
    /// Discovery records, in order.
    pub changes: Seq<ChangeModel>,
    /// What moved the map, by the peer it came from: to go to every other peer.
    pub relay: Seq<(PeerId, Seq<IdentityModel>)>,
    /// The winners over what lost, by the peer the loser came from: to go back to that peer.
    pub reply: Seq<(PeerId, Seq<IdentityModel>)>,
    /// Names found to be tombstoned.
    pub retired: Seq<Seq<char>>,
}

impl Node {
    /// What a pump does with one entry. If it moves the map, it is published, and relayed. If it
    /// lost, its sender is told the winner: nothing else would ever correct a peer on a link that
    /// stays up. If the name turns out to be tombstoned, it is retired.
    pub open spec fn pump_one(
        &self,
        s: PumpState,
        from: PeerId,
        id: IdentityModel,
        now: u64,
    ) -> PumpState {
        let moved = crate::registry::moves(s.registry, id);
        let registry = crate::registry::merged(s.registry, id);
        let winner = registry[id.name];
        PumpState {
            registry,
            changes: if moved {
                s.changes.push(self.change_value(id, now))
            } else {
                s.changes
            },
            relay: if moved {
                grouped(s.relay, from, winner)
            } else {
                s.relay
            },
            reply: if !moved && crate::identity::rank(id) != crate::identity::rank(winner) {
                grouped(s.reply, from, winner)
            } else {
                s.reply
            },
            retired: if winner.deleted {
                s.retired.push(id.name)
            } else {
                s.retired
            },
        }
    }

    /// What a pump does with all that was received, first to last.
    pub open spec fn pump_all(
        &self,
        s: PumpState,
        all: Seq<(PeerId, IdentityModel)>,
        now: u64,
    ) -> PumpState
        decreases all.len(),
    {
        if all.len() == 0 {
            s
        } else {
            self.pump_one(
                self.pump_all(s, all.drop_last(), now),
                all.last().0,
                all.last().1,
                now,
            )
        }
    }

    /// What this node's pump starts from.
    pub open spec fn pump_start(&self) -> PumpState {
        PumpState {
            registry: self.registry@,
            changes: Seq::empty(),
            relay: Seq::empty(),
            reply: Seq::empty(),
            retired: Seq::empty(),
        }
    }

    /// What starting a tick does, and the ids it finds that two machines claim.
    pub open spec fn began_tick(before: Node, after: Node, conflicts: Seq<NodeId>) -> bool {
        &&& ({
            let (d, e) = (before.dissemination, after.dissemination);
            &&& crate::broadcast::dispatches(e.outbox@) == crate::broadcast::dispatches(
                d.outbox@,
            ).push(
                (
                    crate::broadcast::recipients(d.peers@, NO_PEER),
                    ControlModel::Heartbeat(d.introduction()),
                ),
            ) + crate::broadcast::hint_relays(
                d.peers@,
                d.self_node,
                crate::broadcast::hint_values(d.hints@),
            )
            &&& e.hints@.len() == 0
            &&& e.peers@ == crate::broadcast::needed(
                d.self_node,
                d.peers@,
                d.peers@,
            )
            &&& e == (BroadcastDissemination {
                outbox: e.outbox,
                hints: e.hints,
                peers: e.peers,
                ..d
            })
            &&& forall|n: NodeId|
                conflicts.contains(n) <==> crate::broadcast::contested(
                    d.peers@,
                    d.self_node,
                    d.self_control_addr,
                    n,
                )
        })
        &&& after == (Node { dissemination: after.dissemination, ..before })
    }

    /// The tick's first half: queue a heartbeat and what was learned since the last tick, drop
    /// superfluous links, and report the node ids that two machines claim.
    pub fn begin_tick(&mut self) -> (conflicts: Vec<NodeId>)
        ensures
            Node::began_tick(*old(self), *final(self), conflicts@),
    {
        self.dissemination.emit_heartbeat();
        self.dissemination.relay_hints();
        self.dissemination.dedup_links()
    }

    /// What merging everything received does.
    pub open spec fn absorbed(before: Node, after: Node, now: u64) -> bool {
        &&& ({
            let s = before.pump_all(
                before.pump_start(),
                crate::broadcast::received(before.dissemination.inbox@),
                now,
            );
            let (d, e) = (before.dissemination, after.dissemination);
            &&& after.registry@ == s.registry
            &&& crate::wire::changes(after.discovery@) == crate::wire::changes(
                before.discovery@,
            ) + s.changes
            &&& crate::broadcast::dispatches(e.outbox@) == crate::broadcast::dispatches(
                d.outbox@,
            ) + relays(d, s.relay) + replies(s.reply)
            &&& e.inbox@.len() == 0
            &&& e == (BroadcastDissemination { outbox: e.outbox, inbox: e.inbox, ..d })
            &&& (after.subscriptions@, after.conducted@) == without_all(
                before.subscriptions@,
                before.conducted@,
                s.retired,
            )
            &&& after.attach_backoff@ == before.attach_backoff@.remove_keys(
                s.retired.to_set(),
            )
        })
        &&& after.conducted.ids() == before.conducted.ids()
        &&& after.conducted.next_id() == before.conducted.next_id()
        &&& after == (Node {
            registry: after.registry,
            discovery: after.discovery,
            dissemination: after.dissemination,
            subscriptions: after.subscriptions,
            conducted: after.conducted,
            attach_backoff: after.attach_backoff,
            ..before
        })
    }

    /// Merges everything received since the last tick. Whatever arrives, one message goes out per
    /// source, not one per entry.
    pub fn absorb(&mut self, now: u64)
        ensures
            Node::in_step(*old(self), *final(self)),
            Node::absorbed(*old(self), *final(self), now),
    {
        let pumped = self.dissemination.pump();
        let ghost start = old(self).pump_start();
        let ghost values = crate::broadcast::received(pumped@);
        let mut to_relay: Vec<Group> = Vec::new();
        let mut to_reply: Vec<Group> = Vec::new();
        let mut retired: Vec<String> = Vec::new();
        proof {
            assert(values.take(0) =~= Seq::<(PeerId, IdentityModel)>::empty());
            assert(groups(to_relay@) =~= start.relay);
            assert(groups(to_reply@) =~= start.reply);
            assert(crate::node::topics::texts(retired@) =~= start.retired);
            assert(crate::wire::changes(self.discovery@) =~= crate::wire::changes(
                old(self).discovery@,
            ) + start.changes);
        }
        for r in it: pumped
            invariant
                it.seq() == pumped@,
                values == crate::broadcast::received(pumped@),
                start == old(self).pump_start(),
                ({
                    let s = old(self).pump_all(start, values.take(it.index()), now);
                    &&& self.registry@ == s.registry
                    &&& crate::wire::changes(self.discovery@) == crate::wire::changes(
                        old(self).discovery@,
                    ) + s.changes
                    &&& groups(to_relay@) == s.relay
                    &&& groups(to_reply@) == s.reply
                    &&& crate::node::topics::texts(retired@) == s.retired
                }),
                self.dissemination.inbox@.len() == 0,
                self.dissemination == (BroadcastDissemination {
                    inbox: self.dissemination.inbox,
                    ..old(self).dissemination
                }),
                *self == (Node {
                    registry: self.registry,
                    discovery: self.discovery,
                    dissemination: self.dissemination,
                    ..*old(self)
                }),
        {
            let ghost i = it.index();
            let ghost s = old(self).pump_all(start, values.take(i), now);
            let ghost log = crate::wire::changes(self.discovery@);
            proof {
                assert(r == pumped@[i]);
                assert(values.take(i + 1).drop_last() =~= values.take(i));
                assert(values.take(i + 1).last() == r@);
                assert(self.change_value(r@.1, now) == old(self).change_value(r@.1, now));
            }
            let from = r.from;
            let name = r.id.name.clone();
            let incoming = r.id.clone();
            let merged = self.merge_and_publish(r.id, now);
            let gone = merged.winner.deleted;
            let ghost w = merged.winner@;
            if merged.changed {
                to_relay = add_to_group(to_relay, from, merged.winner);
            } else if lost_to(&incoming, &merged.winner) {
                to_reply = add_to_group(to_reply, from, merged.winner);
            }
            if gone {
                let ghost before = crate::node::topics::texts(retired@);
                retired.push(name);
                assert(crate::node::topics::texts(retired@) =~= before.push(r@.1.name));
            }
            proof {
                let next = old(self).pump_all(start, values.take(i + 1), now);
                assert(next == old(self).pump_one(s, from, incoming@, now));
                assert(crate::wire::changes(self.discovery@) =~= crate::wire::changes(
                    old(self).discovery@,
                ) + next.changes);
            }
        }
        assert(values.take(values.len() as int) =~= values);
        self.send_relays(to_relay);
        self.send_replies(to_reply);
        self.retire_all(&retired);
        proof {
            crate::node::subscribing::lemma_without_all_in_step(
                *old(self),
                *self,
                crate::node::topics::texts(retired@),
            );
        }
    }

    fn send_relays(&mut self, to_relay: Vec<Group>)
        ensures
            crate::broadcast::dispatches(final(self).dissemination.outbox@)
                == crate::broadcast::dispatches(old(self).dissemination.outbox@) + relays(
                old(self).dissemination,
                groups(to_relay@),
            ),
            final(self).dissemination == (BroadcastDissemination {
                outbox: final(self).dissemination.outbox,
                ..old(self).dissemination
            }),
            *final(self) == (Node { dissemination: final(self).dissemination, ..*old(self) }),
    {
        let ghost base = crate::broadcast::dispatches(self.dissemination.outbox@);
        let ghost all = groups(to_relay@);
        let ghost d = self.dissemination;
        assert(base =~= base + relays(d, all.take(0)));
        for g in it: to_relay
            invariant
                it.seq() == to_relay@,
                all == groups(to_relay@),
                d == old(self).dissemination,
                crate::broadcast::dispatches(self.dissemination.outbox@) == base + relays(
                    d,
                    all.take(it.index()),
                ),
                self.dissemination == (BroadcastDissemination {
                    outbox: self.dissemination.outbox,
                    ..d
                }),
                *self == (Node { dissemination: self.dissemination, ..*old(self) }),
        {
            let ghost i = it.index();
            assert(g == to_relay@[i]);
            assert(all[i] == g@);
            self.dissemination.relay(g.peer, g.delta);
            assert(crate::broadcast::dispatches(self.dissemination.outbox@) =~= base + relays(
                d,
                all.take(i + 1),
            ));
        }
        assert(all.take(all.len() as int) =~= all);
    }

    fn send_replies(&mut self, to_reply: Vec<Group>)
        ensures
            crate::broadcast::dispatches(final(self).dissemination.outbox@)
                == crate::broadcast::dispatches(old(self).dissemination.outbox@) + replies(
                groups(to_reply@),
            ),
            final(self).dissemination == (BroadcastDissemination {
                outbox: final(self).dissemination.outbox,
                ..old(self).dissemination
            }),
            *final(self) == (Node { dissemination: final(self).dissemination, ..*old(self) }),
    {
        let ghost base = crate::broadcast::dispatches(self.dissemination.outbox@);
        let ghost all = groups(to_reply@);
        assert(base =~= base + replies(all.take(0)));
        for g in it: to_reply
            invariant
                it.seq() == to_reply@,
                all == groups(to_reply@),
                crate::broadcast::dispatches(self.dissemination.outbox@) == base + replies(
                    all.take(it.index()),
                ),
                self.dissemination == (BroadcastDissemination {
                    outbox: self.dissemination.outbox,
                    ..old(self).dissemination
                }),
                *self == (Node { dissemination: self.dissemination, ..*old(self) }),
        {
            let ghost i = it.index();
            assert(g == to_reply@[i]);
            assert(all[i] == g@);
            self.dissemination.reply(g.peer, g.delta);
            assert(crate::broadcast::dispatches(self.dissemination.outbox@) =~= base + replies(
                all.take(i + 1),
            ));
        }
        assert(all.take(all.len() as int) =~= all);
    }

    fn retire_all(&mut self, names: &Vec<String>)
        ensures
            ({
                let gone = crate::node::topics::texts(names@);
                &&& (final(self).subscriptions@, final(self).conducted@) == without_all(
                    old(self).subscriptions@,
                    old(self).conducted@,
                    gone,
                )
                &&& final(self).attach_backoff@ == old(self).attach_backoff@.remove_keys(
                    gone.to_set(),
                )
            }),
            final(self).conducted.ids() == old(self).conducted.ids(),
            final(self).conducted.next_id() == old(self).conducted.next_id(),
            *final(self) == (Node {
                subscriptions: final(self).subscriptions,
                conducted: final(self).conducted,
                attach_backoff: final(self).attach_backoff,
                ..*old(self)
            }),
    {
        let ghost gone = crate::node::topics::texts(names@);
        let mut i: usize = 0;
        proof {
            assert(gone.take(0) =~= Seq::<Seq<char>>::empty());
            assert(self.attach_backoff@ =~= old(self).attach_backoff@.remove_keys(
                gone.take(0).to_set(),
            ));
        }
        while i < names.len()
            invariant
                i <= names@.len(),
                gone == crate::node::topics::texts(names@),
                (self.subscriptions@, self.conducted@) == without_all(
                    old(self).subscriptions@,
                    old(self).conducted@,
                    gone.take(i as int),
                ),
                self.attach_backoff@ == old(self).attach_backoff@.remove_keys(
                    gone.take(i as int).to_set(),
                ),
                self.conducted.ids() == old(self).conducted.ids(),
                self.conducted.next_id() == old(self).conducted.next_id(),
                *self == (Node {
                    subscriptions: self.subscriptions,
                    conducted: self.conducted,
                    attach_backoff: self.attach_backoff,
                    ..*old(self)
                }),
            decreases names@.len() - i,
        {
            proof {
                assert(gone.take(i + 1).drop_last() =~= gone.take(i as int));
                assert(gone.take(i + 1).last() == names@[i as int]@);
                assert(gone.take(i + 1) =~= gone.take(i as int).push(gone[i as int]));
                crate::broadcast::lemma_push_contains(gone.take(i as int), gone[i as int]);
            }
            let ghost before = self.attach_backoff@;
            self.retire_subscription(names[i].as_str());
            assert(self.attach_backoff@ =~= old(self).attach_backoff@.remove_keys(
                gone.take(i + 1).to_set(),
            ));
            i = i + 1;
        }
        assert(gone.take(i as int) =~= gone);
    }

    /// Whether `owner` is another node, and owns a live channel.
    pub open spec fn remote_owner(&self, owner: NodeId) -> bool {
        &&& owner != self.config.node_id
        &&& exists|k: Seq<char>|
            {
                &&& #[trigger] self.registry@.contains_key(k)
                &&& !self.registry@[k].deleted
                &&& self.registry@[k].owner == owner
            }
    }

    /// What keeping the clocks of unreachable owners does: one runs for each of them, and none else.
    pub open spec fn noted_unreachable(before: Node, after: Node, now: u64) -> bool {
        &&& forall|o: NodeId| #[trigger]
            after.owner_unreachable_since@.contains_key(o) <==> before.remote_owner(o)
                && !before.dissemination.live(o, now)
        &&& forall|o: NodeId| #[trigger]
            after.owner_unreachable_since@.contains_key(o)
                ==> after.owner_unreachable_since@[o]
                == if before.owner_unreachable_since@.contains_key(o) {
                before.owner_unreachable_since@[o]
            } else {
                now
            }
        &&& after == (Node {
            owner_unreachable_since: after.owner_unreachable_since,
            ..before
        })
    }

    /// Keeps the clocks of unreachable owners honest: one runs for every owner out of reach, and it
    /// is stopped the moment the owner can be reached, so that a node that comes and goes earns no
    /// credit towards being declared gone.
    pub fn note_unreachable_owners(&mut self, now: u64)
        ensures
            Node::noted_unreachable(*old(self), *final(self), now),
    {
        let live = self.dissemination.live_members(now);
        let ghost list = crate::registry::listing(self.registry@);
        let n = self.registry.len();
        let mut since: Table<NodeId, u64> = Table::new();
        let mut i: usize = 0;
        while i < n
            invariant
                i <= n == list.len(),
                list == crate::registry::listing(self.registry@),
                forall|x: NodeId| live@.contains(x) <==> self.dissemination.live(x, now),
                forall|o: NodeId| #[trigger]
                    since@.contains_key(o) <==> owns_among(
                        list.take(i as int),
                        self.config.node_id,
                        o,
                    ) && !self.dissemination.live(o, now),
                forall|o: NodeId| #[trigger]
                    since@.contains_key(o) ==> since@[o]
                        == if self.owner_unreachable_since@.contains_key(o) {
                        self.owner_unreachable_since@[o]
                    } else {
                        now
                    },
                *self == *old(self),
            decreases n - i,
        {
            let id = self.registry.at(i);
            let ghost before = since@;
            if !id.deleted && id.owner.0 != self.config.node_id.0 && !contains_node(
                &live,
                id.owner,
            ) {
                let t = match self.owner_unreachable_since.get(&id.owner) {
                    Some(t) => *t,
                    None => now,
                };
                since.insert(id.owner, t);
            }
            proof {
                assert(list.take(i + 1) =~= list.take(i as int).push(id@));
                assert forall|o: NodeId| #[trigger]
                    since@.contains_key(o) <==> owns_among(
                        list.take(i + 1),
                        self.config.node_id,
                        o,
                    ) && !self.dissemination.live(o, now) by {
                    lemma_owns_push(list.take(i as int), id@, self.config.node_id, o);
                    assert(before.contains_key(o) <==> owns_among(
                        list.take(i as int),
                        self.config.node_id,
                        o,
                    ) && !self.dissemination.live(o, now));
                }
                assert forall|o: NodeId| #[trigger] since@.contains_key(o) implies since@[o]
                    == if self.owner_unreachable_since@.contains_key(o) {
                    self.owner_unreachable_since@[o]
                } else {
                    now
                } by {
                    if before.contains_key(o) {
                        assert(before[o] == if self.owner_unreachable_since@.contains_key(o) {
                            self.owner_unreachable_since@[o]
                        } else {
                            now
                        });
                    }
                }
            }
            i = i + 1;
        }
        proof {
            assert(list.take(n as int) =~= list);
            assert forall|o: NodeId|
                owns_among(list, self.config.node_id, o) <==> old(self).remote_owner(o) by {
                lemma_owns_listing(*old(self), o);
            }
        }
        self.owner_unreachable_since = since;
    }
}

/// Whether an entry of `list` is live and owned by `owner`, another node than `me`.
spec fn owns_among(list: Seq<IdentityModel>, me: NodeId, owner: NodeId) -> bool {
    &&& owner != me
    &&& exists|i: int|
        0 <= i < list.len() && !(#[trigger] list[i]).deleted && list[i].owner == owner
}

proof fn lemma_owns_push(list: Seq<IdentityModel>, id: IdentityModel, me: NodeId, owner: NodeId)
    ensures
        owns_among(list.push(id), me, owner) <==> owns_among(list, me, owner) || (owner != me
            && !id.deleted && id.owner == owner),
{
    let all = list.push(id);
    if owns_among(list, me, owner) {
        let i = choose|i: int|
            0 <= i < list.len() && !(#[trigger] list[i]).deleted && list[i].owner == owner;
        assert(all[i] == list[i]);
    }
    if owns_among(all, me, owner) {
        let i = choose|i: int|
            0 <= i < all.len() && !(#[trigger] all[i]).deleted && all[i].owner == owner;
        if i < list.len() {
            assert(list[i] == all[i]);
        }
    }
    assert(all[list.len() as int] == id);
}

proof fn lemma_owns_listing(node: Node, owner: NodeId)
    requires
        crate::registry::enumerates(
            crate::registry::listing(node.registry@),
            node.registry@,
        ),
    ensures
        owns_among(crate::registry::listing(node.registry@), node.config.node_id, owner)
            <==> node.remote_owner(owner),
{
    let list = crate::registry::listing(node.registry@);
    let pairs = Seq::new(list.len(), |i: int| (list[i].name, list[i]));
    if owns_among(list, node.config.node_id, owner) {
        let i = choose|i: int|
            0 <= i < list.len() && !(#[trigger] list[i]).deleted && list[i].owner == owner;
        assert(pairs[i].0 == list[i].name);
        assert(node.registry@.contains_key(pairs[i].0) && node.registry@[pairs[i].0]
            == pairs[i].1);
    }
    if node.remote_owner(owner) {
        let k = choose|k: Seq<char>|
            {
                &&& #[trigger] node.registry@.contains_key(k)
                &&& !node.registry@[k].deleted
                &&& node.registry@[k].owner == owner
            };
        let i = choose|i: int| 0 <= i < pairs.len() && #[trigger] pairs[i].0 == k;
        assert(node.registry@[pairs[i].0] == pairs[i].1);
        assert(!list[i].deleted && list[i].owner == owner);
    }
}

/// What relaying `list` sends: each group to every peer but the one it came from.
pub open spec fn relays(
    d: BroadcastDissemination,
    list: Seq<(PeerId, Seq<IdentityModel>)>,
) -> Seq<(Seq<PeerId>, ControlModel)> {
    Seq::new(
        list.len(),
        |i: int|
            (
                crate::broadcast::recipients(d.peers@, list[i].0),
                ControlModel::RegistryDelta(list[i].1),
            ),
    )
}

/// What replying `list` sends: each group to its peer.
pub open spec fn replies(list: Seq<(PeerId, Seq<IdentityModel>)>) -> Seq<
    (Seq<PeerId>, ControlModel),
> {
    Seq::new(list.len(), |i: int| (seq![list[i].0], ControlModel::RegistryDelta(list[i].1)))
}

fn add_to_group(given: Vec<Group>, peer: PeerId, id: ChannelIdentity) -> (r: Vec<Group>)
    ensures
        groups(r@) == grouped(groups(given@), peer, id@),
{
    let mut list = given;
    let ghost before = groups(list@);
    let mut i: usize = 0;
    while i < list.len()
        invariant
            i <= list@.len(),
            before == groups(list@),
            before == groups(given@),
            forall|j: int| 0 <= j < i ==> (#[trigger] before[j]).0 != peer,
        decreases list@.len() - i,
    {
        assert(before[i as int] == list@[i as int]@);
        if list[i].peer == peer {
            let ghost all = list@;
            let mut g = list.remove(i);
            let ghost delta = crate::identity::models(g.delta@);
            g.delta.push(id);
            assert(crate::identity::models(g.delta@) =~= delta.push(id@));
            list.insert(i, g);
            proof {
                assert(list@ =~= all.update(i as int, g));
                assert(before[i as int].1 == delta);
                lemma_grouped_at(before, peer, id@, i as int);
                assert(groups(list@) =~= before.update(i as int, (peer, delta.push(id@))));
            }
            return list;
        }
        i = i + 1;
    }
    let mut delta: Vec<ChannelIdentity> = Vec::new();
    delta.push(id);
    assert(crate::identity::models(delta@) =~= seq![id@]);
    list.push(Group { peer, delta });
    proof {
        lemma_grouped_new(before, peer, id@);
        assert(groups(list@) =~= before.push((peer, seq![id@])));
    }
    list
}

proof fn lemma_grouped_at(
    list: Seq<(PeerId, Seq<IdentityModel>)>,
    peer: PeerId,
    id: IdentityModel,
    i: int,
)
    requires
        0 <= i < list.len(),
        list[i].0 == peer,
        forall|j: int| 0 <= j < i ==> (#[trigger] list[j]).0 != peer,
    ensures
        grouped(list, peer, id) == list.update(i, (peer, list[i].1.push(id))),
    decreases list.len(),
{
    if i > 0 {
        let rest = list.drop_first();
        assert(list[0].0 != peer);
        assert forall|j: int| 0 <= j < i - 1 implies (#[trigger] rest[j]).0 != peer by {
            assert(rest[j] == list[j + 1]);
        }
        lemma_grouped_at(rest, peer, id, i - 1);
        assert(grouped(list, peer, id) =~= list.update(i, (peer, list[i].1.push(id))));
    }
}

proof fn lemma_grouped_new(
    list: Seq<(PeerId, Seq<IdentityModel>)>,
    peer: PeerId,
    id: IdentityModel,
)
    requires
        forall|j: int| 0 <= j < list.len() ==> (#[trigger] list[j]).0 != peer,
    ensures
        grouped(list, peer, id) == list.push((peer, seq![id])),
    decreases list.len(),
{
    if list.len() == 0 {
        assert(grouped(list, peer, id) =~= list.push((peer, seq![id])));
    } else {
        let rest = list.drop_first();
        assert(list[0].0 != peer);
        assert forall|j: int| 0 <= j < rest.len() implies (#[trigger] rest[j]).0 != peer by {
            assert(rest[j] == list[j + 1]);
        }
        lemma_grouped_new(rest, peer, id);
        assert(grouped(list, peer, id) =~= list.push((peer, seq![id])));
    }
}

/// Whether `id` is in the group of `peer`.
pub open spec fn tells(
    list: Seq<(PeerId, Seq<IdentityModel>)>,
    peer: PeerId,
    id: IdentityModel,
) -> bool {
    exists|i: int|
        0 <= i < list.len() && (#[trigger] list[i]).0 == peer && list[i].1.contains(id)
}

/// Whether no peer has two groups.
pub open spec fn one_each(list: Seq<(PeerId, Seq<IdentityModel>)>) -> bool {
    forall|i: int, j: int|
        0 <= i < j < list.len() ==> (#[trigger] list[i]).0 != (#[trigger] list[j]).0
}

proof fn lemma_grouped_tells(
    list: Seq<(PeerId, Seq<IdentityModel>)>,
    peer: PeerId,
    id: IdentityModel,
    other: PeerId,
    known: IdentityModel,
)
    ensures
        tells(grouped(list, peer, id), peer, id),
        tells(list, other, known) ==> tells(grouped(list, peer, id), other, known),
    decreases list.len(),
{
    let after = grouped(list, peer, id);
    if list.len() == 0 {
        assert(after[0].1[0] == id);
    } else if list[0].0 == peer {
        crate::broadcast::lemma_push_contains(list[0].1, id);
        assert(after[0].1.contains(id));
        if tells(list, other, known) {
            let i = choose|i: int|
                0 <= i < list.len() && (#[trigger] list[i]).0 == other && list[i].1.contains(known);
            assert(after[i].0 == other && after[i].1.contains(known));
        }
    } else {
        let rest = list.drop_first();
        lemma_grouped_tells(rest, peer, id, other, known);
        let tail = grouped(rest, peer, id);
        let i = choose|i: int|
            0 <= i < tail.len() && (#[trigger] tail[i]).0 == peer && tail[i].1.contains(id);
        assert(after[i + 1] == tail[i]);
        if tells(list, other, known) {
            let k = choose|k: int|
                0 <= k < list.len() && (#[trigger] list[k]).0 == other && list[k].1.contains(known);
            if k == 0 {
                assert(after[0] == list[0]);
            } else {
                assert(rest[k - 1] == list[k]);
                assert(tells(rest, other, known));
                let j = choose|j: int|
                    0 <= j < tail.len() && (#[trigger] tail[j]).0 == other && tail[j].1.contains(
                        known,
                    );
                assert(after[j + 1] == tail[j]);
            }
        }
    }
}

proof fn lemma_grouped_one_each(
    list: Seq<(PeerId, Seq<IdentityModel>)>,
    peer: PeerId,
    id: IdentityModel,
)
    requires
        one_each(list),
    ensures
        one_each(grouped(list, peer, id)),
{
    if exists|i: int| 0 <= i < list.len() && (#[trigger] list[i]).0 == peer {
        let i = choose|i: int| 0 <= i < list.len() && (#[trigger] list[i]).0 == peer;
        lemma_grouped_at(list, peer, id, i);
    } else {
        lemma_grouped_new(list, peer, id);
    }
}

/// A pump merges everything it received, in order, whatever it relays.
pub proof fn law_a_pump_merges_everything(
    node: Node,
    s: PumpState,
    all: Seq<(PeerId, IdentityModel)>,
    now: u64,
)
    ensures
        node.pump_all(s, all, now).registry == crate::registry::merged_all(
            s.registry,
            all.map(|i: int, e: (PeerId, IdentityModel)| e.1),
        ),
    decreases all.len(),
{
    let ids = all.map(|i: int, e: (PeerId, IdentityModel)| e.1);
    if all.len() > 0 {
        law_a_pump_merges_everything(node, s, all.drop_last(), now);
        assert(ids.drop_last() =~= all.drop_last().map(|i: int, e: (PeerId, IdentityModel)| e.1));
        assert(ids.last() == all.last().1);
    }
}

/// However much arrives from a peer, one message carries on what it said, and one answers it.
pub proof fn law_one_message_per_source(
    node: Node,
    s: PumpState,
    all: Seq<(PeerId, IdentityModel)>,
    now: u64,
)
    requires
        one_each(s.relay),
        one_each(s.reply),
    ensures
        one_each(node.pump_all(s, all, now).relay),
        one_each(node.pump_all(s, all, now).reply),
    decreases all.len(),
{
    if all.len() > 0 {
        law_one_message_per_source(node, s, all.drop_last(), now);
        let before = node.pump_all(s, all.drop_last(), now);
        let (from, id) = all.last();
        let winner = crate::registry::merged(before.registry, id)[id.name];
        lemma_grouped_one_each(before.relay, from, winner);
        lemma_grouped_one_each(before.reply, from, winner);
    }
}

/// Every entry that moves the map is carried on, and the sender of every entry that loses is told
/// the winner: a peer on a link that stays up would never learn of it otherwise.
pub proof fn law_news_travels_and_losers_are_answered(
    node: Node,
    s: PumpState,
    all: Seq<(PeerId, IdentityModel)>,
    i: int,
    now: u64,
)
    requires
        0 <= i < all.len(),
    ensures
        ({
            let met = node.pump_all(s, all.take(i), now).registry;
            let (from, id) = all[i];
            let winner = crate::registry::merged(met, id)[id.name];
            let after = node.pump_all(s, all, now);
            &&& crate::registry::moves(met, id) ==> tells(after.relay, from, id)
            &&& !crate::registry::moves(met, id) && crate::identity::rank(id)
                != crate::identity::rank(winner) ==> tells(after.reply, from, winner)
        }),
    decreases all.len(),
{
    let rest = all.drop_last();
    let before = node.pump_all(s, rest, now);
    let (from, id) = all.last();
    let winner = crate::registry::merged(before.registry, id)[id.name];
    let (sender, said) = all[i];
    let met = node.pump_all(s, all.take(i), now).registry;
    let standing = crate::registry::merged(met, said)[said.name];
    lemma_grouped_tells(before.relay, from, winner, sender, said);
    lemma_grouped_tells(before.reply, from, winner, sender, standing);
    if i < rest.len() {
        assert(rest.take(i) =~= all.take(i));
        law_news_travels_and_losers_are_answered(node, s, rest, i, now);
    } else {
        assert(all.take(i) =~= rest);
    }
}

proof fn lemma_merged_all_split(m: Directory, a: Seq<IdentityModel>, b: Seq<IdentityModel>)
    ensures
        crate::registry::merged_all(m, a + b) == crate::registry::merged_all(
            crate::registry::merged_all(m, a),
            b,
        ),
    decreases b.len(),
{
    if b.len() == 0 {
        assert(a + b =~= a);
    } else {
        lemma_merged_all_split(m, a, b.drop_last());
        assert((a + b).drop_last() =~= a + b.drop_last());
    }
}

/// Entries already merged, heard again from whomever and in whatever order, move nothing: nothing
/// is published and nothing is carried on, so a flood dies out.
pub proof fn law_old_news_goes_no_further(
    node: Node,
    s: PumpState,
    known: Seq<IdentityModel>,
    all: Seq<(PeerId, IdentityModel)>,
    now: u64,
)
    requires
        forall|i: int| 0 <= i < all.len() ==> known.contains((#[trigger] all[i]).1),
    ensures
        ({
            let told = PumpState {
                registry: crate::registry::merged_all(s.registry, known),
                ..s
            };
            let after = node.pump_all(told, all, now);
            &&& after.registry == told.registry
            &&& after.changes == s.changes
            &&& after.relay == s.relay
        }),
    decreases all.len(),
{
    if all.len() > 0 {
        let rest = all.drop_last();
        assert forall|i: int| 0 <= i < rest.len() implies known.contains(
            (#[trigger] rest[i]).1,
        ) by {
            assert(rest[i] == all[i]);
        }
        law_old_news_goes_no_further(node, s, known, rest, now);
        let id = all.last().1;
        assert(known.contains(all[all.len() - 1].1));
        let k = choose|k: int| 0 <= k < known.len() && known[k] == id;
        let met = crate::registry::merged_all(s.registry, known.take(k));
        let heard = known.take(k + 1);
        assert(heard.drop_last() =~= known.take(k));
        assert(crate::registry::merged_all(s.registry, heard) == crate::registry::merged(met, id));
        lemma_merged_all_split(s.registry, heard, known.skip(k + 1));
        assert(heard + known.skip(k + 1) =~= known);
        crate::registry::law_a_claim_moves_a_map_once(met, id, known.skip(k + 1));
    }
}

} // verus!
