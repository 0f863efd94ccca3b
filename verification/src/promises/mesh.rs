//! The mesh: who is told what, which links stay, and who counts as live.
use vstd::prelude::*;

use crate::addr::SocketAddr;
use crate::broadcast::{
    adopted, dispatches, introductions, recipients, without, BroadcastDissemination, Link,
};
use crate::identity::{IdentityModel, NodeId};
use crate::membership::{Acquaintances, IntroductionModel, MemberModel};
use crate::promises::sequences::{lemma_filter_map_last, lemma_filter_map_none};
use crate::wire::{ControlModel, PeerId};

verus! {

// ---------------- liveness ----------------
/// Whether a node known as `m` has been heard from directly within `timeout` of `now`, and has not
/// said since that it is leaving.
pub open spec fn heard_lately(m: MemberModel, timeout: nat, now: u64) -> bool {
    &&& !m.departed
    &&& m.heard_at is Some
    &&& now <= m.heard_at->0 + timeout
}

/// A node is live exactly if it is known, was heard from directly within the liveness timeout, and has
/// not left.
pub proof fn law_live_is_heard_lately(d: BroadcastDissemination, node: NodeId, now: u64)
    ensures
        d.live(node, now) <==> d.membership@.contains_key(node) && heard_lately(
            d.membership@[node],
            d.liveness_timeout@,
            now,
        ),
{
}

/// A node never heard from has no silence; the silence of another is the time since it was heard.
pub proof fn law_silence_is_time_since_heard(known: Acquaintances, node: NodeId, now: u64)
    ensures
        crate::membership::silence(known, node, now) is Some <==> known.contains_key(node)
            && known[node].heard_at is Some,
        known.contains_key(node) && known[node].heard_at is Some ==> {
            let (t, s) = (known[node].heard_at->0, crate::membership::silence(known, node, now)->0);
            (t <= now ==> t + s == now) && (t > now ==> s == 0)
        },
{
}

/// The live nodes are listed once each, in the order in which they became known.
pub open spec fn is_heard(timeout: nat, now: u64) -> spec_fn((NodeId, MemberModel)) -> bool {
    |e: (NodeId, MemberModel)| heard_lately(e.1, timeout, now)
}

pub open spec fn its_node() -> spec_fn((NodeId, MemberModel)) -> NodeId {
    |e: (NodeId, MemberModel)| e.0
}

pub proof fn law_live_nodes_are_those_heard(
    list: Seq<(NodeId, MemberModel)>,
    timeout: nat,
    now: u64,
)
    ensures
        crate::membership::live_in(list, timeout, now) == list.filter(
            is_heard(timeout, now),
        ).map_values(its_node()),
    decreases list.len(),
{
    let (p, g) = (is_heard(timeout, now), its_node());
    if list.len() > 0 {
        law_live_nodes_are_those_heard(list.drop_last(), timeout, now);
        lemma_filter_map_last(list, p, g);
    } else {
        lemma_filter_map_none(list, p, g);
    }
}

/// The node that lives at an address is the one known longest there, if any is.
pub proof fn law_who_lives_at_an_address(list: Seq<(NodeId, MemberModel)>, at: SocketAddr)
    ensures
        match crate::membership::first_at(list, at) {
            Some(n) => exists|i: int|
                {
                    &&& 0 <= i < list.len()
                    &&& (#[trigger] list[i]).0 == n
                    &&& list[i].1.control_addr == at
                    &&& forall|j: int| 0 <= j < i ==> (#[trigger] list[j]).1.control_addr != at
                },
            None => forall|j: int| 0 <= j < list.len() ==> (#[trigger] list[j]).1.control_addr != at,
        },
    decreases list.len(),
{
    if list.len() > 0 {
        if list[0].1.control_addr == at {
            assert(list[0].0 == crate::membership::first_at(list, at)->0);
        } else {
            let rest = list.drop_first();
            law_who_lives_at_an_address(rest, at);
            match crate::membership::first_at(rest, at) {
                Some(n) => {
                    let i = choose|i: int|
                        {
                            &&& 0 <= i < rest.len()
                            &&& (#[trigger] rest[i]).0 == n
                            &&& rest[i].1.control_addr == at
                            &&& forall|j: int|
                                0 <= j < i ==> (#[trigger] rest[j]).1.control_addr != at
                        };
                    assert(list[i + 1] == rest[i]);
                    assert forall|j: int| 0 <= j < i + 1 implies (#[trigger] list[j]).1.control_addr
                        != at by {
                        if j > 0 {
                            assert(rest[j - 1] == list[j]);
                        }
                    }
                    assert(list[i + 1].0 == n);
                },
                None => {
                    assert forall|j: int| 0 <= j < list.len() implies (
                    #[trigger] list[j]).1.control_addr != at by {
                        if j > 0 {
                            assert(rest[j - 1] == list[j]);
                        }
                    }
                },
            }
        }
    }
}

// ---------------- whom a message goes to ----------------
pub open spec fn is_not(id: PeerId) -> spec_fn(Link) -> bool {
    |l: Link| l.id != id
}

pub open spec fn its_id() -> spec_fn(Link) -> PeerId {
    |l: Link| l.id
}

/// A message to everyone but one goes over every other link, once each, in the order of the links.
pub proof fn law_recipients_are_the_other_links(peers: Seq<Link>, except: PeerId)
    ensures
        recipients(peers, except) == peers.filter(is_not(except)).map_values(its_id()),
    decreases peers.len(),
{
    let (p, g) = (is_not(except), its_id());
    if peers.len() > 0 {
        law_recipients_are_the_other_links(peers.drop_last(), except);
        lemma_filter_map_last(peers, p, g);
    } else {
        lemma_filter_map_none(peers, p, g);
    }
}

/// A link that failed is gone, and every other one stays where it was.
pub proof fn law_only_the_failed_link_goes(peers: Seq<Link>, id: PeerId)
    ensures
        without(peers, id) == peers.filter(is_not(id)),
    decreases peers.len(),
{
    reveal(Seq::filter);
    if peers.len() > 0 {
        law_only_the_failed_link_goes(peers.drop_last(), id);
    }
}

// ---------------- joining ----------------
/// The hint that introduces `node`, known as `m`.
pub open spec fn hint_about(node: NodeId, m: MemberModel) -> ControlModel {
    ControlModel::PeerHint(
        IntroductionModel { node, addr: m.addr, control_addr: m.control_addr, name: m.name },
    )
}

/// What introductions go out for a list of known nodes.
proof fn lemma_introductions(id: PeerId, me: NodeId, list: Seq<(NodeId, MemberModel)>)
    requires
        crate::table::distinct(list),
    ensures
        forall|k: int|
            0 <= k < introductions(id, me, list).len() ==> {
                let d = #[trigger] introductions(id, me, list)[k];
                exists|i: int|
                    0 <= i < list.len() && (#[trigger] list[i]).0 != me && d == (
                        seq![id],
                        hint_about(list[i].0, list[i].1),
                    )
            },
        forall|i: int|
            0 <= i < list.len() && (#[trigger] list[i]).0 != me ==> introductions(
                id,
                me,
                list,
            ).contains((seq![id], hint_about(list[i].0, list[i].1))),
        introductions(id, me, list).no_duplicates(),
    decreases list.len(),
{
    if list.len() > 0 {
        let front = list.drop_last();
        let rest = introductions(id, me, front);
        let all = introductions(id, me, list);
        let last = list.last();
        assert forall|i: int, j: int| 0 <= i < j < front.len() implies (#[trigger] front[i]).0 != (
        #[trigger] front[j]).0 by {
            assert(list[i].0 != list[j].0);
        }
        lemma_introductions(id, me, front);
        let d = (seq![id], hint_about(last.0, last.1));
        crate::broadcast::lemma_push_contains(rest, d);
        assert(all == if last.0 == me {
            rest
        } else {
            rest.push(d)
        });
        assert forall|k: int| 0 <= k < all.len() implies {
            let x = #[trigger] all[k];
            exists|i: int|
                0 <= i < list.len() && (#[trigger] list[i]).0 != me && x == (
                    seq![id],
                    hint_about(list[i].0, list[i].1),
                )
        } by {
            if k < rest.len() {
                assert(all[k] == rest[k]);
                let i = choose|i: int|
                    0 <= i < front.len() && (#[trigger] front[i]).0 != me && rest[k] == (
                        seq![id],
                        hint_about(front[i].0, front[i].1),
                    );
                assert(list[i] == front[i]);
            } else {
                assert(list[list.len() - 1] == last);
            }
        }
        assert forall|i: int| 0 <= i < list.len() && (#[trigger] list[i]).0 != me implies all.contains(
            (seq![id], hint_about(list[i].0, list[i].1)),
        ) by {
            if i < front.len() {
                assert(front[i] == list[i]);
                assert(rest.contains((seq![id], hint_about(front[i].0, front[i].1))));
            }
        }
        if last.0 != me {
            if rest.contains(d) {
                let k = choose|k: int| 0 <= k < rest.len() && rest[k] == d;
                let i = choose|i: int|
                    0 <= i < front.len() && (#[trigger] front[i]).0 != me && rest[k] == (
                        seq![id],
                        hint_about(front[i].0, front[i].1),
                    );
                assert(front[i].0 == last.0);
                assert(list[i].0 != list[list.len() - 1].0);
            }
        }
    }
}

/// Whoever links up learns the whole mesh from that one link. What it is sent, and nobody else is:
/// the registry, then who this node is, then one introduction to each node known here but this one,
/// with its addresses and its name as known, and to nobody else.
pub proof fn law_a_joiner_learns_the_whole_mesh(
    before: BroadcastDissemination,
    after: BroadcastDissemination,
    dialled: Option<SocketAddr>,
    sync: Seq<IdentityModel>,
    id: PeerId,
)
    requires
        adopted(before, after, dialled, sync, id),
    ensures
        ({
            let n = before.outbox@.len() as int;
            let sent = after.outbox@;
            &&& sent.len() >= n + 2
            &&& forall|k: int| 0 <= k < n ==> (#[trigger] sent[k])@ == before.outbox@[k]@
            &&& forall|k: int| n <= k < sent.len() ==> (#[trigger] sent[k]).to@ == seq![id]
            &&& sent[n].msg@ == ControlModel::RegistrySync(sync)
            &&& sent[n + 1].msg@ == ControlModel::Heartbeat(
                IntroductionModel {
                    node: before.self_node,
                    addr: before.self_addr,
                    control_addr: before.self_control_addr,
                    name: before.self_name@,
                },
            )
            &&& forall|node: NodeId|
                node != before.self_node && #[trigger] before.membership@.contains_key(node)
                    ==> exists|k: int|
                    n + 2 <= k < sent.len() && (#[trigger] sent[k]).msg@ == hint_about(
                        node,
                        before.membership@[node],
                    )
            &&& forall|k: int|
                n + 2 <= k < sent.len() ==> {
                    let m = (#[trigger] sent[k]).msg@;
                    &&& m is PeerHint
                    &&& m->PeerHint_0.node != before.self_node
                    &&& before.membership@.contains_key(m->PeerHint_0.node)
                    &&& m == hint_about(
                        m->PeerHint_0.node,
                        before.membership@[m->PeerHint_0.node],
                    )
                }
            &&& forall|k: int, l: int|
                n + 2 <= k < l < sent.len() ==> (#[trigger] sent[k]).msg@ != (
                #[trigger] sent[l]).msg@
        }),
        after.peers@.len() == before.peers@.len() + 1,
        forall|i: int| 0 <= i < before.peers@.len() ==> after.peers@[i] == before.peers@[i],
        after.peers@.last().id == id,
        after.peers@.last().dialled == dialled,
        after.peers@.last().peer is None,
        id == before.next_peer_id,
        after.next_peer_id > id,
        after.membership == before.membership,
        after.inbox == before.inbox,
        after.hints == before.hints,
{
    let list = before.membership.list();
    let (me, n) = (before.self_node, before.outbox@.len() as int);
    let hints = introductions(id, me, list);
    let old = dispatches(before.outbox@);
    let new = dispatches(after.outbox@);
    lemma_introductions(id, me, list);
    assert forall|k: int| 0 <= k < new.len() implies #[trigger] after.outbox@[k]@ == new[k] by {}
    assert(new.len() == n + 2 + hints.len());
    assert forall|k: int| 0 <= k < n implies (#[trigger] after.outbox@[k])@ == before.outbox@[k]@ by {
        assert(new[k] == old[k]);
    }
    assert(new[n] == (seq![id], ControlModel::RegistrySync(sync)));
    assert(new[n + 1].0 == seq![id]);
    assert forall|k: int| n + 2 <= k < new.len() implies {
        let m = (#[trigger] after.outbox@[k]).msg@;
        &&& after.outbox@[k].to@ == seq![id]
        &&& m is PeerHint
        &&& m->PeerHint_0.node != me
        &&& before.membership@.contains_key(m->PeerHint_0.node)
        &&& m == hint_about(m->PeerHint_0.node, before.membership@[m->PeerHint_0.node])
    } by {
        let h = hints[k - n - 2];
        assert(new[k] == h);
        let i = choose|i: int|
            0 <= i < list.len() && (#[trigger] list[i]).0 != me && h == (
                seq![id],
                hint_about(list[i].0, list[i].1),
            );
        assert(before.membership@.contains_key(list[i].0));
    }
    assert forall|node: NodeId|
        node != me && #[trigger] before.membership@.contains_key(node) implies exists|k: int|
        n + 2 <= k < after.outbox@.len() && (#[trigger] after.outbox@[k]).msg@ == hint_about(
            node,
            before.membership@[node],
        ) by {
        let i = choose|i: int| 0 <= i < list.len() && (#[trigger] list[i]).0 == node;
        let h = (seq![id], hint_about(list[i].0, list[i].1));
        assert(hints.contains(h));
        let j = choose|j: int| 0 <= j < hints.len() && hints[j] == h;
        assert(new[n + 2 + j] == h);
        assert(after.outbox@[n + 2 + j].msg@ == h.1);
    }
    assert forall|k: int, l: int| n + 2 <= k < l < after.outbox@.len() implies (
    #[trigger] after.outbox@[k]).msg@ != (#[trigger] after.outbox@[l]).msg@ by {
        assert(new[k] == hints[k - n - 2] && new[l] == hints[l - n - 2]);
        assert(after.outbox@[k].to@ == after.outbox@[l].to@);
        assert(hints[k - n - 2] != hints[l - n - 2]);
    }
}

} // verus!
