//! Dialling: whom a node calls, in which order, and what that costs.
use vstd::prelude::*;

use crate::addr::SocketAddr;
use crate::backoff::DialPenalty;
use crate::broadcast::Link;
use crate::identity::NodeId;
use crate::node::dialling::{charged_for, rotation, walked};
use crate::node::Node;

verus! {

/// A node is linked exactly if some link has told that it leads there.
pub proof fn law_linked_means_a_link_leads_there(peers: Seq<Link>, n: NodeId)
    ensures
        crate::broadcast::linked(peers, n) <==> exists|i: int|
            {
                &&& 0 <= i < peers.len()
                &&& (#[trigger] peers[i]).peer is Some
                &&& (peers[i].peer->0).0 == n
            },
{
    if crate::broadcast::linked(peers, n) {
        let i = choose|i: int| 0 <= i < peers.len() && crate::broadcast::leads_to(
            #[trigger] peers[i],
            n,
        );
        assert(peers[i].peer is Some);
    }
    if exists|i: int|
        {
            &&& 0 <= i < peers.len()
            &&& (#[trigger] peers[i]).peer is Some
            &&& (peers[i].peer->0).0 == n
        } {
        let i = choose|i: int|
            {
                &&& 0 <= i < peers.len()
                &&& (#[trigger] peers[i]).peer is Some
                &&& (peers[i].peer->0).0 == n
            };
        assert(crate::broadcast::leads_to(peers[i], n));
    }
}

/// Whether an address can be dialled at all: neither `0.0.0.0` nor `::`.
pub proof fn law_a_wildcard_is_no_destination(addr: SocketAddr)
    ensures
        addr.unspecified() <==> match addr.host {
            crate::addr::Host::V4(bits) => bits == 0,
            crate::addr::Host::V6 { bits, .. } => bits == 0,
        },
        addr.loopback() <==> match addr.host {
            crate::addr::Host::V4(bits) => 0x7f00_0000 <= bits < 0x8000_0000,
            crate::addr::Host::V6 { bits, .. } => bits == 1,
        },
{
}

/// An address is worth a dial exactly if it is a destination, its penalty has run out, no link dialled
/// there is up, it is not this node's own, and no link leads to the node known longest there. How often
/// it failed plays no part beyond its penalty.
pub proof fn law_whom_it_is_worth_dialling(
    node: Node,
    penalties: Map<SocketAddr, DialPenalty>,
    addr: SocketAddr,
    now: u64,
)
    ensures
        node.eligible(penalties, addr, now) <==> {
            let d = node.dissemination;
            let there = crate::membership::first_at(d.membership.list(), addr);
            &&& !addr.unspecified()
            &&& penalties.contains_key(addr) ==> penalties[addr].next <= now
            &&& !d.connected@.contains(addr)
            &&& addr != d.self_control_addr
            &&& there is Some ==> !crate::broadcast::linked(d.peers@, there->0)
        },
{
}

/// A walk goes through its list in order: what it picks from a part of the list it picks first from
/// the whole.
pub proof fn law_picks_go_in_order(
    node: Node,
    penalties: Map<SocketAddr, DialPenalty>,
    list: Seq<SocketAddr>,
    budget: nat,
    now: u64,
    k: int,
)
    requires
        0 <= k <= list.len(),
    ensures
        node.picks(penalties, list.take(k), budget, now).is_prefix_of(
            node.picks(penalties, list, budget, now),
        ),
    decreases list.len(),
{
    if k < list.len() {
        let front = list.drop_last();
        law_picks_go_in_order(node, penalties, front, budget, now, k);
        assert(front.take(k) =~= list.take(k));
        let (a, b, c) = (
            node.picks(penalties, list.take(k), budget, now),
            node.picks(penalties, front, budget, now),
            node.picks(penalties, list, budget, now),
        );
        assert(b.is_prefix_of(c));
        assert(a.is_prefix_of(c));
    } else {
        assert(list.take(k) =~= list);
    }
}

/// What a walk does. It starts where the last one stopped, goes once round the list, and picks what is
/// worth a dial until its budget is spent; the next starts after as many places as it picked. Whatever
/// it picks is charged: a second after a first dial, up to a minute after many; nothing else is.
pub proof fn law_how_a_walk_goes(
    node: Node,
    before: Map<SocketAddr, DialPenalty>,
    after: Map<SocketAddr, DialPenalty>,
    candidates: Seq<SocketAddr>,
    cursor: usize,
    budget: usize,
    now: u64,
    picked: Seq<SocketAddr>,
    next: usize,
    addr: SocketAddr,
)
    requires
        walked(node, before, after, candidates, cursor, budget, now, picked, next),
    ensures
        candidates.len() == 0 ==> picked.len() == 0 && next == cursor && after == before,
        candidates.len() > 0 ==> {
            let start = cursor as int % candidates.len() as int;
            let round = Seq::new(
                candidates.len(),
                |i: int| candidates[(start + i) % candidates.len() as int],
            );
            &&& picked == node.picks(before, round, budget as nat, now)
            &&& start + picked.len() <= usize::MAX ==> next == start + picked.len()
        },
        picked.len() <= budget,
        picked.contains(addr) ==> candidates.contains(addr) && node.eligible(before, addr, now),
        candidates.contains(addr) && node.eligible(before, addr, now) && !picked.contains(addr)
            ==> picked.len() == budget,
        picked.contains(addr) ==> {
            let was = before.contains_key(addr) && now < before[addr].attempted_at
                + 120_000_000_000;
            &&& after.contains_key(addr)
            &&& after[addr].attempted_at == now
            &&& after[addr].next == now + after[addr].gap@
            &&& !was ==> after[addr].gap@ == 1_000_000_000
            &&& was && before[addr].gap@ <= 30_000_000_000 ==> after[addr].gap@ == 2
                * before[addr].gap@
            &&& was && before[addr].gap@ > 30_000_000_000 ==> after[addr].gap@ == 60_000_000_000
        },
        !picked.contains(addr) ==> after.contains_key(addr) == before.contains_key(addr) && (
        before.contains_key(addr) ==> after[addr] == before[addr]),
{
    if candidates.len() > 0 {
        let n = candidates.len() as int;
        let start = cursor as int % n;
        let list = rotation(candidates, start);
        crate::node::dialling::law_picks_are_few_and_eligible(
            node,
            before,
            list,
            budget as nat,
            now,
        );
        let round = Seq::new(candidates.len(), |i: int| candidates[(start + i) % n]);
        assert(round =~= list);
        assert(0 <= start < n) by (nonlinear_arith)
            requires
                n > 0,
                start == cursor as int % n,
        ;
        lemma_once_round(candidates, start, addr);
        if candidates.contains(addr) && node.eligible(before, addr, now) {
            crate::node::dialling::law_no_eligible_candidate_is_passed_over(
                node,
                before,
                list,
                budget as nat,
                now,
                addr,
            );
        }
        assert(charged_for(before, after, picked, now));
        if picked.contains(addr) {
            assert(after.contains_key(addr));
        } else {
            assert(crate::node::dialling::penalty_of(after, addr)
                == crate::node::dialling::penalty_of(before, addr));
        }
    }
}

proof fn lemma_once_round(candidates: Seq<SocketAddr>, start: int, addr: SocketAddr)
    requires
        0 <= start < candidates.len(),
    ensures
        rotation(candidates, start).contains(addr) <==> candidates.contains(addr),
{
    let n = candidates.len() as int;
    let list = rotation(candidates, start);
    if list.contains(addr) {
        let i = choose|i: int| 0 <= i < list.len() && list[i] == addr;
        let k = (start + i) % n;
        assert(0 <= k < n) by (nonlinear_arith)
            requires
                n > 0,
                k == (start + i) % n,
        ;
        assert(candidates[k] == addr);
    }
    if candidates.contains(addr) {
        let k = choose|k: int| 0 <= k < n && candidates[k] == addr;
        let i = if k >= start {
            k - start
        } else {
            k - start + n
        };
        assert((start + i) % n == k) by {
            if k >= start {
                vstd::arithmetic::div_mod::lemma_small_mod(k as nat, n as nat);
            } else {
                vstd::arithmetic::div_mod::lemma_mod_sub_multiples_vanish(k + n, n);
                vstd::arithmetic::div_mod::lemma_small_mod(k as nat, n as nat);
            }
        }
        assert(list[i] == addr);
    }
}

/// The peers to dial are those known and not linked by a dial, at their control addresses.
pub proof fn law_learned_peers_are_all_unlinked(node: Node)
    ensures
        node.learned() == crate::broadcast::unconnected(
            node.dissemination.membership.list(),
            node.dissemination.self_node,
            node.dissemination.connected@,
        ).map_values(|p: (NodeId, SocketAddr)| p.1),
{
    let peers = crate::broadcast::unconnected(
        node.dissemination.membership.list(),
        node.dissemination.self_node,
        node.dissemination.connected@,
    );
    assert(node.learned() =~= peers.map_values(|p: (NodeId, SocketAddr)| p.1));
}

} // verus!
