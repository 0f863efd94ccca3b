//! Dialling peers: whom, how many per tick, and how often.
use vstd::prelude::*;

use crate::addr::SocketAddr;
use crate::backoff::{charged, due, escalate, is_due, penalty, DialPenalty};
use crate::identity::NodeId;
use crate::limits::{
    DIAL_BACKOFF_MAX_MS, DIAL_BACKOFF_MIN_MS, MAX_DIALS_PER_TICK, MAX_TWIN_DIALS_PER_TICK,
};
use crate::node::topics::contains_node;
use crate::node::Node;
use crate::time::Duration;

verus! {

/// The penalty of `addr`, if it has one.
pub open spec fn penalty_of(
    penalties: Map<SocketAddr, DialPenalty>,
    addr: SocketAddr,
) -> Option<DialPenalty> {
    if penalties.contains_key(addr) {
        Some(penalties[addr])
    } else {
        None
    }
}

pub open spec fn dial_gap_min() -> nat {
    (DIAL_BACKOFF_MIN_MS * crate::time::NANOS_PER_MILLI) as nat
}

pub open spec fn dial_gap_max() -> nat {
    (DIAL_BACKOFF_MAX_MS * crate::time::NANOS_PER_MILLI) as nat
}

/// `candidates`, read round from `start`.
pub open spec fn rotation(candidates: Seq<SocketAddr>, start: int) -> Seq<SocketAddr> {
    Seq::new(candidates.len(), |i: int| candidates[(start + i) % (candidates.len() as int)])
}

/// The control addresses of `peers`.
pub open spec fn addresses(peers: Seq<(NodeId, SocketAddr)>) -> Seq<SocketAddr> {
    Seq::new(peers.len(), |i: int| peers[i].1)
}

/// What a dialling walk of `node` over `candidates` did: from the penalties `before` and `cursor`, it
/// picked the addresses `picked`, and left the penalties `after` and the cursor `next`.
pub open spec fn walked(
    node: Node,
    before: Map<SocketAddr, DialPenalty>,
    after: Map<SocketAddr, DialPenalty>,
    candidates: Seq<SocketAddr>,
    cursor: usize,
    budget: usize,
    now: u64,
    picked: Seq<SocketAddr>,
    next: usize,
) -> bool {
    if candidates.len() == 0 {
        picked.len() == 0 && next == cursor && after == before
    } else {
        let start = (cursor as int) % (candidates.len() as int);
        &&& picked == node.picks(before, rotation(candidates, start), budget as nat, now)
        &&& next == if start + picked.len() <= usize::MAX {
            start + picked.len()
        } else {
            usize::MAX as int
        }
        &&& charged_for(before, after, picked, now)
    }
}

/// Whether `after` is `before` with a dial of each address in `picked`, and of no other, charged at
/// `now`.
pub open spec fn charged_for(
    before: Map<SocketAddr, DialPenalty>,
    after: Map<SocketAddr, DialPenalty>,
    picked: Seq<SocketAddr>,
    now: u64,
) -> bool {
    forall|a: SocketAddr|
        #![trigger after.contains_key(a)]
        #![trigger picked.contains(a)]
        if picked.contains(a) {
            after.contains_key(a) && charged(
                after[a],
                penalty_of(before, a),
                now,
                dial_gap_min(),
                dial_gap_max(),
                0,
            )
        } else {
            penalty_of(after, a) == penalty_of(before, a)
        }
}

/// Two walks one after the other: over the peers heard of, from the penalties of `before` to `mid`,
/// and then over the addresses that claim this node's own id, to those of `after`.
pub open spec fn two_walks(
    before: Node,
    mid: Map<SocketAddr, DialPenalty>,
    after: Node,
    learned: Seq<SocketAddr>,
    twins: Seq<SocketAddr>,
    now: u64,
) -> bool {
    &&& walked(
        before,
        before.dial_backoff@,
        mid,
        before.learned(),
        before.dial_cursor_learned,
        MAX_DIALS_PER_TICK,
        now,
        learned,
        after.dial_cursor_learned,
    )
    &&& walked(
        before,
        mid,
        after.dial_backoff@,
        crate::broadcast::twins(
            before.dissemination.membership@,
            before.dissemination.self_node,
            before.dissemination.self_control_addr,
        ),
        before.dial_cursor_twins,
        MAX_TWIN_DIALS_PER_TICK,
        now,
        twins,
        after.dial_cursor_twins,
    )
}

/// The peers to dial in a tick, beside the seeds.
pub struct DialPlan {
    /// Peers heard of and not linked.
    pub learned: Vec<SocketAddr>,
    /// Addresses that claim this node's own id.
    pub twins: Vec<SocketAddr>,
}

impl Node {
    /// Whether every dial gap is between the floor and the ceiling.
    pub open spec fn dial_gaps_in_range(&self) -> bool {
        forall|a: SocketAddr| #[trigger]
            self.dial_backoff@.contains_key(a) ==> dial_gap_min() <= self.dial_backoff@[a].gap@
                <= dial_gap_max()
    }

    /// Whether `addr` may be dialled: no link dialled there is up, it is not this node's own, and no
    /// link leads to the node known to live there. An address not known to be anyone's always may.
    pub open spec fn dialable(&self, addr: SocketAddr) -> bool {
        let d = self.dissemination;
        &&& !d.connected@.contains(addr)
        &&& addr != d.self_control_addr
        &&& match crate::membership::first_at(d.membership.list(), addr) {
            Some(n) => !crate::broadcast::linked(d.peers@, n),
            None => true,
        }
    }

    /// Whether `addr` is worth a dial at `now`, under `penalties`: it is a place one can dial, its
    /// penalty has run out, and it may be dialled.
    pub open spec fn eligible(
        &self,
        penalties: Map<SocketAddr, DialPenalty>,
        addr: SocketAddr,
        now: u64,
    ) -> bool {
        &&& !addr.unspecified()
        &&& due(penalty_of(penalties, addr), now)
        &&& self.dialable(addr)
    }

    /// The first `budget` of the eligible addresses in `list`, none twice.
    pub open spec fn picks(
        &self,
        penalties: Map<SocketAddr, DialPenalty>,
        list: Seq<SocketAddr>,
        budget: nat,
        now: u64,
    ) -> Seq<SocketAddr>
        decreases list.len(),
    {
        if list.len() == 0 {
            Seq::empty()
        } else {
            let before = self.picks(penalties, list.drop_last(), budget, now);
            if before.len() < budget && self.eligible(penalties, list.last(), now)
                && !before.contains(list.last()) {
                before.push(list.last())
            } else {
                before
            }
        }
    }

    /// Whether to dial `addr`: see [`dialable`](Self::dialable).
    pub fn should_dial(&self, addr: SocketAddr) -> (b: bool)
        ensures
            b == self.dialable(addr),
    {
        if self.dissemination.is_connected(addr) {
            return false;
        }
        if addr == self.dissemination.self_control_addr {
            return false;
        }
        match self.dissemination.membership.node_at(addr) {
            Some(node) => !contains_node(&self.dissemination.linked_nodes(), node),
            None => true,
        }
    }

    /// Whether the penalty of `addr` has run out. An address never dialled is always due.
    pub fn dial_due(&self, addr: SocketAddr, now: u64) -> (b: bool)
        ensures
            b == due(penalty_of(self.dial_backoff@, addr), now),
    {
        is_due(self.dial_backoff.get(&addr), now)
    }

    /// Charges a dial of `addr` at `now`. The attempt is charged, not the failure: an address may
    /// accept a connection and then drop the link, over and over.
    pub fn dial_peer(&mut self, addr: SocketAddr, now: u64)
        ensures
            final(self).dial_backoff@.contains_key(addr),
            charged(
                final(self).dial_backoff@[addr],
                penalty_of(old(self).dial_backoff@, addr),
                now,
                dial_gap_min(),
                dial_gap_max(),
                0,
            ),
            final(self).dial_backoff@ == old(self).dial_backoff@.insert(
                addr,
                final(self).dial_backoff@[addr],
            ),
            *final(self) == (Node { dial_backoff: final(self).dial_backoff, ..*old(self) }),
            old(self).dial_gaps_in_range() ==> final(self).dial_gaps_in_range(),
    {
        let gap = escalate(
            self.dial_backoff.get(&addr),
            now,
            Duration::from_millis(DIAL_BACKOFF_MIN_MS),
            Duration::from_millis(DIAL_BACKOFF_MAX_MS),
        );
        self.dial_backoff.insert(addr, penalty(now, gap, Duration::zero()));
        proof {
            if old(self).dial_gaps_in_range() {
                crate::backoff::law_gap_stays_in_range(
                    penalty_of(old(self).dial_backoff@, addr),
                    now,
                    dial_gap_min(),
                    dial_gap_max(),
                );
            }
        }
    }

    /// Picks at most `budget` of `candidates` to dial, walking round from `cursor`, and charges them.
    /// Returns them, and where the next walk is to start. Rotating keeps a long list fair: addresses
    /// that never answer, at its head, must not starve the rest.
    fn dial_some(
        &mut self,
        candidates: &Vec<SocketAddr>,
        cursor: usize,
        budget: usize,
        now: u64,
    ) -> (r: (Vec<SocketAddr>, usize))
        requires
            old(self).dial_gaps_in_range(),
        ensures
            walked(
                *old(self),
                old(self).dial_backoff@,
                final(self).dial_backoff@,
                candidates@,
                cursor,
                budget,
                now,
                r.0@,
                r.1,
            ),
            r.0@.len() <= budget,
            final(self).dial_gaps_in_range(),
            *final(self) == (Node { dial_backoff: final(self).dial_backoff, ..*old(self) }),
    {
        let mut picked: Vec<SocketAddr> = Vec::new();
        let n = candidates.len();
        if n == 0 {
            return (picked, cursor);
        }
        let start: usize = cursor % n;
        let ghost list = rotation(candidates@, start as int);
        let mut i: usize = 0;
        proof {
            assert(list.take(0) =~= Seq::<SocketAddr>::empty());
        }
        while i < n
            invariant
                i <= n == candidates@.len(),
                n > 0,
                start < n,
                list == rotation(candidates@, start as int),
                picked@ == old(self).picks(
                    old(self).dial_backoff@,
                    list.take(i as int),
                    budget as nat,
                    now,
                ),
                picked@.len() <= budget,
                charged_for(old(self).dial_backoff@, self.dial_backoff@, picked@, now),
                *self == (Node { dial_backoff: self.dial_backoff, ..*old(self) }),
                old(self).dial_gaps_in_range(),
                self.dial_gaps_in_range(),
            decreases n - i,
        {
            let at: usize = if i < n - start {
                start + i
            } else {
                i - (n - start)
            };
            let addr = candidates[at];
            proof {
                assert((start + i) % (n as int) == at) by {
                    if i < n - start {
                        vstd::arithmetic::div_mod::lemma_small_mod(
                            (start + i) as nat,
                            n as nat,
                        );
                    } else {
                        vstd::arithmetic::div_mod::lemma_mod_sub_multiples_vanish(
                            (start + i) as int,
                            n as int,
                        );
                        vstd::arithmetic::div_mod::lemma_small_mod(
                            (start + i - n) as nat,
                            n as nat,
                        );
                    }
                }
                assert(addr == list[i as int]);
                assert(list.take(i + 1).drop_last() =~= list.take(i as int));
                assert(list.take(i + 1).last() == addr);
                assert(self.dialable(addr) == old(self).dialable(addr));
                assert(picked@.contains(addr) ==> !due(penalty_of(self.dial_backoff@, addr), now));
            }
            if picked.len() < budget && !addr.is_unspecified() && self.dial_due(addr, now)
                && self.should_dial(addr) {
                let ghost before = picked@;
                let ghost was = *self;
                self.dial_peer(addr, now);
                picked.push(addr);
                proof {
                    assert(!before.contains(addr));
                    crate::broadcast::lemma_push_contains(before, addr);
                    assert(was.dial_backoff@.contains_key(addr) == old(
                        self,
                    ).dial_backoff@.contains_key(addr));
                    assert(charged_for(
                        old(self).dial_backoff@,
                        self.dial_backoff@,
                        picked@,
                        now,
                    ));
                }
            }
            i = i + 1;
        }
        assert(list.take(n as int) =~= list);
        let next: usize = start.saturating_add(picked.len());
        (picked, next)
    }

    /// Picks the configured seeds to dial this tick.
    pub fn connect_seeds(&mut self, now: u64) -> (picked: Vec<SocketAddr>)
        requires
            old(self).dial_gaps_in_range(),
        ensures
            walked(
                *old(self),
                old(self).dial_backoff@,
                final(self).dial_backoff@,
                old(self).config.seeds@,
                old(self).dial_cursor_seeds,
                MAX_DIALS_PER_TICK,
                now,
                picked@,
                final(self).dial_cursor_seeds,
            ),
            picked@.len() <= MAX_DIALS_PER_TICK,
            final(self).dial_gaps_in_range(),
            *final(self) == (Node {
                dial_backoff: final(self).dial_backoff,
                dial_cursor_seeds: final(self).dial_cursor_seeds,
                ..*old(self)
            }),
    {
        let seeds = copy_addrs(&self.config.seeds);
        let (picked, next) = self.dial_some(&seeds, self.dial_cursor_seeds, MAX_DIALS_PER_TICK, now);
        self.dial_cursor_seeds = next;
        picked
    }

    /// The control addresses of the peers heard of and not dialled.
    pub open spec fn learned(&self) -> Seq<SocketAddr> {
        addresses(
            crate::broadcast::unconnected(
                self.dissemination.membership.list(),
                self.dissemination.self_node,
                self.dissemination.connected@,
            ),
        )
    }

    /// Picks peers heard of, and then addresses that claim this node's own id, to dial this tick.
    /// Each list has a budget and a cursor of its own: a long one must not crowd out the others, nor
    /// move their cursors. Both ends of a pair dial: which of them can reach the other is not known
    /// in advance.
    pub fn connect_learned_peers(&mut self, now: u64) -> (plan: DialPlan)
        requires
            old(self).dial_gaps_in_range(),
        ensures
            exists|mid: Map<SocketAddr, DialPenalty>| #[trigger]
                two_walks(*old(self), mid, *final(self), plan.learned@, plan.twins@, now),
            plan.learned@.len() <= MAX_DIALS_PER_TICK,
            plan.twins@.len() <= MAX_TWIN_DIALS_PER_TICK,
            final(self).dial_gaps_in_range(),
            *final(self) == (Node {
                dial_backoff: final(self).dial_backoff,
                dial_cursor_learned: final(self).dial_cursor_learned,
                dial_cursor_twins: final(self).dial_cursor_twins,
                ..*old(self)
            }),
    {
        let known = self.dissemination.unconnected_peers();
        let twin_addrs = self.dissemination.same_id_candidates();
        let candidates = control_addrs(&known);
        let (learned, next) = self.dial_some(
            &candidates,
            self.dial_cursor_learned,
            MAX_DIALS_PER_TICK,
            now,
        );
        self.dial_cursor_learned = next;
        let ghost mid = self.dial_backoff@;
        let ghost between = *self;
        let (twins, next) = self.dial_some(
            &twin_addrs,
            self.dial_cursor_twins,
            MAX_TWIN_DIALS_PER_TICK,
            now,
        );
        self.dial_cursor_twins = next;
        proof {
            if twin_addrs@.len() > 0 {
                let start = (between.dial_cursor_twins as int) % (twin_addrs@.len() as int);
                lemma_picks_alike(
                    between,
                    *old(self),
                    mid,
                    rotation(twin_addrs@, start),
                    MAX_TWIN_DIALS_PER_TICK as nat,
                    now,
                );
            }
        }
        let plan = DialPlan { learned, twins };
        assert(two_walks(*old(self), mid, *self, plan.learned@, plan.twins@, now));
        plan
    }
}

/// What is picked depends on the links, on what is known of peers, and on the penalties alone.
proof fn lemma_picks_alike(
    a: Node,
    b: Node,
    penalties: Map<SocketAddr, DialPenalty>,
    list: Seq<SocketAddr>,
    budget: nat,
    now: u64,
)
    requires
        a.dissemination == b.dissemination,
    ensures
        a.picks(penalties, list, budget, now) == b.picks(penalties, list, budget, now),
    decreases list.len(),
{
    if list.len() > 0 {
        lemma_picks_alike(a, b, penalties, list.drop_last(), budget, now);
    }
}

fn control_addrs(peers: &Vec<(NodeId, SocketAddr)>) -> (r: Vec<SocketAddr>)
    ensures
        r@ == addresses(peers@),
{
    let mut r: Vec<SocketAddr> = Vec::new();
    let mut i: usize = 0;
    while i < peers.len()
        invariant
            i <= peers@.len(),
            r@ == addresses(peers@).take(i as int),
        decreases peers@.len() - i,
    {
        r.push(peers[i].1);
        assert(r@ =~= addresses(peers@).take(i + 1));
        i = i + 1;
    }
    assert(addresses(peers@).take(i as int) =~= addresses(peers@));
    r
}

fn copy_addrs(addrs: &Vec<SocketAddr>) -> (r: Vec<SocketAddr>)
    ensures
        r@ == addrs@,
{
    let mut r: Vec<SocketAddr> = Vec::new();
    let mut i: usize = 0;
    while i < addrs.len()
        invariant
            i <= addrs@.len(),
            r@ == addrs@.take(i as int),
        decreases addrs@.len() - i,
    {
        r.push(addrs[i]);
        assert(r@ =~= addrs@.take(i + 1));
        i = i + 1;
    }
    assert(addrs@.take(i as int) =~= addrs@);
    r
}

// ---------------- laws ----------------
/// What is picked is within the budget, holds no address twice, and only addresses that are worth a
/// dial: never a wildcard, never one whose penalty stands, never one already linked or this node's
/// own.
pub proof fn law_picks_are_few_and_eligible(
    node: Node,
    penalties: Map<SocketAddr, DialPenalty>,
    list: Seq<SocketAddr>,
    budget: nat,
    now: u64,
)
    ensures
        node.picks(penalties, list, budget, now).len() <= budget,
        node.picks(penalties, list, budget, now).no_duplicates(),
        forall|a: SocketAddr| #[trigger]
            node.picks(penalties, list, budget, now).contains(a) ==> list.contains(a)
                && node.eligible(penalties, a, now) && !a.unspecified(),
    decreases list.len(),
{
    if list.len() > 0 {
        let front = list.drop_last();
        law_picks_are_few_and_eligible(node, penalties, front, budget, now);
        let before = node.picks(penalties, front, budget, now);
        crate::broadcast::lemma_push_contains(before, list.last());
        crate::broadcast::lemma_push_contains(front, list.last());
        assert(list =~= front.push(list.last()));
    }
}

/// A candidate is passed over only for a reason: every eligible one is picked, unless the budget was
/// spent.
pub proof fn law_no_eligible_candidate_is_passed_over(
    node: Node,
    penalties: Map<SocketAddr, DialPenalty>,
    list: Seq<SocketAddr>,
    budget: nat,
    now: u64,
    addr: SocketAddr,
)
    requires
        list.contains(addr),
        node.eligible(penalties, addr, now),
    ensures
        node.picks(penalties, list, budget, now).contains(addr) || node.picks(
            penalties,
            list,
            budget,
            now,
        ).len() == budget,
    decreases list.len(),
{
    law_picks_are_few_and_eligible(node, penalties, list, budget, now);
    if list.len() > 0 {
        let front = list.drop_last();
        let before = node.picks(penalties, front, budget, now);
        law_picks_are_few_and_eligible(node, penalties, front, budget, now);
        crate::broadcast::lemma_push_contains(before, list.last());
        crate::broadcast::lemma_push_contains(front, list.last());
        assert(list =~= front.push(list.last()));
        if front.contains(addr) {
            law_no_eligible_candidate_is_passed_over(node, penalties, front, budget, now, addr);
        }
    }
}

/// An address just dialled is not picked again before its gap has passed, so the next tick moves on
/// to others.
pub proof fn law_a_dialled_address_is_left_alone(
    node: Node,
    before: Map<SocketAddr, DialPenalty>,
    after: Map<SocketAddr, DialPenalty>,
    picked: Seq<SocketAddr>,
    now: u64,
    addr: SocketAddr,
    later: u64,
)
    requires
        charged_for(before, after, picked, now),
        picked.contains(addr),
        later < now + after[addr].gap@,
    ensures
        !node.eligible(after, addr, later),
{
    assert(after.contains_key(addr));
}

} // verus!
