//! Time: penalties, clocks, waiting, and the members whose time has run out.
use vstd::prelude::*;

use crate::backoff::{charged, due, fnv1a, DialPenalty};
use crate::identity::{IdentityModel, NodeId};
use crate::mux_idle::{IdleAction, MuxIdle};
use crate::node::subscribing::attach_charged;
use crate::node::topic_life::{watched, ReapState};
use crate::node::Node;
use crate::promises::discovery::can_reach;
use crate::promises::gossip::law_a_tombstone_keeps_everything_else;
use crate::promises::mesh::{is_not, its_id, law_recipients_are_the_other_links};
use crate::wire::{ChangeModel, NO_PEER};

verus! {

// ---------------- spans ----------------
/// The time since a moment is what it takes to get from there to now, and none if it is to come.
pub proof fn law_elapsed_is_the_difference(then: u64, now: u64)
    ensures
        then <= now ==> then + crate::time::elapsed_nanos(then, now) == now,
        then >= now ==> crate::time::elapsed_nanos(then, now) == 0,
{
}

// ---------------- penalties ----------------
/// An attempt is put off exactly until the moment its penalty names.
pub proof fn law_a_penalty_lasts_until_its_moment(p: DialPenalty, now: u64)
    ensures
        due(None, now),
        due(Some(p), now) <==> p.next <= now,
{
}

/// What an attempt costs: after a first one, or one so long ago that twice the ceiling has passed, the
/// floor; else twice the last gap, but never more than the ceiling. The next attempt may be made that
/// gap and the jitter later.
pub proof fn law_what_an_attempt_costs(
    p: DialPenalty,
    last: Option<DialPenalty>,
    now: u64,
    min: nat,
    max: nat,
    jitter: nat,
)
    requires
        charged(p, last, now, min, max, jitter),
    ensures
        p.attempted_at == now,
        p.next == now + p.gap@ + jitter,
        last is None ==> p.gap@ == min,
        last is Some && now >= (last->0).attempted_at + 2 * max && max > 0 ==> p.gap@ == min,
        max == 0 ==> p.gap@ == min,
        last is Some && now < (last->0).attempted_at + 2 * max && max > 0 ==> {
            &&& p.gap@ == 2 * (last->0).gap@ || p.gap@ == max
            &&& p.gap@ <= max
            &&& p.gap@ <= 2 * (last->0).gap@
        },
{
}

/// A retry is charged to the name it is about, between a quarter of a second and four seconds, and
/// put off by that name's own jitter; no other name is charged.
pub proof fn law_a_retry_is_charged_to_its_name(
    before: Map<Seq<char>, DialPenalty>,
    after: Map<Seq<char>, DialPenalty>,
    name: Seq<char>,
    now: u64,
    other: Seq<char>,
)
    requires
        attach_charged(before, after, name, now),
        before.contains_key(name) ==> 250_000_000 <= before[name].gap@ <= 4_000_000_000,
        other != name,
    ensures
        after.contains_key(name),
        after[name].attempted_at == now,
        250_000_000 <= after[name].gap@ <= 4_000_000_000,
        after[name].next == now + after[name].gap@ + crate::backoff::jitter_nanos(
            name,
            after[name].gap@,
        ),
        !before.contains_key(name) ==> after[name].gap@ == 250_000_000,
        before.contains_key(name) && now < before[name].attempted_at + 8_000_000_000
            ==> after[name].gap@ == if before[name].gap@ <= 2_000_000_000 {
            2 * before[name].gap@
        } else {
            4_000_000_000
        },
        before.contains_key(name) && now >= before[name].attempted_at + 8_000_000_000
            ==> after[name].gap@ == 250_000_000,
        after.contains_key(other) == before.contains_key(other),
        before.contains_key(other) ==> after[other] == before[other],
{
}

pub open spec fn stir() -> spec_fn(u64, u8) -> u64 {
    |h: u64, b: u8| (h ^ (b as u64)).wrapping_mul(0x100_0000_01b3)
}

/// A name's hash takes in its bytes one after the other, first to last.
pub proof fn law_a_hash_takes_in_every_byte(bytes: Seq<u8>)
    ensures
        fnv1a(bytes) == bytes.fold_left(0xcbf2_9ce4_8422_2325u64, stir()),
    decreases bytes.len(),
{
    reveal(Seq::fold_left);
    if bytes.len() > 0 {
        law_a_hash_takes_in_every_byte(bytes.drop_last());
    }
}

/// The jitter of a name is its hash, brought into the first half of the gap, in microseconds.
pub proof fn law_jitter_is_the_hash_brought_into_range(name: Seq<char>, gap: nat)
    requires
        gap <= 0xffff_ffff_ffff_ffff,
    ensures
        ({
            let h = fnv1a(vstd::utf8::encode_utf8(name));
            let j = crate::backoff::jitter_nanos(name, gap);
            &&& gap < 4000 ==> j == 0
            &&& gap >= 4000 ==> j == 1000 * (h as nat % (gap / 1000 / 2))
        }),
{
    if gap >= 4000 {
        assert(crate::backoff::spread_micros(gap) == gap / 1000 / 2);
    }
}

// ---------------- waiting ----------------
/// A loop that finds no work spins first, then yields, then parks: the first park is the shortest, each
/// is twice the last for twenty doublings, and none is longer than the longest. A longest park of zero
/// never parks.
pub proof fn law_how_an_idle_loop_waits(idle: MuxIdle, round: u32, a: IdleAction)
    requires
        idle.calls_for(round, a),
    ensures
        a is Spin <==> round < idle.max_spins,
        a is Yield <==> idle.max_spins <= round && (round < idle.max_spins + idle.max_yields
            || idle.max_park@ == 0),
        a is Park <==> idle.max_spins + idle.max_yields <= round && idle.max_park@ > 0,
        a is Park ==> {
            let n = (round - idle.max_spins - idle.max_yields) as nat;
            let d = vstd::arithmetic::power2::pow2(if n < 20 {
                n
            } else {
                20
            });
            (a->Park_0)@ == if idle.min_park@ * d <= idle.max_park@ {
                idle.min_park@ * d
            } else {
                idle.max_park@
            }
        },
{
    if a is Park {
        lemma_doubled_is_a_power(idle.doublings(round));
    }
}

proof fn lemma_doubled_is_a_power(n: nat)
    ensures
        crate::mux_idle::doubled(n) == vstd::arithmetic::power2::pow2(n),
    decreases n,
{
    if n == 0 {
        vstd::arithmetic::power2::lemma2_to64();
    } else {
        lemma_doubled_is_a_power((n - 1) as nat);
        vstd::arithmetic::power2::lemma_pow2_unfold(n);
    }
}

// ---------------- owners ----------------
/// A clock runs for exactly those owners of live channels, other than this node, that cannot be
/// reached; one that was running keeps its start, and a new one starts now.
pub proof fn law_whose_clock_runs(before: Node, after: Node, now: u64, owner: NodeId)
    requires
        Node::noted_unreachable(before, after, now),
    ensures
        ({
            let owns = exists|k: Seq<char>|
                {
                    &&& #[trigger] before.registry@.contains_key(k)
                    &&& !before.registry@[k].deleted
                    &&& before.registry@[k].owner == owner
                };
            let (b, a) = (before.owner_unreachable_since@, after.owner_unreachable_since@);
            &&& a.contains_key(owner) <==> owns && !can_reach(before, owner, now)
            &&& a.contains_key(owner) && b.contains_key(owner) ==> a[owner] == b[owner]
            &&& a.contains_key(owner) && !b.contains_key(owner) ==> a[owner] == now
        }),
        after.registry == before.registry,
        after.dissemination == before.dissemination,
        after.subscriptions == before.subscriptions,
        after.discovery == before.discovery,
{
}

// ---------------- members ----------------
proof fn lemma_reap(
    node: Node,
    s: ReapState,
    members: Seq<(IdentityModel, nat)>,
    now: u64,
    k: Seq<char>,
)
    requires
        forall|i: int, j: int|
            0 <= i < j < members.len() ==> (#[trigger] members[i]).0.name != (
            #[trigger] members[j]).0.name,
        s.tombstones.len() == 0,
    ensures
        ({
            let r = node.reap_all(s, members, now);
            &&& r.registry.contains_key(k) == s.registry.contains_key(k)
            &&& r.registry[k] == s.registry[k] || {
                &&& s.registry.contains_key(k)
                &&& !s.registry[k].deleted
                &&& r.registry[k] == crate::registry::tombstone_of(s.registry[k])
                &&& r.tombstones.contains(r.registry[k])
                &&& exists|i: int| 0 <= i < members.len() && (#[trigger] members[i]).0.name == k
            }
        }),
    decreases members.len(),
{
    if members.len() > 0 {
        let front = members.drop_last();
        let (m, span) = members.last();
        assert forall|i: int, j: int| 0 <= i < j < front.len() implies (#[trigger] front[i]).0.name
            != (#[trigger] front[j]).0.name by {
            assert(members[i].0.name != members[j].0.name);
        }
        lemma_reap(node, s, front, now, k);
        let b = node.reap_all(s, front, now);
        let r = node.reap_all(s, members, now);
        assert(members[members.len() - 1].0 == m);
        if b.registry[k] != s.registry[k] {
            let i = choose|i: int| 0 <= i < front.len() && (#[trigger] front[i]).0.name == k;
            assert(members[i].0.name == k);
            assert(members[i].0.name != members[members.len() - 1].0.name);
        }
        if crate::registry::live_entry(b.registry, m.name) is Some {
            crate::broadcast::lemma_push_contains(
                b.tombstones,
                crate::registry::tombstone_of(b.registry[m.name]),
            );
        }
    }
}

/// A pass either leaves an entry as it is, or turns a live one into its tombstone; and whatever it
/// tombstones it records for watchers and tells every link, one record and one message for each.
pub proof fn law_what_is_reaped_is_told_to_all(before: Node, after: Node, now: u64, k: Seq<char>)
    requires
        Node::reaped(before, after, now),
    ensures
        after.registry@.contains_key(k) == before.registry@.contains_key(k),
        after.registry@[k] == before.registry@[k] || {
            let (d, e) = (before.dissemination, after.dissemination);
            let (b, a) = (before.registry@[k], after.registry@[k]);
            &&& before.registry@.contains_key(k)
            &&& !b.deleted
            &&& a.deleted
            &&& a == (IdentityModel { deleted: true, ..b })
            &&& exists|c: int|
                {
                    &&& before.discovery@.len() <= c < after.discovery@.len()
                    &&& (#[trigger] after.discovery@[c])@ == (ChangeModel::Removed {
                        name: a.name,
                        epoch: a.epoch,
                    })
                }
            &&& exists|j: int|
                {
                    &&& d.outbox@.len() <= j < e.outbox@.len()
                    &&& (#[trigger] e.outbox@[j]).to@ == d.peers@.filter(
                        is_not(NO_PEER),
                    ).map_values(its_id())
                    &&& e.outbox@[j].msg@ is RegistryDelta
                    &&& e.outbox@[j].msg@->RegistryDelta_0 == seq![a]
                }
        },
        after.dissemination.outbox@.len() - before.dissemination.outbox@.len()
            == after.discovery@.len() - before.discovery@.len(),
        after.hosted == before.hosted,
        after.subscriptions == before.subscriptions,
        after.conducted == before.conducted,
        after.muxes == before.muxes,
{
    let topics = crate::name_map::listing(before.topic_reap@);
    let members = watched(before.registry@, topics);
    crate::node::passes::lemma_watched(before.registry@, topics);
    let s = ReapState {
        registry: before.registry@,
        dead_since: before.member_dead_since@,
        tombstones: Seq::empty(),
    };
    lemma_reap(before, s, members, now, k);
    let r = before.reap_all(s, members, now);
    assert(crate::wire::changes(after.discovery@).len() == after.discovery@.len());
    assert(crate::broadcast::dispatches(after.dissemination.outbox@).len()
        == after.dissemination.outbox@.len());
    if after.registry@[k] != before.registry@[k] {
        let (d, e) = (before.dissemination, after.dissemination);
        let t = r.registry[k];
        law_a_tombstone_keeps_everything_else(before.registry@[k]);
        let i = choose|i: int| 0 <= i < r.tombstones.len() && r.tombstones[i] == t;
        let (c0, c1) = (
            crate::wire::changes(before.discovery@),
            crate::wire::changes(after.discovery@),
        );
        let c = before.discovery@.len() + i;
        assert(c1.len() == c0.len() + r.tombstones.len());
        assert(c1.len() == after.discovery@.len());
        assert(c1[c] == crate::node::registration::removal(t));
        assert(after.discovery@[c]@ == c1[c]);
        let (o0, o1) = (
            crate::broadcast::dispatches(d.outbox@),
            crate::broadcast::dispatches(e.outbox@),
        );
        let j = d.outbox@.len() + i;
        assert(o1.len() == o0.len() + r.tombstones.len());
        assert(o1.len() == e.outbox@.len());
        assert(o1[j] == crate::node::topic_life::announcements(d, r.tombstones)[i]);
        assert(e.outbox@[j]@ == o1[j]);
        law_recipients_are_the_other_links(d.peers@, NO_PEER);
        assert(e.outbox@[j].msg@->RegistryDelta_0 == seq![t]);
    }
}

} // verus!
