//! Ticks: what holds once a stage of one is done.
use vstd::prelude::*;

use crate::addr::SocketAddr;
use crate::identity::NodeId;
use crate::node::tick::{Course, Stage, Tick};
use crate::node::Node;
use crate::promises::clocks::{law_what_is_reaped_is_told_to_all, law_whose_clock_runs};
use crate::promises::dialling::law_how_a_walk_goes;
use crate::promises::discovery::can_reach;
use crate::promises::gossip::{
    is_needed, law_how_a_tick_begins, law_what_merging_comes_to, outranks,
};
use crate::promises::mesh::{heard_lately, is_not, its_id};
use crate::wire::NO_PEER;

verus! {

/// What holds when the first stage of a tick is done. Nothing received and no hint is left over. The
/// node has introduced itself over every link, and only the links it needs are left. A name is known
/// if it was before or was heard of, and no claim heard outranks the one that now holds it.
pub proof fn law_what_upkeep_leaves_done(before: Node, after: Node, t: Tick, now: u64, k: Seq<char>)
    requires
        Node::ticked(before, after, Stage::Upkeep, t, now),
        crate::registry::well_named(before.registry@),
    ensures
        ({
            let (d, e) = (before.dissemination, after.dissemination);
            let n = d.outbox@.len() as int;
            let heard = d.inbox@;
            let about = exists|i: int| 0 <= i < heard.len() && (#[trigger] heard[i]).id@.name == k;
            &&& e.inbox@.len() == 0
            &&& e.hints@.len() == 0
            &&& e.membership == d.membership
            &&& e.connected == d.connected
            &&& e.peers@ == d.peers@.filter(is_needed(d.self_node, d.peers@))
            &&& n < e.outbox@.len()
            &&& forall|j: int| 0 <= j < n ==> (#[trigger] e.outbox@[j])@ == d.outbox@[j]@
            &&& e.outbox@[n].to@ == d.peers@.filter(is_not(NO_PEER)).map_values(its_id())
            &&& e.outbox@[n].msg@ is Heartbeat
            &&& (e.outbox@[n].msg@->Heartbeat_0).node == d.self_node
            &&& (e.outbox@[n].msg@->Heartbeat_0).addr == d.self_addr
            &&& (e.outbox@[n].msg@->Heartbeat_0).control_addr == d.self_control_addr
            &&& (e.outbox@[n].msg@->Heartbeat_0).name == d.self_name@
            &&& after.registry@.contains_key(k) <==> before.registry@.contains_key(k) || about
            &&& forall|i: int|
                0 <= i < heard.len() && (#[trigger] heard[i]).id@.name == k ==> !outranks(
                    heard[i].id@,
                    after.registry@[k],
                )
            &&& before.registry@.contains_key(k) ==> !outranks(
                before.registry@[k],
                after.registry@[k],
            )
            &&& forall|x: NodeId| #[trigger]
                after.last_live_owners@.contains(x) <==> d.membership@.contains_key(x)
                    && heard_lately(d.membership@[x], d.liveness_timeout@, now)
        }),
        after.hosted == before.hosted,
        after.config == before.config,
        after.muxes == before.muxes,
{
    let u = t->Upkeep_0;
    let c = choose|c: Course| #[trigger] Node::upkept(before, c, after, u, now);
    let n = before.dissemination.outbox@.len() as int;
    law_how_a_tick_begins(before, c.began, c.conflicts);
    assert(c.told.dissemination == c.began.dissemination);
    assert(c.told.registry == c.began.registry);
    law_what_merging_comes_to(c.told, c.absorbed, now, k);
    law_what_is_reaped_is_told_to_all(c.noted, c.reaped, now, k);
    let o0 = c.absorbed.dissemination.outbox@;
    let o1 = after.dissemination.outbox@;
    lemma_outbox_grows(c.noted, c.reaped, now);
    assert(o1 == c.reaped.dissemination.outbox@);
    assert forall|j: int| 0 <= j < n implies (#[trigger] o1[j])@
        == before.dissemination.outbox@[j]@ by {
        assert(o0[j]@ == c.told.dissemination.outbox@[j]@);
    }
    assert(c.told.dissemination.outbox@.len() > n);
    assert(o0[n]@ == c.told.dissemination.outbox@[n]@);
    assert(o1[n]@ == o0[n]@);
    assert(o1[n].to@ == o1[n]@.0 && o1[n].msg@ == o1[n]@.1);
    let b = c.told.dissemination.outbox@[n];
    assert(b.to@ == b@.0 && b.msg@ == b@.1);
}

proof fn lemma_outbox_grows(before: Node, after: Node, now: u64)
    requires
        Node::reaped(before, after, now),
    ensures
        before.dissemination.outbox@.len() <= after.dissemination.outbox@.len(),
        forall|j: int|
            0 <= j < before.dissemination.outbox@.len() ==> (
            #[trigger] after.dissemination.outbox@[j])@ == before.dissemination.outbox@[j]@,
{
    let (a, b) = (
        crate::broadcast::dispatches(before.dissemination.outbox@),
        crate::broadcast::dispatches(after.dissemination.outbox@),
    );
    assert(a.is_prefix_of(b));
    assert(a.len() <= b.len());
    assert forall|j: int| 0 <= j < before.dissemination.outbox@.len() implies (
    #[trigger] after.dissemination.outbox@[j])@ == before.dissemination.outbox@[j]@ by {
        assert(b[j] == after.dissemination.outbox@[j]@);
        assert(a[j] == before.dissemination.outbox@[j]@);
        assert(b.subrange(0, a.len() as int)[j] == b[j]);
    }
}

/// When the first stage of a tick is done, a clock runs for every owner of a live channel that cannot
/// be reached, for none that can be, and one that ran on keeps its start.
pub proof fn law_which_clocks_upkeep_leaves_running(
    before: Node,
    after: Node,
    t: Tick,
    now: u64,
    name: Seq<char>,
    owner: NodeId,
)
    requires
        Node::ticked(before, after, Stage::Upkeep, t, now),
    ensures
        ({
            let (b, a) = (before.owner_unreachable_since@, after.owner_unreachable_since@);
            let holds = after.registry@.contains_key(name) && !after.registry@[name].deleted
                && after.registry@[name].owner == owner;
            &&& holds && !can_reach(after, owner, now) ==> a.contains_key(owner)
            &&& can_reach(after, owner, now) ==> !a.contains_key(owner)
            &&& a.contains_key(owner) && b.contains_key(owner) ==> a[owner] == b[owner]
            &&& a.contains_key(owner) && !b.contains_key(owner) ==> a[owner] == now
        }),
{
    let u = t->Upkeep_0;
    let c = choose|c: Course| #[trigger] Node::upkept(before, c, after, u, now);
    law_whose_clock_runs(c.absorbed, c.noted, now, owner);
    law_what_is_reaped_is_told_to_all(c.noted, c.reaped, now, name);
    assert(c.absorbed.owner_unreachable_since == before.owner_unreachable_since);
    assert(after.owner_unreachable_since == c.noted.owner_unreachable_since);
    assert(can_reach(after, owner, now) == can_reach(c.absorbed, owner, now));
    if after.registry@.contains_key(name) && !after.registry@[name].deleted {
        assert(after.registry@[name] == c.noted.registry@[name]);
        assert(c.absorbed.registry@.contains_key(name));
    }
}

/// In a tick a seed is dialled only if it is configured, at most two of them are, and none again before
/// a second has passed.
pub proof fn law_which_seeds_are_dialled(
    before: Node,
    after: Node,
    t: Tick,
    now: u64,
    addr: SocketAddr,
)
    requires
        Node::ticked(before, after, Stage::Upkeep, t, now),
        before.dial_gaps_in_range(),
    ensures
        (t->Upkeep_0).seeds@.len() <= 2,
        (t->Upkeep_0).seeds@.contains(addr) ==> {
            &&& before.config.seeds@.contains(addr)
            &&& !addr.unspecified()
            &&& !before.dissemination.connected@.contains(addr)
            &&& addr != before.dissemination.self_control_addr
            &&& before.dial_backoff@.contains_key(addr) ==> before.dial_backoff@[addr].next <= now
            &&& after.dial_backoff@.contains_key(addr)
            &&& after.dial_backoff@[addr].next >= now + 1_000_000_000
        },
        !(t->Upkeep_0).seeds@.contains(addr) ==> after.dial_backoff@.contains_key(addr)
            == before.dial_backoff@.contains_key(addr),
{
    let u = t->Upkeep_0;
    let c = choose|c: Course| #[trigger] Node::upkept(before, c, after, u, now);
    assert(c.attached.dial_backoff == before.dial_backoff);
    assert(c.attached.config == before.config);
    assert(c.attached.dissemination.connected == before.dissemination.connected);
    assert(c.attached.dissemination.self_control_addr == before.dissemination.self_control_addr);
    law_how_a_walk_goes(
        c.attached,
        c.attached.dial_backoff@,
        after.dial_backoff@,
        c.attached.config.seeds@,
        c.attached.dial_cursor_seeds,
        crate::limits::MAX_DIALS_PER_TICK,
        now,
        u.seeds@,
        after.dial_cursor_seeds,
        addr,
    );
}

/// Beside the seeds a tick dials at most two peers it has heard of and is not linked to, and at most
/// one address that claims its own id; none that a dialled link is up to, none whose penalty has not
/// run out, and none again before a second has passed. Nothing but penalties and cursors changes.
pub proof fn law_which_peers_are_dialled(
    before: Node,
    after: Node,
    t: Tick,
    now: u64,
    addr: SocketAddr,
)
    requires
        Node::ticked(before, after, Stage::Peers, t, now),
        before.dial_gaps_in_range(),
    ensures
        ({
            let plan = t->Dial_0;
            let d = before.dissemination;
            let picked = plan.learned@.contains(addr) || plan.twins@.contains(addr);
            &&& plan.learned@.len() <= 2
            &&& plan.twins@.len() <= 1
            &&& plan.learned@.contains(addr) ==> before.learned().contains(addr)
            &&& plan.twins@.contains(addr) ==> {
                &&& d.membership@.contains_key(d.self_node)
                &&& addr == d.membership@[d.self_node].control_addr
                &&& !plan.learned@.contains(addr)
            }
            &&& picked ==> {
                &&& !addr.unspecified()
                &&& !d.connected@.contains(addr)
                &&& addr != d.self_control_addr
                &&& before.dial_backoff@.contains_key(addr) ==> before.dial_backoff@[addr].next
                    <= now
                &&& after.dial_backoff@.contains_key(addr)
                &&& after.dial_backoff@[addr].next >= now + 1_000_000_000
            }
            &&& !picked ==> after.dial_backoff@.contains_key(addr)
                == before.dial_backoff@.contains_key(addr)
        }),
        after.registry == before.registry,
        after.dissemination == before.dissemination,
        after.conducted == before.conducted,
        after.dial_cursor_seeds == before.dial_cursor_seeds,
{
    let plan = t->Dial_0;
    let d = before.dissemination;
    let mid = choose|mid: Map<SocketAddr, crate::backoff::DialPenalty>| #[trigger]
        Node::peers_picked(before, mid, after, plan, now);
    law_how_a_walk_goes(
        before,
        before.dial_backoff@,
        mid,
        before.learned(),
        before.dial_cursor_learned,
        crate::limits::MAX_DIALS_PER_TICK,
        now,
        plan.learned@,
        after.dial_cursor_learned,
        addr,
    );
    let twins = crate::broadcast::twins(d.membership@, d.self_node, d.self_control_addr);
    law_how_a_walk_goes(
        before,
        mid,
        after.dial_backoff@,
        twins,
        before.dial_cursor_twins,
        crate::limits::MAX_TWIN_DIALS_PER_TICK,
        now,
        plan.twins@,
        after.dial_cursor_twins,
        addr,
    );
}

/// In the last stage of a tick exactly the subscriptions that are wanted and have no connection are
/// handed out to be tried again.
pub proof fn law_what_healing_hands_out(before: Node, after: Node, t: Tick, now: u64)
    requires
        Node::ticked(before, after, Stage::Healing, t, now),
    ensures
        t is Heal,
        forall|id: crate::subscription::SubId| #[trigger]
            (t->Heal_0)@.contains(id) <==> before.conducted@.contains_key(id)
                && !before.conducted@[id].sub.stopped && !before.conducted@[id].sub.connected,
        after.subscriptions == before.subscriptions,
        after.registry == before.registry,
        after.dissemination == before.dissemination,
{
}

} // verus!
