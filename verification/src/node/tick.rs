//! A maintenance tick, from heartbeat to healing.
//!
//! The heartbeat comes first and the dials last, few of each: a dial may have to wait for its
//! timeout, and however many addresses a node has heard of, they must not keep it from being heard.
//!
//! A tick is run in stages, because each goes by what came of the one before it: a seed that was
//! just linked is no longer a peer to be dialled.
use vstd::prelude::*;

use crate::addr::SocketAddr;
use crate::backoff::DialPenalty;
use crate::identity::NodeId;
use crate::limits::{MAX_DIALS_PER_TICK, MAX_TWIN_DIALS_PER_TICK};
use crate::node::dialling::DialPlan;
use crate::node::duplicates::DuplicateReport;
use crate::node::topics::AttachPlan;
use crate::node::Node;
use crate::subscription::SubId;
use crate::wire::{ControlModel, NO_PEER};

verus! {

/// How far a tick has come.
#[derive(Clone, Copy, PartialEq, Eq, Debug, Structural)]
pub enum Stage {
    /// It begins.
    Upkeep,
    /// The seeds have been dialled.
    Peers,
    /// So have the other peers.
    Healing,
}

impl Stage {
    /// The stage that follows, once what this one calls for has been carried out. After the last one
    /// a new tick begins, an interval later.
    pub open spec fn after(self) -> Stage {
        match self {
            Stage::Upkeep => Stage::Peers,
            Stage::Peers => Stage::Healing,
            Stage::Healing => Stage::Upkeep,
        }
    }

    pub fn next(self) -> (s: Stage)
        ensures
            s == self.after(),
    {
        match self {
            Stage::Upkeep => Stage::Peers,
            Stage::Peers => Stage::Healing,
            Stage::Healing => Stage::Upkeep,
        }
    }
}

/// What the first stage of a tick calls for, in this order. What it put into the outbox and the
/// discovery log is to be sent and written before.
pub struct Upkeep {
    /// Ids that two machines claim, if there are any.
    pub duplicates: Option<DuplicateReport>,
    /// Members to detach, to subscribe to, and to attach.
    pub attach: AttachPlan,
    /// Configured seeds to dial.
    pub seeds: Vec<SocketAddr>,
}

/// What a stage of a tick calls for.
pub enum Tick {
    Upkeep(Upkeep),
    /// Addresses to dial, beside the seeds.
    Dial(DialPlan),
    /// Subscriptions to try to connect again, each by
    /// [`spawn_establish`](Node::spawn_establish).
    Heal(Vec<SubId>),
}

/// The states a node goes through in the first stage of a tick.
pub struct Course {
    pub began: Node,
    pub conflicts: Seq<NodeId>,
    pub told: Node,
    pub absorbed: Node,
    pub noted: Node,
    pub reaped: Node,
    pub attached: Node,
}

impl Node {
    /// Whether the first stage of a tick at `now` took the course `c` from `before` to `after`, and
    /// called for `u`.
    pub open spec fn upkept(before: Node, c: Course, after: Node, u: Upkeep, now: u64) -> bool {
        &&& Node::began_tick(before, c.began, c.conflicts)
        &&& match u.duplicates {
            Some(report) => c.conflicts.len() > 0 && Node::reported(
                c.began,
                c.told,
                c.conflicts,
                report,
            ),
            None => c.conflicts.len() == 0 && c.told == c.began,
        }
        &&& Node::absorbed(c.told, c.absorbed, now)
        &&& Node::noted_unreachable(c.absorbed, c.noted, now)
        &&& Node::reaped(c.noted, c.reaped, now)
        &&& Node::attach_planned(c.reaped, c.attached, now, u.attach)
        &&& crate::node::dialling::walked(
            c.attached,
            c.attached.dial_backoff@,
            after.dial_backoff@,
            c.attached.config.seeds@,
            c.attached.dial_cursor_seeds,
            MAX_DIALS_PER_TICK,
            now,
            u.seeds@,
            after.dial_cursor_seeds,
        )
        &&& after == (Node {
            dial_backoff: after.dial_backoff,
            dial_cursor_seeds: after.dial_cursor_seeds,
            ..c.attached
        })
    }

    /// Whether the second stage of a tick picked `plan`, with the penalties `mid` in between.
    pub open spec fn peers_picked(
        before: Node,
        mid: Map<SocketAddr, DialPenalty>,
        after: Node,
        plan: DialPlan,
        now: u64,
    ) -> bool {
        &&& crate::node::dialling::two_walks(
            before,
            mid,
            after,
            plan.learned@,
            plan.twins@,
            now,
        )
        &&& after == (Node {
            dial_backoff: after.dial_backoff,
            dial_cursor_learned: after.dial_cursor_learned,
            dial_cursor_twins: after.dial_cursor_twins,
            ..before
        })
    }

    /// What a stage of a tick does, and calls for.
    pub open spec fn ticked(before: Node, after: Node, stage: Stage, t: Tick, now: u64) -> bool {
        match stage {
            Stage::Upkeep => {
                &&& t is Upkeep
                &&& exists|c: Course| #[trigger] Node::upkept(before, c, after, t->Upkeep_0, now)
                &&& t->Upkeep_0.seeds@.len() <= MAX_DIALS_PER_TICK
            },
            Stage::Peers => {
                &&& t is Dial
                &&& exists|mid: Map<SocketAddr, DialPenalty>| #[trigger]
                    Node::peers_picked(before, mid, after, t->Dial_0, now)
                &&& t->Dial_0.learned@.len() <= MAX_DIALS_PER_TICK
                &&& t->Dial_0.twins@.len() <= MAX_TWIN_DIALS_PER_TICK
            },
            Stage::Healing => t is Heal && Node::serviced(before, after, t->Heal_0@),
        }
    }

    fn upkeep(&mut self, now: u64) -> (u: Upkeep)
        requires
            old(self).dial_gaps_in_range(),
        ensures
            Node::in_step(*old(self), *final(self)),
            exists|c: Course| #[trigger] Node::upkept(*old(self), c, *final(self), u, now),
            u.seeds@.len() <= MAX_DIALS_PER_TICK,
            final(self).dial_gaps_in_range(),
    {
        let conflicts = self.begin_tick();
        let ghost began = *self;
        let duplicates = if conflicts.len() > 0 {
            Some(self.report_duplicate_identity(&conflicts))
        } else {
            None
        };
        let ghost told = *self;
        self.absorb(now);
        let ghost absorbed = *self;
        self.note_unreachable_owners(now);
        let ghost noted = *self;
        self.reap_dead_members(now);
        let ghost reaped = *self;
        let attach = self.attach_pending_members(now);
        let ghost attached = *self;
        let seeds = self.connect_seeds(now);
        let u = Upkeep { duplicates, attach, seeds };
        proof {
            let c = Course {
                began,
                conflicts: conflicts@,
                told,
                absorbed,
                noted,
                reaped,
                attached,
            };
            assert(Node::upkept(*old(self), c, *self, u, now));
            crate::node::subscribing::lemma_in_step_alike(*old(self), told, absorbed, reaped);
            crate::node::subscribing::lemma_in_step_alike(*old(self), reaped, attached, *self);
        }
        u
    }

    /// Runs a stage of a maintenance tick. First: heartbeat and pass on what was learned; drop
    /// superfluous links, and look for duplicate ids; merge what was received; keep the clocks of
    /// unreachable owners; retire members gone for too long; see who joined or left a topic; and
    /// pick the seeds to dial. Then pick the other peers to dial. Last, pick the subscriptions to
    /// heal.
    pub fn run_maintenance(&mut self, stage: Stage, now: u64) -> (t: Tick)
        requires
            old(self).dial_gaps_in_range(),
        ensures
            Node::in_step(*old(self), *final(self)),
            Node::ticked(*old(self), *final(self), stage, t, now),
            final(self).dial_gaps_in_range(),
    {
        match stage {
            Stage::Upkeep => Tick::Upkeep(self.upkeep(now)),
            Stage::Peers => {
                let plan = self.connect_learned_peers(now);
                proof {
                    let mid = choose|mid: Map<SocketAddr, DialPenalty>| #[trigger]
                        crate::node::dialling::two_walks(
                            *old(self),
                            mid,
                            *self,
                            plan.learned@,
                            plan.twins@,
                            now,
                        );
                    assert(Node::peers_picked(*old(self), mid, *self, plan, now));
                }
                Tick::Dial(plan)
            },
            Stage::Healing => Tick::Heal(self.service_subscriptions()),
        }
    }
}

// ---------------- laws ----------------
/// Whatever arrives and whomever a node has heard of, its heartbeat is the first thing a tick sends,
/// to every peer.
pub proof fn law_the_heartbeat_goes_first(
    before: Node,
    c: Course,
    after: Node,
    u: Upkeep,
    now: u64,
)
    requires
        Node::upkept(before, c, after, u, now),
    ensures
        ({
            let d = before.dissemination;
            crate::broadcast::dispatches(d.outbox@).push(
                (
                    crate::broadcast::recipients(d.peers@, NO_PEER),
                    ControlModel::Heartbeat(d.introduction()),
                ),
            ).is_prefix_of(crate::broadcast::dispatches(after.dissemination.outbox@))
        }),
{
    let d = before.dissemination;
    let first = crate::broadcast::dispatches(d.outbox@).push(
        (
            crate::broadcast::recipients(d.peers@, NO_PEER),
            ControlModel::Heartbeat(d.introduction()),
        ),
    );
    let began = crate::broadcast::dispatches(c.began.dissemination.outbox@);
    let absorbed = crate::broadcast::dispatches(c.absorbed.dissemination.outbox@);
    let reaped = crate::broadcast::dispatches(c.reaped.dissemination.outbox@);
    assert(first.is_prefix_of(began));
    assert(began.is_prefix_of(absorbed));
    assert(absorbed.is_prefix_of(reaped));
    assert(first.is_prefix_of(reaped));
}

/// A seed that was linked in this tick is not dialled again in it as a peer: the peers are picked
/// from those that no dialled link leads to.
pub proof fn law_a_linked_address_is_not_picked(
    before: Node,
    mid: Map<SocketAddr, DialPenalty>,
    after: Node,
    plan: DialPlan,
    now: u64,
    addr: SocketAddr,
)
    requires
        Node::peers_picked(before, mid, after, plan, now),
        before.dissemination.connected@.contains(addr),
    ensures
        !plan.learned@.contains(addr),
        !plan.twins@.contains(addr),
{
    if before.learned().len() > 0 {
        crate::node::dialling::law_picks_are_few_and_eligible(
            before,
            before.dial_backoff@,
            crate::node::dialling::rotation(
                before.learned(),
                (before.dial_cursor_learned as int) % (before.learned().len() as int),
            ),
            MAX_DIALS_PER_TICK as nat,
            now,
        );
    }
    let twins = crate::broadcast::twins(
        before.dissemination.membership@,
        before.dissemination.self_node,
        before.dissemination.self_control_addr,
    );
    if twins.len() > 0 {
        crate::node::dialling::law_picks_are_few_and_eligible(
            before,
            mid,
            crate::node::dialling::rotation(
                twins,
                (before.dial_cursor_twins as int) % (twins.len() as int),
            ),
            MAX_TWIN_DIALS_PER_TICK as nat,
            now,
        );
    }
}

} // verus!
