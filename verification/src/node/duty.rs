//! The duty cycle: one loop that turns every connection and every merge in its round.
//!
//! Each item moves a bounded number of records per turn, so none can hold up the others. Connections
//! to subscribers are kept for as long as they work; connections to sources report to the node, by
//! [`Node::client_turn`], [`Node::client_polled`] and [`Node::client_released`].
//!
//! [`Node::client_turn`]: crate::node::Node::client_turn
//! [`Node::client_polled`]: crate::node::Node::client_polled
//! [`Node::client_released`]: crate::node::Node::client_released
use vstd::prelude::*;

use crate::mux_idle::{next_round, IdleAction, MuxIdle};

verus! {

/// One round of the duty cycle.
pub struct DutyRound {
    /// How many records it has moved so far.
    pub work: usize,
}

/// What follows a round.
pub struct Pause {
    /// How to wait, if at all.
    pub action: Option<IdleAction>,
    /// How many rounds in a row have found nothing.
    pub round: u32,
}

impl DutyRound {
    pub fn new() -> (r: DutyRound)
        ensures
            r.work == 0,
    {
        DutyRound { work: 0 }
    }

    /// Counts the turn of one item, which moved that many records, or failed. Returns whether the
    /// item stays in the cycle: one that failed is retired, and its subscriber comes back and
    /// resumes.
    pub fn polled(&mut self, outcome: Option<usize>) -> (keep: bool)
        ensures
            keep == outcome is Some,
            match outcome {
                Some(n) => final(self).work == if old(self).work + n <= usize::MAX {
                    old(self).work + n
                } else {
                    usize::MAX as int
                },
                None => final(self).work == old(self).work,
            },
    {
        match outcome {
            Some(n) => {
                self.work = match self.work.checked_add(n) {
                    Some(work) => work,
                    None => usize::MAX,
                };
                true
            },
            None => false,
        }
    }

    /// Ends the round, the one after `round` others that found nothing. The cycle backs off only
    /// when a whole round found nothing to do.
    pub fn finish(self, idle: MuxIdle, round: u32) -> (p: Pause)
        ensures
            self.work > 0 ==> p.action is None && p.round == 0,
            self.work == 0 ==> {
                &&& p.action matches Some(a) && idle.calls_for(round, a)
                &&& p.round == if round < u32::MAX {
                    round + 1
                } else {
                    round as int
                }
            },
    {
        let action = if self.work > 0 {
            None
        } else {
            Some(idle.action(round))
        };
        Pause { action, round: next_round(round, self.work) }
    }
}

} // verus!
