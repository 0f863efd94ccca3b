//! How the merge loop waits when a poll finds nothing to merge.
//!
//! The merge has nothing to block on: its members are logs written by other processes. What it does
//! when idle is therefore the only lever on merge latency: stay hot while records are flowing, decay
//! toward a cheap park when they are not.
use vstd::prelude::*;

use crate::time::Duration;

verus! {

#[derive(Clone, Copy, PartialEq, Eq, Debug, Structural)]
pub struct MuxIdle {
    /// Consecutive idle rounds spent spinning before yielding.
    pub max_spins: u32,
    /// Idle rounds spent yielding after the spins, before parking.
    pub max_yields: u32,
    /// First park. It doubles with each further idle round.
    pub min_park: Duration,
    /// Ceiling on the park. Zero never parks: the loop keeps yielding.
    pub max_park: Duration,
}

impl Default for MuxIdle {
    fn default() -> (i: MuxIdle)
        ensures
            i.max_spins == 512,
            i.max_yields == 128,
            i.min_park@ == 50_000,
            i.max_park@ == 5_000_000,
    {
        MuxIdle {
            max_spins: 512,
            max_yields: 128,
            min_park: Duration::from_micros(50),
            max_park: Duration::from_millis(5),
        }
    }
}

/// What is called for in one idle round.
#[derive(Clone, Copy, PartialEq, Eq, Debug, Structural)]
pub enum IdleAction {
    Spin,
    Yield,
    Park(Duration),
}

/// `2` to the power `n`.
pub open spec fn doubled(n: nat) -> nat
    decreases n,
{
    if n == 0 {
        1
    } else {
        2 * doubled((n - 1) as nat)
    }
}

impl MuxIdle {
    /// How many times the park has doubled by idle round `round`.
    pub open spec fn doublings(self, round: u32) -> nat {
        let n = round - self.max_spins - self.max_yields;
        if n < 20 {
            n as nat
        } else {
            20
        }
    }

    /// How long the park of idle round `round` is, in nanoseconds.
    pub open spec fn park_nanos(self, round: u32) -> nat {
        let long = self.min_park@ * doubled(self.doublings(round));
        if long <= self.max_park@ {
            long
        } else {
            self.max_park@
        }
    }

    /// Whether `a` is called for on the consecutive idle round `round`, counted from zero.
    pub open spec fn calls_for(self, round: u32, a: IdleAction) -> bool {
        if round < self.max_spins {
            a == IdleAction::Spin
        } else if round < self.max_spins + self.max_yields || self.max_park@ == 0 {
            a == IdleAction::Yield
        } else {
            a matches IdleAction::Park(d) && d@ == self.park_nanos(round)
        }
    }

    /// What to do on the consecutive idle round `round`, counted from zero.
    pub fn action(&self, round: u32) -> (a: IdleAction)
        ensures
            self.calls_for(round, a),
    {
        if round < self.max_spins {
            return IdleAction::Spin;
        }
        let after_spins: u32 = round - self.max_spins;
        if after_spins < self.max_yields || self.max_park.is_zero() {
            return IdleAction::Yield;
        }
        let parked: u32 = after_spins - self.max_yields;
        let steps: u32 = if parked < 20 {
            parked
        } else {
            20
        };
        let factor: u32 = power_of_two(steps);
        proof {
            assert(self.min_park@ * doubled(steps as nat) == self.min_park@ * factor);
        }
        IdleAction::Park(self.min_park.saturating_mul(factor).min(self.max_park))
    }
}

fn power_of_two(n: u32) -> (p: u32)
    requires
        n <= 20,
    ensures
        p == doubled(n as nat),
{
    let mut p: u32 = 1;
    let mut i: u32 = 0;
    while i < n
        invariant
            i <= n <= 20,
            p == doubled(i as nat),
        decreases n - i,
    {
        proof {
            lemma_doubled_20(i as nat);
            lemma_doubled_20((i + 1) as nat);
        }
        p = p * 2;
        i = i + 1;
    }
    p
}

proof fn lemma_doubled_20(n: nat)
    requires
        n <= 20,
    ensures
        doubled(n) <= doubled(20) == 0x10_0000,
{
    reveal_with_fuel(doubled, 21);
    lemma_doubled_grows(n, 20);
}

proof fn lemma_doubled_grows(a: nat, b: nat)
    requires
        a <= b,
    ensures
        1 <= doubled(a) <= doubled(b),
    decreases b,
{
    if a < b {
        lemma_doubled_grows(a, (b - 1) as nat);
    } else if b > 0 {
        lemma_doubled_grows((a - 1) as nat, (b - 1) as nat);
    }
}

/// How many rounds in a row have been idle, after a round that moved `work` records.
pub fn next_round(round: u32, work: usize) -> (r: u32)
    ensures
        r == if work > 0 {
            0
        } else if round < u32::MAX {
            (round + 1) as int
        } else {
            u32::MAX as int
        },
{
    if work > 0 {
        0
    } else {
        round.saturating_add(1)
    }
}

// ---------------- laws ----------------
/// Parks never shrink from one idle round to the next, and never pass the ceiling.
pub proof fn law_parks_grow_to_the_ceiling(idle: MuxIdle, a: u32, b: u32)
    requires
        idle.max_spins + idle.max_yields <= a <= b,
    ensures
        idle.park_nanos(a) <= idle.park_nanos(b) <= idle.max_park@,
{
    let (x, y) = (idle.doublings(a), idle.doublings(b));
    lemma_doubled_grows(x, y);
    assert(idle.min_park@ * doubled(x) <= idle.min_park@ * doubled(y)) by (nonlinear_arith)
        requires
            doubled(x) <= doubled(y),
    ;
}

/// The first park is the shortest configured, and each further one is twice as long until the
/// ceiling, for twenty doublings.
pub proof fn law_parks_double(idle: MuxIdle, round: u32)
    requires
        idle.max_spins + idle.max_yields <= round,
        round < idle.max_spins + idle.max_yields + 20,
        round < u32::MAX,
        2 * idle.park_nanos(round) <= idle.max_park@,
        idle.max_park@ > 0,
    ensures
        idle.park_nanos((round + 1) as u32) == 2 * idle.park_nanos(round),
{
    let n = idle.doublings(round);
    assert(idle.min_park@ * (2 * doubled(n)) == 2 * (idle.min_park@ * doubled(n)))
        by (nonlinear_arith);
}

} // verus!
