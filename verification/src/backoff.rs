//! Backing off: penalties that grow while attempts keep coming and fade when they stop.
use vstd::prelude::*;
use vstd::string::*;

use crate::time::{elapsed, Duration};

verus! {

pub const FNV_OFFSET: u64 = 0xcbf2_9ce4_8422_2325;

pub const FNV_PRIME: u64 = 0x100_0000_01b3;

/// The FNV-1a hash of a byte string.
pub open spec fn fnv1a(bytes: Seq<u8>) -> u64
    decreases bytes.len(),
{
    if bytes.len() == 0 {
        FNV_OFFSET
    } else {
        (fnv1a(bytes.drop_last()) ^ (bytes.last() as u64)).wrapping_mul(FNV_PRIME)
    }
}

/// Half of `gap` in whole microseconds, but at least one: what a spread is taken from.
pub open spec fn spread_micros(gap: nat) -> u64 {
    let micros = gap / (crate::time::NANOS_PER_MICRO as nat);
    let whole: u64 = if micros < 1 {
        1
    } else {
        micros as u64
    };
    if whole / 2 < 1 {
        1
    } else {
        whole / 2
    }
}

/// The spread of `name` over `gap`, in nanoseconds.
pub open spec fn jitter_nanos(name: Seq<char>, gap: nat) -> nat {
    ((fnv1a(vstd::utf8::encode_utf8(name)) % spread_micros(gap))
        * crate::time::NANOS_PER_MICRO) as nat
}

/// A spread over the first half of `gap` that depends on the name alone, so that many subscriptions
/// failing for one reason do not all retry at the same moment.
pub fn jitter_for(name: &str, gap: Duration) -> (d: Duration)
    ensures
        d@ == jitter_nanos(name@, gap@),
{
    let bytes = name.as_bytes();
    let mut h: u64 = FNV_OFFSET;
    let mut i: usize = 0;
    assert(bytes@.take(0) =~= Seq::<u8>::empty());
    while i < bytes.len()
        invariant
            i <= bytes@.len(),
            h == fnv1a(bytes@.take(i as int)),
        decreases bytes@.len() - i,
    {
        proof {
            assert(bytes@.take(i + 1).drop_last() =~= bytes@.take(i as int));
            assert(bytes@.take(i + 1).last() == bytes@[i as int]);
        }
        h = (h ^ (bytes[i] as u64)).wrapping_mul(FNV_PRIME);
        i = i + 1;
    }
    assert(bytes@.take(i as int) =~= bytes@);
    let micros: u128 = gap.as_micros();
    let whole: u64 = if micros < 1 {
        1
    } else {
        micros as u64
    };
    let half: u64 = if whole / 2 < 1 {
        1
    } else {
        whole / 2
    };
    Duration::from_micros(h % half)
}

/// One penalty: when the last attempt was made, when the next may be, and the gap between.
#[derive(Clone, Copy, PartialEq, Eq, Debug, Structural)]
pub struct DialPenalty {
    pub attempted_at: u64,
    pub next: u128,
    pub gap: Duration,
}

impl View for DialPenalty {
    type V = DialPenalty;

    open spec fn view(&self) -> DialPenalty {
        *self
    }
}

/// Whether an attempt may be made at `now`: there is no penalty, or its gap has passed.
pub open spec fn due(penalty: Option<DialPenalty>, now: u64) -> bool {
    match penalty {
        Some(p) => now >= p.next,
        None => true,
    }
}

/// The gap that an attempt at `now` earns: twice the last one up to `max`, if the last attempt is
/// recent; else `min`.
pub open spec fn next_gap(penalty: Option<DialPenalty>, now: u64, min: nat, max: nat) -> nat {
    match penalty {
        Some(p) if crate::time::elapsed_nanos(p.attempted_at, now) < 2 * max => if 2 * p.gap@
            <= max {
            2 * p.gap@
        } else {
            max
        },
        _ => min,
    }
}

/// Whether `p` is the penalty of an attempt at `now`, put off by `jitter` more.
pub open spec fn charged(
    p: DialPenalty,
    last: Option<DialPenalty>,
    now: u64,
    min: nat,
    max: nat,
    jitter: nat,
) -> bool {
    &&& p.attempted_at == now
    &&& p.gap@ == next_gap(last, now, min, max)
    &&& p.next == now + p.gap@ + jitter
}

/// Whether an attempt may be made at `now`.
pub fn is_due(penalty: Option<&DialPenalty>, now: u64) -> (b: bool)
    ensures
        b == due(
            match penalty {
                Some(p) => Some(*p),
                None => None,
            },
            now,
        ),
{
    match penalty {
        Some(p) => now as u128 >= p.next,
        None => true,
    }
}

/// The gap that an attempt at `now` earns.
pub fn escalate(penalty: Option<&DialPenalty>, now: u64, min: Duration, max: Duration) -> (gap:
    Duration)
    ensures
        gap@ == next_gap(
            match penalty {
                Some(p) => Some(*p),
                None => None,
            },
            now,
            min@,
            max@,
        ),
{
    match penalty {
        Some(p) => {
            let ceiling: u128 = max.as_nanos();
            let quiet: u128 = elapsed(p.attempted_at, now).as_nanos();
            if quiet < 2 * ceiling {
                p.gap.saturating_mul(2).min(max)
            } else {
                min
            }
        },
        None => min,
    }
}

/// The penalty of an attempt at `now` with the given gap, put off by `jitter` more.
pub fn penalty(now: u64, gap: Duration, jitter: Duration) -> (p: DialPenalty)
    ensures
        p.attempted_at == now,
        p.gap == gap,
        p.next == now + gap@ + jitter@,
{
    DialPenalty { attempted_at: now, next: now as u128 + gap.as_nanos() + jitter.as_nanos(), gap }
}

// ---------------- laws ----------------
/// The spread only ever delays, and by less than half the gap.
pub proof fn law_jitter_is_under_half_the_gap(name: Seq<char>, gap: nat)
    ensures
        jitter_nanos(name, gap) == 0 || 2 * jitter_nanos(name, gap) < gap,
{
    let micros = gap / (crate::time::NANOS_PER_MICRO as nat);
    let spread = spread_micros(gap);
    let h = fnv1a(vstd::utf8::encode_utf8(name));
    let whole = micros as u64;
    assert(h % spread < spread);
    if micros < 1 || whole / 2 < 1 {
        assert(spread == 1);
        assert(h % spread == 0);
    } else {
        assert(spread == whole / 2);
        assert(whole <= micros);
    }
}

/// Gaps stay between the floor and the ceiling.
pub proof fn law_gap_stays_in_range(last: Option<DialPenalty>, now: u64, min: nat, max: nat)
    requires
        min <= max,
        last matches Some(p) ==> min <= p.gap@ <= max,
    ensures
        min <= next_gap(last, now, min, max) <= max,
{
}

/// While attempts keep coming the gap doubles until it meets the ceiling, and there it stays.
pub proof fn law_gap_doubles_to_the_ceiling(p: DialPenalty, now: u64, min: nat, max: nat)
    requires
        crate::time::elapsed_nanos(p.attempted_at, now) < 2 * max,
    ensures
        2 * p.gap@ <= max ==> next_gap(Some(p), now, min, max) == 2 * p.gap@,
        2 * p.gap@ >= max ==> next_gap(Some(p), now, min, max) == max,
{
}

/// Once attempts have stopped for twice the ceiling, the gap starts again at the floor.
pub proof fn law_gap_decays(p: DialPenalty, now: u64, min: nat, max: nat)
    requires
        crate::time::elapsed_nanos(p.attempted_at, now) >= 2 * max,
    ensures
        next_gap(Some(p), now, min, max) == min,
{
}

/// A first attempt is never delayed. After one, no further attempt is due until the gap has passed,
/// and then one is.
pub proof fn law_an_attempt_waits_out_its_gap(
    p: DialPenalty,
    last: Option<DialPenalty>,
    now: u64,
    min: nat,
    max: nat,
    jitter: nat,
    later: u64,
)
    requires
        charged(p, last, now, min, max, jitter),
    ensures
        due(None, now),
        later < now + p.gap@ ==> !due(Some(p), later),
        later >= now + p.gap@ + jitter ==> due(Some(p), later),
{
}

/// The gap after `n` attempts in a row, each made while the last was recent.
pub open spec fn gap_after(n: nat, min: nat, max: nat) -> nat
    decreases n,
{
    if n == 0 {
        min
    } else {
        let last = gap_after((n - 1) as nat, min, max);
        if 2 * last <= max {
            2 * last
        } else {
            max
        }
    }
}

/// An unbroken run of attempts brings the gap to the ceiling, whatever the floor: it doubles, so it
/// takes no more doublings than the ceiling has binary digits.
pub proof fn law_a_run_of_attempts_reaches_the_ceiling(n: nat, min: nat, max: nat)
    requires
        1 <= min <= max,
        max < vstd::arithmetic::power2::pow2(n),
    ensures
        gap_after(n, min, max) == max,
{
    lemma_gap_after(n, min, max);
    let p = vstd::arithmetic::power2::pow2(n);
    assert(min * p >= p) by (nonlinear_arith)
        requires
            min >= 1,
            p >= 0,
    ;
}

proof fn lemma_gap_after(n: nat, min: nat, max: nat)
    requires
        min <= max,
    ensures
        gap_after(n, min, max) == if min * vstd::arithmetic::power2::pow2(n) <= max {
            min * vstd::arithmetic::power2::pow2(n)
        } else {
            max
        },
    decreases n,
{
    if n == 0 {
        vstd::arithmetic::power2::lemma2_to64();
    } else {
        let m = (n - 1) as nat;
        lemma_gap_after(m, min, max);
        vstd::arithmetic::power2::lemma_pow2_unfold(n);
        let p = vstd::arithmetic::power2::pow2(m);
        assert(min * (2 * p) == 2 * (min * p)) by (nonlinear_arith);
    }
}

} // verus!
