//! The node's fixed limits. Spans are in milliseconds.
use vstd::prelude::*;

verus! {

/// A node not heard from within this is dropped from the live set.
pub const LIVENESS_TIMEOUT_MS: u64 = 10_000;

/// Cap on concurrent inbound stream and client connections. Peer links are not capped: they come
/// from configured, trusted seeds.
pub const MAX_CONNECTIONS: usize = 4096;

/// Records that one poll-item of the duty cycle may move per turn, so that none can block the rest
/// for a full drain.
pub const MAX_BATCH_PER_POLL_ITEM: usize = 256;

/// Records merged per topic member and poll, where the topic does not say.
pub const MAX_BATCH_PER_MEMBER: usize = 256;

/// How long establishment waits to resolve a channel before giving up until the next tick.
pub const RESOLVE_TIMEOUT_MS: u64 = 200;

/// How long a dial may take. What it really sizes is the cost of an address that never answers.
pub const CONNECT_TIMEOUT_MS: u64 = 500;

/// How long a handshake may stay silent.
pub const HANDSHAKE_TIMEOUT_MS: u64 = 5_000;

/// Dials per maintenance tick and candidate list. The maintenance loop is also the heartbeat loop,
/// so what it spends on dialling comes out of this node's own liveness.
pub const MAX_DIALS_PER_TICK: usize = 2;

/// Dials per tick spent on addresses that claim this node's own id. A duplicate identity is a
/// misconfiguration, and must not slow ordinary mesh formation.
pub const MAX_TWIN_DIALS_PER_TICK: usize = 1;

/// How much of the liveness timeout is kept back for everything in a tick that is not dialling.
pub const TICK_RESERVE_MS: u64 = 3_000;

/// First retry gap for a subscription that cannot be established. It doubles to
/// [`ATTACH_BACKOFF_MAX_MS`].
pub const ATTACH_BACKOFF_MIN_MS: u64 = 250;

/// Ceiling on that gap, below the five seconds that a client waits for a replica to appear.
pub const ATTACH_BACKOFF_MAX_MS: u64 = 4_000;

/// First retry gap for an address that was dialled. It doubles to [`DIAL_BACKOFF_MAX_MS`].
pub const DIAL_BACKOFF_MIN_MS: u64 = 1_000;

/// Ceiling on that gap. A departed peer stays a candidate for ever; this is what makes remembering
/// it cheap.
pub const DIAL_BACKOFF_MAX_MS: u64 = 60_000;

/// Region size of the discovery log.
pub const DISCOVERY_REGION_SIZE: usize = 0x10_0000;

/// Files of the discovery log that are kept. A client that falls further behind lists anew.
pub const DISCOVERY_KEEP_FILES: u64 = 4;

/// An attach recovers faster than a dial: only the subscriber re-establishes a subscription,
/// whereas either end of a peer link dials it again. And it recovers within a caller's patience.
pub proof fn law_attach_recovers_before_dial()
    ensures
        ATTACH_BACKOFF_MIN_MS <= ATTACH_BACKOFF_MAX_MS < DIAL_BACKOFF_MAX_MS,
        DIAL_BACKOFF_MIN_MS <= DIAL_BACKOFF_MAX_MS,
        ATTACH_BACKOFF_MAX_MS < 5_000,
{
}

/// The most that a tick can spend on connects, over all its candidate lists, leaves the reserve of
/// the liveness timeout untouched.
pub proof fn law_dialling_fits_in_the_liveness_budget()
    ensures
        (2 * MAX_DIALS_PER_TICK + MAX_TWIN_DIALS_PER_TICK) * CONNECT_TIMEOUT_MS + TICK_RESERVE_MS
            <= LIVENESS_TIMEOUT_MS,
{
}

} // verus!
