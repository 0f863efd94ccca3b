//! Whether the daemon has been asked to stop, and whether it is to be started again.
//!
//! Stopping in order is a courtesy, not a safety measure: it spares peers the wait for the liveness
//! timeout. Killing a node loses nothing.
use vstd::prelude::*;

verus! {

pub const SIGINT: i32 = 2;

pub const SIGTERM: i32 = 15;

/// What has been asked of the daemon so far.
#[derive(Clone, Copy, PartialEq, Eq, Debug, Structural)]
pub struct Requests {
    pub stop: bool,
    /// The daemon is to exit as failed, so that a supervisor starts it again.
    pub restart: bool,
}

/// Nothing has been asked yet.
pub fn none() -> (r: Requests)
    ensures
        !r.stop,
        !r.restart,
{
    Requests { stop: false, restart: false }
}

/// A signal came in. Whichever it is, of those that are handled, it asks the daemon to stop.
pub fn on_signal(requests: &mut Requests, _sig: i32)
    ensures
        *final(requests) == (Requests { stop: true, ..*old(requests) }),
{
    requests.stop = true;
}

/// Asks the daemon to stop and be started again.
pub fn request_restart(requests: &mut Requests)
    ensures
        final(requests).stop,
        final(requests).restart,
{
    requests.restart = true;
    requests.stop = true;
}

/// Whether the daemon has been asked to stop.
pub fn requested(requests: &Requests) -> (b: bool)
    ensures
        b == requests.stop,
{
    requests.stop
}

/// Whether the daemon is to be started again.
pub fn restart_wanted(requests: &Requests) -> (b: bool)
    ensures
        b == requests.restart,
{
    requests.restart
}

} // verus!
