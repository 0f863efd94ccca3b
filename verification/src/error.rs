//! Why an operation was refused.
use vstd::prelude::*;

verus! {

#[derive(Clone, Copy, PartialEq, Eq, Debug, Structural)]
pub enum ErrorKind {
    /// The request itself is not one that can be served.
    InvalidInput,
    /// The name is taken.
    AlreadyExists,
    /// What the request would take away is still in use.
    ResourceBusy,
    /// The channel is not known here.
    TimedOut,
    /// The channel is known, but its owner cannot be reached.
    HostUnreachable,
    /// What was found is not what it should be.
    InvalidData,
}

/// An error, with a message for people to read.
#[derive(PartialEq, Eq, Debug)]
pub struct NodeError {
    pub kind: ErrorKind,
    pub message: String,
}

impl View for NodeError {
    type V = (ErrorKind, Seq<char>);

    open spec fn view(&self) -> (ErrorKind, Seq<char>) {
        (self.kind, self.message@)
    }
}

} // verus!
