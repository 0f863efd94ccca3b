//! What a node is configured with.
use vstd::prelude::*;

use crate::addr::SocketAddr;
use crate::identity::NodeId;
use crate::mux_idle::MuxIdle;
use crate::text::same;
use crate::time::Duration;

verus! {

/// Node manager configuration.
pub struct NodeConfig {
    pub node_id: NodeId,
    /// Directory under which origin channels and replicas live.
    pub data_dir: String,
    /// Where to listen for peers.
    pub control_addr: SocketAddr,
    /// Where to serve subscriptions.
    pub stream_addr: SocketAddr,
    /// Path of the Unix socket for local clients.
    pub client_path: String,
    /// Peers to exchange registry state with on startup.
    pub seeds: Vec<SocketAddr>,
    /// How long an owner must have been unreachable before its name may be retired by another node.
    /// This gates an operator's action; nothing retires a name on its own.
    pub reclaim_after: Duration,
    /// Topics that merge on a thread of their own rather than on the shared duty cycle.
    pub promoted_topics: Vec<String>,
    /// How loops wait when they find no work.
    pub mux_idle: MuxIdle,
    /// What peers are told to dial, where it differs from what was bound.
    pub advertise_control_addr: Option<SocketAddr>,
    pub advertise_stream_addr: Option<SocketAddr>,
    /// A label for people to read. No correctness depends on it.
    pub node_name: String,
    /// Whether the node id was generated here rather than set by the operator.
    pub id_generated: bool,
}

/// Whether `name` is one of `names`.
pub open spec fn listed(names: Seq<String>, name: Seq<char>) -> bool {
    exists|i: int| 0 <= i < names.len() && (#[trigger] names[i])@ == name
}

/// Whether `name` is one of `names`.
pub fn is_listed(names: &Vec<String>, name: &str) -> (b: bool)
    ensures
        b == listed(names@, name@),
{
    let mut i: usize = 0;
    while i < names.len()
        invariant
            i <= names@.len(),
            forall|j: int| 0 <= j < i ==> (#[trigger] names@[j])@ != name@,
        decreases names@.len() - i,
    {
        if same(names[i].as_str(), name) {
            assert(names@[i as int]@ == name@);
            return true;
        }
        i = i + 1;
    }
    false
}

} // verus!
