//! Two machines that use one node id.
//!
//! A node stands aside, discarding its id so that the next start takes a fresh one, only while
//! nothing refers to that id: it was generated here, and the node hosts nothing. Later, its channels
//! would be left to an owner that never returns.
use vstd::prelude::*;

use crate::identity::NodeId;
use crate::node::topics::contains_node;
use crate::node::Node;

verus! {

/// What a duplicate node id calls for.
#[derive(Clone, Copy, PartialEq, Eq, Debug, Structural)]
pub enum OnDuplicateIdentity {
    /// Nothing that this node could safely do.
    Continue,
    /// This node has discarded its id, and is to be restarted.
    StepAside,
}

/// What can be done about a duplicate, and if nothing, why.
#[derive(Clone, Copy, PartialEq, Eq, Debug, Structural)]
pub enum DuplicateVerdict {
    /// It is not this node's id.
    NotOurs,
    /// The id was set by the operator.
    Configured,
    /// This node owns channels.
    OwnsChannels,
    /// The id is to be discarded.
    Discard,
}

/// What to tell the operator about duplicates, and what to do.
pub struct DuplicateReport {
    /// The ids not reported before.
    pub fresh: Vec<NodeId>,
    /// Whether this node's own id is among those.
    pub say: bool,
    pub verdict: DuplicateVerdict,
}

/// The ids of `conflicts` that are not in `seen`, each once, in order.
pub open spec fn unseen(seen: Seq<NodeId>, conflicts: Seq<NodeId>) -> Seq<NodeId>
    decreases conflicts.len(),
{
    if conflicts.len() == 0 {
        Seq::empty()
    } else {
        let rest = unseen(seen, conflicts.drop_last());
        let last = conflicts.last();
        if seen.contains(last) || rest.contains(last) {
            rest
        } else {
            rest.push(last)
        }
    }
}

impl DuplicateVerdict {
    /// What follows, given whether the id could be discarded, if it was to be. A node that stopped
    /// without discarding its id would come back to the same duplicate.
    pub fn settle(self, discarded: bool) -> (r: OnDuplicateIdentity)
        ensures
            r == if self is Discard && discarded {
                OnDuplicateIdentity::StepAside
            } else {
                OnDuplicateIdentity::Continue
            },
    {
        match self {
            DuplicateVerdict::Discard => if discarded {
                OnDuplicateIdentity::StepAside
            } else {
                OnDuplicateIdentity::Continue
            },
            _ => OnDuplicateIdentity::Continue,
        }
    }
}

impl Node {
    /// What can be done about `conflicts`. What was said of them before plays no part: a node that
    /// owned a channel when it first noticed may own none later.
    pub open spec fn duplicate_verdict(&self, conflicts: Seq<NodeId>) -> DuplicateVerdict {
        if !conflicts.contains(self.config.node_id) {
            DuplicateVerdict::NotOurs
        } else if !self.config.id_generated {
            DuplicateVerdict::Configured
        } else if self.hosted@.dom() != Set::<Seq<char>>::empty() {
            DuplicateVerdict::OwnsChannels
        } else {
            DuplicateVerdict::Discard
        }
    }

    /// What deciding about ids that two machines claim does, and tells.
    pub open spec fn reported(
        before: Node,
        after: Node,
        conflicts: Seq<NodeId>,
        r: DuplicateReport,
    ) -> bool {
        &&& r.fresh@ == unseen(before.dup_reported@, conflicts)
        &&& r.say == r.fresh@.contains(before.config.node_id)
        &&& r.verdict == before.duplicate_verdict(conflicts)
        &&& after.dup_reported@ == before.dup_reported@ + r.fresh@
        &&& after == (Node { dup_reported: after.dup_reported, ..before })
    }

    /// Decides about ids that two machines claim. Each id is to be reported once only, but the
    /// decision is taken anew every time.
    pub fn report_duplicate_identity(&mut self, conflicts: &Vec<NodeId>) -> (r: DuplicateReport)
        ensures
            Node::reported(*old(self), *final(self), conflicts@, r),
    {
        let mut fresh: Vec<NodeId> = Vec::new();
        let ghost seen = self.dup_reported@;
        let mut i: usize = 0;
        proof {
            assert(conflicts@.take(0) =~= Seq::<NodeId>::empty());
            assert(seen =~= seen + fresh@);
        }
        while i < conflicts.len()
            invariant
                i <= conflicts@.len(),
                seen == old(self).dup_reported@,
                fresh@ == unseen(seen, conflicts@.take(i as int)),
                self.dup_reported@ == seen + fresh@,
                *self == (Node { dup_reported: self.dup_reported, ..*old(self) }),
            decreases conflicts@.len() - i,
        {
            let node = conflicts[i];
            proof {
                assert(conflicts@.take(i + 1).drop_last() =~= conflicts@.take(i as int));
                assert(conflicts@.take(i + 1).last() == node);
                lemma_concat_contains(seen, fresh@, node);
            }
            if !contains_node(&self.dup_reported, node) {
                let ghost before = fresh@;
                fresh.push(node);
                self.dup_reported.push(node);
                assert(self.dup_reported@ =~= seen + fresh@);
            }
            i = i + 1;
        }
        assert(conflicts@.take(i as int) =~= conflicts@);
        let say = contains_node(&fresh, self.config.node_id);
        let verdict = if !contains_node(conflicts, self.config.node_id) {
            DuplicateVerdict::NotOurs
        } else if !self.config.id_generated {
            DuplicateVerdict::Configured
        } else if !self.hosted.is_empty() {
            DuplicateVerdict::OwnsChannels
        } else {
            DuplicateVerdict::Discard
        };
        DuplicateReport { fresh, say, verdict }
    }
}

proof fn lemma_concat_contains(a: Seq<NodeId>, b: Seq<NodeId>, x: NodeId)
    ensures
        (a + b).contains(x) <==> a.contains(x) || b.contains(x),
{
    let c = a + b;
    if a.contains(x) {
        let i = choose|i: int| 0 <= i < a.len() && a[i] == x;
        assert(c[i] == x);
    }
    if b.contains(x) {
        let i = choose|i: int| 0 <= i < b.len() && b[i] == x;
        assert(c[a.len() + i] == x);
    }
    if c.contains(x) {
        let i = choose|i: int| 0 <= i < c.len() && c[i] == x;
        if i < a.len() {
            assert(a[i] == x);
        } else {
            assert(b[i - a.len()] == x);
        }
    }
}

// ---------------- laws ----------------
/// An id is reported once: having been reported, it is never fresh again.
pub proof fn law_a_duplicate_is_reported_once(
    seen: Seq<NodeId>,
    conflicts: Seq<NodeId>,
    later: Seq<NodeId>,
    id: NodeId,
)
    requires
        conflicts.contains(id),
    ensures
        !unseen(seen + unseen(seen, conflicts), later).contains(id),
    decreases later.len(),
{
    let said = seen + unseen(seen, conflicts);
    if later.len() > 0 {
        law_a_duplicate_is_reported_once(seen, conflicts, later.drop_last(), id);
        crate::broadcast::lemma_push_contains(unseen(said, later.drop_last()), later.last());
        if later.last() == id {
            lemma_unseen_covers(seen, conflicts, id);
            lemma_concat_contains(seen, unseen(seen, conflicts), id);
        }
    }
}

proof fn lemma_unseen_covers(seen: Seq<NodeId>, conflicts: Seq<NodeId>, id: NodeId)
    requires
        conflicts.contains(id),
    ensures
        seen.contains(id) || unseen(seen, conflicts).contains(id),
    decreases conflicts.len(),
{
    let rest = conflicts.drop_last();
    crate::broadcast::lemma_push_contains(unseen(seen, rest), conflicts.last());
    if conflicts.last() != id {
        let i = choose|i: int| 0 <= i < conflicts.len() && conflicts[i] == id;
        assert(rest[i] == id);
        lemma_unseen_covers(seen, rest, id);
    }
}

} // verus!
