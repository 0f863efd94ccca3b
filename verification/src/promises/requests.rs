//! Requests: what clients are answered, and what operators are told.
use vstd::prelude::*;

use crate::error::{ErrorKind, NodeError};
use crate::identity::{opt_text, NodeId};
use crate::node::client::RequestStep;
use crate::node::duplicates::{unseen, DuplicateReport};
use crate::node::subscribing::{Establish, Resolution, Started};
use crate::node::tick::Stage;
use crate::node::Node;
use crate::promises::mesh::heard_lately;
use crate::subscription::SubId;
use crate::wire::ClientRequest;

verus! {

// ---------------- reading ----------------
/// Who asks to read a channel hosted here gets its origin; one already replicated here, the replica
/// in use; and anything else is looked for, as long as was asked, for ever if no limit was given.
/// Asking changes nothing.
pub proof fn law_a_reader_gets_what_is_here(
    before: Node,
    after: Node,
    req: ClientRequest,
    step: RequestStep,
    now: u64,
    wall: u64,
)
    requires
        Node::handled(before, after, req, step, now, wall),
        req is Subscribe,
    ensures
        ({
            let name = (req->Subscribe_name)@;
            let ms = req->wait_ms;
            let hosted = before.hosted@.contains_key(name);
            let id = before.subscriptions@[name];
            let kept = before.subscriptions@.contains_key(name) && before.conducted@.contains_key(
                id,
            ) && !before.conducted@[id].sub.stopped;
            &&& after == before
            &&& hosted ==> step is Reply && step->Reply_0 is Subscribed && (
            step->Reply_0->replica_path)@ == before.hosted@[name].path
            &&& !hosted && kept ==> step is Reply && step->Reply_0 is Subscribed && (
            step->Reply_0->replica_path)@ == before.conducted@[id].sub.replica_path@
            &&& !hosted && !kept ==> {
                &&& step is Subscribe
                &&& (step->Subscribe_name)@ == name
                &&& step->wait is None <==> ms == 0
                &&& step->wait matches Some(w) ==> w@ == ms * 1_000_000
            }
        }),
{
}

/// The health of a channel is told of those hosted here, whose head is then to be read, and of those
/// subscribed to; of anything else it is told that there is none. Listing hands on the prefix. Neither
/// changes anything.
pub proof fn law_asking_changes_nothing(
    before: Node,
    after: Node,
    req: ClientRequest,
    step: RequestStep,
    now: u64,
    wall: u64,
)
    requires
        Node::handled(before, after, req, step, now, wall),
    ensures
        req is ListChannels ==> {
            &&& after == before
            &&& step is List
            &&& (step->List_prefix)@ == (req->ListChannels_prefix)@
        },
        req is SubscriptionStatus ==> {
            let name = (req->SubscriptionStatus_name)@;
            let id = before.subscriptions@[name];
            let hosted = before.hosted@.contains_key(name);
            let kept = before.subscriptions@.contains_key(name) && before.conducted@.contains_key(
                id,
            );
            &&& after == before
            &&& hosted ==> step is ReadHead && (step->path)@ == before.hosted@[name].path && (
            step->ReadHead_name)@ == name
            &&& !hosted && kept ==> step is Reply && step->Reply_0 is Status && Some(
                step->Reply_0->Status_0,
            ) == before.status_value(name, 0, now)
            &&& !hosted && !kept ==> step is Reply && step->Reply_0 is Error
        },
{
}

/// What a status says. Of a channel hosted here: that it is local, active and its owner live, with its
/// head on both sides. Of one subscribed to: whether it was stopped, how far it got, what was counted,
/// and whether its owner was heard from lately. Of nothing else is there one. The generation is that
/// of the live entry, and without one the owner is this node and the generation zero.
pub proof fn law_a_status_tells_the_truth(node: Node, name: Seq<char>, head: u64, now: u64)
    ensures
        ({
            let hosted = node.hosted@.contains_key(name);
            let id = node.subscriptions@[name];
            let kept = node.subscriptions@.contains_key(name) && node.conducted@.contains_key(id);
            let entry = node.registry@.contains_key(name) && !node.registry@[name].deleted;
            let sub = node.conducted@[id].sub;
            let known = node.dissemination.membership@;
            let r = node.status_value(name, head, now);
            let s = r->0;
            &&& r is Some <==> hosted || kept
            &&& r is Some ==> {
                &&& s.local == hosted
                &&& s.generation == if entry {
                    node.registry@[name].epoch
                } else {
                    0
                }
            }
            &&& hosted ==> {
                &&& s.active
                &&& s.owner_live
                &&& s.owner == node.config.node_id
                &&& s.synced.0 == head
                &&& s.head_at_connect.0 == head
                &&& s.rebuilds_gap == 0
                &&& s.rebuilds_diverged == 0
                &&& s.last_record_at_ms == 0
                &&& s.last_rebuild_at_ms == 0
            }
            &&& !hosted && kept ==> {
                &&& s.active == !sub.stopped
                &&& s.owner == if entry {
                    node.registry@[name].owner
                } else {
                    node.config.node_id
                }
                &&& s.owner_live == (known.contains_key(s.owner) && heard_lately(
                    known[s.owner],
                    node.dissemination.liveness_timeout@,
                    now,
                ))
                &&& s.synced.0 == sub.synced
                &&& s.head_at_connect.0 == sub.head_at_connect
                &&& s.rebuilds_gap == sub.rebuilds.gap
                &&& s.rebuilds_diverged == sub.rebuilds.diverged
                &&& s.last_record_at_ms == sub.last_record_at_ms
                &&& s.last_rebuild_at_ms == sub.rebuilds.last_at_ms
            }
        }),
{
}

// ---------------- writing ----------------
/// A request for a channel, a topic or a member is answered with the plan of a log exactly if the name
/// can be had; else with an error and its words. A topic that names no batch gets the default one, and
/// a member is tied to its topic.
pub proof fn law_creating_is_planned_or_refused(
    before: Node,
    after: Node,
    req: ClientRequest,
    step: RequestStep,
    now: u64,
    wall: u64,
)
    requires
        Node::handled(before, after, req, step, now, wall),
    ensures
        req is Create ==> {
            let made = before.creation((req->Create_name)@, req->Create_options, None, wall);
            &&& made is Ok <==> step is CreateOrigin
            &&& made is Err <==> step is Reply
            &&& made is Ok ==> (step->CreateOrigin_0)@ == made->Ok_0
            &&& made is Err ==> step->Reply_0 is Error && (step->Reply_0->message)@ == made->Err_0.1
        },
        req is CreateTopic ==> {
            let o = req->CreateTopic_options;
            let made = before.creation((req->CreateTopic_name)@, o.channel, None, wall);
            &&& made is Ok <==> step is CreateTopic
            &&& made is Err <==> step is Reply
            &&& made is Ok ==> {
                &&& (step->CreateTopic_plan).origin@ == made->Ok_0
                &&& step->member_reap_after_ms == o.member_reap_after_ms
                &&& (step->CreateTopic_plan).batch > 0
                &&& o.max_batch_per_member > 0 ==> (step->CreateTopic_plan).batch
                    == o.max_batch_per_member
                &&& o.max_batch_per_member == 0 ==> (step->CreateTopic_plan).batch == 256
            }
            &&& made is Err ==> step->Reply_0 is Error && (step->Reply_0->message)@ == made->Err_0.1
        },
        req is PublishToTopic ==> {
            let topic = (req->PublishToTopic_topic)@;
            let made = before.creation(
                (req->member)@,
                req->PublishToTopic_options,
                Some(topic),
                wall,
            );
            &&& made is Ok <==> step is Publish
            &&& made is Err <==> step is Reply
            &&& made is Ok ==> (step->Publish_plan)@ == made->Ok_0 && (step->Publish_topic)@ == topic
            &&& made is Ok ==> made->Ok_0.identity.member_of == Some(topic)
            &&& made is Err ==> step->Reply_0 is Error && (step->Reply_0->message)@ == made->Err_0.1
        },
{
}

/// Giving up a channel is answered with whether it was a live one of this node, and only then is its
/// directory to be deleted.
pub proof fn law_giving_up_is_answered(
    before: Node,
    after: Node,
    req: ClientRequest,
    step: RequestStep,
    now: u64,
    wall: u64,
)
    requires
        Node::handled(before, after, req, step, now, wall),
        req is Deregister,
    ensures
        ({
            let name = (req->Deregister_name)@;
            let m = before.registry@;
            let mine = m.contains_key(name) && !m[name].deleted && m[name].owner
                == before.config.node_id;
            &&& step is Delete
            &&& step->Delete_reply is Deregistered
            &&& step->Delete_reply->existed == mine
            &&& !mine ==> step->remove_dir is None
            &&& mine && crate::names::valid_name(name) ==> step->remove_dir is Some && (
            step->remove_dir->0)@ == crate::names::channel_dir_of(before.config.data_dir@, name)
            &&& Node::deregistered(before, after, name)
        }),
{
    assert(opt_text(step->remove_dir) is Some <==> step->remove_dir is Some);
}

/// Taking a name away is answered with whether there was a live channel of that name, or with why it
/// may not be taken.
pub proof fn law_taking_away_is_answered(
    before: Node,
    after: Node,
    req: ClientRequest,
    step: RequestStep,
    now: u64,
    wall: u64,
)
    requires
        Node::handled(before, after, req, step, now, wall),
        req is ForceDeregister,
    ensures
        ({
            let name = (req->ForceDeregister_name)@;
            let m = before.registry@;
            let held = m.contains_key(name) && !m[name].deleted;
            &&& step is Reply
            &&& step->Reply_0 is Deregistered || step->Reply_0 is Error
            &&& step->Reply_0 is Deregistered ==> step->Reply_0->existed == held
            &&& step->Reply_0 is Error ==> held
            &&& step->Reply_0 is Error <==> before.force_verdict(name, now) is Err
            &&& Node::forced(before, after, name, now)
        }),
{
}

// ---------------- subscribing ----------------
/// A search that was refused refuses the subscription for the same reason, and one still going begins
/// none. Once the channel is found, only a name that is none is refused; else a new subscription
/// begins, under a handle never used, and connects at once for someone who asked.
pub proof fn law_a_subscription_begins_once_found(
    before: Node,
    after: Node,
    name: Seq<char>,
    found: Resolution,
    why: Establish,
    now: u64,
    r: Result<Option<Started>, NodeError>,
)
    requires
        Node::subscribed_once_found(before, after, name, found, why, now, r),
    ensures
        found is Refused ==> r is Err && r->Err_0 == found->Refused_0,
        found is Wait ==> r is Ok && r->Ok_0 is None,
        found is Found ==> (r is Err <==> !crate::names::valid_name(name)),
        r is Ok && r->Ok_0 is Some <==> found is Found && crate::names::valid_name(name),
        !(r is Ok && r->Ok_0 is Some) ==> after == before,
        r is Ok && r->Ok_0 is Some ==> {
            let s = r->Ok_0->0;
            let waits = before.attach_backoff@.contains_key(name) && before.attach_backoff@[name].next
                > now;
            &&& !before.conducted@.contains_key(s.id)
            &&& after.conducted@.contains_key(s.id)
            &&& after.conducted@[s.id].name@ == name
            &&& !after.conducted@[s.id].sub.stopped
            &&& after.conducted@[s.id].sub.establishing == s.establish
            &&& after.conducted@[s.id].sub.replica_path@ == s.replica_path@
            &&& s.establish == (why is Caller || !waits)
            &&& why is Caller ==> !after.attach_backoff@.contains_key(name)
            &&& why is Retry && waits ==> after.attach_backoff@ == before.attach_backoff@
            &&& why is Retry && !waits ==> after.attach_backoff@.contains_key(name)
                && after.attach_backoff@[name].attempted_at == now
            &&& forall|id: SubId|
                id != s.id ==> (#[trigger] after.conducted@.contains_key(id)
                    <==> before.conducted@.contains_key(id))
            &&& forall|id: SubId|
                id != s.id && #[trigger] before.conducted@.contains_key(id)
                    ==> after.conducted@[id] == before.conducted@[id]
            &&& after.subscriptions == before.subscriptions
            &&& after.registry == before.registry
        },
{
}

/// An owner has just come back exactly if it is live now and was not at the last pass.
pub proof fn law_who_has_come_back(node: Node, live: Seq<NodeId>, name: Seq<char>)
    ensures
        node.revived(live, name) <==> node.registry@.contains_key(name) && {
            let owner = node.registry@[name].owner;
            (exists|i: int| 0 <= i < live.len() && #[trigger] live[i] == owner) && (forall|i: int|
                0 <= i < node.last_live_owners@.len() ==> #[trigger] node.last_live_owners@[i]
                    != owner)
        },
{
    if node.registry@.contains_key(name) {
        let owner = node.registry@[name].owner;
        if live.contains(owner) {
            let i = choose|i: int| 0 <= i < live.len() && live[i] == owner;
            assert(live[i] == owner);
        }
    }
}

/// A search that ends in vain tells an unknown channel from one whose owner is out of reach.
pub proof fn law_two_ways_to_search_in_vain(name: Seq<char>)
    ensures
        crate::node::subscribing::not_resolvable(name).0 == ErrorKind::TimedOut,
        crate::node::subscribing::owner_not_live(name).0 == ErrorKind::HostUnreachable,
{
}

// ---------------- duplicates ----------------
/// The ids to report are those claimed twice and not reported yet, each once, in the order in which
/// they came.
pub proof fn law_what_is_news_of_duplicates(
    seen: Seq<NodeId>,
    conflicts: Seq<NodeId>,
    id: NodeId,
    k: int,
)
    requires
        0 <= k <= conflicts.len(),
    ensures
        unseen(seen, conflicts).contains(id) <==> conflicts.contains(id) && !seen.contains(id),
        unseen(seen, conflicts).no_duplicates(),
        unseen(seen, conflicts.take(k)).is_prefix_of(unseen(seen, conflicts)),
    decreases conflicts.len(),
{
    if conflicts.len() > 0 {
        let front = conflicts.drop_last();
        let last = conflicts.last();
        let rest = unseen(seen, front);
        if k < conflicts.len() {
            law_what_is_news_of_duplicates(seen, front, id, k);
            law_what_is_news_of_duplicates(seen, front, last, k);
            assert(front.take(k) =~= conflicts.take(k));
        } else {
            law_what_is_news_of_duplicates(seen, front, id, 0);
            law_what_is_news_of_duplicates(seen, front, last, 0);
            assert(conflicts.take(k) =~= conflicts);
        }
        assert(conflicts =~= front.push(last));
        crate::broadcast::lemma_push_contains(front, last);
        crate::broadcast::lemma_push_contains(rest, last);
    } else {
        assert(conflicts.take(k) =~= conflicts);
    }
}

/// What a duplicate calls for: the id is discarded exactly if it is this node's own, was generated and
/// not configured, and nothing is hosted under it; whatever was said before plays no part. The operator
/// is told of this node's own id once.
pub proof fn law_when_an_id_is_discarded(
    before: Node,
    after: Node,
    conflicts: Seq<NodeId>,
    r: DuplicateReport,
)
    requires
        Node::reported(before, after, conflicts, r),
    ensures
        ({
            let own = before.config.node_id;
            let hosts = exists|k: Seq<char>| #[trigger] before.hosted@.contains_key(k);
            &&& r.verdict is NotOurs <==> !conflicts.contains(own)
            &&& r.verdict is Configured <==> conflicts.contains(own) && !before.config.id_generated
            &&& r.verdict is OwnsChannels <==> conflicts.contains(own) && before.config.id_generated
                && hosts
            &&& r.verdict is Discard <==> conflicts.contains(own) && before.config.id_generated
                && !hosts
            &&& r.say <==> conflicts.contains(own) && !before.dup_reported@.contains(own)
            &&& forall|id: NodeId| #[trigger]
                r.fresh@.contains(id) <==> conflicts.contains(id) && !before.dup_reported@.contains(
                    id,
                )
        }),
        after.dup_reported@ == before.dup_reported@ + r.fresh@,
        after.hosted == before.hosted,
        after.registry == before.registry,
        after.config == before.config,
{
    let own = before.config.node_id;
    assert forall|id: NodeId| #[trigger] r.fresh@.contains(id) <==> conflicts.contains(id)
        && !before.dup_reported@.contains(id) by {
        law_what_is_news_of_duplicates(before.dup_reported@, conflicts, id, 0);
    }
    assert(r.fresh@.contains(own) <==> conflicts.contains(own) && !before.dup_reported@.contains(
        own,
    ));
    let dom = before.hosted@.dom();
    if exists|k: Seq<char>| #[trigger] before.hosted@.contains_key(k) {
        let k = choose|k: Seq<char>| #[trigger] before.hosted@.contains_key(k);
        assert(dom.contains(k));
        assert(dom != Set::<Seq<char>>::empty());
    } else {
        assert(dom =~= Set::<Seq<char>>::empty()) by {
            assert forall|k: Seq<char>| !dom.contains(k) by {
                assert(!before.hosted@.contains_key(k));
            }
        }
    }
}

// ---------------- ticks ----------------
/// A tick has three stages, upkeep first, then peers, then healing, and after the last it begins again.
pub proof fn law_a_tick_goes_round(s: Stage)
    ensures
        s.after().after().after() == s,
        s.after() != s,
        s is Upkeep <==> s.after() is Peers,
        s is Peers <==> s.after() is Healing,
{
}

} // verus!
