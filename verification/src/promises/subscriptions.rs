//! Subscriptions: which are tried again, which are forgotten, and how they fare.
use vstd::prelude::*;

use crate::error::NodeError;
use crate::identity::IdentityModel;
use crate::node::subscribing::{Establish, Started, SubEvent, SubscribeOutcome};
use crate::node::Node;
use crate::subscription::{Conducted, SubId, Subscription};

verus! {

/// Every subscription that is wanted and has no connection is tried again, and no other, whatever it
/// has got so far: neither how far its replica is, nor when a record last came, nor how often it was
/// rebuilt plays a part. Each is named once, oldest first.
pub proof fn law_whatever_lost_its_connection_is_retried(before: Node, after: Node, wanted: Seq<SubId>)
    requires
        Node::serviced(before, after, wanted),
    ensures
        forall|id: SubId| #[trigger]
            wanted.contains(id) <==> before.conducted@.contains_key(id)
                && before.conducted@[id].sub.stopped == false
                && before.conducted@[id].sub.connected == false,
        forall|i: int, j: int|
            0 <= i < j < wanted.len() ==> (#[trigger] wanted[i]).0 < (#[trigger] wanted[j]).0,
{
}

/// An attempt to connect has a point exactly if the subscription is wanted and has no connection.
pub proof fn law_an_unconnected_subscription_wants_a_connection(node: Node, id: SubId)
    ensures
        node.to_heal(id) <==> node.conducted@.contains_key(id)
            && node.conducted@[id].sub.stopped == false && node.conducted@[id].sub.connected
            == false,
{
}

/// Servicing forgets a subscription only once it was stopped, has no connection, is not getting one,
/// and is not the one kept for its channel; and such a one it does forget. It changes nothing else.
pub proof fn law_only_what_is_over_is_forgotten(before: Node, after: Node, wanted: Seq<SubId>)
    requires
        Node::serviced(before, after, wanted),
    ensures
        forall|id: SubId|
            before.conducted@.contains_key(id) ==> {
                let c = before.conducted@[id];
                let kept = before.subscriptions@.contains_key(c.name@)
                    && before.subscriptions@[c.name@] == id;
                #[trigger] after.conducted@.contains_key(id) <==> !c.sub.stopped || c.sub.connected
                    || c.sub.establishing || kept
            },
        forall|id: SubId| #[trigger]
            after.conducted@.contains_key(id) ==> before.conducted@.contains_key(id)
                && after.conducted@[id] == before.conducted@[id],
        after.subscriptions == before.subscriptions,
        after.attach_backoff == before.attach_backoff,
        after.registry == before.registry,
        after.hosted == before.hosted,
        after.muxes == before.muxes,
        after.dissemination == before.dissemination,
{
    assert forall|id: SubId| before.conducted@.contains_key(id) implies {
        let c = before.conducted@[id];
        let kept = before.subscriptions@.contains_key(c.name@)
            && before.subscriptions@[c.name@] == id;
        #[trigger] after.conducted@.contains_key(id) <==> !c.sub.stopped || c.sub.connected
            || c.sub.establishing || kept
    } by {}
}

/// Whether `e` gives a subscription a connection.
pub open spec fn connects(e: SubEvent) -> bool {
    e matches SubEvent::Answered { outcome, .. } && outcome matches SubscribeOutcome::Accepted {
        adopted,
        ..
    } && adopted
}

/// A subscription has a connection exactly if, of the events that gave it one and those that dropped
/// one, the last gave one.
pub proof fn law_connected_since_last_adopted(sub: Subscription, events: Seq<SubEvent>)
    ensures
        sub.after_all(events).connected <==> {
            ||| exists|i: int|
                {
                    &&& 0 <= i < events.len()
                    &&& connects(#[trigger] events[i])
                    &&& forall|j: int| i < j < events.len() ==> !((#[trigger] events[j]) is Released)
                }
            ||| sub.connected && forall|j: int|
                0 <= j < events.len() ==> !((#[trigger] events[j]) is Released)
        },
    decreases events.len(),
{
    if events.len() > 0 {
        let front = events.drop_last();
        let e = events.last();
        law_connected_since_last_adopted(sub, front);
        assert(events[events.len() - 1] == e);
        assert(forall|j: int| 0 <= j < front.len() ==> front[j] == events[j]);
        if connects(e) {
            assert(connects(events[events.len() - 1]));
        }
        if front.len() >= 0 && sub.after_all(front).connected && !(e is Released) {
            if exists|i: int|
                {
                    &&& 0 <= i < front.len()
                    &&& connects(#[trigger] front[i])
                    &&& forall|j: int| i < j < front.len() ==> !((#[trigger] front[j]) is Released)
                } {
                let i = choose|i: int|
                    {
                        &&& 0 <= i < front.len()
                        &&& connects(#[trigger] front[i])
                        &&& forall|j: int|
                            i < j < front.len() ==> !((#[trigger] front[j]) is Released)
                    };
                assert(connects(events[i]));
                assert forall|j: int| i < j < events.len() implies !((#[trigger] events[j]) is Released)
                    by {
                    if j < front.len() {
                        assert(!(front[j] is Released));
                    }
                }
            }
        }
        if !connects(e) && exists|i: int|
            {
                &&& 0 <= i < events.len()
                &&& connects(#[trigger] events[i])
                &&& forall|j: int| i < j < events.len() ==> !((#[trigger] events[j]) is Released)
            } {
            let i = choose|i: int|
                {
                    &&& 0 <= i < events.len()
                    &&& connects(#[trigger] events[i])
                    &&& forall|j: int| i < j < events.len() ==> !((#[trigger] events[j]) is Released)
                };
            assert(i < front.len());
            assert(connects(front[i]));
            assert forall|j: int| i < j < front.len() implies !((#[trigger] front[j]) is Released) by {
                assert(!(events[j] is Released));
            }
            assert(!(events[events.len() - 1] is Released));
        }
        if e is Released {
            assert(events[events.len() - 1] is Released);
        }
    }
}

/// A subscription that nobody stopped and whose connection was lost last is handed out for a retry,
/// whatever else has happened to it.
pub proof fn law_a_lost_connection_is_healed(
    before: Node,
    after: Node,
    wanted: Seq<SubId>,
    id: SubId,
    sub: Subscription,
    events: Seq<SubEvent>,
    lost: int,
)
    requires
        Node::serviced(before, after, wanted),
        before.conducted@.contains_key(id),
        before.conducted@[id].sub == sub.after_all(events),
        !sub.stopped,
        !events.contains(SubEvent::Stopped),
        0 <= lost < events.len(),
        events[lost] is Released,
        forall|j: int| lost < j < events.len() ==> !connects(#[trigger] events[j]),
    ensures
        wanted.contains(id),
{
    crate::node::subscribing::law_only_stopping_ends_a_subscription(sub, events);
    law_connected_since_last_adopted(sub, events);
    assert(!sub.after_all(events).connected) by {
        if exists|i: int|
            {
                &&& 0 <= i < events.len()
                &&& connects(#[trigger] events[i])
                &&& forall|j: int| i < j < events.len() ==> !((#[trigger] events[j]) is Released)
            } {
            let i = choose|i: int|
                {
                    &&& 0 <= i < events.len()
                    &&& connects(#[trigger] events[i])
                    &&& forall|j: int| i < j < events.len() ==> !((#[trigger] events[j]) is Released)
                };
            if i < lost {
                assert(!(events[lost] is Released));
            } else {
                assert(i != lost);
                assert(!connects(events[i]));
            }
        }
    }
    law_whatever_lost_its_connection_is_retried(before, after, wanted);
}

/// An attempt is under way exactly if, of the attempts begun and those ended, the last was begun.
pub proof fn law_one_attempt_at_a_time(sub: Subscription, events: Seq<SubEvent>)
    requires
        events.len() > 0,
    ensures
        events.last() is Attempted ==> sub.after_all(events).establishing,
        events.last() is Ended ==> !sub.after_all(events).establishing,
        !(events.last() is Attempted) && !(events.last() is Ended) ==> sub.after_all(
            events,
        ).establishing == sub.after_all(events.drop_last()).establishing,
{
}

/// How far a replica is follows what the attempts and the duty cycle report of it: an attempt sets it
/// to where it resumes, a turn that moved records to the new head, a rebuild to the start; nothing
/// else changes it. The head of the source is the one it gave when it last accepted, and the time of
/// the last record is that of the last turn that moved one.
pub proof fn law_progress_is_what_was_reported(sub: Subscription, e: SubEvent)
    ensures
        sub.after(e).synced == match e {
            SubEvent::Resumed { from } => from,
            SubEvent::Polled { moved, head, .. } => if moved > 0 {
                head
            } else {
                sub.synced
            },
            SubEvent::Answered { outcome: SubscribeOutcome::Rebuild { .. }, .. } => 0,
            _ => sub.synced,
        },
        sub.after(e).head_at_connect == match e {
            SubEvent::Answered { outcome: SubscribeOutcome::Accepted { head, .. }, .. } => head,
            _ => sub.head_at_connect,
        },
        sub.after(e).last_record_at_ms == match e {
            SubEvent::Polled { moved, wall, .. } => if moved > 0 {
                wall / 1_000_000
            } else {
                sub.last_record_at_ms
            },
            _ => sub.last_record_at_ms,
        },
{
}

/// What happens to one subscription happens to no other.
pub proof fn law_each_subscription_on_its_own(
    all: Map<SubId, Conducted>,
    id: SubId,
    sub: Subscription,
    other: SubId,
)
    requires
        all.contains_key(id),
        other != id,
    ensures
        ({
            let after = crate::node::subscribing::with_sub(all, id, sub);
            &&& after.contains_key(id)
            &&& after[id].sub == sub
            &&& after[id].name == all[id].name
            &&& after.contains_key(other) == all.contains_key(other)
            &&& all.contains_key(other) ==> after[other] == all[other]
        }),
{
}

/// A caller's attempt starts unless one is under way; a retry also waits until the penalty of the
/// channel's name has run out. How the subscription has fared plays no part.
pub proof fn law_what_holds_an_attempt_back(node: Node, id: SubId, now: u64)
    requires
        node.conducted@.contains_key(id),
    ensures
        node.may_establish(id, Establish::Caller, now) <==> !node.conducted@[id].sub.establishing,
        node.may_establish(id, Establish::Retry, now) <==> {
            let name = node.conducted@[id].name@;
            &&& !node.conducted@[id].sub.establishing
            &&& node.attach_backoff@.contains_key(name) ==> now >= node.attach_backoff@[name].next
        },
{
}

/// A new subscription is active, has nothing and no connection, is to the channel asked for, and has
/// its replica where that channel's replica belongs. Every other one stays as it was.
pub proof fn law_a_new_subscription_starts_from_nothing(
    before: Node,
    after: Node,
    name: Seq<char>,
    why: Establish,
    now: u64,
    s: Started,
)
    requires
        Node::subscribed_as(before, after, name, why, now, Ok::<Started, NodeError>(s)),
    ensures
        after.conducted@.contains_key(s.id),
        !before.conducted@.contains_key(s.id),
        after.conducted@[s.id].name@ == name,
        ({
            let sub = after.conducted@[s.id].sub;
            &&& !sub.stopped
            &&& !sub.connected
            &&& sub.synced == 0
            &&& sub.head_at_connect == 0
            &&& sub.last_record_at_ms == 0
            &&& sub.rebuilds.gap == 0
            &&& sub.rebuilds.diverged == 0
            &&& sub.rebuilds.last_at_ms == 0
            &&& sub.replica_path@ == s.replica_path@
            &&& sub.establishing == s.establish
        }),
        s.replica_path@ == crate::names::replica_path_of(before.config.data_dir@, name),
        s.establish <==> why is Caller || !before.attach_backoff@.contains_key(name) || now
            >= before.attach_backoff@[name].next,
        forall|id: SubId|
            id != s.id ==> #[trigger] after.conducted@.contains_key(id)
                == before.conducted@.contains_key(id),
        forall|id: SubId|
            id != s.id && #[trigger] after.conducted@.contains_key(id) ==> after.conducted@[id]
                == before.conducted@[id],
        after.subscriptions == before.subscriptions,
        why is Caller ==> !after.attach_backoff@.contains_key(name),
        forall|k: Seq<char>|
            k != name ==> #[trigger] after.attach_backoff@.contains_key(k)
                == before.attach_backoff@.contains_key(k),
        forall|k: Seq<char>|
            k != name && #[trigger] after.attach_backoff@.contains_key(k)
                ==> after.attach_backoff@[k] == before.attach_backoff@[k],
{
}

/// A channel is to be had from this node itself, if this node owns it and its stream plane is bound;
/// else from its owner, where the owner last said it serves streams, if the owner is live.
pub proof fn law_where_a_channel_is_to_be_had(node: Node, id: IdentityModel, now: u64)
    ensures
        id.owner == node.config.node_id ==> node.source_of(id, now) == node.bound_stream_addr,
        id.owner != node.config.node_id ==> {
            let known = node.dissemination.membership@;
            let live = known.contains_key(id.owner) && crate::promises::mesh::heard_lately(
                known[id.owner],
                node.dissemination.liveness_timeout@,
                now,
            );
            &&& live ==> node.source_of(id, now) == Some(known[id.owner].addr)
            &&& !live ==> node.source_of(id, now) is None
        },
{
}

/// A search is over once its time is up, and one without a limit never is.
pub proof fn law_a_search_ends_at_its_deadline(
    search: crate::node::subscribing::Resolving,
    now: u64,
)
    ensures
        search.deadline is None ==> !search.over(now),
        search.deadline matches Some(d) ==> (search.over(now) <==> d <= now),
{
}

/// A subscription is active for a channel exactly if one is kept for its name, is conducted, and was
/// not stopped; and the one kept is that one.
pub proof fn law_subscribed_means_kept_and_not_stopped(node: Node, name: Seq<char>)
    ensures
        node.subscribed(name) <==> node.subscriptions@.contains_key(name)
            && node.conducted@.contains_key(node.subscriptions@[name])
            && node.conducted@[node.subscriptions@[name]].sub.stopped == false,
        node.kept(name) is Some <==> node.subscriptions@.contains_key(name)
            && node.conducted@.contains_key(node.subscriptions@[name]),
        node.kept(name) is Some ==> node.kept(name)->0
            == node.conducted@[node.subscriptions@[name]].sub,
{
}

/// Unsubscribing stops the subscription kept for the name and forgets that it was kept; of everything
/// else nothing changes.
pub proof fn law_unsubscribing_stops_only_that_one(before: Node, after: Node, name: Seq<char>)
    requires
        Node::unsubscribed(before, after, name),
    ensures
        !after.subscriptions@.contains_key(name),
        forall|k: Seq<char>|
            k != name ==> #[trigger] after.subscriptions@.contains_key(k)
                == before.subscriptions@.contains_key(k),
        forall|k: Seq<char>|
            k != name && #[trigger] after.subscriptions@.contains_key(k) ==> after.subscriptions@[k]
                == before.subscriptions@[k],
        forall|id: SubId| #[trigger]
            after.conducted@.contains_key(id) == before.conducted@.contains_key(id),
        forall|id: SubId| #[trigger]
            after.conducted@.contains_key(id) ==> {
                let (b, a) = (before.conducted@[id], after.conducted@[id]);
                let it = before.subscriptions@.contains_key(name) && before.subscriptions@[name]
                    == id;
                &&& a.name == b.name
                &&& a.sub.stopped == (b.sub.stopped || it)
                &&& a.sub.connected == b.sub.connected
                &&& a.sub.establishing == b.sub.establishing
                &&& a.sub.synced == b.sub.synced
                &&& a.sub.replica_path == b.sub.replica_path
                &&& a.sub.rebuilds == b.sub.rebuilds
                &&& a.sub.head_at_connect == b.sub.head_at_connect
                &&& a.sub.last_record_at_ms == b.sub.last_record_at_ms
            },
{
}

} // verus!
