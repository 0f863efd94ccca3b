//! Discovery: what a listing shows, and what its watchers are told.
use vstd::prelude::*;

use crate::identity::{IdentityModel, NodeId};
use crate::node::Node;
use crate::promises::mesh::heard_lately;
use crate::wire::{ChangeModel, ChannelInfo, InfoModel};

verus! {

/// Whether `node` can reach `owner` at `now`: it is the node itself, or it was heard from directly
/// within the liveness timeout and has not left.
pub open spec fn can_reach(node: Node, owner: NodeId, now: u64) -> bool {
    let known = node.dissemination.membership@;
    owner == node.config.node_id || (known.contains_key(owner) && heard_lately(
        known[owner],
        node.dissemination.liveness_timeout@,
        now,
    ))
}

/// The owner of a channel counts as live exactly if this node can reach it.
pub proof fn law_an_owner_is_live_if_it_can_be_reached(node: Node, owner: NodeId, now: u64)
    ensures
        node.owner_live(owner, now) <==> can_reach(node, owner, now),
{
}

pub open spec fn is_listed_under(prefix: Seq<char>) -> spec_fn(IdentityModel) -> bool {
    |id: IdentityModel| !id.deleted && prefix.is_prefix_of(id.name)
}

/// A prefix picks the live entries whose names begin with it, all of them, in order.
pub proof fn law_a_prefix_picks_live_names(list: Seq<IdentityModel>, prefix: Seq<char>)
    ensures
        crate::registry::prefixed(list, prefix) == list.filter(is_listed_under(prefix)),
    decreases list.len(),
{
    reveal(Seq::filter);
    if list.len() > 0 {
        law_a_prefix_picks_live_names(list.drop_last(), prefix);
    }
}

/// Whether `info` describes the registry entry `id`, at a time when its owner can be reached or not.
pub open spec fn describes(info: InfoModel, id: IdentityModel, reachable: bool) -> bool {
    &&& info.name == id.name
    &&& info.owner == id.owner
    &&& info.epoch == id.epoch
    &&& info.member_of == id.member_of
    &&& info.region_size == id.region_size
    &&& info.mtu == id.mtu
    &&& info.earliest_index == id.earliest_index
    &&& info.owner_live == reachable
}

/// A listing tells of every live channel under the prefix, and of nothing else, what the registry holds
/// of it, and whether its owner can be reached at that moment; each channel once, in name order.
pub proof fn law_a_listing_tells_the_truth(
    node: Node,
    prefix: Seq<char>,
    now: u64,
    listed: Seq<ChannelInfo>,
)
    requires
        crate::registry::enumerates(crate::registry::listing(node.registry@), node.registry@),
        crate::wire::infos(listed) == node.shown(
            crate::registry::prefixed(crate::registry::listing(node.registry@), prefix),
            now,
        ),
    ensures
        forall|i: int|
            0 <= i < listed.len() ==> {
                let info = (#[trigger] listed[i])@;
                &&& node.registry@.contains_key(info.name)
                &&& !node.registry@[info.name].deleted
                &&& prefix.is_prefix_of(info.name)
                &&& describes(info, node.registry@[info.name], can_reach(node, info.owner, now))
            },
        forall|i: int|
            0 <= i < listed.len() ==> ((#[trigger] listed[i]).owner_live <==> can_reach(
                node,
                listed[i].owner,
                now,
            )),
        forall|k: Seq<char>| #[trigger]
            node.registry@.contains_key(k) && !node.registry@[k].deleted && prefix.is_prefix_of(k)
                ==> exists|i: int| 0 <= i < listed.len() && (#[trigger] listed[i]).name@ == k,
        forall|i: int, j: int|
            0 <= i < j < listed.len() ==> crate::text::name_before(
                (#[trigger] listed[i]).name@,
                (#[trigger] listed[j]).name@,
            ),
{
    let list = crate::registry::listing(node.registry@);
    let picked = crate::registry::prefixed(list, prefix);
    let infos = crate::wire::infos(listed);
    let pairs = Seq::new(list.len(), |i: int| (list[i].name, list[i]));
    assert(crate::name_map::lists(pairs, node.registry@));
    lemma_prefixed_in_order(list, prefix);
    assert(infos.len() == listed.len());
    assert forall|i: int| 0 <= i < listed.len() implies {
        let info = (#[trigger] listed[i])@;
        &&& node.registry@.contains_key(info.name)
        &&& !node.registry@[info.name].deleted
        &&& prefix.is_prefix_of(info.name)
        &&& describes(info, node.registry@[info.name], can_reach(node, info.owner, now))
        &&& info.name == picked[i].name
    } by {
        assert(infos[i] == listed[i]@);
        assert(infos[i] == node.shown(picked, now)[i]);
        assert(picked.contains(picked[i]));
        crate::node::discovery::law_a_listing_is_complete(
            node.registry@,
            list,
            prefix,
            picked[i],
        );
    }
    assert forall|i: int| 0 <= i < listed.len() implies ((#[trigger] listed[i]).owner_live
        <==> can_reach(node, listed[i].owner, now)) by {
        assert(listed[i]@.owner_live == listed[i].owner_live);
        assert(listed[i]@.owner == listed[i].owner);
    }
    assert forall|k: Seq<char>| #[trigger]
        node.registry@.contains_key(k) && !node.registry@[k].deleted && prefix.is_prefix_of(
            k,
        ) implies exists|i: int| 0 <= i < listed.len() && (#[trigger] listed[i]).name@ == k by {
        let id = node.registry@[k];
        let n = choose|n: int| 0 <= n < pairs.len() && #[trigger] pairs[n].0 == k;
        assert(list[n] == id);
        crate::node::discovery::law_a_listing_is_complete(node.registry@, list, prefix, id);
        let i = choose|i: int| 0 <= i < picked.len() && picked[i] == id;
        assert(infos[i] == node.shown(picked, now)[i]);
        assert(listed[i]@ == infos[i]);
        assert(listed[i].name@ == k);
    }
    assert forall|i: int, j: int| 0 <= i < j < listed.len() implies crate::text::name_before(
        (#[trigger] listed[i]).name@,
        (#[trigger] listed[j]).name@,
    ) by {
        assert(listed[i]@.name == picked[i].name && listed[j]@.name == picked[j].name);
        assert(crate::text::name_before(picked[i].name, picked[j].name));
    }
}

proof fn lemma_prefixed_in_order(list: Seq<IdentityModel>, prefix: Seq<char>)
    requires
        crate::name_map::ascending(Seq::new(list.len(), |i: int| (list[i].name, list[i]))),
    ensures
        forall|i: int, j: int|
            0 <= i < j < crate::registry::prefixed(list, prefix).len()
                ==> crate::text::name_before(
                (#[trigger] crate::registry::prefixed(list, prefix)[i]).name,
                (#[trigger] crate::registry::prefixed(list, prefix)[j]).name,
            ),
        forall|i: int|
            0 <= i < crate::registry::prefixed(list, prefix).len() ==> list.contains(
                #[trigger] crate::registry::prefixed(list, prefix)[i],
            ),
    decreases list.len(),
{
    if list.len() > 0 {
        let front = list.drop_last();
        let (all, some) = (
            Seq::new(list.len(), |i: int| (list[i].name, list[i])),
            Seq::new(front.len(), |i: int| (front[i].name, front[i])),
        );
        assert forall|i: int, j: int| 0 <= i < j < some.len() implies crate::text::name_before(
            #[trigger] some[i].0,
            #[trigger] some[j].0,
        ) by {
            assert(all[i] == some[i] && all[j] == some[j]);
            assert(crate::text::name_before(all[i].0, all[j].0));
        }
        lemma_prefixed_in_order(front, prefix);
        let rest = crate::registry::prefixed(front, prefix);
        let whole = crate::registry::prefixed(list, prefix);
        assert(forall|x: IdentityModel| front.contains(x) ==> list.contains(x)) by {
            assert forall|x: IdentityModel| front.contains(x) implies list.contains(x) by {
                let i = choose|i: int| 0 <= i < front.len() && front[i] == x;
                assert(list[i] == x);
            }
        }
        assert(list[list.len() - 1] == list.last());
        assert forall|i: int, j: int| 0 <= i < j < whole.len() implies crate::text::name_before(
            (#[trigger] whole[i]).name,
            (#[trigger] whole[j]).name,
        ) by {
            assert(whole[i] == rest[i]);
            if j < rest.len() {
                assert(whole[j] == rest[j]);
            } else {
                let k = choose|k: int| 0 <= k < front.len() && front[k] == rest[i];
                assert(all[k].0 == rest[i].name);
                assert(all[list.len() - 1].0 == list.last().name);
                assert(crate::text::name_before(all[k].0, all[list.len() - 1].0));
            }
        }
        assert forall|i: int| 0 <= i < whole.len() implies list.contains(#[trigger] whole[i]) by {
            if i < rest.len() {
                assert(whole[i] == rest[i]);
            }
        }
    }
}

/// The record of a live entry describes it, with whether its owner can be reached at that moment; the
/// record of a tombstone says which generation of which name is gone.
pub proof fn law_a_change_describes_its_entry(node: Node, id: IdentityModel, now: u64)
    ensures
        match node.change_value(id, now) {
            ChangeModel::Upserted(info) => !id.deleted && describes(
                info,
                id,
                can_reach(node, id.owner, now),
            ),
            ChangeModel::Removed { name, epoch } => id.deleted && name == id.name && epoch
                == id.epoch,
        },
        match crate::node::registration::removal(id) {
            ChangeModel::Removed { name, epoch } => name == id.name && epoch == id.epoch,
            _ => false,
        },
{
}

} // verus!
