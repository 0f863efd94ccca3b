//! Restarting: what is found on disk is served again.
use vstd::prelude::*;

use crate::node::reconstruct::{
    channels_among, origins_among, successes, topics_among, unreadable_among, Content, DirEntry,
    OnDisk, TopicConfig,
};
use crate::node::Node;
use crate::promises::sequences::{lemma_filter_map_last, lemma_filter_map_none};

verus! {

pub open spec fn is_plain() -> spec_fn(OnDisk) -> bool {
    |f: OnDisk| f.content is Plain
}

pub open spec fn is_unreadable() -> spec_fn(OnDisk) -> bool {
    |f: OnDisk| f.content is Unreadable
}

pub open spec fn is_topic() -> spec_fn(OnDisk) -> bool {
    |f: OnDisk| f.content is Topic
}

pub open spec fn its_name() -> spec_fn(OnDisk) -> Seq<char> {
    |f: OnDisk| f.name@
}

pub open spec fn its_config() -> spec_fn(OnDisk) -> (Seq<char>, TopicConfig) {
    |f: OnDisk| (f.name@, f.content->Topic_0)
}

/// Every channel found is listed for what its log turned out to be, and only for that: the plain ones,
/// the topics with what their logs say, and the unreadable ones, each in the order found.
pub proof fn law_each_channel_is_taken_for_what_it_is(found: Seq<OnDisk>)
    ensures
        origins_among(found) == found.filter(is_plain()).map_values(its_name()),
        unreadable_among(found) == found.filter(is_unreadable()).map_values(its_name()),
        topics_among(found) == found.filter(is_topic()).map_values(its_config()),
    decreases found.len(),
{
    if found.len() > 0 {
        law_each_channel_is_taken_for_what_it_is(found.drop_last());
        lemma_filter_map_last(found, is_plain(), its_name());
        lemma_filter_map_last(found, is_unreadable(), its_name());
        lemma_filter_map_last(found, is_topic(), its_config());
    } else {
        lemma_filter_map_none(found, is_plain(), its_name());
        lemma_filter_map_none(found, is_unreadable(), its_name());
        lemma_filter_map_none(found, is_topic(), its_config());
    }
}

/// A name is among the plain channels exactly if a plain channel of that name was found, and likewise
/// for the unreadable ones and for the topics.
pub proof fn law_an_inventory_holds_what_was_found(found: Seq<OnDisk>, name: Seq<char>, cfg: TopicConfig)
    ensures
        origins_among(found).contains(name) <==> exists|i: int|
            0 <= i < found.len() && (#[trigger] found[i]).name@ == name && found[i].content is Plain,
        unreadable_among(found).contains(name) <==> exists|i: int|
            0 <= i < found.len() && (#[trigger] found[i]).name@ == name
                && found[i].content is Unreadable,
        topics_among(found).contains((name, cfg)) <==> exists|i: int|
            0 <= i < found.len() && (#[trigger] found[i]).name@ == name && found[i].content
                == Content::Topic(cfg),
    decreases found.len(),
{
    if found.len() > 0 {
        let front = found.drop_last();
        let last = found.last();
        law_an_inventory_holds_what_was_found(front, name, cfg);
        crate::broadcast::lemma_push_contains(origins_among(front), last.name@);
        crate::broadcast::lemma_push_contains(unreadable_among(front), last.name@);
        crate::broadcast::lemma_push_contains(
            topics_among(front),
            (last.name@, last.content->Topic_0),
        );
        assert(found[found.len() - 1] == last);
        assert(forall|i: int| 0 <= i < front.len() ==> front[i] == found[i]);
        if exists|i: int|
            0 <= i < front.len() && (#[trigger] front[i]).name@ == name && front[i].content is Plain {
            let i = choose|i: int|
                0 <= i < front.len() && (#[trigger] front[i]).name@ == name
                    && front[i].content is Plain;
            assert(found[i].name@ == name && found[i].content is Plain);
        }
        if exists|i: int|
            0 <= i < front.len() && (#[trigger] front[i]).name@ == name
                && front[i].content is Unreadable {
            let i = choose|i: int|
                0 <= i < front.len() && (#[trigger] front[i]).name@ == name
                    && front[i].content is Unreadable;
            assert(found[i].name@ == name && found[i].content is Unreadable);
        }
        if exists|i: int|
            0 <= i < front.len() && (#[trigger] front[i]).name@ == name && front[i].content
                == Content::Topic(cfg) {
            let i = choose|i: int|
                0 <= i < front.len() && (#[trigger] front[i]).name@ == name && front[i].content
                    == Content::Topic(cfg);
            assert(found[i].name@ == name && found[i].content == Content::Topic(cfg));
        }
    }
}

pub open spec fn is_channel() -> spec_fn(DirEntry) -> bool {
    |e: DirEntry| e.is_dir && crate::names::valid_name(e.name@)
}

pub open spec fn entry_name() -> spec_fn(DirEntry) -> Seq<char> {
    |e: DirEntry| e.name@
}

/// The channels of a data directory are its subdirectories that have a channel's name, all of them,
/// in order.
pub proof fn law_every_channel_directory_is_found(entries: Seq<DirEntry>)
    ensures
        channels_among(entries) == entries.filter(is_channel()).map_values(entry_name()),
    decreases entries.len(),
{
    if entries.len() > 0 {
        law_every_channel_directory_is_found(entries.drop_last());
        lemma_filter_map_last(entries, is_channel(), entry_name());
    } else {
        lemma_filter_map_none(entries, is_channel(), entry_name());
    }
}

pub open spec fn is_so() -> spec_fn(bool) -> bool {
    |b: bool| b
}

/// What was rebuilt is counted one by one.
pub proof fn law_each_success_counts_once(outcomes: Seq<bool>)
    ensures
        successes(outcomes) == outcomes.filter(is_so()).len(),
    decreases outcomes.len(),
{
    reveal(Seq::filter);
    if outcomes.len() > 0 {
        law_each_success_counts_once(outcomes.drop_last());
    }
}

/// A log is hosted again under the name it was stamped with, and under no other: then the channel is
/// this node's in the registry and is served from where it was found, with the geometry in its header
/// and the bounds given; a log stamped otherwise changes nothing at all.
pub proof fn law_a_log_is_served_under_its_own_name(
    before: Node,
    after: Node,
    name: Seq<char>,
    stamped: Seq<char>,
    region_size: u32,
    mtu: u32,
    file_roll_size: u64,
    keep_files: u32,
    now: u64,
    wall: u64,
)
    requires
        Node::rehosted(
            before,
            after,
            name,
            stamped,
            region_size,
            mtu,
            file_roll_size,
            keep_files,
            now,
            wall,
        ),
    ensures
        stamped != name ==> after == before && before.rehosting(
            name,
            stamped,
            region_size,
            mtu,
            wall,
        ) is Err,
        !crate::names::valid_name(name) ==> after == before,
        match before.rehosting(name, stamped, region_size, mtu, wall) {
            Ok(id) => {
                &&& stamped == name
                &&& id.name == name
                &&& id.owner == before.config.node_id
                &&& id.region_size == region_size
                &&& id.mtu == mtu
                &&& id.member_of is None
                &&& !id.deleted
                &&& after.registry@.contains_key(name)
                &&& after.registry@[name].owner == before.config.node_id
                &&& after.hosted@.contains_key(name)
                &&& after.hosted@[name].path == crate::names::channel_path_of(
                    before.config.data_dir@,
                    name,
                )
                &&& after.hosted@[name].region_size == region_size
                &&& after.hosted@[name].mtu == mtu
                &&& after.hosted@[name].file_roll_size == file_roll_size
                &&& after.hosted@[name].keep_files == keep_files
            },
            Err(_) => after.hosted == before.hosted && after.dissemination == before.dissemination,
        },
        forall|k: Seq<char>|
            k != name ==> #[trigger] after.hosted@.contains_key(k) == before.hosted@.contains_key(k)
                && (before.hosted@.contains_key(k) ==> after.hosted@[k] == before.hosted@[k]),
        after.subscriptions == before.subscriptions,
        after.conducted == before.conducted,
        after.muxes == before.muxes,
{
}

} // verus!
