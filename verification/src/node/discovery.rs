//! Listing channels, and the log of changes that follows a listing.
//!
//! The log is this node's own: it tells what this node has converged on. It is derived state, made
//! anew by every run with a fresh generation, so that a reader from before knows to list again.
use vstd::prelude::*;

use crate::broadcast::Dispatch;
use crate::identity::{IdentityModel, RecordIndex};
use crate::node::Node;
use crate::text::join;
use crate::wire::{channel_info, ChannelChange, ChannelInfo, DiscoveryCursor, InfoModel};

verus! {

/// The directory of a node's discovery log.
pub open spec fn discovery_dir_of(data_dir: Seq<char>) -> Seq<char> {
    crate::text::path_join(data_dir, ".discovery"@)
}

/// Where a node's discovery log is.
pub open spec fn discovery_path_of(data_dir: Seq<char>) -> Seq<char> {
    crate::text::path_join(discovery_dir_of(data_dir), "log"@)
}

impl Node {
    /// How a listing made at `now` shows the entries `ids`.
    pub open spec fn shown(&self, ids: Seq<IdentityModel>, now: u64) -> Seq<InfoModel> {
        Seq::new(
            ids.len(),
            |i: int| crate::wire::info_of(ids[i], self.owner_live(ids[i].owner, now)),
        )
    }

    /// The directory of the discovery log. What a previous run left there is to be deleted.
    pub fn discovery_dir(&self) -> (dir: String)
        ensures
            dir@ == discovery_dir_of(self.config.data_dir@),
    {
        join(self.config.data_dir.as_str(), ".discovery")
    }

    pub fn discovery_path(&self) -> (path: String)
        ensures
            path@ == discovery_path_of(self.config.data_dir@),
    {
        join(self.discovery_dir().as_str(), "log")
    }

    /// The live channels whose names begin with `prefix`, in name order, and where to pick up the
    /// changes that follow: `next` is the index of the discovery log's next record, once everything
    /// pending has been written to it.
    pub fn list_channels(&self, prefix: &str, next: u64, now: u64) -> (r: (
        Vec<ChannelInfo>,
        DiscoveryCursor,
    ))
        ensures
            crate::registry::enumerates(
                crate::registry::listing(self.registry@),
                self.registry@,
            ),
            crate::wire::infos(r.0@) == self.shown(
                crate::registry::prefixed(crate::registry::listing(self.registry@), prefix@),
                now,
            ),
            r.1@ == (crate::wire::CursorModel {
                log_path: discovery_path_of(self.config.data_dir@),
                generation: self.discovery_generation,
                from: RecordIndex(next),
            }),
            forall|i: int|
                0 <= i < r.0@.len() ==> ((#[trigger] r.0@[i]).owner_live
                    <==> crate::promises::discovery::can_reach(*self, r.0@[i].owner, now)),
            forall|k: Seq<char>| #[trigger]
                self.registry@.contains_key(k) && !self.registry@[k].deleted
                    && prefix@.is_prefix_of(k) ==> exists|i: int|
                    0 <= i < r.0@.len() && (#[trigger] r.0@[i]).name@ == k,
    {
        let ids = self.registry.with_prefix(prefix);
        let ghost all = crate::identity::models(ids@);
        let mut channels: Vec<ChannelInfo> = Vec::new();
        let mut i: usize = 0;
        assert(crate::wire::infos(channels@) =~= self.shown(all.take(0), now));
        while i < ids.len()
            invariant
                i <= ids@.len(),
                all == crate::identity::models(ids@),
                crate::wire::infos(channels@) == self.shown(all.take(i as int), now),
            decreases ids@.len() - i,
        {
            let live = self.is_owner_live(ids[i].owner, now);
            let ghost before = crate::wire::infos(channels@);
            channels.push(channel_info(&ids[i], live));
            assert(all[i as int] == ids@[i as int]@);
            assert(crate::wire::infos(channels@) =~= before.push(
                crate::wire::info_of(all[i as int], live),
            ));
            assert(crate::wire::infos(channels@) =~= self.shown(all.take(i + 1), now));
            i = i + 1;
        }
        assert(all.take(i as int) =~= all);
        proof {
            crate::promises::discovery::law_a_listing_tells_the_truth(
                *self,
                prefix@,
                now,
                channels@,
            );
        }
        let log_path = self.discovery_path();
        let generation = self.discovery_generation;
        (channels, DiscoveryCursor { log_path, generation, from: RecordIndex(next) })
    }

    /// Takes the changes that are to be written to the discovery log.
    pub fn take_changes(&mut self) -> (pending: Vec<ChannelChange>)
        ensures
            pending@ == old(self).discovery@,
            final(self).discovery@.len() == 0,
            *final(self) == (Node { discovery: final(self).discovery, ..*old(self) }),
    {
        let mut pending: Vec<ChannelChange> = Vec::new();
        std::mem::swap(&mut pending, &mut self.discovery);
        pending
    }

    /// Takes the messages that are to be sent to peers.
    pub fn take_messages(&mut self) -> (pending: Vec<Dispatch>)
        ensures
            pending@ == old(self).dissemination.outbox@,
            final(self).dissemination.outbox@.len() == 0,
            final(self).dissemination == (crate::broadcast::BroadcastDissemination {
                outbox: final(self).dissemination.outbox,
                ..old(self).dissemination
            }),
            *final(self) == (Node { dissemination: final(self).dissemination, ..*old(self) }),
    {
        let mut pending: Vec<Dispatch> = Vec::new();
        std::mem::swap(&mut pending, &mut self.dissemination.outbox);
        pending
    }
}

// ---------------- laws ----------------
/// A listing leaves out nothing and makes up nothing: what it shows is every live entry whose name
/// begins with the prefix, and no other.
pub proof fn law_a_listing_is_complete(
    m: crate::registry::Directory,
    list: Seq<IdentityModel>,
    prefix: Seq<char>,
    id: IdentityModel,
)
    requires
        crate::registry::enumerates(list, m),
    ensures
        crate::registry::prefixed(list, prefix).contains(id) <==> crate::registry::live_entry(
            m,
            id.name,
        ) == Some(id) && prefix.is_prefix_of(id.name),
{
    lemma_prefixed(list, prefix, id);
    let pairs = Seq::new(list.len(), |i: int| (list[i].name, list[i]));
    if list.contains(id) {
        let i = choose|i: int| 0 <= i < list.len() && list[i] == id;
        assert(pairs[i].0 == id.name);
        assert(m.contains_key(pairs[i].0) && m[pairs[i].0] == pairs[i].1);
    }
    if m.contains_key(id.name) {
        let i = choose|i: int| 0 <= i < pairs.len() && #[trigger] pairs[i].0 == id.name;
        assert(m[pairs[i].0] == pairs[i].1);
        assert(list[i] == m[id.name]);
    }
}

proof fn lemma_prefixed(list: Seq<IdentityModel>, prefix: Seq<char>, id: IdentityModel)
    ensures
        crate::registry::prefixed(list, prefix).contains(id) <==> list.contains(id) && !id.deleted
            && prefix.is_prefix_of(id.name),
    decreases list.len(),
{
    if list.len() > 0 {
        let rest = list.drop_last();
        lemma_prefixed(rest, prefix, id);
        crate::broadcast::lemma_push_contains(
            crate::registry::prefixed(rest, prefix),
            list.last(),
        );
        crate::broadcast::lemma_push_contains(rest, list.last());
        assert(list =~= rest.push(list.last()));
    }
}

} // verus!
