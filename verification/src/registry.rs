//! The decentralized channel registry: a map from names to the claims that hold them.
//!
//! Every node merges what it hears, in whatever order it arrives. Because collision resolution is
//! commutative, associative and idempotent, all nodes that have heard the same claims hold the same
//! map. Tombstones stay in the map, so that a late claim of a retired generation keeps losing to
//! them.
use vstd::prelude::*;

use crate::identity::{ChannelIdentity, IdentityModel, NodeId};
use crate::name_map::NameMap;
use crate::text::starts_with;

verus! {

/// The registry as a value.
pub type Directory = Map<Seq<char>, IdentityModel>;

/// Every entry stands under its own name.
pub open spec fn well_named(m: Directory) -> bool {
    forall|k: Seq<char>| #[trigger] m.contains_key(k) ==> m[k].name == k
}

/// Whether merging `id` changes the map: its name is new, or it beats the claim that holds it.
pub open spec fn moves(m: Directory, id: IdentityModel) -> bool {
    !m.contains_key(id.name) || crate::identity::beats(id, m[id.name])
}

/// The map after `id` has been merged into it.
pub open spec fn merged(m: Directory, id: IdentityModel) -> Directory {
    if moves(m, id) {
        m.insert(id.name, id)
    } else {
        m
    }
}

/// The map after all of `ids` have been merged into it, first to last.
pub open spec fn merged_all(m: Directory, ids: Seq<IdentityModel>) -> Directory
    decreases ids.len(),
{
    if ids.len() == 0 {
        m
    } else {
        merged(merged_all(m, ids.drop_last()), ids.last())
    }
}

/// The live claim to `name`.
pub open spec fn live_entry(m: Directory, name: Seq<char>) -> Option<IdentityModel> {
    if m.contains_key(name) && !m[name].deleted {
        Some(m[name])
    } else {
        None
    }
}

/// `id` as a tombstone of its own generation.
pub open spec fn tombstone_of(id: IdentityModel) -> IdentityModel {
    IdentityModel { deleted: true, ..id }
}

/// The generation that a fresh claim to `name` belongs to: the first for a name never used, the
/// current one for a live name, the next one for a tombstoned name.
pub open spec fn next_epoch(m: Directory, name: Seq<char>) -> int {
    if !m.contains_key(name) {
        0
    } else if m[name].deleted {
        m[name].epoch + 1
    } else {
        m[name].epoch as int
    }
}

/// Whether `name` has a generation left to claim.
pub open spec fn has_epoch(m: Directory, name: Seq<char>) -> bool {
    next_epoch(m, name) <= u64::MAX
}

/// `list` holds the entries of `m`, each once, in name order.
pub open spec fn enumerates(list: Seq<IdentityModel>, m: Directory) -> bool {
    crate::name_map::lists(
        Seq::new(list.len(), |i: int| (list[i].name, list[i])),
        m,
    )
}

/// The entries of `m`, each once, in name order.
pub open spec fn listing(m: Directory) -> Seq<IdentityModel> {
    choose|list: Seq<IdentityModel>| enumerates(list, m)
}

proof fn lemma_listing(list: Seq<IdentityModel>, m: Directory)
    requires
        enumerates(list, m),
    ensures
        listing(m) == list,
{
    let other = listing(m);
    assert(enumerates(other, m));
    let a = Seq::new(list.len(), |i: int| (list[i].name, list[i]));
    let b = Seq::new(other.len(), |i: int| (other[i].name, other[i]));
    crate::name_map::lemma_one_listing(a, b, m);
    assert(a.len() == b.len());
    assert forall|i: int| 0 <= i < list.len() implies list[i] == other[i] by {
        assert(a[i] == b[i]);
    }
    assert(list =~= other);
}

/// What a merge did.
pub struct Merged {
    /// The claim that now holds the name.
    pub winner: ChannelIdentity,
    /// Whether the map changed.
    pub changed: bool,
}

pub struct Registry {
    channels: NameMap<ChannelIdentity>,
}

impl View for Registry {
    type V = Directory;

    closed spec fn view(&self) -> Directory {
        self.channels@
    }
}

impl Registry {
    #[verifier::type_invariant]
    spec fn entries_named(&self) -> bool {
        well_named(self.channels@)
    }

    spec fn list(&self) -> Seq<IdentityModel> {
        Seq::new(crate::name_map::listing(self.channels@).len(), |i: int| crate::name_map::listing(self.channels@)[i].1)
    }

    pub fn new() -> (r: Registry)
        ensures
            r@ == Map::<Seq<char>, IdentityModel>::empty(),
    {
        Registry { channels: NameMap::new() }
    }

    /// Merges a claim: a local registration, one heard from a peer, or a tombstone. Returns the
    /// claim that now holds the name.
    pub fn merge(&mut self, incoming: ChannelIdentity) -> (winner: ChannelIdentity)
        ensures
            final(self)@ == merged(old(self)@, incoming@),
            well_named(final(self)@),
            final(self)@.contains_key(incoming@.name),
            winner@ == final(self)@[incoming@.name],
    {
        self.merge_tracked(incoming).winner
    }

    /// [`merge`](Self::merge), also telling whether the map changed.
    pub fn merge_tracked(&mut self, incoming: ChannelIdentity) -> (r: Merged)
        ensures
            final(self)@ == merged(old(self)@, incoming@),
            well_named(final(self)@),
            final(self)@.contains_key(incoming@.name),
            r.winner@ == final(self)@[incoming@.name],
            r.changed == moves(old(self)@, incoming@),
            !r.changed ==> *final(self) == *old(self),
    {
        proof {
            use_type_invariant(&*self);
        }
        match self.channels.get(incoming.name.as_str()) {
            Some(existing) => {
                let w = ChannelIdentity::resolve_collision(existing, &incoming);
                let winner = w.clone();
                if crate::identity::lost_to(existing, &winner) {
                    let name = incoming.name.clone();
                    self.put(name, incoming);
                    Merged { winner, changed: true }
                } else {
                    Merged { winner, changed: false }
                }
            },
            None => {
                let name = incoming.name.clone();
                let winner = incoming.clone();
                self.put(name, incoming);
                Merged { winner, changed: true }
            },
        }
    }

    fn put(&mut self, name: String, id: ChannelIdentity)
        requires
            id@.name == name@,
        ensures
            final(self)@ == old(self)@.insert(name@, id@),
            well_named(final(self)@),
    {
        proof {
            use_type_invariant(&*self);
        }
        let mut channels: NameMap<ChannelIdentity> = NameMap::new();
        std::mem::swap(&mut channels, &mut self.channels);
        channels.insert(name, id);
        self.channels = channels;
    }

    /// The live claim to `name`; `None` if the name is unknown or tombstoned.
    pub fn get(&self, name: &str) -> (r: Option<&ChannelIdentity>)
        ensures
            match r {
                Some(id) => live_entry(self@, name@) == Some(id@),
                None => live_entry(self@, name@) is None,
            },
            r matches Some(id) ==> id@.name == name@,
    {
        proof {
            use_type_invariant(self);
        }
        match self.channels.get(name) {
            Some(id) => if id.deleted {
                None
            } else {
                Some(id)
            },
            None => None,
        }
    }

    /// The claim that holds `name`, tombstone or not.
    pub fn get_raw(&self, name: &str) -> (r: Option<&ChannelIdentity>)
        ensures
            match r {
                Some(id) => self@.contains_key(name@) && id@ == self@[name@] && id@.name == name@,
                None => !self@.contains_key(name@),
            },
    {
        proof {
            use_type_invariant(self);
        }
        self.channels.get(name)
    }

    /// Whether `name` has a generation left to claim: all but a name whose last generation is
    /// tombstoned.
    pub fn claimable(&self, name: &str) -> (b: bool)
        ensures
            b == has_epoch(self@, name@),
    {
        match self.get_raw(name) {
            Some(id) => !id.deleted || id.epoch < u64::MAX,
            None => true,
        }
    }

    /// The generation that a fresh claim to `name` should use.
    pub fn claim_epoch(&self, name: &str) -> (epoch: u64)
        requires
            has_epoch(self@, name@),
        ensures
            epoch == next_epoch(self@, name@),
    {
        match self.get_raw(name) {
            Some(id) => if id.deleted {
                id.epoch + 1
            } else {
                id.epoch
            },
            None => 0,
        }
    }

    /// Tombstones `name` if it is live and owned by `owner`, and returns the tombstone to
    /// disseminate. Only the owner may deregister.
    pub fn deregister(&mut self, name: &str, owner: NodeId) -> (r: Option<ChannelIdentity>)
        ensures
            match live_entry(old(self)@, name@) {
                Some(id) if id.owner == owner => {
                    &&& r matches Some(t) && t@ == tombstone_of(id)
                    &&& final(self)@ == old(self)@.insert(name@, tombstone_of(id))
                },
                _ => r is None && *final(self) == *old(self),
            },
    {
        match self.get(name) {
            Some(current) => {
                if current.owner.0 != owner.0 {
                    return None;
                }
            },
            None => {
                return None;
            },
        }
        self.reap(name)
    }

    /// Tombstones `name` if it is live, whoever owns it, and returns the tombstone to disseminate.
    pub fn reap(&mut self, name: &str) -> (r: Option<ChannelIdentity>)
        ensures
            match live_entry(old(self)@, name@) {
                Some(id) => {
                    &&& r matches Some(t) && t@ == tombstone_of(id)
                    &&& final(self)@ == old(self)@.insert(name@, tombstone_of(id))
                },
                None => r is None && *final(self) == *old(self),
            },
    {
        let mut tombstone = match self.get(name) {
            Some(current) => current.clone(),
            None => {
                return None;
            },
        };
        tombstone.deleted = true;
        Some(self.merge(tombstone))
    }

    /// How many entries there are, tombstones among them.
    pub fn len(&self) -> (n: usize)
        ensures
            n == listing(self@).len(),
            enumerates(listing(self@), self@),
    {
        self.count()
    }

    fn count(&self) -> (n: usize)
        ensures
            n == crate::name_map::listing(self.channels@).len(),
            self.list() == listing(self@),
            enumerates(self.list(), self@),
    {
        let n = self.channels.len();
        proof {
            use_type_invariant(self);
            let list = self.list();
            let pairs = Seq::new(list.len(), |i: int| (list[i].name, list[i]));
            assert forall|i: int| 0 <= i < pairs.len() implies pairs[i]
                == crate::name_map::listing(self.channels@)[i] by {
                let k = crate::name_map::listing(self.channels@)[i].0;
                assert(self.channels@.contains_key(k));
            }
            assert(pairs =~= crate::name_map::listing(self.channels@));
            lemma_listing(list, self@);
        }
        n
    }

    /// The entry at place `i` in name order.
    pub fn at(&self, i: usize) -> (id: &ChannelIdentity)
        requires
            i < listing(self@).len(),
        ensures
            id@ == listing(self@)[i as int],
    {
        let _ = self.count();
        self.channels.value_at(i)
    }

    /// All entries, tombstones among them, in name order: what a peer is sent when it joins, so that
    /// it learns of deletions too.
    pub fn iter(&self) -> (ids: Vec<ChannelIdentity>)
        ensures
            crate::identity::models(ids@) == listing(self@),
            enumerates(listing(self@), self@),
    {
        let n = self.len();
        let mut ids: Vec<ChannelIdentity> = Vec::new();
        let mut i: usize = 0;
        while i < n
            invariant
                i <= n == listing(self@).len(),
                crate::identity::models(ids@) == listing(self@).take(i as int),
            decreases n - i,
        {
            let ghost before = crate::identity::models(ids@);
            ids.push(self.at(i).clone());
            assert(crate::identity::models(ids@) =~= before.push(listing(self@)[i as int]));
            assert(listing(self@).take(i + 1) =~= listing(self@).take(i as int).push(
                listing(self@)[i as int],
            ));
            i = i + 1;
        }
        assert(listing(self@).take(n as int) =~= listing(self@));
        ids
    }

    /// The live entries whose names begin with `prefix`, in name order.
    pub fn with_prefix(&self, prefix: &str) -> (ids: Vec<ChannelIdentity>)
        ensures
            crate::identity::models(ids@) == prefixed(listing(self@), prefix@),
            enumerates(listing(self@), self@),
    {
        let n = self.len();
        let mut ids: Vec<ChannelIdentity> = Vec::new();
        let mut i: usize = 0;
        assert(listing(self@).take(0) =~= Seq::<IdentityModel>::empty());
        assert(crate::identity::models(ids@) =~= prefixed(listing(self@).take(0), prefix@));
        while i < n
            invariant
                i <= n == listing(self@).len(),
                crate::identity::models(ids@) == prefixed(listing(self@).take(i as int), prefix@),
            decreases n - i,
        {
            let id = self.at(i);
            proof {
                assert(listing(self@).take(i + 1).drop_last() =~= listing(self@).take(i as int));
                assert(listing(self@).take(i + 1).last() == id@);
            }
            if !id.deleted && starts_with(id.name.as_str(), prefix) {
                let ghost before = crate::identity::models(ids@);
                ids.push(id.clone());
                assert(crate::identity::models(ids@) =~= before.push(id@));
            }
            i = i + 1;
        }
        assert(listing(self@).take(n as int) =~= listing(self@));
        ids
    }
}

/// The live entries of `list` whose names begin with `prefix`, in the order of `list`.
pub open spec fn prefixed(list: Seq<IdentityModel>, prefix: Seq<char>) -> Seq<IdentityModel>
    decreases list.len(),
{
    if list.len() == 0 {
        Seq::empty()
    } else {
        let rest = prefixed(list.drop_last(), prefix);
        if !list.last().deleted && prefix.is_prefix_of(list.last().name) {
            rest.push(list.last())
        } else {
            rest
        }
    }
}

// ---------------- laws ----------------
/// Merging keeps every entry under its own name.
pub proof fn lemma_merged_all_named(m: Directory, ids: Seq<IdentityModel>)
    requires
        well_named(m),
    ensures
        well_named(merged_all(m, ids)),
    decreases ids.len(),
{
    if ids.len() > 0 {
        lemma_merged_all_named(m, ids.drop_last());
    }
}

/// Merging a claim a second time changes nothing.
pub proof fn law_merge_idempotent(m: Directory, id: IdentityModel)
    ensures
        !moves(merged(m, id), id),
        merged(merged(m, id), id) == merged(m, id),
{
}

/// Two claims may be merged in either order, unless they are different claims that rank alike.
pub proof fn law_merge_commutative(m: Directory, a: IdentityModel, b: IdentityModel)
    requires
        a.name == b.name && crate::identity::rank(a) == crate::identity::rank(b) ==> a == b,
    ensures
        merged(merged(m, a), b) == merged(merged(m, b), a),
{
    assert(merged(merged(m, a), b) =~= merged(merged(m, b), a));
}

/// A claim that has been merged never moves the map again, whatever is merged after it. This is
/// what makes relaying on change end: a claim moves each node's map at most once.
pub proof fn law_a_claim_moves_a_map_once(
    m: Directory,
    id: IdentityModel,
    later: Seq<IdentityModel>,
)
    ensures
        !moves(merged_all(merged(m, id), later), id),
    decreases later.len(),
{
    if later.len() > 0 {
        law_a_claim_moves_a_map_once(m, id, later.drop_last());
    }
}

/// A retired generation stays retired: as long as only claims of that generation or earlier ones
/// arrive, a tombstoned name stays tombstoned.
pub proof fn law_stale_claims_cannot_resurrect(
    m: Directory,
    name: Seq<char>,
    ids: Seq<IdentityModel>,
)
    requires
        m.contains_key(name),
        m[name].deleted,
        forall|i: int|
            0 <= i < ids.len() && (#[trigger] ids[i]).name == name ==> ids[i].epoch
                <= m[name].epoch,
    ensures
        live_entry(merged_all(m, ids), name) is None,
        merged_all(m, ids).contains_key(name),
        merged_all(m, ids)[name].deleted,
        merged_all(m, ids)[name].epoch == m[name].epoch,
    decreases ids.len(),
{
    if ids.len() > 0 {
        let front = ids.drop_last();
        assert forall|i: int| 0 <= i < front.len() && (#[trigger] front[i]).name
            == name implies front[i].epoch <= m[name].epoch by {
            assert(front[i] == ids[i]);
        }
        law_stale_claims_cannot_resurrect(m, name, front);
        assert(ids.last() == ids[ids.len() - 1]);
    }
}

/// A fresh claim at the next generation takes a tombstoned name back.
pub proof fn law_reclaim_wins(m: Directory, id: IdentityModel)
    requires
        m.contains_key(id.name),
        m[id.name].deleted,
        id.epoch == next_epoch(m, id.name),
        !id.deleted,
    ensures
        moves(m, id),
        live_entry(merged(m, id), id.name) == Some(id),
        id.epoch == m[id.name].epoch + 1,
{
}

/// A fresh claim to a live name, made after the one that holds it, does not take it: the first
/// registrant keeps the name.
pub proof fn law_first_registrant_keeps_the_name(m: Directory, id: IdentityModel)
    requires
        m.contains_key(id.name),
        !m[id.name].deleted,
        id.epoch == next_epoch(m, id.name),
        !id.deleted,
        id.registered_at_nanos > m[id.name].registered_at_nanos,
    ensures
        !moves(m, id),
        merged(m, id) == m,
{
}

/// `v` holds the name `k` once `ids` have been merged into `m`.
spec fn is_best(m: Directory, ids: Seq<IdentityModel>, k: Seq<char>, v: IdentityModel) -> bool {
    &&& (m.contains_key(k) && v == m[k]) || (exists|i: int|
        0 <= i < ids.len() && #[trigger] ids[i] == v && v.name == k)
    &&& m.contains_key(k) ==> !crate::identity::beats(m[k], v)
    &&& forall|i: int|
        0 <= i < ids.len() && (#[trigger] ids[i]).name == k ==> !crate::identity::beats(ids[i], v)
    &&& m.contains_key(k) && crate::identity::rank(m[k]) == crate::identity::rank(v) ==> v == m[k]
}

proof fn lemma_merged_all_best(m: Directory, ids: Seq<IdentityModel>, k: Seq<char>)
    ensures
        merged_all(m, ids).contains_key(k) <==> (m.contains_key(k) || exists|i: int|
            0 <= i < ids.len() && (#[trigger] ids[i]).name == k),
        merged_all(m, ids).contains_key(k) ==> is_best(m, ids, k, merged_all(m, ids)[k]),
    decreases ids.len(),
{
    if ids.len() > 0 {
        let front = ids.drop_last();
        let last = ids.last();
        lemma_merged_all_best(m, front, k);
        let before = merged_all(m, front);
        let after = merged_all(m, ids);
        assert(forall|i: int| 0 <= i < front.len() ==> front[i] == #[trigger] ids[i]);
        assert(ids[ids.len() - 1] == last);
        if exists|i: int| 0 <= i < front.len() && (#[trigger] front[i]).name == k {
            let i = choose|i: int| 0 <= i < front.len() && (#[trigger] front[i]).name == k;
            assert(ids[i].name == k);
        }
        if after.contains_key(k) {
            let v = after[k];
            if last.name == k && moves(before, last) {
                assert(v == last);
                assert forall|i: int| 0 <= i < ids.len() && (#[trigger] ids[i]).name
                    == k implies !crate::identity::beats(ids[i], v) by {
                    if i < front.len() {
                        assert(front[i] == ids[i]);
                        if crate::identity::beats(ids[i], v) {
                            assert(before.contains_key(k));
                            crate::identity::lemma_beats_transitive(ids[i], v, before[k]);
                        }
                    }
                }
            } else {
                assert(v == before[k]);
                if !(m.contains_key(k) && v == m[k]) {
                    let i = choose|i: int|
                        0 <= i < front.len() && #[trigger] front[i] == v && v.name == k;
                    assert(ids[i] == v);
                }
                assert forall|i: int| 0 <= i < ids.len() && (#[trigger] ids[i]).name
                    == k implies !crate::identity::beats(ids[i], v) by {
                    if i < front.len() {
                        assert(front[i] == ids[i]);
                    }
                }
            }
        }
    }
}

/// Whether `a` and `b` hold the same claims, in any order and with any repetitions.
pub open spec fn same_claims(a: Seq<IdentityModel>, b: Seq<IdentityModel>) -> bool {
    forall|id: IdentityModel| a.contains(id) <==> b.contains(id)
}

/// Whether no two different claims in `ids` to one name rank alike.
pub open spec fn no_ties(ids: Seq<IdentityModel>) -> bool {
    forall|i: int, j: int|
        0 <= i < ids.len() && 0 <= j < ids.len() && (#[trigger] ids[i]).name == (
        #[trigger] ids[j]).name && crate::identity::rank(ids[i]) == crate::identity::rank(ids[j])
            ==> ids[i] == ids[j]
}

proof fn lemma_merge_converges_at(
    m: Directory,
    a: Seq<IdentityModel>,
    b: Seq<IdentityModel>,
    k: Seq<char>,
)
    requires
        same_claims(a, b),
        no_ties(a),
    ensures
        merged_all(m, a).contains_key(k) == merged_all(m, b).contains_key(k),
        merged_all(m, a).contains_key(k) ==> merged_all(m, a)[k] == merged_all(m, b)[k],
{
    let (x, y) = (merged_all(m, a), merged_all(m, b));
    lemma_merged_all_best(m, a, k);
    lemma_merged_all_best(m, b, k);
    if exists|i: int| 0 <= i < a.len() && (#[trigger] a[i]).name == k {
        let i = choose|i: int| 0 <= i < a.len() && (#[trigger] a[i]).name == k;
        assert(a.contains(a[i]));
        let j = choose|j: int| 0 <= j < b.len() && b[j] == a[i];
        assert(b[j].name == k);
    }
    if exists|i: int| 0 <= i < b.len() && (#[trigger] b[i]).name == k {
        let i = choose|i: int| 0 <= i < b.len() && (#[trigger] b[i]).name == k;
        assert(b.contains(b[i]));
        let j = choose|j: int| 0 <= j < a.len() && a[j] == b[i];
        assert(a[j].name == k);
    }
    if x.contains_key(k) {
        let (v, w) = (x[k], y[k]);
        crate::identity::lemma_beats_total(v, w);
        // Neither beats the other, so they rank alike.
        assert(!crate::identity::beats(v, w)) by {
            if !(m.contains_key(k) && v == m[k]) {
                let i = choose|i: int|
                    0 <= i < a.len() && #[trigger] a[i] == v && v.name == k;
                assert(a.contains(v));
                let j = choose|j: int| 0 <= j < b.len() && b[j] == v;
                assert(b[j].name == k);
            }
        }
        assert(!crate::identity::beats(w, v)) by {
            if !(m.contains_key(k) && w == m[k]) {
                let i = choose|i: int|
                    0 <= i < b.len() && #[trigger] b[i] == w && w.name == k;
                assert(b.contains(w));
                let j = choose|j: int| 0 <= j < a.len() && a[j] == w;
                assert(a[j].name == k);
            }
        }
        if m.contains_key(k) && (v == m[k] || w == m[k]) {
            assert(v == w);
        } else {
            let i = choose|i: int| 0 <= i < a.len() && #[trigger] a[i] == v && v.name == k;
            let j0 = choose|j: int| 0 <= j < b.len() && #[trigger] b[j] == w && w.name == k;
            assert(b.contains(w));
            let j = choose|j: int| 0 <= j < a.len() && a[j] == w;
            assert(a[i].name == a[j].name);
        }
    }
}

/// Nodes that start alike and merge the same claims, in any order and however often, hold the same
/// map.
pub proof fn law_merge_converges(m: Directory, a: Seq<IdentityModel>, b: Seq<IdentityModel>)
    requires
        same_claims(a, b),
        no_ties(a),
    ensures
        merged_all(m, a) == merged_all(m, b),
{
    let (x, y) = (merged_all(m, a), merged_all(m, b));
    assert forall|k: Seq<char>| #[trigger] x.dom().contains(k) == y.dom().contains(k) by {
        lemma_merge_converges_at(m, a, b, k);
    }
    assert forall|k: Seq<char>| #[trigger] x.dom().contains(k) implies x[k] == y[k] by {
        lemma_merge_converges_at(m, a, b, k);
    }
    assert(x =~= y);
}

} // verus!
