//! What the network knows of a channel, and which of two claims to a name wins.
use vstd::prelude::*;

verus! {

/// A node. Channel ownership, membership and peer links are keyed on it.
#[derive(Clone, Copy, PartialEq, Eq, PartialOrd, Ord, Hash, Debug, Structural)]
pub struct NodeId(pub u64);

/// The absolute index of a record in its channel.
#[derive(Clone, Copy, PartialEq, Eq, PartialOrd, Ord, Hash, Debug, Structural)]
pub struct RecordIndex(pub u64);

/// One claim to a channel name: who owns it, its geometry, and where the claim stands among others
/// to the same name. `deleted` marks a tombstone.
#[derive(PartialEq, Eq, Debug)]
pub struct ChannelIdentity {
    pub name: String,
    pub owner: NodeId,
    pub region_size: u32,
    pub mtu: u32,
    pub earliest_index: RecordIndex,
    pub registered_at_nanos: u64,
    /// The generation of the name. Reclaiming a tombstoned name starts the next one.
    pub epoch: u64,
    pub deleted: bool,
    /// The topic this channel feeds, if it feeds one.
    pub member_of: Option<String>,
}

/// A [`ChannelIdentity`] as a value.
#[verifier::ext_equal]
pub struct IdentityModel {
    pub name: Seq<char>,
    pub owner: NodeId,
    pub region_size: u32,
    pub mtu: u32,
    pub earliest_index: RecordIndex,
    pub registered_at_nanos: u64,
    pub epoch: u64,
    pub deleted: bool,
    pub member_of: Option<Seq<char>>,
}

/// The text of an optional string.
pub open spec fn opt_text(s: Option<String>) -> Option<Seq<char>> {
    match s {
        Some(t) => Some(t@),
        None => None,
    }
}

pub fn clone_opt(s: &Option<String>) -> (r: Option<String>)
    ensures
        opt_text(r) == opt_text(*s),
{
    match s {
        Some(t) => Some(t.clone()),
        None => None,
    }
}

impl View for ChannelIdentity {
    type V = IdentityModel;

    open spec fn view(&self) -> IdentityModel {
        IdentityModel {
            name: self.name@,
            owner: self.owner,
            region_size: self.region_size,
            mtu: self.mtu,
            earliest_index: self.earliest_index,
            registered_at_nanos: self.registered_at_nanos,
            epoch: self.epoch,
            deleted: self.deleted,
            member_of: opt_text(self.member_of),
        }
    }
}

impl Clone for ChannelIdentity {
    fn clone(&self) -> (r: ChannelIdentity)
        ensures
            r@ == self@,
    {
        ChannelIdentity {
            name: self.name.clone(),
            owner: self.owner,
            region_size: self.region_size,
            mtu: self.mtu,
            earliest_index: self.earliest_index,
            registered_at_nanos: self.registered_at_nanos,
            epoch: self.epoch,
            deleted: self.deleted,
            member_of: clone_opt(&self.member_of),
        }
    }
}

/// The values of a run of identities.
pub open spec fn models(ids: Seq<ChannelIdentity>) -> Seq<IdentityModel> {
    Seq::new(ids.len(), |i: int| ids[i]@)
}

/// What claims to one name are ordered by.
pub open spec fn rank(id: IdentityModel) -> (u64, bool, u64, NodeId) {
    (id.epoch, id.deleted, id.registered_at_nanos, id.owner)
}

/// Whether the claim `a` beats the claim `b`: it is of a later generation; or, within one
/// generation, it is the tombstone; or it was registered earlier; or, at the very same time, by the
/// lower node id.
pub open spec fn beats(a: IdentityModel, b: IdentityModel) -> bool {
    if a.epoch != b.epoch {
        a.epoch > b.epoch
    } else if a.deleted != b.deleted {
        a.deleted
    } else if a.registered_at_nanos != b.registered_at_nanos {
        a.registered_at_nanos < b.registered_at_nanos
    } else {
        a.owner.0 < b.owner.0
    }
}

/// The claim that holds the name once `incoming` has met `existing`.
pub open spec fn winner(existing: IdentityModel, incoming: IdentityModel) -> IdentityModel {
    if beats(incoming, existing) {
        incoming
    } else {
        existing
    }
}

impl ChannelIdentity {
    /// Which of two claims to one name holds it. Claims that rank alike leave the existing one.
    pub fn resolve_collision<'a>(
        existing: &'a ChannelIdentity,
        incoming: &'a ChannelIdentity,
    ) -> (w: &'a ChannelIdentity)
        ensures
            w@ == winner(existing@, incoming@),
            *w == if beats(incoming@, existing@) {
                *incoming
            } else {
                *existing
            },
    {
        let incoming_wins = if incoming.epoch != existing.epoch {
            incoming.epoch > existing.epoch
        } else if incoming.deleted != existing.deleted {
            incoming.deleted
        } else if incoming.registered_at_nanos != existing.registered_at_nanos {
            incoming.registered_at_nanos < existing.registered_at_nanos
        } else {
            incoming.owner.0 < existing.owner.0
        };
        if incoming_wins {
            incoming
        } else {
            existing
        }
    }
}

/// Whether `incoming` genuinely lost to `winner`: it ranks differently. Claims that rank alike
/// cannot move each other, whatever else they differ in.
pub fn lost_to(incoming: &ChannelIdentity, winner: &ChannelIdentity) -> (b: bool)
    ensures
        b == (rank(incoming@) != rank(winner@)),
{
    !(incoming.epoch == winner.epoch && incoming.deleted == winner.deleted
        && incoming.registered_at_nanos == winner.registered_at_nanos && incoming.owner
        == winner.owner)
}

/// A claim never beats itself, nor one that ranks alike, and of two that rank differently exactly
/// one beats the other.
pub proof fn lemma_beats_total(a: IdentityModel, b: IdentityModel)
    ensures
        !(beats(a, b) && beats(b, a)),
        (beats(a, b) || beats(b, a)) <==> rank(a) != rank(b),
{
}

pub proof fn lemma_beats_transitive(a: IdentityModel, b: IdentityModel, c: IdentityModel)
    requires
        beats(a, b),
        beats(b, c),
    ensures
        beats(a, c),
{
}

/// Meeting a claim twice changes nothing: collision resolution is idempotent.
pub proof fn law_winner_idempotent(a: IdentityModel, b: IdentityModel)
    ensures
        winner(a, a) == a,
        winner(winner(a, b), b) == winner(a, b),
        winner(winner(a, b), a) == winner(a, b),
{
}

/// How claims are grouped makes no difference: collision resolution is associative.
pub proof fn law_winner_associative(a: IdentityModel, b: IdentityModel, c: IdentityModel)
    ensures
        winner(winner(a, b), c) == winner(a, winner(b, c)),
{
}

/// The order in which two claims meet makes no difference: collision resolution is commutative,
/// as long as claims that rank alike are the same claim.
pub proof fn law_winner_commutative(a: IdentityModel, b: IdentityModel)
    requires
        rank(a) == rank(b) ==> a == b,
    ensures
        winner(a, b) == winner(b, a),
{
}

/// A tombstone dominates its generation: no live claim of that generation, or of an earlier one,
/// takes the name back.
pub proof fn law_tombstone_dominates(tombstone: IdentityModel, incoming: IdentityModel)
    requires
        tombstone.deleted,
        !incoming.deleted,
        incoming.epoch <= tombstone.epoch,
    ensures
        winner(tombstone, incoming) == tombstone,
        winner(incoming, tombstone) == tombstone,
{
}

} // verus!
