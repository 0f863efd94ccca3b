//! What a daemon makes of its settings before it starts.
use vstd::prelude::*;

use crate::addr::SocketAddr;
use crate::mux_idle::MuxIdle;
use crate::node::reconstruct::DirEntry;
use crate::node_identity::NODE_ID_FILE;
use crate::text::{same, starts_with, trim_text};
use crate::time::Duration;

verus! {

// ---------------- lists ----------------
/// The entries of a list that are not blank, without the blanks around them, in order.
pub open spec fn entries_of(raw: Seq<String>) -> Seq<Seq<char>>
    decreases raw.len(),
{
    if raw.len() == 0 {
        Seq::empty()
    } else {
        let rest = entries_of(raw.drop_last());
        let last = crate::text::trimmed(raw.last()@);
        if last.len() == 0 {
            rest
        } else {
            rest.push(last)
        }
    }
}

/// The entries of a list setting. An empty setting, as a script makes it that has nothing to list, is
/// an empty list, not a list of one empty entry.
pub fn list_entries(raw: &Vec<String>) -> (entries: Vec<String>)
    ensures
        crate::node::topics::texts(entries@) == entries_of(raw@),
{
    let mut entries: Vec<String> = Vec::new();
    let mut i: usize = 0;
    proof {
        assert(raw@.take(0) =~= Seq::<String>::empty());
        assert(crate::node::topics::texts(entries@) =~= entries_of(raw@.take(0)));
    }
    while i < raw.len()
        invariant
            i <= raw@.len(),
            crate::node::topics::texts(entries@) == entries_of(raw@.take(i as int)),
        decreases raw@.len() - i,
    {
        proof {
            assert(raw@.take(i + 1).drop_last() =~= raw@.take(i as int));
            assert(raw@.take(i + 1).last() == raw@[i as int]);
        }
        let t = trim_text(raw[i].as_str());
        if !t.as_str().is_empty() {
            let ghost before = crate::node::topics::texts(entries@);
            entries.push(t);
            assert(crate::node::topics::texts(entries@) =~= before.push(t@));
        }
        i = i + 1;
    }
    assert(raw@.take(i as int) =~= raw@);
    entries
}

// ---------------- environment ----------------
/// Whether the daemon, or the client that starts it, reads the variable `key`.
pub open spec fn known_key(key: Seq<char>) -> bool {
    ||| key == "XCHANNELD_NODE_ID"@
    ||| key == "XCHANNELD_NODE_NAME"@
    ||| key == "XCHANNELD_DATA_DIR"@
    ||| key == "XCHANNELD_CLIENT_PATH"@
    ||| key == "XCHANNELD_STREAM_ADDR"@
    ||| key == "XCHANNELD_CONTROL_ADDR"@
    ||| key == "XCHANNELD_ADVERTISE_STREAM_ADDR"@
    ||| key == "XCHANNELD_ADVERTISE_CONTROL_ADDR"@
    ||| key == "XCHANNELD_SEEDS"@
    ||| key == "XCHANNELD_RECLAIM_AFTER_MS"@
    ||| key == "XCHANNELD_PROMOTED_TOPICS"@
    ||| key == "XCHANNELD_MUX_MAX_PARK_US"@
    ||| key == "XCHANNELD_BIN"@
}

/// Whether `key` looks as if it were meant for the daemon, but is not read: most likely misspelt, so
/// that a default is in force where the operator believes they set something.
pub fn is_unknown_key(key: &str) -> (b: bool)
    ensures
        b == ("XCHANNELD_"@.is_prefix_of(key@) && !known_key(key@)),
{
    starts_with(key, "XCHANNELD_") && !(same(key, "XCHANNELD_NODE_ID") || same(
        key,
        "XCHANNELD_NODE_NAME",
    ) || same(key, "XCHANNELD_DATA_DIR") || same(key, "XCHANNELD_CLIENT_PATH") || same(
        key,
        "XCHANNELD_STREAM_ADDR",
    ) || same(key, "XCHANNELD_CONTROL_ADDR") || same(key, "XCHANNELD_ADVERTISE_STREAM_ADDR")
        || same(key, "XCHANNELD_ADVERTISE_CONTROL_ADDR") || same(key, "XCHANNELD_SEEDS") || same(
        key,
        "XCHANNELD_RECLAIM_AFTER_MS",
    ) || same(key, "XCHANNELD_PROMOTED_TOPICS") || same(key, "XCHANNELD_MUX_MAX_PARK_US") || same(
        key,
        "XCHANNELD_BIN",
    ))
}

// ---------------- waiting ----------------
/// How the duty cycle waits, with the longest park set to `max_park_us` microseconds, if given.
pub fn mux_idle(max_park_us: Option<u64>) -> (idle: MuxIdle)
    ensures
        idle.max_spins == 512,
        idle.max_yields == 128,
        idle.min_park@ == 50_000,
        idle.max_park@ == match max_park_us {
            Some(us) => us * crate::time::NANOS_PER_MICRO,
            None => 5_000_000,
        },
{
    let standard = MuxIdle::default();
    MuxIdle {
        max_park: match max_park_us {
            Some(us) => Duration::from_micros(us),
            None => standard.max_park,
        },
        ..standard
    }
}

// ---------------- identity ----------------
/// Whether the data directory holds channels: a subdirectory that is not the node's own.
pub open spec fn holds_channels(entries: Seq<DirEntry>) -> bool {
    exists|i: int|
        0 <= i < entries.len() && (#[trigger] entries[i]).is_dir && !"."@.is_prefix_of(
            entries[i].name@,
        )
}

pub open spec fn holds_identity(entries: Seq<DirEntry>) -> bool {
    exists|i: int| 0 <= i < entries.len() && (#[trigger] entries[i]).name@ == NODE_ID_FILE@
}

/// Whether a node about to take a new identity would leave channels behind: they are on disk, its
/// identity is not, and none was set. Peers would keep them registered to the id that was lost.
pub fn would_orphan_channels(entries: &Vec<DirEntry>, configured: Option<u64>) -> (b: bool)
    ensures
        b == (holds_channels(entries@) && configured is None && !holds_identity(entries@)),
{
    let mut channels = false;
    let mut identity = false;
    let mut i: usize = 0;
    while i < entries.len()
        invariant
            i <= entries@.len(),
            channels == exists|j: int|
                0 <= j < i && (#[trigger] entries@[j]).is_dir && !"."@.is_prefix_of(
                    entries@[j].name@,
                ),
            identity == exists|j: int|
                0 <= j < i && (#[trigger] entries@[j]).name@ == NODE_ID_FILE@,
        decreases entries@.len() - i,
    {
        let e = &entries[i];
        assert(*e == entries@[i as int]);
        if e.is_dir && !starts_with(e.name.as_str(), ".") {
            channels = true;
        }
        if same(e.name.as_str(), NODE_ID_FILE) {
            identity = true;
        }
        i = i + 1;
    }
    channels && configured.is_none() && !identity
}

// ---------------- addresses ----------------
/// What is amiss with the address of a plane.
#[derive(Clone, Copy, PartialEq, Eq, Debug, Structural)]
pub struct AddressWarnings {
    /// It is bound where other hosts reach it, and the planes are open to whoever does.
    pub exposed: bool,
    /// What is to be advertised is a wildcard, which nobody can dial.
    pub advertises_wildcard: bool,
    /// A wildcard is bound, and nothing else is there to advertise.
    pub binds_wildcard: bool,
}

pub fn address_warnings(bound: SocketAddr, advertised: Option<SocketAddr>) -> (w: AddressWarnings)
    ensures
        w.exposed == !bound.loopback(),
        w.advertises_wildcard == (advertised matches Some(a) && a.unspecified()),
        w.binds_wildcard == (bound.unspecified() && advertised is None),
{
    AddressWarnings {
        exposed: !bound.is_loopback(),
        advertises_wildcard: match advertised {
            Some(a) => a.is_unspecified(),
            None => false,
        },
        binds_wildcard: bound.is_unspecified() && advertised.is_none(),
    }
}

} // verus!
