//! Rebuilding from disk what a node hosts.
//!
//! A restarted node restores nothing that was saved: it looks at what is in its data directory.
//! There is one subdirectory per channel. A topic tells itself from a plain channel by its content,
//! and names its own members. Topics come first: each registers those of its members that are local
//! as its own, and they are then passed over as plain channels. Registered plain, such a member would
//! look as if it had left its topic.
use vstd::prelude::*;

use crate::error::{ErrorKind, NodeError};
use crate::identity::IdentityModel;
use crate::names::{channel_path, replica_path, validate_channel_name};
use crate::node::registration::{announced, name_taken};
use crate::node::Node;
use crate::table::Incarnation;
use crate::text::{quoted, same};

verus! {

/// What a restart rebuilt. A channel is skipped if it is on disk but cannot be served: its name is
/// held elsewhere, or its files do not open.
#[derive(Clone, Copy, PartialEq, Eq, Debug, Structural)]
pub struct Reconstructed {
    pub topics: usize,
    pub origins: usize,
    pub skipped: usize,
}

impl Default for Reconstructed {
    fn default() -> (r: Reconstructed)
        ensures
            r.topics == 0,
            r.origins == 0,
            r.skipped == 0,
    {
        Reconstructed { topics: 0, origins: 0, skipped: 0 }
    }
}

/// An entry of the data directory.
pub struct DirEntry {
    pub name: String,
    pub is_dir: bool,
}

/// What a topic's log says of the topic.
pub struct TopicConfig {
    pub region_size: u32,
    pub mtu: u32,
    pub file_roll_size: u64,
    pub keep_files: u32,
    pub members: Vec<Incarnation>,
}

/// What the log of a channel found on disk turned out to be.
pub enum Content {
    /// A topic's, which says this of the topic.
    Topic(TopicConfig),
    /// A plain channel's.
    Plain,
    /// It could not be read.
    Unreadable,
}

/// A channel found on disk.
pub struct OnDisk {
    pub name: String,
    pub content: Content,
}

/// The channels to rebuild, in the order to do it in, and those that cannot be.
pub struct Inventory {
    pub topics: Vec<(String, TopicConfig)>,
    pub origins: Vec<String>,
    pub unreadable: Vec<String>,
}

/// What the header of a log says.
pub struct Header {
    /// The channel it was written for.
    pub channel_name: String,
    pub region_size: u32,
    pub mtu: u32,
}

/// The names in `entries` that are channels, in order.
pub open spec fn channels_among(entries: Seq<DirEntry>) -> Seq<Seq<char>>
    decreases entries.len(),
{
    if entries.len() == 0 {
        Seq::empty()
    } else {
        let rest = channels_among(entries.drop_last());
        let last = entries.last();
        if last.is_dir && crate::names::valid_name(last.name@) {
            rest.push(last.name@)
        } else {
            rest
        }
    }
}

/// The topics of `found`, in order.
pub open spec fn topics_among(found: Seq<OnDisk>) -> Seq<(Seq<char>, TopicConfig)>
    decreases found.len(),
{
    if found.len() == 0 {
        Seq::empty()
    } else {
        let rest = topics_among(found.drop_last());
        match found.last().content {
            Content::Topic(cfg) => rest.push((found.last().name@, cfg)),
            _ => rest,
        }
    }
}

/// The plain channels of `found`, in order.
pub open spec fn origins_among(found: Seq<OnDisk>) -> Seq<Seq<char>>
    decreases found.len(),
{
    if found.len() == 0 {
        Seq::empty()
    } else {
        let rest = origins_among(found.drop_last());
        match found.last().content {
            Content::Plain => rest.push(found.last().name@),
            _ => rest,
        }
    }
}

/// The channels of `found` whose logs could not be read, in order.
pub open spec fn unreadable_among(found: Seq<OnDisk>) -> Seq<Seq<char>>
    decreases found.len(),
{
    if found.len() == 0 {
        Seq::empty()
    } else {
        let rest = unreadable_among(found.drop_last());
        match found.last().content {
            Content::Unreadable => rest.push(found.last().name@),
            _ => rest,
        }
    }
}

pub open spec fn named(list: Seq<(String, TopicConfig)>) -> Seq<(Seq<char>, TopicConfig)> {
    Seq::new(list.len(), |i: int| (list[i].0@, list[i].1))
}

/// The error for a log found under a name that is not its own.
pub open spec fn other_channel(path: Seq<char>, stamped: Seq<char>, expected: Seq<char>) -> (
    ErrorKind,
    Seq<char>,
) {
    (
        ErrorKind::InvalidData,
        crate::text::quoted_path(path) + " holds channel '"@ + stamped
            + "', but its directory says '"@ + expected
            + "' — refusing to serve one channel's records under another's name"@,
    )
}

/// How many of `outcomes` are true.
pub open spec fn successes(outcomes: Seq<bool>) -> nat
    decreases outcomes.len(),
{
    if outcomes.len() == 0 {
        0
    } else {
        successes(outcomes.drop_last()) + if outcomes.last() {
            1nat
        } else {
            0
        }
    }
}

/// The entries of the data directory that are channels: directories with a channel's name. Those of
/// the node itself begin with a dot, which no channel's name does.
pub fn channel_names(entries: Vec<DirEntry>) -> (names: Vec<String>)
    ensures
        crate::node::topics::texts(names@) == channels_among(entries@),
{
    let mut names: Vec<String> = Vec::new();
    proof {
        assert(entries@.take(0) =~= Seq::<DirEntry>::empty());
        assert(crate::node::topics::texts(names@) =~= channels_among(entries@.take(0)));
    }
    for e in it: entries
        invariant
            it.seq() == entries@,
            crate::node::topics::texts(names@) == channels_among(entries@.take(it.index())),
    {
        let ghost i = it.index();
        proof {
            assert(e == entries@[i]);
            assert(entries@.take(i + 1).drop_last() =~= entries@.take(i));
            assert(entries@.take(i + 1).last() == e);
        }
        if e.is_dir && validate_channel_name(e.name.as_str()).is_ok() {
            let ghost before = crate::node::topics::texts(names@);
            names.push(e.name);
            assert(crate::node::topics::texts(names@) =~= before.push(e.name@));
        }
    }
    assert(entries@.take(entries@.len() as int) =~= entries@);
    names
}

/// Parts the topics from the plain channels, and both from what could not be read.
pub fn take_inventory(found: Vec<OnDisk>) -> (r: Inventory)
    ensures
        named(r.topics@) == topics_among(found@),
        crate::node::topics::texts(r.origins@) == origins_among(found@),
        crate::node::topics::texts(r.unreadable@) == unreadable_among(found@),
        crate::node::topics::texts(r.origins@) == found@.filter(
            crate::promises::restart::is_plain(),
        ).map_values(crate::promises::restart::its_name()),
        crate::node::topics::texts(r.unreadable@) == found@.filter(
            crate::promises::restart::is_unreadable(),
        ).map_values(crate::promises::restart::its_name()),
        named(r.topics@) == found@.filter(crate::promises::restart::is_topic()).map_values(
            crate::promises::restart::its_config(),
        ),
{
    let mut topics: Vec<(String, TopicConfig)> = Vec::new();
    let mut origins: Vec<String> = Vec::new();
    let mut unreadable: Vec<String> = Vec::new();
    proof {
        assert(found@.take(0) =~= Seq::<OnDisk>::empty());
        assert(named(topics@) =~= topics_among(found@.take(0)));
        assert(crate::node::topics::texts(origins@) =~= origins_among(found@.take(0)));
        assert(crate::node::topics::texts(unreadable@) =~= unreadable_among(found@.take(0)));
    }
    for f in it: found
        invariant
            it.seq() == found@,
            named(topics@) == topics_among(found@.take(it.index())),
            crate::node::topics::texts(origins@) == origins_among(found@.take(it.index())),
            crate::node::topics::texts(unreadable@) == unreadable_among(
                found@.take(it.index()),
            ),
    {
        let ghost i = it.index();
        proof {
            assert(f == found@[i]);
            assert(found@.take(i + 1).drop_last() =~= found@.take(i));
            assert(found@.take(i + 1).last() == f);
        }
        match f.content {
            Content::Topic(cfg) => {
                let ghost before = named(topics@);
                topics.push((f.name, cfg));
                assert(named(topics@) =~= before.push((f.name@, cfg)));
            },
            Content::Plain => {
                let ghost before = crate::node::topics::texts(origins@);
                origins.push(f.name);
                assert(crate::node::topics::texts(origins@) =~= before.push(f.name@));
            },
            Content::Unreadable => {
                let ghost before = crate::node::topics::texts(unreadable@);
                unreadable.push(f.name);
                assert(crate::node::topics::texts(unreadable@) =~= before.push(f.name@));
            },
        }
    }
    assert(found@.take(found@.len() as int) =~= found@);
    proof {
        crate::promises::restart::law_each_channel_is_taken_for_what_it_is(found@);
    }
    Inventory { topics, origins, unreadable }
}

fn count_successes(outcomes: &Vec<bool>) -> (n: usize)
    ensures
        n == successes(outcomes@),
        n <= outcomes@.len(),
{
    let mut n: usize = 0;
    let mut i: usize = 0;
    assert(outcomes@.take(0) =~= Seq::<bool>::empty());
    while i < outcomes.len()
        invariant
            i <= outcomes@.len(),
            n == successes(outcomes@.take(i as int)),
            n <= i,
        decreases outcomes@.len() - i,
    {
        proof {
            assert(outcomes@.take(i + 1).drop_last() =~= outcomes@.take(i as int));
            assert(outcomes@.take(i + 1).last() == outcomes@[i as int]);
        }
        if outcomes[i] {
            n = n + 1;
        }
        i = i + 1;
    }
    assert(outcomes@.take(i as int) =~= outcomes@);
    n
}

/// Sums up a restart, from how many channels could not be read, and whether each topic and each plain
/// channel could be rebuilt. What is not served is skipped, for whatever reason.
pub fn tally(unreadable: usize, topics: &Vec<bool>, origins: &Vec<bool>) -> (r: Reconstructed)
    requires
        unreadable + topics@.len() + origins@.len() <= usize::MAX,
    ensures
        r.topics == successes(topics@),
        r.origins == successes(origins@),
        r.topics + r.origins + r.skipped == unreadable + topics@.len() + origins@.len(),
{
    let t = count_successes(topics);
    let o = count_successes(origins);
    Reconstructed {
        topics: t,
        origins: o,
        skipped: unreadable + (topics.len() - t) + (origins.len() - o),
    }
}

/// Refuses a log whose header says that it is another channel than the directory it is in. An
/// unstamped log is refused too.
pub fn verify_stamped_name(path: &str, stamped: &str, expected: &str) -> (r: Result<(), NodeError>)
    ensures
        r is Ok <==> stamped@ == expected@,
        r matches Err(e) ==> e@ == other_channel(path@, stamped@, expected@),
{
    if same(stamped, expected) {
        return Ok(());
    }
    let mut message = quoted(path);
    message.append(" holds channel '");
    message.append(stamped);
    message.append("', but its directory says '");
    message.append(expected);
    message.append("' — refusing to serve one channel's records under another's name");
    Err(NodeError { kind: ErrorKind::InvalidData, message })
}

impl Node {
    /// What a request to host the log of `name`, found on disk, is answered.
    pub open spec fn rehosting(
        &self,
        name: Seq<char>,
        stamped: Seq<char>,
        region_size: u32,
        mtu: u32,
        wall: u64,
    ) -> Result<IdentityModel, (ErrorKind, Seq<char>)> {
        let claim = self.claim(name, region_size, mtu, None, wall);
        if !crate::names::valid_name(name) {
            Err(crate::names::bad_name())
        } else if stamped != name {
            Err(
                other_channel(
                    crate::names::channel_path_of(self.config.data_dir@, name),
                    stamped,
                    name,
                ),
            )
        } else if !self.claim_succeeds(claim) {
            Err(name_taken(name, self.holder(claim)))
        } else {
            Ok(claim)
        }
    }

    /// Whether `after` is `before` with the log of `name`, found on disk, hosted as far as it may
    /// be.
    pub open spec fn rehosted(
        before: Node,
        after: Node,
        name: Seq<char>,
        stamped: Seq<char>,
        region_size: u32,
        mtu: u32,
        file_roll_size: u64,
        keep_files: u32,
        now: u64,
        wall: u64,
    ) -> bool {
        let claim = before.claim(name, region_size, mtu, None, wall);
        if !crate::names::valid_name(name) || stamped != name {
            after == before
        } else {
            &&& Node::claimed(before, after, claim, now)
            &&& if before.claim_succeeds(claim) {
                &&& announced(before.dissemination, after.dissemination, seq![claim])
                &&& after.hosted@ == before.hosted@.insert(
                    name,
                    Node::source_value(
                        claim,
                        crate::names::channel_path_of(before.config.data_dir@, name),
                        file_roll_size,
                        keep_files,
                    ),
                )
            } else {
                after.dissemination == before.dissemination && after.hosted == before.hosted
            }
            &&& after == (Node {
                registry: after.registry,
                discovery: after.discovery,
                dissemination: after.dissemination,
                hosted: after.hosted,
                ..before
            })
        }
    }

    fn rehost(
        &mut self,
        name: &str,
        stamped: &str,
        region_size: u32,
        mtu: u32,
        file_roll_size: u64,
        keep_files: u32,
        now: u64,
        wall: u64,
    ) -> (r: Result<(), NodeError>)
        ensures
            match old(self).rehosting(name@, stamped@, region_size, mtu, wall) {
                Ok(_) => r is Ok,
                Err(e) => r matches Err(x) && x@ == e,
            },
            Node::rehosted(
                *old(self),
                *final(self),
                name@,
                stamped@,
                region_size,
                mtu,
                file_roll_size,
                keep_files,
                now,
                wall,
            ),
    {
        let path = match channel_path(self.config.data_dir.as_str(), name) {
            Ok(p) => p,
            Err(e) => {
                return Err(e);
            },
        };
        match verify_stamped_name(path.as_str(), stamped, name) {
            Ok(()) => {},
            Err(e) => {
                return Err(e);
            },
        }
        match self.claim_name(name, region_size, mtu, None, now, wall) {
            Ok(identity) => {
                self.announce_hosted(&identity, path, file_roll_size, keep_files);
                Ok(())
            },
            Err(e) => Err(e),
        }
    }

    /// Whether this node is the origin of `name`.
    pub fn hosts(&self, name: &str) -> (b: bool)
        ensures
            b == self.hosted@.contains_key(name@),
    {
        self.hosted.contains(name)
    }

    /// Hosts a plain channel found on disk, unless it is hosted already. Rolling and retention are
    /// not on disk: replicas of it keep everything.
    pub fn reregister_origin(&mut self, name: &str, header: &Header, now: u64, wall: u64) -> (r:
        Result<(), NodeError>)
        ensures
            if old(self).hosted@.contains_key(name@) {
                r is Ok && *final(self) == *old(self)
            } else {
                &&& match old(self).rehosting(
                    name@,
                    header.channel_name@,
                    header.region_size,
                    header.mtu,
                    wall,
                ) {
                    Ok(_) => r is Ok,
                    Err(e) => r matches Err(x) && x@ == e,
                }
                &&& Node::rehosted(
                    *old(self),
                    *final(self),
                    name@,
                    header.channel_name@,
                    header.region_size,
                    header.mtu,
                    0,
                    0,
                    now,
                    wall,
                )
            },
    {
        if self.hosted.contains(name) {
            return Ok(());
        }
        self.rehost(
            name,
            header.channel_name.as_str(),
            header.region_size,
            header.mtu,
            0,
            0,
            now,
            wall,
        )
    }

    /// Hosts the channel of a topic found on disk. Returns whether its merge is then to be opened
    /// and reported with [`topic_opened`](Node::topic_opened); it is not if this node has it
    /// already. A topic's rolling and retention are on disk, so they stay in force.
    pub fn rehost_topic(
        &mut self,
        name: &str,
        stamped: &str,
        cfg: &TopicConfig,
        now: u64,
        wall: u64,
    ) -> (r: Result<bool, NodeError>)
        ensures
            if old(self).muxes@.contains_key(name@) {
                r == Ok::<bool, NodeError>(false) && *final(self) == *old(self)
            } else {
                &&& match old(self).rehosting(name@, stamped@, cfg.region_size, cfg.mtu, wall) {
                    Ok(_) => r == Ok::<bool, NodeError>(true),
                    Err(e) => r matches Err(x) && x@ == e,
                }
                &&& Node::rehosted(
                    *old(self),
                    *final(self),
                    name@,
                    stamped@,
                    cfg.region_size,
                    cfg.mtu,
                    cfg.file_roll_size,
                    cfg.keep_files,
                    now,
                    wall,
                )
            },
    {
        if self.muxes.contains(name) {
            return Ok(false);
        }
        match self.rehost(
            name,
            stamped,
            cfg.region_size,
            cfg.mtu,
            cfg.file_roll_size,
            cfg.keep_files,
            now,
            wall,
        ) {
            Ok(()) => Ok(true),
            Err(e) => Err(e),
        }
    }

    /// Takes back a member that a topic's log names. A member with a log of its own here, whose
    /// header is given, is this node's: it is registered as that topic's, or it would look as if it
    /// had left. Returns where to attach the member from, in order of preference: its origin, then
    /// its replica.
    pub fn rehost_member(
        &mut self,
        topic: &str,
        member: &str,
        header: Option<&Header>,
        now: u64,
        wall: u64,
    ) -> (paths: Vec<String>)
        ensures
            crate::node::topics::texts(paths@) == if crate::names::valid_name(member@) {
                seq![
                    crate::names::channel_path_of(old(self).config.data_dir@, member@),
                    crate::names::replica_path_of(old(self).config.data_dir@, member@),
                ]
            } else {
                Seq::<Seq<char>>::empty()
            },
            match header {
                Some(h) => if crate::names::valid_name(member@) && h.channel_name@ == member@ {
                    let claim = old(self).claim(
                        member@,
                        h.region_size,
                        h.mtu,
                        Some(topic@),
                        wall,
                    );
                    &&& Node::claimed(*old(self), *final(self), claim, now)
                    &&& if old(self).claim_succeeds(claim) {
                        &&& announced(
                            old(self).dissemination,
                            final(self).dissemination,
                            seq![claim],
                        )
                        &&& final(self).hosted@ == old(self).hosted@.insert(
                            member@,
                            Node::source_value(
                                claim,
                                crate::names::channel_path_of(
                                    old(self).config.data_dir@,
                                    member@,
                                ),
                                0,
                                0,
                            ),
                        )
                    } else {
                        final(self).dissemination == old(self).dissemination && final(self).hosted
                            == old(self).hosted
                    }
                } else {
                    *final(self) == *old(self)
                },
                None => *final(self) == *old(self),
            },
            *final(self) == (Node {
                registry: final(self).registry,
                discovery: final(self).discovery,
                dissemination: final(self).dissemination,
                hosted: final(self).hosted,
                ..*old(self)
            }),
    {
        let mut paths: Vec<String> = Vec::new();
        let data_dir = self.config.data_dir.clone();
        match (
            channel_path(data_dir.as_str(), member),
            replica_path(data_dir.as_str(), member),
        ) {
            (Ok(origin), Ok(replica)) => {
                if let Some(h) = header {
                    if same(h.channel_name.as_str(), member) {
                        match self.claim_name(
                            member,
                            h.region_size,
                            h.mtu,
                            Some(topic.to_owned()),
                            now,
                            wall,
                        ) {
                            Ok(id) => {
                                self.announce_hosted(&id, origin.clone(), 0, 0);
                            },
                            Err(_) => {},
                        }
                    }
                }
                paths.push(origin);
                paths.push(replica);
                assert(crate::node::topics::texts(paths@) =~= seq![origin@, replica@]);
            },
            _ => {
                assert(crate::node::topics::texts(paths@) =~= Seq::<Seq<char>>::empty());
            },
        }
        paths
    }
}

// ---------------- laws ----------------
/// No entry of the node's own is taken for a channel, nor is anything that is not a directory.
pub proof fn law_dot_entries_are_no_channels(entries: Seq<DirEntry>, name: Seq<char>)
    requires
        name.len() > 0,
        name[0] == '.',
    ensures
        !channels_among(entries).contains(name),
    decreases entries.len(),
{
    if entries.len() > 0 {
        law_dot_entries_are_no_channels(entries.drop_last(), name);
        crate::broadcast::lemma_push_contains(
            channels_among(entries.drop_last()),
            entries.last().name@,
        );
    }
}

/// Every channel found is taken for a topic, for a plain channel, or for unreadable, and none for two
/// of these.
pub proof fn law_an_inventory_loses_nothing(found: Seq<OnDisk>)
    ensures
        topics_among(found).len() + origins_among(found).len() + unreadable_among(found).len()
            == found.len(),
    decreases found.len(),
{
    if found.len() > 0 {
        law_an_inventory_loses_nothing(found.drop_last());
    }
}

/// A restart accounts for every channel in the data directory: it is served as a topic, served as a
/// plain channel, or counted as skipped.
pub proof fn law_a_restart_accounts_for_every_channel(
    entries: Seq<DirEntry>,
    found: Seq<OnDisk>,
    topics: Seq<bool>,
    origins: Seq<bool>,
    r: Reconstructed,
)
    requires
        Seq::new(found.len(), |i: int| found[i].name@) == channels_among(entries),
        topics.len() == topics_among(found).len(),
        origins.len() == origins_among(found).len(),
        r.topics == successes(topics),
        r.origins == successes(origins),
        r.topics + r.origins + r.skipped == unreadable_among(found).len() + topics.len()
            + origins.len(),
    ensures
        r.topics + r.origins + r.skipped == channels_among(entries).len(),
{
    law_an_inventory_loses_nothing(found);
    assert(Seq::new(found.len(), |i: int| found[i].name@).len() == found.len());
}

} // verus!
