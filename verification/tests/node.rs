//! One node: names, topics, discovery, duplicates, restarts.
use xchannel_net::addr::SocketAddr;
use xchannel_net::config::NodeConfig;
use xchannel_net::error::ErrorKind;
use xchannel_net::identity::{ChannelIdentity, NodeId, RecordIndex};
use xchannel_net::limits::{MAX_BATCH_PER_MEMBER, MAX_CONNECTIONS};
use xchannel_net::membership::Introduction;
use xchannel_net::mux_idle::MuxIdle;
use xchannel_net::node::duplicates::OnDuplicateIdentity;
use xchannel_net::node::reconstruct::{
    channel_names, take_inventory, tally, verify_stamped_name, Content, DirEntry, Header, OnDisk,
    Reconstructed, TopicConfig,
};
use xchannel_net::node::subscribing::{
    resolve_within, ClientTurn, Establish, Resolution, SubscribeOutcome,
};
use xchannel_net::node::topic_health::{sweep, MemberState, MergeReport, MergedMember};
use xchannel_net::node::Node;
use xchannel_net::subscription::RebuildStats;
use xchannel_net::table::Incarnation;
use xchannel_net::time::Duration;
use xchannel_net::wire::{ChannelChange, ChannelOptions, ControlMsg, TopicOptions};

const MS: u64 = 1_000_000;
/// Some time after 1970, as every registration is.
const WALL: u64 = 1_700_000_000_000_000_000;

fn config(id: u64, dir: &str) -> NodeConfig {
    NodeConfig {
        node_id: NodeId(id),
        data_dir: dir.to_string(),
        control_addr: SocketAddr::v4(127, 0, 0, 1, 0),
        stream_addr: SocketAddr::v4(127, 0, 0, 1, 0),
        client_path: format!("{dir}/client.sock"),
        seeds: vec![],
        reclaim_after: Duration::from_millis(0),
        promoted_topics: vec![],
        mux_idle: MuxIdle::default(),
        advertise_control_addr: None,
        advertise_stream_addr: None,
        node_name: format!("test-{id}"),
        id_generated: false,
    }
}

fn node(id: u64, dir: &str) -> Node {
    Node::new(config(id, dir), 7)
}

fn config_promoting(id: u64, dir: &str, topics: &[&str]) -> NodeConfig {
    NodeConfig {
        promoted_topics: topics.iter().map(|t| t.to_string()).collect(),
        ..config(id, dir)
    }
}

fn ident(name: &str, owner: u64, member_of: Option<&str>) -> ChannelIdentity {
    ChannelIdentity {
        name: name.to_string(),
        owner: NodeId(owner),
        region_size: 1 << 20,
        mtu: 0,
        earliest_index: RecordIndex(0),
        registered_at_nanos: 1,
        epoch: 0,
        deleted: false,
        member_of: member_of.map(String::from),
    }
}

/// Hosts a channel whose log could be created.
fn host(node: &mut Node, name: &str) -> String {
    let plan = node.host_channel(name, 1 << 20, 0, 0, WALL).unwrap();
    node.origin_created(plan)
}

/// Creates a topic whose log and merge could be opened.
fn create_topic(node: &mut Node, name: &str, options: TopicOptions) -> String {
    let plan = node.create_topic(name, options, 0, WALL).unwrap();
    let path = node.origin_created(plan.origin);
    node.topic_opened(name, options.member_reap_after_ms);
    path
}

/// Publishes a member, attaching it as the daemon does when the topic is hosted here.
fn publish(node: &mut Node, topic: &str, member: &str) -> String {
    let plan = node
        .publish_to_topic(topic, member, ChannelOptions::default(), 0, WALL)
        .unwrap();
    let path = node.origin_created(plan);
    if let Some(epoch) = node.attach_epoch(topic, member) {
        node.member_attached(topic, member, epoch);
    }
    path
}

fn report(members: &[(&str, u64, u64, u64)], topic_head: u64) -> MergeReport {
    MergeReport {
        members: members
            .iter()
            .map(|(name, merged, head, rejected)| MergedMember {
                name: name.to_string(),
                epoch: 0,
                merged: *merged,
                head: *head,
                lag: head - merged,
                rejected: *rejected,
            })
            .collect(),
        topic_head,
        gaps_emitted: 0,
        slot_table_version: 1,
    }
}

fn heard(node: &mut Node, id: u64, now: u64) {
    let link = node.link_accepted();
    node.dissemination.receive(
        link,
        ControlMsg::Heartbeat(Introduction {
            node: NodeId(id),
            addr: SocketAddr::v4(10, 0, 0, 1, 7000),
            control_addr: SocketAddr::v4(10, 0, 0, 1, 7001),
            name: format!("n{id}"),
        }),
        now,
    );
}

// ---------------- names ----------------

#[test]
fn create_rejected_when_name_already_owned_by_peer() {
    let mut node = node(2, "collision");
    // A peer registered this name earlier (smaller timestamp), so it owns it under
    // first-registrant-wins. Seed the local registry with that winning entry.
    node.registry.merge(ident("md.aapl", 1, None));

    let err = node
        .create_for_client("md.aapl", ChannelOptions::default(), 0, WALL)
        .err()
        .unwrap();
    assert_eq!(
        err.kind,
        ErrorKind::AlreadyExists,
        "losing the name collision must be rejected, not silently accepted"
    );
    assert_eq!(
        err.message,
        "channel 'md.aapl' already registered by node 1 — registration rejected"
    );
    // The name is reserved before any file is created, so a rejection leaves no orphan.
    assert!(!node.hosts("md.aapl"));
    assert!(node.take_changes().is_empty(), "and nothing is published");
    assert!(node.take_messages().is_empty(), "nor announced");
}

#[test]
fn a_refused_name_leaves_no_trace() {
    let mut node = node(2, "bad-name");
    let err = node
        .create_for_client("../etc", ChannelOptions::default(), 0, WALL)
        .err()
        .unwrap();
    assert_eq!(err.kind, ErrorKind::InvalidInput);
    assert_eq!(node.registry.len(), 0);
}

/// A restarted application opens its channel again, in the same incarnation.
#[test]
fn an_owner_creates_its_channel_again_in_the_same_incarnation() {
    let mut node = node(121, "/d");
    let options = ChannelOptions { region_size: 1 << 20, mtu: 512, file_roll_size: 4096, keep_files: 2 };
    let first = node.create_for_client("md.aapl", options, 0, WALL).unwrap();
    assert_eq!(first.path, "/d/md.aapl/log");
    assert_eq!(first.dir, "/d/md.aapl");
    assert_eq!(first.retention(), Some(2));
    assert_eq!(first.generation(), 0);
    assert_eq!((first.identity.mtu, first.file_roll_size), (512, 4096));
    node.origin_created(first);
    let src = node.hosted.get("md.aapl").unwrap();
    assert_eq!((src.mtu, src.file_roll_size, src.keep_files), (512, 4096, 2));

    let again = node.create_for_client("md.aapl", options, 0, WALL + 1).unwrap();
    assert_eq!(again.generation(), 0, "a restart is no reclaim");

    node.deregister("md.aapl");
    let reclaimed = node.create_for_client("md.aapl", ChannelOptions::default(), 0, WALL + 2).unwrap();
    assert_eq!(reclaimed.generation(), 1);
    assert_eq!(reclaimed.retention(), None);
}

#[test]
fn resolve_distinguishes_unknown_from_unreachable_owner() {
    let mut node = node(1, "resolve-liveness");
    let short = Some(Duration::from_millis(20));
    let resolve = |node: &Node, name: &str, timeout: Option<Duration>| {
        // Look, and look again five milliseconds later.
        let mut search = resolve_within(timeout, 0);
        let mut now = 0;
        loop {
            match node.resolve(name, &mut search, now) {
                Resolution::Found { identity, addr } => return Ok((identity, addr)),
                Resolution::Wait => now += 5 * MS,
                Resolution::Refused(e) => {
                    assert_eq!(now, 20 * MS, "given up at the deadline, not before");
                    return Err(e);
                }
            }
        }
    };

    // Unknown channel → TimedOut.
    let unknown = resolve(&node, "nope", short).unwrap_err();
    assert_eq!(unknown.kind, ErrorKind::TimedOut);
    assert_eq!(unknown.message, "channel 'nope' not resolvable within timeout");

    // Known channel whose owner never heartbeats (not a live member) → HostUnreachable, not a stale
    // address and not "unknown".
    node.registry.merge(ident("md.aapl", 99, None));
    let unreachable = resolve(&node, "md.aapl", short).unwrap_err();
    assert_eq!(
        unreachable.kind,
        ErrorKind::HostUnreachable,
        "a known channel with a non-live owner is unreachable, not unknown"
    );
    assert_eq!(
        unreachable.message,
        "channel 'md.aapl' known but its owner is not a live member"
    );

    // Once its owner is heard from, it is found there; a channel of this node's own, where it serves.
    heard(&mut node, 99, 0);
    let (id, addr) = resolve(&node, "md.aapl", short).unwrap();
    assert_eq!((id.owner, addr), (NodeId(99), SocketAddr::v4(10, 0, 0, 1, 7000)));
    node.stream_bound(SocketAddr::v4(127, 0, 0, 1, 4711));
    host(&mut node, "md.own");
    let (_, addr) = resolve(&node, "md.own", None).unwrap();
    assert_eq!(addr, SocketAddr::v4(127, 0, 0, 1, 4711));
}

// ---------------- reclaiming ----------------

/// An application pinned to a host that dies must be able to come back under the same name
/// elsewhere.
#[test]
fn a_dead_owners_channel_can_be_reclaimed_elsewhere() {
    let mut node = node(101, "reclaim-dead");
    node.registry.merge(ident("md.aapl", 999, None));

    assert!(node.force_deregister("md.aapl", 0).unwrap());
    assert!(node.registry.get("md.aapl").is_none(), "the name must be free");

    // The name is now hostable here — as a new incarnation, not a continuation.
    let plan = node.host_channel("md.aapl", 1 << 20, 0, 0, WALL).unwrap();
    // That incarnation is stamped into the log, which is what a subscriber's replica is later
    // compared against.
    let generation = plan.generation();
    node.origin_created(plan);
    let reclaimed = node.registry.get("md.aapl").unwrap();
    assert_eq!(reclaimed.owner, NodeId(101));
    assert_eq!(
        reclaimed.epoch, 1,
        "a reclaim must be a new incarnation, so subscribers rebuild rather than splice"
    );
    assert_eq!(generation, reclaimed.epoch);
}

/// The wording of the refusals, and what asking does to the clock of an owner never heard from.
#[test]
fn a_reclaim_is_refused_by_reason() {
    let mut cfg = config(113, "reclaim-guard");
    cfg.reclaim_after = Duration::from_secs(300);
    let mut node = Node::new(cfg, 7);
    host(&mut node, "ours");
    let err = node.force_deregister("ours", 0).unwrap_err();
    assert_eq!(err.kind, ErrorKind::InvalidInput);
    assert_eq!(err.message, "channel 'ours' is owned by this node — use deregister");

    node.registry.merge(ident("theirs", 999, None));
    let err = node.force_deregister("theirs", 1_000 * MS).unwrap_err();
    assert_eq!(err.kind, ErrorKind::ResourceBusy);
    assert_eq!(
        err.message,
        "owner of 'theirs' (node 999) has been unreachable for 0ns, less than the 300s required to \
         reclaim it"
    );
    // The question started the clock.
    let err = node.force_deregister("theirs", 2_500 * MS).unwrap_err();
    assert!(err.message.contains("unreachable for 1.5s"), "{}", err.message);
    assert!(node.force_deregister("theirs", 301_000 * MS).unwrap());

    node.registry.merge(ident("live", 55, None));
    heard(&mut node, 55, 301_000 * MS);
    let err = node.force_deregister("live", 302_000 * MS).unwrap_err();
    assert_eq!(err.kind, ErrorKind::ResourceBusy);
    assert_eq!(
        err.message,
        "owner of 'live' (node n55 (55)) is a live member — it has not gone anywhere"
    );
}

/// A clock runs for each owner out of reach, and stops the moment the owner is heard from: one that
/// comes and goes earns no credit.
#[test]
fn contact_stops_the_clock_of_an_unreachable_owner() {
    let mut node = node(1, "clocks");
    node.registry.merge(ident("a", 9, None));
    host(&mut node, "own");
    node.note_unreachable_owners(5 * MS);
    node.note_unreachable_owners(8 * MS);
    assert_eq!(node.owner_unreachable_since.len(), 1, "its own channels start no clock");
    assert_eq!(node.owner_unreachable_since.get(&NodeId(9)), Some(&(5 * MS)));
    heard(&mut node, 9, 9 * MS);
    node.note_unreachable_owners(10 * MS);
    assert_eq!(node.owner_unreachable_since.len(), 0);
    // Silent for more than the ten seconds of liveness.
    node.note_unreachable_owners(10_010 * MS);
    assert_eq!(node.owner_unreachable_since.get(&NodeId(9)), Some(&(10_010 * MS)));
}

// ---------------- duplicates ----------------

/// A duplicate is a standing condition, so the verdict must be re-evaluated, not latched.
#[test]
fn a_duplicate_verdict_is_re_evaluated_not_latched_by_the_rate_limit() {
    let mut cfg = config(141, "dup-verdict");
    cfg.id_generated = true;
    let mut node = Node::new(cfg, 7);
    let dup = vec![NodeId(141)];

    // While it owns a channel, standing aside would orphan it.
    host(&mut node, "md.aapl");
    let first = node.report_duplicate_identity(&dup);
    assert_eq!(first.verdict.settle(true), OnDuplicateIdentity::Continue);
    assert_eq!(first.fresh, [NodeId(141)]);
    assert!(first.say);

    // Once it owns nothing, the same detection must reach the opposite conclusion — even though the
    // warning for this id has already been printed and will not be printed again.
    assert!(node.deregister("md.aapl").existed);
    let second = node.report_duplicate_identity(&dup);
    assert_eq!(
        second.verdict.settle(true),
        OnDuplicateIdentity::StepAside,
        "the first tick's answer was latched, so this node could never stand aside"
    );
    assert!(second.fresh.is_empty() && !second.say);
    // An id that could not be discarded is kept: exiting would come back to the same duplicate.
    assert_eq!(second.verdict.settle(false), OnDuplicateIdentity::Continue);
}

#[test]
fn a_duplicate_generated_id_makes_an_empty_node_step_aside() {
    let mut cfg = config(4242, "dup-step-aside");
    cfg.id_generated = true;
    let mut node = Node::new(cfg, 7);
    assert_eq!(
        node.report_duplicate_identity(&vec![NodeId(4242)]).verdict.settle(true),
        OnDuplicateIdentity::StepAside,
        "it owns nothing, so it must stand down rather than keep the duplicate live"
    );
}

#[test]
fn a_duplicate_id_is_only_warned_about_once_the_node_owns_something() {
    let mut cfg = config(4243, "dup-owns");
    cfg.id_generated = true;
    let mut node = Node::new(cfg, 7);
    host(&mut node, "md.aapl");
    assert_eq!(
        node.report_duplicate_identity(&vec![NodeId(4243)]).verdict.settle(true),
        OnDuplicateIdentity::Continue
    );
}

#[test]
fn a_configured_id_and_a_third_partys_collision_are_only_warned_about() {
    let mut configured = node(4244, "dup-configured");
    assert_eq!(
        configured.report_duplicate_identity(&vec![NodeId(4244)]).verdict.settle(true),
        OnDuplicateIdentity::Continue,
        "an explicitly configured id is the operator's to fix"
    );

    let mut cfg = config(4245, "dup-other");
    cfg.id_generated = true;
    let mut other = Node::new(cfg, 7);
    let report = other.report_duplicate_identity(&vec![NodeId(9999)]);
    assert_eq!(
        report.verdict.settle(true),
        OnDuplicateIdentity::Continue,
        "two other nodes colliding is not this node's problem to solve"
    );
    assert_eq!(report.fresh, [NodeId(9999)]);
    assert!(!report.say);
    let report = other.report_duplicate_identity(&vec![NodeId(9999), NodeId(8), NodeId(8)]);
    assert_eq!(report.fresh, [NodeId(8)], "each id is reported once");
}

// ---------------- discovery ----------------

/// Writes what is pending to the discovery log, and returns its length: the cursor.
fn publish_changes(node: &mut Node, log: &mut Vec<ChannelChange>) -> u64 {
    log.extend(node.take_changes());
    log.len() as u64
}

#[test]
fn listing_and_watching_cover_the_channel_set_without_a_gap() {
    let mut node = node(141, "/data");
    let mut log = Vec::new();
    for name in ["fills.prod.a", "fills.prod.b", "fills.test.c", "md.aapl"] {
        host(&mut node, name);
    }

    let next = publish_changes(&mut node, &mut log);
    let (listed, cursor) = node.list_channels("fills.prod.", next, 0);
    let names: Vec<&str> = listed.iter().map(|c| c.name.as_str()).collect();
    assert_eq!(
        names,
        ["fills.prod.a", "fills.prod.b"],
        "prefix matching is a range scan, in name order"
    );
    assert!(listed.iter().all(|c| c.owner == node.config.node_id));
    assert!(
        listed.iter().all(|c| c.owner_live),
        "we own these, so their owner is trivially reachable"
    );
    assert!(listed.iter().all(|c| c.member_of.is_none()));
    assert_eq!(cursor.log_path, "/data/.discovery/log");
    assert_eq!((cursor.generation, cursor.from), (7, RecordIndex(4)));

    // Everything, and nothing, are both legal prefixes.
    assert_eq!(node.list_channels("", next, 0).0.len(), 4);
    assert!(node.list_channels("nothing.", next, 0).0.is_empty());

    // Changes after the cursor are exactly what the log carries.
    host(&mut node, "fills.prod.d");
    assert!(node.deregister("fills.prod.a").existed);

    publish_changes(&mut node, &mut log);
    let seen = &log[cursor.from.0 as usize..];
    assert_eq!(seen.len(), 2, "one upsert and one removal: {seen:?}");
    assert!(matches!(&seen[0], ChannelChange::Upserted(c) if c.name == "fills.prod.d"));
    assert!(matches!(&seen[1], ChannelChange::Removed { name, .. } if name == "fills.prod.a"));
}

#[test]
fn listings_mark_topic_members() {
    let mut node = node(142, "discovery-members");
    create_topic(&mut node, "fills.prod.topic", TopicOptions::default());
    publish(&mut node, "fills.prod.topic", "fills.prod.member");

    let (listed, _) = node.list_channels("fills.prod.", 0, 0);
    let member = listed
        .iter()
        .find(|c| c.name == "fills.prod.member")
        .expect("the member is a channel like any other");
    assert_eq!(member.member_of.as_deref(), Some("fills.prod.topic"));
    let topic = listed
        .iter()
        .find(|c| c.name == "fills.prod.topic")
        .expect("and so is the topic");
    assert!(topic.member_of.is_none());
}

/// Every tombstone this node produces must reach its own discovery log, not just its peers.
#[test]
fn every_locally_produced_tombstone_reaches_the_discovery_log() {
    let mut node = node(144, "discovery-tombstones");
    create_topic(
        &mut node,
        "agg",
        TopicOptions {
            member_reap_after_ms: 1, // opt the reaper in with a tiny threshold
            ..TopicOptions::default()
        },
    );
    // A member of "agg" owned by a node that is never a live member, so the reaper takes it.
    node.registry.merge(ident("feed.x", 99, Some("agg")));
    // A plain channel to retire by the owner path.
    host(&mut node, "md.aapl");

    let mut log = Vec::new();
    let from = publish_changes(&mut node, &mut log) as usize;

    // Reap first: retiring the topic drops its reap threshold, so the reaper would no longer
    // consider its members.
    node.reap_dead_members(10 * MS); // records "dead since now"
    node.reap_dead_members(13 * MS); // past the threshold — tombstones it
    assert!(
        node.registry.get("feed.x").is_none(),
        "the reaper should have tombstoned the dead owner's member"
    );
    assert!(node.deregister("md.aapl").existed);
    assert!(node.retire_topic("agg"));
    node.topic_finished("agg");

    publish_changes(&mut node, &mut log);
    let removed: Vec<&String> = log[from..]
        .iter()
        .filter_map(|c| match c {
            ChannelChange::Removed { name, .. } => Some(name),
            ChannelChange::Upserted(_) => None,
        })
        .collect();
    for name in ["md.aapl", "agg", "feed.x"] {
        assert!(
            removed.contains(&&name.to_string()),
            "no Removed published for '{name}' — a watcher here keeps a phantom source (published: \
             {removed:?})"
        );
    }
}

#[test]
fn re_merging_unchanged_entries_publishes_nothing() {
    let mut node = node(143, "discovery-idempotent");
    host(&mut node, "md.aapl");
    node.take_changes();

    let identity = node.registry.get("md.aapl").unwrap().clone();
    for _ in 0..5 {
        assert!(!node.merge_and_publish(identity.clone(), 0).changed);
    }

    assert!(
        node.take_changes().is_empty(),
        "re-merging an identical entry changes nothing, so it publishes nothing"
    );
}

// ---------------- topics ----------------

#[test]
fn create_topic_and_publish_members() {
    let mut node = node(1, "topics");

    // A topic is an ordinary (registered, subscribable) channel plus a mux.
    create_topic(&mut node, "agg", TopicOptions::default());
    assert!(node.registry.get("agg").is_some());
    assert_eq!(node.topic_member_count("agg"), Some(0));

    // Members are ordinary registered channels attached to the mux.
    publish(&mut node, "agg", "mem.a");
    publish(&mut node, "agg", "mem.b");
    assert_eq!(node.topic_member_count("agg"), Some(2));
    assert!(node.registry.get("mem.a").is_some());

    // Publishing to a topic this node doesn't host is allowed (the topic may be remote): the member
    // is created and tagged `member_of`, for the owner to discover and attach.
    publish(&mut node, "remote.topic", "mem.c");
    let m = node.registry.get("mem.c");
    assert_eq!(m.and_then(|id| id.member_of.as_deref()), Some("remote.topic"));
    // Not attached to any local mux (we don't host that topic).
    assert_eq!(node.topic_member_count("remote.topic"), None);
}

#[test]
fn a_topics_batch_defaults_to_the_fairness_bound() {
    let mut node = node(1, "batch");
    let plan = node.create_topic("agg", TopicOptions::default(), 0, WALL).unwrap();
    assert_eq!(plan.batch, MAX_BATCH_PER_MEMBER);
    let options = TopicOptions { max_batch_per_member: 9, ..TopicOptions::default() };
    assert_eq!(node.create_topic("agg.b", options, 0, WALL).unwrap().batch, 9);
}

/// One topic's trouble must not abandon the sweep.
#[test]
fn a_topic_that_cannot_merge_does_not_stall_the_others() {
    let mut node = node(1, "mux-poll-isolation");
    create_topic(
        &mut node,
        "agg.bad",
        TopicOptions {
            channel: ChannelOptions { mtu: 128, ..ChannelOptions::default() },
            ..TopicOptions::default()
        },
    );
    create_topic(&mut node, "agg.good", TopicOptions::default());
    publish(&mut node, "agg.bad", "mem.bad");
    publish(&mut node, "agg.good", "mem.good");

    // The bad topic's merge fails, the good one merges its record: the sweep counts it.
    assert_eq!(node.shared_topics(), ["agg.bad", "agg.good"]);
    assert_eq!(sweep(&vec![None, Some(1)]), Ok(1));
    // Only when nothing merged anywhere is the first failure told.
    assert_eq!(sweep(&vec![Some(0), None, None]), Err(1));
    assert_eq!(sweep(&vec![]), Ok(0));

    let good = node.topic_status("agg.good", report(&[("mem.good", 1, 1, 0)], 2), 0).unwrap();
    assert_eq!(
        good.members[0].merged, 1,
        "the healthy topic merged its record despite a broken neighbour"
    );
    let bad = node.topic_status("agg.bad", report(&[("mem.bad", 0, 1, 1)], 1), 0).unwrap();
    assert_eq!(
        bad.members[0].rejected, 1,
        "the oversized record is rejected and counted, not silently dropped"
    );
    assert_eq!(
        bad.topic_head, 1,
        "and nothing but its slot table reached the broken topic's log"
    );
    assert_eq!(bad.members[0].state, MemberState::Active, "behind, with a live owner");
}

#[test]
fn a_promoted_topic_merges_on_its_own_thread_and_leaves_the_shared_loop() {
    let mut node = Node::new(config_promoting(1, "promote", &["agg.fast"]), 7);
    for (topic, promoted) in [("agg.fast", true), ("agg.slow", false)] {
        let plan = node.create_topic(topic, TopicOptions::default(), 0, WALL).unwrap();
        node.origin_created(plan.origin);
        assert_eq!(node.topic_opened(topic, 0), promoted);
    }
    publish(&mut node, "agg.fast", "mem.f");
    publish(&mut node, "agg.slow", "mem.s");

    assert!(
        node.topic_status("agg.fast", report(&[("mem.f", 0, 0, 0)], 1), 0).unwrap().promoted,
        "status must report the promotion so an operator can confirm it took effect"
    );
    assert!(!node.topic_status("agg.slow", report(&[("mem.s", 0, 0, 0)], 1), 0).unwrap().promoted);

    // The shared loop merges the unpromoted topic and skips the promoted one.
    assert_eq!(
        node.shared_topics(),
        ["agg.slow"],
        "the shared loop must merge agg.slow and skip agg.fast"
    );
}

/// A promoted topic's thread exits when the topic is retired, rather than polling a mux that is no
/// longer this node's.
#[test]
fn a_promoted_topics_thread_exits_when_the_topic_is_retired() {
    let mut node = Node::new(config_promoting(1, "promote-retire", &["agg"]), 7);
    create_topic(&mut node, "agg", TopicOptions::default());
    let first = node.muxes.get("agg").expect("hosted").serial;
    assert!(node.still_merging("agg", first));
    assert!(node.retire_topic("agg"));
    node.topic_finished("agg");
    assert!(!node.still_merging("agg", first));

    // Re-create under the same name: a *different* mux, with its own thread.
    create_topic(&mut node, "agg", TopicOptions::default());
    let second = node.muxes.get("agg").expect("re-hosted").serial;
    assert!(first != second, "re-creating a topic must yield a new mux");
    assert!(!node.still_merging("agg", first), "the old thread must let go of the retired mux");
    assert!(node.still_merging("agg", second));
}

#[test]
fn tombstoned_member_is_detached_from_the_mux() {
    let mut node = node(1, "detach");
    create_topic(&mut node, "agg", TopicOptions::default());
    publish(&mut node, "agg", "mem.a");
    assert_eq!(node.topic_member_count("agg"), Some(1));

    // The member's owner deregisters it; the sync loop drains + closes and detaches it.
    assert!(node.deregister("mem.a").existed);
    let plan = node.attach_pending_members(0);
    for d in plan.detach {
        node.member_detached(&d.topic, &d.name, d.epoch);
    }
    assert!(plan.attach.is_empty() && plan.subscribe.is_empty());
    assert_eq!(node.topic_member_count("agg"), Some(0));
}

/// A member the registry has no word of stays: a registry just started may be incomplete.
#[test]
fn an_unregistered_member_is_not_detached() {
    let mut node = node(1, "absent");
    create_topic(&mut node, "agg", TopicOptions::default());
    node.member_attached("agg", "mem.a", 0);
    assert!(node.attach_pending_members(0).detach.is_empty());
    // Registered as a member of something else, it has left.
    node.registry.merge(ident("mem.a", 5, Some("other")));
    let plan = node.attach_pending_members(0);
    assert_eq!(plan.detach.len(), 1);
    assert_eq!((plan.detach[0].name.as_str(), plan.detach[0].epoch), ("mem.a", 0));
}

/// A respawned member is another incarnation: it is attached beside the old one.
#[test]
fn members_are_attached_by_incarnation() {
    let mut node = node(1, "/d");
    create_topic(&mut node, "agg", TopicOptions::default());
    publish(&mut node, "agg", "mem.a");
    node.registry.merge(ChannelIdentity { epoch: 1, ..ident("mem.a", 1, Some("agg")) });
    node.registry.merge(ident("mem.r", 9, Some("agg")));
    let plan = node.attach_pending_members(0);
    assert!(plan.subscribe.is_empty(), "an owner out of reach is not resolved");
    let steps: Vec<(&str, u64, &str, bool)> = plan
        .attach
        .iter()
        .map(|s| (s.name.as_str(), s.epoch, s.path.as_str(), s.replica))
        .collect();
    assert_eq!(
        steps,
        [("mem.a", 1, "/d/mem.a/log", false), ("mem.r", 0, "/d/.replicas/mem.r/log", true)]
    );
    heard(&mut node, 9, 0);
    assert_eq!(node.attach_pending_members(0).subscribe, ["mem.r"]);
}

/// Once a plan has been carried out, a second pass at the same moment has nothing left to do.
#[test]
fn a_second_attach_pass_has_nothing_to_do() {
    let mut node = node(1, "/d");
    create_topic(&mut node, "agg", TopicOptions::default());
    for (name, owner) in [("mem.gone", 1), ("mem.here", 1), ("mem.far", 9)] {
        node.registry.merge(ident(name, owner, Some("agg")));
    }
    node.member_attached("agg", "mem.gone", 0);
    node.registry.deregister("mem.gone", NodeId(1)).unwrap();
    heard(&mut node, 9, 0);

    let plan = node.attach_pending_members(0);
    assert_eq!((plan.detach.len(), plan.subscribe.len(), plan.attach.len()), (1, 1, 2));
    for d in plan.detach {
        node.member_detached(&d.topic, &d.name, d.epoch);
    }
    for name in plan.subscribe {
        let s = node.subscribe_as(&name, found(&name), Establish::Retry, 0).unwrap().unwrap();
        node.keep_subscription(s.id);
    }
    for s in plan.attach.iter().filter(|s| !s.replica) {
        node.member_attached(&s.topic, &s.name, s.epoch);
    }
    assert_eq!(node.topic_member_count("agg"), Some(1), "this node's own member");

    // A replica that was not there yet is still to be attached; nothing else is left.
    let plan = node.attach_pending_members(0);
    assert_eq!((plan.detach.len(), plan.subscribe.len(), plan.attach.len()), (0, 0, 1));
    assert!(plan.attach[0].replica);
    node.member_attached("agg", "mem.far", 0);
    let plan = node.attach_pending_members(0);
    assert_eq!((plan.detach.len(), plan.subscribe.len(), plan.attach.len()), (0, 0, 0));
    assert_eq!(node.topic_member_count("agg"), Some(2));
}

#[test]
fn topic_status_reports_members_and_counters() {
    let mut node = node(1, "status");
    create_topic(&mut node, "agg", TopicOptions::default());
    publish(&mut node, "agg", "mem.a");

    let status = node.topic_status("agg", report(&[("mem.a", 0, 0, 0)], 1), 0).unwrap();
    assert_eq!(status.members.len(), 1);
    let m = &status.members[0];
    assert_eq!(m.name, "mem.a");
    assert_eq!((m.merged, m.head, m.lag), (0, 0, 0), "no records yet");
    // Local member owned by this (live) node, caught up ⇒ Quiet.
    assert_eq!(m.state, MemberState::Quiet);
    assert!(status.slot_table_version >= 1, "a slot table was emitted");
    assert_eq!(status.gaps_emitted, 0);

    // A topic we don't host has no status.
    assert!(node.topic_status("nope", report(&[], 0), 0).is_none());
}

#[test]
fn a_member_whose_owner_is_gone_reads_as_unreachable() {
    let mut node = node(1, "status-gone");
    create_topic(&mut node, "agg", TopicOptions::default());
    node.registry.merge(ident("mem.r", 9, Some("agg")));
    let state = |node: &Node, head: u64, now: u64| {
        node.topic_status("agg", report(&[("mem.r", 2, head, 0)], 1), now).unwrap().members[0].state
    };
    assert_eq!(state(&node, 2, 0), MemberState::Unreachable);
    heard(&mut node, 9, 0);
    assert_eq!(state(&node, 2, 0), MemberState::Quiet);
    assert_eq!(state(&node, 5, 0), MemberState::Active);
    assert_eq!(state(&node, 5, 10_001 * MS), MemberState::Unreachable);
}

#[test]
fn reaper_tombstones_a_member_with_a_dead_owner() {
    let mut node = node(1, "reap");
    create_topic(
        &mut node,
        "agg",
        TopicOptions {
            member_reap_after_ms: 1, // opt in with a tiny threshold
            ..TopicOptions::default()
        },
    );

    // A member of "agg" owned by a node that is never a live member (owner 99).
    node.registry.merge(ident("feed.x", 99, Some("agg")));

    // First pass records "dead since now"; after the threshold elapses, the next pass reaps.
    node.reap_dead_members(10 * MS);
    assert!(node.registry.get("feed.x").is_some());
    node.reap_dead_members(13 * MS);
    assert!(
        node.registry.get("feed.x").is_none(),
        "a member whose owner stayed dead past the threshold is reaped (tombstoned)"
    );
}

/// Contact restarts a member's clock, and a topic that did not ask for it loses no members.
#[test]
fn a_member_is_reaped_only_after_unbroken_silence() {
    let mut node = node(1, "reap-clock");
    let options = TopicOptions { member_reap_after_ms: 20_000, ..TopicOptions::default() };
    create_topic(&mut node, "agg", options);
    create_topic(&mut node, "keep", TopicOptions::default());
    node.registry.merge(ident("feed.x", 99, Some("agg")));
    node.registry.merge(ident("feed.k", 99, Some("keep")));
    node.reap_dead_members(0);
    heard(&mut node, 99, 15_000 * MS);
    node.reap_dead_members(16_000 * MS);
    node.reap_dead_members(30_000 * MS); // dead again: its clock starts over
    node.reap_dead_members(49_999 * MS);
    assert!(node.registry.get("feed.x").is_some());
    node.reap_dead_members(50_000 * MS);
    assert!(node.registry.get("feed.x").is_none());
    assert!(node.registry.get("feed.k").is_some());
}

#[test]
fn deregister_topic_retires_mux_and_deletes_files() {
    let mut node = node(1, "/retire");
    let topic_path = create_topic(&mut node, "agg", TopicOptions::default());
    assert_eq!(topic_path, "/retire/agg/log");
    publish(&mut node, "agg", "mem.a");
    assert_eq!(node.topic_member_count("agg"), Some(1));

    assert!(node.retire_topic("agg"));
    let remove = node.topic_finished("agg");
    assert_eq!(node.topic_member_count("agg"), None, "mux retired");
    assert!(node.registry.get("agg").is_none(), "topic channel tombstoned");
    // The topic channel is deleted from disk, so a later restart won't resurrect it.
    assert_eq!(remove.as_deref(), Some("/retire/agg"), "retired topic's files are removed");
    assert!(node.registry.get("mem.a").is_some(), "a member keeps its own channel");
    assert!(!node.retire_topic("agg"), "there is nothing left to retire");
}

// ---------------- restarting ----------------

fn header(name: &str) -> Header {
    Header { channel_name: name.to_string(), region_size: 1 << 20, mtu: 0 }
}

fn dir(name: &str) -> DirEntry {
    DirEntry { name: name.to_string(), is_dir: true }
}

/// Rebuilds plain channels: the entries of the data directory, and the header found in each.
fn reconstruct(node: &mut Node, entries: Vec<DirEntry>, stamped: &[(&str, &str)]) -> Reconstructed {
    let found = channel_names(entries)
        .into_iter()
        .map(|name| OnDisk { name, content: Content::Plain })
        .collect();
    let inventory = take_inventory(found);
    let outcomes = inventory
        .origins
        .iter()
        .map(|name| match stamped.iter().find(|(n, _)| n == name) {
            Some((_, s)) => node.reregister_origin(name, &header(s), 0, WALL).is_ok(),
            None => false,
        })
        .collect();
    tally(inventory.unreadable.len(), &vec![], &outcomes)
}

#[test]
fn a_channel_named_like_a_segment_does_not_collide() {
    let mut node = node(51, "/segment-name");
    // `md.aapl` may roll into segments `log.1`, `log.2`, … of its own.
    let a = node.host_channel("md.aapl", 1 << 20, 0, 0, WALL).unwrap();
    // A channel whose *name* is what a segment could be called.
    let b = node.host_channel("md.aapl.1", 1 << 20, 0, 0, WALL).unwrap();
    let (a, b) = (node.origin_created(a), node.origin_created(b));
    // Distinct directories, so neither adopts the other's files.
    assert_eq!(a, "/segment-name/md.aapl/log");
    assert_eq!(b, "/segment-name/md.aapl.1/log");
    assert!(!b.starts_with(&a));
    let found = channel_names(vec![dir("md.aapl"), dir("md.aapl.1")]);
    assert_eq!(found, ["md.aapl", "md.aapl.1"], "and both come back after a restart");
}

#[test]
fn a_renamed_channel_directory_is_refused_not_served_under_the_wrong_name() {
    // Someone moved the channel's directory — a migration, a restore, a mistake.
    let mut restarted = node(70, "/renamed");
    let rebuilt = reconstruct(&mut restarted, vec![dir("md.msft")], &[("md.msft", "md.aapl")]);
    assert!(
        restarted.registry.get("md.msft").is_none(),
        "a log stamped 'md.aapl' must not be served as 'md.msft'"
    );
    assert!(
        restarted.registry.get("md.aapl").is_none(),
        "nor under its real name, which no directory now claims"
    );
    assert_eq!(
        (rebuilt.origins, rebuilt.skipped),
        (0, 1),
        "and the refusal is counted, not silent"
    );
    let err = verify_stamped_name("/renamed/md.msft/log", "md.aapl", "md.msft").unwrap_err();
    assert_eq!(err.kind, ErrorKind::InvalidData);
    assert_eq!(
        err.message,
        "\"/renamed/md.msft/log\" holds channel 'md.aapl', but its directory says 'md.msft' — \
         refusing to serve one channel's records under another's name"
    );
    assert!(verify_stamped_name("/p", "", "md.msft").is_err(), "an unstamped log is refused too");
}

#[test]
fn a_rolled_and_pruned_channel_is_rehosted_after_restart() {
    // Retention has pruned segment 0, the unsuffixed file: what is left of the channel is its
    // directory, and segments in it.
    let mut restarted = node(52, "/pruned");
    let entries = vec![
        dir("md.aapl"),
        dir(".replicas"),
        dir(".discovery"),
        DirEntry { name: "stray".to_string(), is_dir: false },
        DirEntry { name: ".node_id".to_string(), is_dir: false },
    ];
    let rebuilt = reconstruct(&mut restarted, entries, &[("md.aapl", "md.aapl")]);
    assert_eq!(rebuilt, Reconstructed { topics: 0, origins: 1, skipped: 0 });
    assert!(
        restarted.registry.get("md.aapl").is_some(),
        "the channel must be re-hosted under its own name"
    );
    for phantom in ["md.aapl.1", "md.aapl.2", "md.aapl.3", "log", "log.1"] {
        assert!(
            restarted.registry.get(phantom).is_none(),
            "a surviving segment must not be registered as a channel: {phantom}"
        );
    }
}

#[test]
fn reconstruct_does_not_resurrect_a_deregistered_channel() {
    // Session 1: one channel kept, one deregistered (which deletes its files).
    let mut kept = vec!["md.keep".to_string(), "md.gone".to_string()];
    {
        let mut node = node(1, "/noresurrect");
        for name in &kept {
            let plan = node
                .create_for_client(name, ChannelOptions::default(), 0, WALL)
                .unwrap();
            node.origin_created(plan);
        }
        let gone = node.deregister("md.gone");
        assert!(gone.existed);
        assert_eq!(gone.remove_dir.as_deref(), Some("/noresurrect/md.gone"));
        kept.retain(|n| Some(format!("/noresurrect/{n}")) != gone.remove_dir);
    }
    // Session 2: fresh node (empty registry) on the same data_dir reconstructs from disk.
    let mut node2 = node(1, "/noresurrect");
    let entries = kept.iter().map(|n| dir(n)).collect();
    reconstruct(&mut node2, entries, &[("md.keep", "md.keep")]);
    assert!(
        node2.registry.get("md.keep").is_some(),
        "a live channel is re-registered on restart"
    );
    assert!(
        node2.registry.get("md.gone").is_none(),
        "a deregistered channel is NOT resurrected (its files were deleted)"
    );
}

/// A topic comes back with its disk bounds, its local members registered as its own, and where to
/// attach each member from.
#[test]
fn a_topic_is_rehosted_with_its_members() {
    let mut node = node(1, "/d");
    let cfg = TopicConfig {
        region_size: 4096,
        mtu: 64,
        file_roll_size: 1 << 16,
        keep_files: 3,
        members: vec![
            Incarnation { name: "mem.local".to_string(), epoch: 2 },
            Incarnation { name: "mem.far".to_string(), epoch: 0 },
        ],
    };
    let found = vec![
        OnDisk { name: "mem.local".to_string(), content: Content::Plain },
        OnDisk { name: "torn".to_string(), content: Content::Unreadable },
        OnDisk { name: "agg".to_string(), content: Content::Topic(cfg) },
    ];
    let inventory = take_inventory(found);
    assert_eq!(inventory.origins, ["mem.local"]);
    assert_eq!(inventory.unreadable, ["torn"]);
    let (name, cfg) = &inventory.topics[0];
    assert_eq!(name, "agg");

    assert!(node.rehost_topic(name, "other", cfg, 0, WALL).is_err(), "stamped for another channel");
    assert_eq!(node.rehost_topic(name, "agg", cfg, 0, WALL), Ok(true));
    let src = node.hosted.get("agg").unwrap();
    assert_eq!((src.region_size, src.file_roll_size, src.keep_files), (4096, 1 << 16, 3));
    assert!(!node.topic_opened("agg", 0));
    assert_eq!(node.rehost_topic(name, "agg", cfg, 0, WALL), Ok(false), "hosted already");

    let from = node.rehost_member("agg", "mem.local", Some(&header("mem.local")), 0, WALL);
    assert_eq!(from, ["/d/mem.local/log", "/d/.replicas/mem.local/log"]);
    assert_eq!(node.registry.get("mem.local").unwrap().member_of.as_deref(), Some("agg"));
    // A remote member is not this node's to register.
    assert_eq!(node.rehost_member("agg", "mem.far", None, 0, WALL).len(), 2);
    assert!(node.registry.get("mem.far").is_none());
    assert!(node.rehost_member("agg", "../x", None, 0, WALL).is_empty());

    // The pass over plain channels leaves the member alone.
    node.reregister_origin("mem.local", &header("mem.local"), 0, WALL).unwrap();
    assert_eq!(node.registry.get("mem.local").unwrap().member_of.as_deref(), Some("agg"));
}

/// A topic rolls and prunes as it was created to, and does so again after a restart: the bounds are in
/// its log, and are advertised to subscribers again.
#[test]
fn a_topic_channel_honours_its_retention_and_keeps_it_across_a_restart() {
    let options = TopicOptions {
        channel: ChannelOptions {
            region_size: 1 << 20,
            mtu: 0,
            file_roll_size: 1 << 21,
            keep_files: 1,
        },
        ..TopicOptions::default()
    };
    let mut first = node(60, "/topic-retention");
    let plan = first.create_topic("agg", options, 0, WALL).unwrap();
    assert_eq!(plan.origin.file_roll_size, 1 << 21);
    assert_eq!(plan.origin.retention(), Some(1), "its log is made with the bounds it was given");
    first.origin_created(plan.origin);
    first.topic_opened("agg", 0);
    publish(&mut first, "agg", "mem.a");
    assert_eq!(first.topic_member_count("agg"), Some(1));

    // Restart: all there is to go by is what the topic's log says of itself.
    let cfg = TopicConfig {
        region_size: 1 << 20,
        mtu: 0,
        file_roll_size: 1 << 21,
        keep_files: 1,
        members: vec![Incarnation { name: "mem.a".to_string(), epoch: 0 }],
    };
    let mut restarted = node(60, "/topic-retention");
    assert_eq!(restarted.rehost_topic("agg", "agg", &cfg, 0, WALL + 1), Ok(true));
    restarted.topic_opened("agg", 0);
    let from = restarted.rehost_member("agg", "mem.a", Some(&header("mem.a")), 0, WALL + 1);
    assert_eq!(from[0], "/topic-retention/mem.a/log");
    restarted.member_attached("agg", "mem.a", 0);
    assert_eq!(restarted.topic_member_count("agg"), Some(1), "re-hosted");
    let hosted = restarted.hosted.get("agg").unwrap();
    assert_eq!(
        (hosted.file_roll_size, hosted.keep_files),
        (1 << 21, 1),
        "re-hosted topic must advertise its retention to subscribers"
    );
}

#[test]
fn a_restart_counts_what_it_skipped() {
    let r = tally(0, &vec![true, false], &vec![true, true, false, false]);
    assert_eq!(r, Reconstructed { topics: 1, origins: 2, skipped: 3 });
    // A channel whose files will not open is skipped too.
    let r = tally(2, &vec![true, false], &vec![true, true, false, false]);
    assert_eq!(r, Reconstructed { topics: 1, origins: 2, skipped: 5 });
    assert_eq!(tally(0, &vec![], &vec![]), Reconstructed::default());
}

// ---------------- subscriptions ----------------

/// What a search that found the channel `name` returns.
fn found(name: &str) -> Resolution {
    Resolution::Found {
        identity: ChannelIdentity {
            name: name.to_string(),
            owner: NodeId(2),
            region_size: 1 << 20,
            mtu: 0,
            earliest_index: RecordIndex(0),
            registered_at_nanos: 1,
            epoch: 0,
            deleted: false,
            member_of: None,
        },
        addr: SocketAddr::v4(10, 0, 0, 2, 7000),
    }
}

/// A channel that could not be found is not subscribed to: the search's refusal is handed on, and
/// nothing is begun.
#[test]
fn an_unresolved_channel_is_not_subscribed_to() {
    let mut node = node(1, "/d");
    let mut search = resolve_within(Some(Duration::zero()), 5);
    let refused = node.resolve("md.none", &mut search, 5);
    let e = node.subscribe("md.none", refused, 5).err().unwrap();
    assert_eq!(e.kind, ErrorKind::TimedOut);
    assert_eq!(e.message, "channel 'md.none' not resolvable within timeout");
    assert_eq!(node.conducted.len(), 0);

    let mut search = resolve_within(None, 5);
    let wait = node.resolve("md.none", &mut search, 5);
    assert!(matches!(node.subscribe_as("md.none", wait, Establish::Retry, 5), Ok(None)));
    assert_eq!(node.conducted.len(), 0);
}

/// A subscription once stopped stays stopped, whatever still comes in for it.
#[test]
fn a_stopped_subscription_stays_stopped() {
    let mut node = node(1, "/d");
    let s = node.subscribe("md.aapl", found("md.aapl"), 0).unwrap().unwrap();
    node.keep_subscription(s.id);
    node.stop_subscription(s.id);
    node.resume_from(s.id, 3);
    node.subscribe_answered(s.id, SubscribeOutcome::Accepted { head: 9, adopted: true }, 5);
    node.client_polled(s.id, 6, 9, WALL);
    node.client_released(s.id);
    node.subscribe_answered(s.id, SubscribeOutcome::Rebuild { diverged: true }, 6);
    node.establish_ended(s.id);
    assert!(!node.conducted.get(s.id).unwrap().sub.is_active());
    assert!(!node.wants_connection(s.id));
    // One that loses its connection is still wanted.
    let t = node.subscribe("md.aapl", found("md.aapl"), 0).unwrap().unwrap();
    node.subscribe_answered(t.id, SubscribeOutcome::Accepted { head: 9, adopted: true }, 5);
    node.client_released(t.id);
    node.establish_ended(t.id);
    assert!(node.conducted.get(t.id).unwrap().sub.is_active());
}

/// The life of a subscription: connected, fed, dropped, healed, rebuilt, stopped, forgotten.
#[test]
fn a_subscription_heals_and_rebuilds() {
    let mut node = node(1, "/d");
    let now = 1_000 * MS;
    let s = node.subscribe("md.aapl", found("md.aapl"), now).unwrap().unwrap();
    assert!(s.establish);
    assert_eq!(s.replica_path, "/d/.replicas/md.aapl/log");
    node.keep_subscription(s.id);
    assert!(node.wants_connection(s.id));
    node.resume_from(s.id, 4);
    let outcome = SubscribeOutcome::Accepted { head: 9, adopted: true };
    assert!(node.subscribe_answered(s.id, outcome, 5).is_none());
    node.establish_ended(s.id);
    assert!(!node.wants_connection(s.id));
    assert_eq!(node.client_turn(s.id), ClientTurn::Poll);
    assert!(node.service_subscriptions().is_empty());
    assert_eq!(node.subscription_synced("md.aapl"), Some(4));

    node.client_polled(s.id, 0, 4, WALL);
    assert_eq!(node.conducted.get(s.id).unwrap().sub.last_record_at_ms(), None);
    node.client_polled(s.id, 5, 9, WALL);
    let sub = &node.conducted.get(s.id).unwrap().sub;
    assert_eq!((sub.synced_index(), sub.head_at_connect()), (9, 9));
    assert_eq!(sub.last_record_at_ms(), Some(WALL / 1_000_000));

    // The connection drops: it is to be healed, at the pace of retries.
    node.client_released(s.id);
    assert_eq!(node.service_subscriptions(), [s.id]);
    assert!(node.spawn_establish(s.id, Establish::Retry, now));
    assert!(!node.spawn_establish(s.id, Establish::Retry, now), "one attempt at a time");
    // A transient failure keeps the replica.
    assert!(node.subscribe_answered(s.id, SubscribeOutcome::Failed, 6).is_none());
    node.establish_ended(s.id);
    assert_eq!(node.subscription_synced("md.aapl"), Some(9));
    assert!(!node.spawn_establish(s.id, Establish::Retry, now + 1), "throttled");
    let later = now + 500 * MS;
    assert!(node.spawn_establish(s.id, Establish::Retry, later));

    // The source cannot extend it: it is rebuilt from scratch.
    let rebuild = SubscribeOutcome::Rebuild { diverged: true };
    let dir = node.subscribe_answered(s.id, rebuild, 77);
    assert_eq!(dir.as_deref(), Some("/d/.replicas/md.aapl"));
    node.establish_ended(s.id);
    let sub = &node.conducted.get(s.id).unwrap().sub;
    assert_eq!(sub.synced_index(), 0);
    assert_eq!(
        (sub.rebuilds().gap(), sub.rebuilds().diverged(), sub.rebuilds().last_at_ms()),
        (0, 1, Some(77))
    );
    let gap = SubscribeOutcome::Rebuild { diverged: false };
    node.subscribe_answered(s.id, gap, 78);
    assert_eq!(node.conducted.get(s.id).unwrap().sub.rebuilds().gap(), 1);

    // Stopped while connected: the duty cycle lets go of it, then it is forgotten.
    node.subscribe_answered(s.id, outcome, 80);
    assert!(node.unsubscribe("md.aapl"));
    assert_eq!(node.client_turn(s.id), ClientTurn::Stop);
    assert!(node.service_subscriptions().is_empty());
    assert!(node.conducted.get(s.id).is_some(), "its connection is still there");
    node.client_released(s.id);
    node.service_subscriptions();
    assert!(node.conducted.get(s.id).is_none());
    assert!(!node.unsubscribe("md.aapl"));
}

/// Each counter of rebuilds grows by those of its own cause, and the time is that of the last.
#[test]
fn rebuilds_add_up() {
    let mut stats = RebuildStats::default();
    assert_eq!(stats.last_at_ms(), None);
    for (diverged, at) in [(false, 3), (true, 5), (false, 8)] {
        stats.record(diverged, at);
    }
    assert_eq!((stats.gap(), stats.diverged(), stats.last_at_ms()), (2, 1, Some(8)));
}

/// A connection that could not be handed over leaves the subscription to be tried again.
#[test]
fn an_unadopted_connection_is_no_connection() {
    let mut node = node(1, "/d");
    let s = node.subscribe("md.aapl", found("md.aapl"), 0).unwrap().unwrap();
    let outcome = SubscribeOutcome::Accepted { head: 3, adopted: false };
    node.subscribe_answered(s.id, outcome, 5);
    node.establish_ended(s.id);
    assert!(node.wants_connection(s.id));
    assert_eq!(node.conducted.get(s.id).unwrap().sub.head_at_connect(), 3);
}

/// Keeping a second subscription for a channel stops the first.
#[test]
fn a_replaced_subscription_is_stopped() {
    let mut node = node(1, "/d");
    let a = node.subscribe("md.aapl", found("md.aapl"), 0).unwrap().unwrap().id;
    let b = node.subscribe("md.aapl", found("md.aapl"), 0).unwrap().unwrap().id;
    node.keep_subscription(a);
    node.keep_subscription(a);
    assert!(node.conducted.get(a).unwrap().sub.is_active());
    node.keep_subscription(b);
    assert!(!node.conducted.get(a).unwrap().sub.is_active());
    assert!(node.conducted.get(b).unwrap().sub.is_active());
    let bad = node.subscribe("../x", found("../x"), 0).err().unwrap();
    assert_eq!(bad.kind, ErrorKind::InvalidInput);
    assert_eq!(node.replica_dir("../x").unwrap_err().kind, ErrorKind::InvalidInput);
    assert_eq!(node.replica_dir("md.aapl").unwrap(), "/d/.replicas/md.aapl");
}

// ---------------- planes ----------------

#[test]
fn what_is_advertised_may_differ_from_what_is_bound() {
    let bound = SocketAddr::v4(0, 0, 0, 0, 7001);
    let shown = SocketAddr::v4(10, 0, 0, 7, 7001);
    let mut plain = node(1, "bound");
    plain.stream_bound(bound);
    plain.control_bound(bound);
    assert_eq!((plain.dissemination.self_addr, plain.dissemination.self_control_addr), (bound, bound));
    let mut cfg = config(1, "advertised");
    cfg.advertise_control_addr = Some(shown);
    cfg.advertise_stream_addr = Some(shown);
    let mut node = Node::new(cfg, 7);
    node.stream_bound(bound);
    node.control_bound(bound);
    assert_eq!((node.dissemination.self_addr, node.dissemination.self_control_addr), (shown, shown));
    assert_eq!(node.bound_stream_addr, Some(bound), "its own channels are served where it bound");
}

#[test]
fn connections_are_capped() {
    let mut node = node(1, "conns");
    for _ in 0..MAX_CONNECTIONS {
        assert!(node.acquire_conn());
    }
    assert!(!node.acquire_conn());
    node.release_conn();
    assert!(node.acquire_conn());
    assert_eq!(node.conns, 4096);
}
