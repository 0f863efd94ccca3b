//! Several nodes, with links that carry what each puts into its outbox.
use xchannel_net::addr::SocketAddr;
use xchannel_net::broadcast::Dispatch;
use xchannel_net::config::NodeConfig;
use xchannel_net::error::ErrorKind;
use xchannel_net::identity::{ChannelIdentity, NodeId, RecordIndex};
use xchannel_net::membership::{Introduction, Membership};
use xchannel_net::mux_idle::MuxIdle;
use xchannel_net::node::client::RequestStep;
use xchannel_net::node::subscribing::{
    resolve_within, ClientTurn, Establish, Resolution, SubscribeOutcome,
};
use xchannel_net::node::tick::{Stage, Tick, Upkeep};
use xchannel_net::node::Node;
use xchannel_net::subscription::SubId;
use xchannel_net::time::Duration;
use xchannel_net::wire::{
    ChannelOptions, ClientReply, ClientRequest, ControlMsg, PeerId, TopicOptions,
};

const MS: u64 = 1_000_000;
const WALL: u64 = 1_700_000_000_000_000_000;

fn config(id: u64) -> NodeConfig {
    NodeConfig {
        node_id: NodeId(id),
        data_dir: format!("/data/{id}"),
        control_addr: SocketAddr::v4(127, 0, 0, 1, 0),
        stream_addr: SocketAddr::v4(127, 0, 0, 1, 0),
        client_path: format!("/data/{id}/client.sock"),
        seeds: vec![],
        reclaim_after: Duration::from_millis(0),
        promoted_topics: vec![],
        mux_idle: MuxIdle::default(),
        advertise_control_addr: None,
        advertise_stream_addr: None,
        node_name: format!("test-{id}"),
        id_generated: false,
    }
}

fn stream_addr(id: u64) -> SocketAddr {
    SocketAddr::v4(127, 0, 0, 1, 10_000 + id as u16)
}

fn control_addr(id: u64) -> SocketAddr {
    SocketAddr::v4(127, 0, 0, 1, 20_000 + id as u16)
}

fn copy(about: &Introduction) -> Introduction {
    Introduction {
        node: about.node,
        addr: about.addr,
        control_addr: about.control_addr,
        name: about.name.clone(),
    }
}

fn copy_msg(msg: &ControlMsg) -> ControlMsg {
    match msg {
        ControlMsg::RegistryDelta(ids) => ControlMsg::RegistryDelta(ids.clone()),
        ControlMsg::RegistrySync(ids) => ControlMsg::RegistrySync(ids.clone()),
        ControlMsg::Heartbeat(i) => ControlMsg::Heartbeat(copy(i)),
        ControlMsg::PeerHint(i) => ControlMsg::PeerHint(copy(i)),
        ControlMsg::Leaving { node } => ControlMsg::Leaving { node: *node },
        ControlMsg::Unexpected => ControlMsg::Unexpected,
    }
}

/// One end of a link: which node, and the link's id there.
type End = (usize, PeerId);

struct Mesh {
    nodes: Vec<Node>,
    links: Vec<(End, End)>,
    /// Which nodes run their maintenance loop.
    maintained: Vec<bool>,
    /// How many records each channel holds at its origin.
    heads: Vec<(String, u64)>,
    now: u64,
}

impl Mesh {
    fn new() -> Mesh {
        Mesh { nodes: vec![], links: vec![], maintained: vec![], heads: vec![], now: 1_000 * MS }
    }

    fn start_with(&mut self, cfg: NodeConfig) -> usize {
        let id = cfg.node_id.0;
        let mut node = Node::new(cfg, self.now);
        node.stream_bound(stream_addr(id));
        node.control_bound(control_addr(id));
        self.nodes.push(node);
        self.maintained.push(true);
        self.nodes.len() - 1
    }

    fn start(&mut self, id: u64) -> usize {
        self.start_with(config(id))
    }

    fn start_seeded(&mut self, id: u64, seeds: &[SocketAddr]) -> usize {
        let mut cfg = config(id);
        cfg.seeds = seeds.to_vec();
        self.start_with(cfg)
    }

    /// Serves and answers, but never heartbeats of its own accord.
    fn start_quiet(&mut self, id: u64) -> usize {
        let i = self.start(id);
        self.maintained[i] = false;
        i
    }

    /// Dials `addr` from node `a`. Nobody answers at an address that no node has bound.
    fn connect(&mut self, a: usize, addr: SocketAddr) {
        if self.nodes[a].dissemination.is_connected(addr) {
            return;
        }
        let bound = |n: &Node| control_addr(n.config.node_id.0) == addr;
        let Some(b) = self.nodes.iter().position(bound) else { return };
        let here = self.nodes[a].link_dialled(addr);
        let there = self.nodes[b].link_accepted();
        self.links.push(((a, here), (b, there)));
        self.deliver();
    }

    fn far_end(&self, at: End) -> Option<End> {
        self.links.iter().find_map(|(a, b)| {
            if *a == at {
                Some(*b)
            } else if *b == at {
                Some(*a)
            } else {
                None
            }
        })
    }

    /// Carries all that is queued, until nothing is. A link dropped at one end goes away.
    fn deliver(&mut self) {
        loop {
            let mut carried = false;
            for i in 0..self.nodes.len() {
                let pending: Vec<Dispatch> = self.nodes[i].take_messages();
                for d in pending {
                    for id in &d.to {
                        if let Some((j, at)) = self.far_end((i, *id)) {
                            carried = true;
                            self.nodes[j].dissemination.receive(at, copy_msg(&d.msg), self.now);
                        }
                    }
                }
            }
            if !carried {
                return;
            }
        }
    }

    /// Links that one end no longer holds break at the other.
    fn break_links(&mut self) {
        let held = |n: &Node, id: PeerId| n.dissemination.peers.iter().any(|l| l.id == id);
        let (keep, broken): (Vec<_>, Vec<_>) = self
            .links
            .iter()
            .copied()
            .partition(|((a, x), (b, y))| held(&self.nodes[*a], *x) && held(&self.nodes[*b], *y));
        self.links = keep;
        for (a, b) in broken {
            for (i, id) in [a, b] {
                let d = &mut self.nodes[i].dissemination;
                let dialled = d.peers.iter().find(|l| l.id == id).and_then(|l| l.dialled);
                if let Some(addr) = dialled {
                    d.disconnected(addr);
                }
                d.send_failed(id);
            }
        }
    }

    fn head(&self, name: &str) -> u64 {
        self.heads.iter().find(|(n, _)| n == name).map_or(0, |(_, h)| *h)
    }

    /// One attempt to connect a subscription: resolve, dial, and pull what the source has.
    fn establish(&mut self, i: usize, id: SubId) {
        if self.nodes[i].wants_connection(id) {
            let name = self.nodes[i].conducted.get(id).unwrap().name.clone();
            let mut search = resolve_within(Some(Duration::from_millis(200)), self.now);
            if let Resolution::Found { .. } = self.nodes[i].resolve(&name, &mut search, self.now) {
                let head = self.head(&name);
                let outcome = SubscribeOutcome::Accepted { head, adopted: true };
                self.nodes[i].subscribe_answered(id, outcome, self.now / MS);
            }
        }
        self.nodes[i].establish_ended(id);
    }

    /// A turn of the duty cycle over the subscriptions of every node.
    fn forward(&mut self) {
        for i in 0..self.nodes.len() {
            for k in 0..self.nodes[i].conducted.len() {
                let id = self.nodes[i].conducted.id_at(k);
                let c = self.nodes[i].conducted.at(k);
                let (name, synced, connected) = (c.name.clone(), c.sub.synced, c.sub.connected);
                if !connected {
                    continue;
                }
                match self.nodes[i].client_turn(id) {
                    ClientTurn::Stop => self.nodes[i].client_released(id),
                    ClientTurn::Poll => {
                        let head = self.head(&name);
                        let moved = (head - synced) as usize;
                        self.nodes[i].client_polled(id, moved, head, WALL);
                    }
                }
            }
        }
    }

    /// The first stage of a tick of node `i`.
    fn upkeep(&mut self, i: usize) -> Upkeep {
        match self.nodes[i].run_maintenance(Stage::Upkeep, self.now) {
            Tick::Upkeep(u) => u,
            _ => panic!("the first stage is upkeep"),
        }
    }

    /// One maintenance tick of every node that runs one.
    fn tick(&mut self) {
        self.now += 500 * MS;
        for i in 0..self.nodes.len() {
            if !self.maintained[i] {
                continue;
            }
            let t = self.upkeep(i);
            self.deliver();
            for d in t.attach.detach {
                self.nodes[i].member_detached(&d.topic, &d.name, d.epoch);
            }
            for name in t.attach.subscribe {
                let mut search = resolve_within(Some(Duration::zero()), self.now);
                let found = self.nodes[i].resolve(&name, &mut search, self.now);
                let s = self.nodes[i].subscribe_as(&name, found, Establish::Retry, self.now);
                let s = s.unwrap().unwrap();
                self.nodes[i].keep_subscription(s.id);
                if s.establish {
                    self.establish(i, s.id);
                }
            }
            for s in t.attach.attach {
                // A replica is there once its subscription has connected.
                let ready = !s.replica
                    || self.nodes[i]
                        .subscriptions
                        .get(&s.name)
                        .and_then(|id| self.nodes[i].conducted.get(*id))
                        .is_some_and(|c| c.sub.connected);
                if ready {
                    self.nodes[i].member_attached(&s.topic, &s.name, s.epoch);
                }
            }
            for addr in t.seeds {
                self.connect(i, addr);
            }
            let Tick::Dial(dials) = self.nodes[i].run_maintenance(Stage::Peers, self.now) else {
                panic!("the second stage dials");
            };
            for addr in dials.learned.into_iter().chain(dials.twins) {
                self.connect(i, addr);
            }
            let Tick::Heal(heal) = self.nodes[i].run_maintenance(Stage::Healing, self.now) else {
                panic!("the last stage heals");
            };
            for id in heal {
                if self.nodes[i].spawn_establish(id, Establish::Retry, self.now) {
                    self.establish(i, id);
                }
            }
        }
        self.break_links();
        self.forward();
    }

    fn tick_until(&mut self, what: &str, done: impl Fn(&Mesh) -> bool) {
        for _ in 0..200 {
            if done(self) {
                return;
            }
            self.tick();
        }
        panic!("never came about: {what}");
    }

    fn host(&mut self, i: usize, name: &str, records: u64) {
        let plan = self.nodes[i].host_channel(name, 1 << 20, 0, self.now, WALL).unwrap();
        self.nodes[i].origin_created(plan);
        self.heads.push((name.to_string(), records));
        self.deliver();
    }

    fn sees(&self, i: usize, id: u64) -> bool {
        self.nodes[i].dissemination.live_addr_of(NodeId(id), self.now).is_some()
    }

    fn resolve(&self, i: usize, name: &str) -> Option<(ChannelIdentity, SocketAddr)> {
        let mut search = resolve_within(Some(Duration::from_secs(5)), self.now);
        match self.nodes[i].resolve(name, &mut search, self.now) {
            Resolution::Found { identity, addr } => Some((identity, addr)),
            _ => None,
        }
    }

    /// A client's request to subscribe, from start to finish.
    fn subscribe(&mut self, i: usize, name: &str) -> SubId {
        let mut search = resolve_within(Some(Duration::from_secs(5)), self.now);
        let found = self.nodes[i].resolve(name, &mut search, self.now);
        assert!(matches!(found, Resolution::Found { .. }));
        let s = self.nodes[i].subscribe(name, found, self.now).unwrap().unwrap();
        self.nodes[i].keep_subscription(s.id);
        if s.establish {
            self.establish(i, s.id);
        }
        s.id
    }
}

fn ident(name: &str, owner: u64, member_of: Option<&str>) -> ChannelIdentity {
    ChannelIdentity {
        name: name.to_string(),
        owner: NodeId(owner),
        region_size: 1 << 20,
        mtu: 0,
        earliest_index: RecordIndex(0),
        registered_at_nanos: 1,
        epoch: 0,
        deleted: false,
        member_of: member_of.map(String::from),
    }
}

/// A member whose owner cannot be reached costs nothing, and a live member behind it still gets
/// attached.
#[test]
fn a_member_whose_owner_is_unreachable_cannot_starve_a_live_one() {
    let mut m = Mesh::new();
    let a = m.start(150);
    let b = m.start_seeded(151, &[control_addr(150)]);
    let plan = m.nodes[a].create_topic("t.orders", TopicOptions::default(), m.now, WALL).unwrap();
    m.nodes[a].origin_created(plan.origin);
    m.nodes[a].topic_opened("t.orders", 0);

    // Members owned by a node nobody can reach, named to sort *before* the live one.
    for i in 0..8 {
        m.nodes[a].registry.merge(ident(&format!("aaa.{i}"), 9999, Some("t.orders")));
    }

    // A live member on B, sorting last.
    let plan = m.nodes[b]
        .publish_to_topic("t.orders", "zzz.live", ChannelOptions::default(), m.now, WALL)
        .unwrap();
    m.nodes[b].origin_created(plan);

    // It must attach despite the eight unreachable members ahead of it in the walk.
    m.tick_until("zzz.live attached", |m| {
        m.nodes[a]
            .muxes
            .get("t.orders")
            .is_some_and(|mux| mux.members.iter().any(|x| x.name == "zzz.live"))
    });
    assert_eq!(m.nodes[a].conducted.len(), 1, "nothing was spent on the unreachable ones");
}

/// A peer that sends a registry state which loses the merge is told the winner, in one message.
#[test]
fn a_peer_holding_a_losing_state_is_told_the_winner() {
    let mut m = Mesh::new();
    let a = m.start(130);
    let peer = m.nodes[a].link_accepted();
    m.nodes[a].take_messages();

    // A learns the winner *after* the link, and by merging rather than registering, so nothing is
    // announced and the snapshot the peer already received cannot have carried it.
    let winner = ident("md.aapl", 130, None);
    m.nodes[a].registry.merge(winner.clone());
    // A second name, so the reply has something to coalesce.
    let winner2 = ident("md.msft", 130, None);
    m.nodes[a].registry.merge(winner2.clone());

    // The peer announces states that lose: same names, later registration.
    let losing = |w: &ChannelIdentity| ChannelIdentity {
        owner: NodeId(999),
        registered_at_nanos: u64::MAX,
        ..w.clone()
    };
    let (loser, loser2) = (losing(&winner), losing(&winner2));
    let delta = ControlMsg::RegistryDelta(vec![loser.clone(), loser2]);
    m.nodes[a].dissemination.receive(peer, delta, m.now);

    // A's map did not move, so there is nothing to flood — but the peer must still be corrected.
    m.upkeep(a);
    let mut replied = false;
    for d in m.nodes[a].take_messages() {
        if let ControlMsg::RegistryDelta(ids) = d.msg {
            assert!(
                !ids.contains(&loser),
                "A must not echo the losing state back as though it had won"
            );
            assert_eq!(d.to, [peer]);
            assert!(ids.contains(&winner));
            // One frame, both winners.
            assert!(
                ids.contains(&winner2),
                "the reply must coalesce a pump cycle's winners into one frame, not send one frame \
                 per identity"
            );
            assert!(!replied);
            replied = true;
        }
    }
    assert!(
        replied,
        "A held the winner and said nothing: the peer that sent the losing state would keep it \
         forever, since anti-entropy only runs when a link is established"
    );
}

#[test]
fn a_seed_chain_closes_into_a_full_mesh() {
    let mut m = Mesh::new();
    let a = m.start(80);
    m.start_seeded(81, &[control_addr(80)]);
    let c = m.start_seeded(82, &[control_addr(81)]);

    // A registers a channel.
    m.host(a, "md.aapl", 0);

    // C learns the channel two hops away.
    m.tick_until("C learns the channel", |m| m.nodes[c].registry.get("md.aapl").is_some());

    // ...and A and C end up direct peers, each having heard from the other first-hand.
    m.tick_until("A and C linked", |m| m.sees(a, 82) && m.sees(c, 80));

    // And C can now actually resolve the channel to its owner, which needs both the registry entry
    // and live membership for A.
    let (id, addr) = m.resolve(c, "md.aapl").unwrap();
    assert_eq!(id.owner, NodeId(80));
    assert_eq!(
        Some(addr),
        m.nodes[c].dissemination.live_addr_of(NodeId(80), m.now),
        "C resolves the owner to the address it heard from A directly"
    );
}

/// A node behind a firewall can dial out but cannot be dialled. The mesh must still close, using the
/// direction that works.
#[test]
fn a_node_reachable_only_outbound_still_joins_the_mesh() {
    let mut m = Mesh::new();
    m.start(85);
    // A is unreachable inbound from the outset: it only ever advertises an address that refuses
    // connections, so no peer can dial it.
    let mut cfg = config(90);
    cfg.seeds = vec![control_addr(85)];
    cfg.advertise_control_addr = Some(SocketAddr::v4(127, 0, 0, 1, 1));
    let a = m.start_with(cfg);
    let c = m.start_seeded(80, &[control_addr(85)]);

    // A registers a channel; only B is adjacent to it at first.
    m.host(a, "md.aapl", 0);

    // A and C must become directly linked — provable by liveness, which only a heartbeat received
    // first-hand confers.
    m.tick_until("A and C linked", |m| m.sees(a, 80) && m.sees(c, 90));

    // ...and C can resolve A's channel, which needs both the registry entry and live membership for
    // its owner.
    m.tick_until("C knows the channel", |m| m.resolve(c, "md.aapl").is_some());
    assert_eq!(m.resolve(c, "md.aapl").unwrap().0.owner, NodeId(90));
}

/// A cross-dial race leaves one link, not two, and both ends keep the *same* one.
#[test]
fn a_cross_dial_race_collapses_to_a_single_link() {
    let mut m = Mesh::new();
    let a = m.start(94);
    let b = m.start(95);

    // Both dial.
    m.connect(a, control_addr(95));
    m.connect(b, control_addr(94));
    assert_eq!(m.nodes[a].dissemination.peer_count(), 2);

    // Both settle on one link to the other, and it stays settled.
    m.tick_until("one link", |m| {
        m.nodes[a].dissemination.peer_count() == 1 && m.nodes[b].dissemination.peer_count() == 1
    });
    for _ in 0..20 {
        m.tick();
        assert!(
            m.nodes[a].dissemination.linked_nodes().contains(&NodeId(95)),
            "the surviving link must not be dropped by a later dedup pass"
        );
        assert!(m.nodes[b].dissemination.linked_nodes().contains(&NodeId(94)));
        assert_eq!(m.nodes[a].dissemination.peer_count(), 1);
    }
}

/// Two machines with one id that meet are found out, and each stands aside if its id was generated
/// and it owns nothing.
#[test]
fn twins_that_meet_are_reported() {
    let mut m = Mesh::new();
    let hub = m.start(1);
    let link = |m: &mut Mesh, port: u16| {
        let id = m.nodes[hub].link_accepted();
        let twin = Introduction {
            node: NodeId(7),
            addr: SocketAddr::v4(10, 0, 0, 1, port),
            control_addr: SocketAddr::v4(10, 0, 0, 1, port + 1),
            name: String::new(),
        };
        m.nodes[hub].dissemination.receive(id, ControlMsg::Heartbeat(twin), m.now);
    };
    link(&mut m, 7000);
    assert!(m.upkeep(hub).duplicates.is_none());
    link(&mut m, 8000);
    let report = m.upkeep(hub).duplicates.expect("two claim one id");
    assert_eq!(report.fresh, [NodeId(7)]);
}

/// The peers to dial are listed once the seeds have been dialled: a seed that was linked a moment
/// ago is no candidate, and does not shift where the rotation begins.
#[test]
fn a_seed_linked_in_a_tick_is_no_peer_to_dial_in_it() {
    let mut m = Mesh::new();
    let mut cfg = config(1);
    cfg.seeds = vec![control_addr(2)];
    let a = m.start_with(cfg);
    m.start(2);
    let hub = m.nodes[a].link_accepted();
    for id in [2u64, 3, 4, 5] {
        let hint = Introduction {
            node: NodeId(id),
            addr: stream_addr(id),
            control_addr: control_addr(id),
            name: String::new(),
        };
        m.nodes[a].dissemination.receive(hub, ControlMsg::PeerHint(hint), m.now);
    }
    m.nodes[a].dial_cursor_learned = 1;
    assert_eq!(m.upkeep(a).seeds, [control_addr(2)]);
    m.connect(a, control_addr(2));
    let Tick::Dial(dials) = m.nodes[a].run_maintenance(Stage::Peers, m.now) else {
        panic!("the second stage dials");
    };
    assert_eq!(dials.learned, [control_addr(4), control_addr(5)], "of 3, 4 and 5, from the second");
    assert_eq!(Stage::Upkeep.next(), Stage::Peers);
    assert_eq!(Stage::Peers.next(), Stage::Healing);
    assert_eq!(Stage::Healing.next(), Stage::Upkeep);
}

/// The replica of a channel that was retired and made anew is of another log: the source says so, and
/// the replica is discarded and rebuilt, never extended.
#[test]
fn a_reclaimed_channel_rebuilds_the_replica_instead_of_splicing() {
    let mut m = Mesh::new();
    let (a, b) = (m.start(41), m.start(42));
    let old_n = 3u64;
    m.host(a, "md.aapl", old_n);
    m.connect(b, control_addr(41));
    m.tick_until("b finds the channel", |m| m.resolve(b, "md.aapl").is_some());
    let id = m.subscribe(b, "md.aapl");
    m.tick_until("synced", |m| m.nodes[b].subscription_synced("md.aapl") == Some(old_n));
    let old_epoch = m.resolve(b, "md.aapl").unwrap().0.epoch;
    m.nodes[b].unsubscribe("md.aapl");
    m.forward();
    assert!(!m.nodes[b].conducted.get(id).unwrap().sub.connected);

    // The name is retired and reclaimed — same name, brand-new log at `epoch + 1`. It is longer than
    // the replica B holds, so that B's position stays below the new head.
    assert!(m.nodes[a].deregister("md.aapl").existed);
    m.deliver();
    let new_n = 40u64;
    let plan = m.nodes[a].host_channel("md.aapl", 1 << 20, 0, m.now, WALL).unwrap();
    assert_eq!(plan.identity.epoch, old_epoch + 1);
    assert_ne!(plan.generation(), old_epoch);
    m.nodes[a].origin_created(plan);
    m.heads = vec![("md.aapl".to_string(), new_n)];
    m.deliver();
    m.tick_until("b learns of it", |m| {
        m.resolve(b, "md.aapl").is_some_and(|(id, _)| id.epoch == old_epoch + 1)
    });

    // B comes back holding records of a log that no longer exists, and is refused.
    let mut search = resolve_within(Some(Duration::from_secs(5)), m.now);
    let found = m.nodes[b].resolve("md.aapl", &mut search, m.now);
    let s = m.nodes[b].subscribe("md.aapl", found, m.now).unwrap().unwrap();
    m.nodes[b].keep_subscription(s.id);
    m.nodes[b].resume_from(s.id, old_n);
    let refused = SubscribeOutcome::Rebuild { diverged: true };
    let dir = m.nodes[b].subscribe_answered(s.id, refused, 7).expect("the replica is discarded");
    assert!(dir.ends_with("/.replicas/md.aapl"));
    m.nodes[b].establish_ended(s.id);
    assert_eq!(m.nodes[b].subscription_synced("md.aapl"), Some(0), "rebuilt from genesis");

    // The next attempt starts from scratch, and takes the new log in full.
    m.tick_until("rebuilt", |m| m.nodes[b].subscription_synced("md.aapl") == Some(new_n));
    let sub = &m.nodes[b].conducted.get(s.id).unwrap().sub;
    assert_eq!((sub.rebuilds().gap(), sub.rebuilds().diverged()), (0, 1));
}

/// A subscriber whose position the source no longer retains rebuilds, and that is no divergence.
#[test]
fn a_subscriber_behind_retention_rebuilds_from_earliest() {
    let mut m = Mesh::new();
    let (a, b) = (m.start(61), m.start(62));
    let first = 3u64;
    m.host(a, "md.aapl", first);
    m.connect(b, control_addr(61));
    m.tick_until("b finds the channel", |m| m.resolve(b, "md.aapl").is_some());
    m.subscribe(b, "md.aapl");
    m.tick_until("synced", |m| m.nodes[b].subscription_synced("md.aapl") == Some(first));
    m.nodes[b].unsubscribe("md.aapl"); // B stops here, holding records 0..3
    m.forward();

    // While B is away the origin rolls three times, two records each, and prunes what B would need.
    let index = first + 6;
    m.heads = vec![("md.aapl".to_string(), index)];

    // B comes back asking to resume at 3, which the origin no longer retains.
    let mut search = resolve_within(Some(Duration::from_secs(5)), m.now);
    let found = m.nodes[b].resolve("md.aapl", &mut search, m.now);
    let s = m.nodes[b].subscribe("md.aapl", found, m.now).unwrap().unwrap();
    m.nodes[b].keep_subscription(s.id);
    m.nodes[b].resume_from(s.id, first);
    let refused = SubscribeOutcome::Rebuild { diverged: false };
    assert!(m.nodes[b].subscribe_answered(s.id, refused, 7).is_some());
    m.nodes[b].establish_ended(s.id);
    m.tick_until("rebuilt", |m| m.nodes[b].subscription_synced("md.aapl") == Some(index));

    let rebuilds = m.nodes[b].conducted.get(s.id).unwrap().sub.rebuilds();
    assert_eq!(rebuilds.gap(), 1, "one rebuild, caused by retention");
    assert_eq!(rebuilds.diverged(), 0, "the name was never reclaimed — this is not divergence");
    assert!(rebuilds.last_at_ms().is_some());
}

/// A node that links to another learns its channels and its address from it, and replicates.
#[test]
fn two_nodes_discover_and_replicate() {
    let mut m = Mesh::new();
    let (a, b) = (m.start(1), m.start(2));
    let n = 40u64;
    // Hosted before B links, so B learns of it from the registry it is sent on joining.
    m.host(a, "md.aapl", n);
    assert!(m.resolve(b, "md.aapl").is_none());
    m.connect(b, control_addr(1));
    m.tick_until("b finds the channel", |m| m.resolve(b, "md.aapl").is_some());
    assert_eq!(m.resolve(b, "md.aapl").unwrap().1, stream_addr(1));

    let id = m.subscribe(b, "md.aapl");
    m.tick_until("synced", |m| m.nodes[b].subscription_synced("md.aapl") == Some(n));
    assert_eq!(m.nodes[b].conducted.get(id).unwrap().sub.synced_index(), n);
}

/// An application that restarts creates its channel anew, and gets the same log in the same
/// incarnation: a subscriber goes on extending its replica.
#[test]
fn an_application_restart_does_not_make_subscribers_rebuild() {
    let mut m = Mesh::new();
    let (a, b) = (m.start(131), m.start(132));
    let options = ChannelOptions::default();
    let plan = m.nodes[a].create_for_client("md.aapl", options, m.now, WALL).unwrap();
    let generation = plan.generation();
    let path = m.nodes[a].origin_created(plan);
    m.heads.push(("md.aapl".to_string(), 2));
    m.deliver();

    m.connect(b, control_addr(131));
    m.tick_until("b finds the channel", |m| m.resolve(b, "md.aapl").is_some());
    let id = m.subscribe(b, "md.aapl");
    m.tick_until("synced", |m| m.nodes[b].subscription_synced("md.aapl") == Some(2));

    // The application restarts: same daemon, same channel, a fresh `create` and writer.
    let again = m.nodes[a].create_for_client("md.aapl", options, m.now, WALL + 1).unwrap();
    assert_eq!(again.generation(), generation, "a restart is not a reclaim");
    assert_eq!(m.nodes[a].origin_created(again), path);
    m.heads = vec![("md.aapl".to_string(), 4)];
    m.deliver();

    m.tick_until("synced again", |m| m.nodes[b].subscription_synced("md.aapl") == Some(4));
    let sub = &m.nodes[b].conducted.get(id).unwrap().sub;
    assert!(sub.is_active());
    assert_eq!(sub.rebuilds().gap(), 0);
    assert_eq!(
        sub.rebuilds().diverged(),
        0,
        "an application restart is not a reclaim — the replica must be extended, not rebuilt"
    );
}

/// A member that lives on another node feeds a topic here: its owner is learned of by gossip, it is
/// subscribed to, and its replica is attached to the merge.
#[test]
fn remote_member_merges_into_topic_across_two_nodes() {
    let mut m = Mesh::new();
    let (a, b) = (m.start(1), m.start(2));
    // A hosts the topic and drives its merge.
    let plan = m.nodes[a].create_topic("agg", TopicOptions::default(), m.now, WALL).unwrap();
    m.nodes[a].origin_created(plan.origin);
    m.nodes[a].topic_opened("agg", 0);

    // B hosts a member of "agg", and does not own the topic.
    let n = 20u64;
    let options = ChannelOptions::default();
    let plan = m.nodes[b].publish_to_topic("agg", "feed.b", options, m.now, WALL).unwrap();
    m.nodes[b].origin_created(plan);
    assert_eq!(m.nodes[b].attach_epoch("agg", "feed.b"), None, "not B's topic");
    m.heads.push(("feed.b".to_string(), n));

    m.connect(b, control_addr(1));
    m.tick_until("all records are there to be merged", |m| {
        m.nodes[a].topic_member_count("agg") == Some(1)
            && m.nodes[a].subscription_synced("feed.b") == Some(n)
    });
    let mux = m.nodes[a].muxes.get("agg").unwrap();
    assert_eq!((mux.members[0].name.as_str(), mux.members[0].epoch), ("feed.b", 0));
}

/// A clean shutdown makes a peer drop the departing node from its live set at once.
#[test]
fn a_clean_shutdown_makes_peers_drop_the_node_immediately() {
    let mut m = Mesh::new();
    let a = m.start_quiet(96);
    let b = m.start_seeded(97, &[control_addr(96)]);

    // B sees A as live once their link is up.
    m.tick_until("B sees A", |m| m.sees(b, 96));

    assert_eq!(m.nodes[a].shutdown(), "/data/96/client.sock");
    m.deliver();

    // ...and stops, without ten seconds passing. The address is retained.
    assert!(!m.sees(b, 96));
    assert!(
        m.nodes[b].dissemination.membership.node_at(control_addr(96)).is_some(),
        "a departure forgets liveness, not the address"
    );
}

/// Hearsay teaches an address but must never confer liveness.
#[test]
fn hearsay_teaches_an_address_but_never_liveness() {
    let mut m = Membership::new();
    let stream = SocketAddr::v4(127, 0, 0, 1, 7000);
    let control = SocketAddr::v4(127, 0, 0, 1, 7001);
    let timeout = Duration::from_secs(60);
    let now = 5_000 * MS;

    assert!(m.learn(NodeId(9), stream, control, "n9"), "new to us");
    assert_eq!(
        m.known_peers(),
        vec![(NodeId(9), control)],
        "we know where it is, so we can dial it"
    );
    assert_eq!(
        m.live_addr_of(NodeId(9), timeout, now),
        None,
        "but we have not heard from it, so it is not live"
    );
    assert!(m.live_members(timeout, now).is_empty());
    assert_eq!(m.silent_for(NodeId(9), now), None, "never heard from directly");

    // A direct heartbeat is what makes it live.
    m.record(NodeId(9), stream, control, "n9", now);
    assert_eq!(m.live_addr_of(NodeId(9), timeout, now), Some(stream));

    // And later hearsay must not undo that.
    m.learn(NodeId(9), stream, control, "n9");
    assert_eq!(
        m.live_addr_of(NodeId(9), timeout, now),
        Some(stream),
        "hearsay must never make a reachable node look unreachable"
    );
    // Liveness lasts exactly the timeout.
    assert_eq!(m.live_members(timeout, now + 60_000 * MS), [NodeId(9)]);
    assert!(m.live_members(timeout, now + 60_000 * MS + 1).is_empty());
    assert_eq!(m.silent_for(NodeId(9), now + 3 * MS), Some(Duration::from_millis(3)));
}

#[test]
fn force_deregister_refuses_live_owners_own_channels_and_fresh_daemons() {
    let mut m = Mesh::new();
    let a = m.start(111);
    // A floor, so the liveness check is not the only thing standing between this test and a reclaim.
    let mut cfg = config(112);
    cfg.reclaim_after = Duration::from_secs(300);
    let b = m.start_with(cfg);
    m.host(a, "md.aapl", 1);
    m.connect(b, control_addr(111));
    m.tick_until("B knows the channel and its owner", |m| {
        m.nodes[b].registry.get("md.aapl").is_some() && m.sees(b, 111)
    });

    let err = m.nodes[b].force_deregister("md.aapl", m.now).unwrap_err();
    assert_eq!(err.kind, ErrorKind::ResourceBusy);
    let why = &err.message;
    assert!(
        why.contains("live member") || why.contains("unreachable for"),
        "a reclaim must be refused while the owner is live or too recently silent: {why}"
    );

    // The owner must use the ordinary owner-only path for its own channels.
    let err = m.nodes[a].force_deregister("md.aapl", m.now).unwrap_err();
    assert_eq!(err.kind, ErrorKind::InvalidInput);
    assert!(err.message.contains("use deregister"), "{}", err.message);

    // A node that has never had contact with an owner must judge it on how long *the owner* has been
    // unreachable from here — which for a daemon that has only just learned of it is no time at all.
    let mut cfg = config(113);
    cfg.reclaim_after = Duration::from_secs(300);
    let mut fresh = Node::new(cfg, 1);
    let now = 1_000_000 * MS;
    fresh.registry.merge(ident("theirs", 999, None));
    let err = fresh.force_deregister("theirs", now).unwrap_err();
    assert_eq!(err.kind, ErrorKind::ResourceBusy);
    assert!(err.message.contains("unreachable for"), "{}", err.message);

    // Once the owner *has* been unreachable from here for the whole floor, the reclaim is allowed.
    fresh.owner_unreachable_since.insert(NodeId(999), now - 600_000 * MS);
    assert!(fresh.force_deregister("theirs", now).unwrap());

    // An unknown name is simply nothing to do.
    assert!(!fresh.force_deregister("nope", now).unwrap());
}

/// A node that **has** had contact can reclaim once the owner is gone.
#[test]
fn a_departed_owners_name_can_be_reclaimed_by_a_node_that_knew_it() {
    let mut m = Mesh::new();
    let a = m.start_quiet(114);
    let b = m.start(115);
    m.host(a, "md.aapl", 1);
    m.connect(b, control_addr(114));
    m.tick_until("B knows the channel and its owner", |m| {
        m.nodes[b].registry.get("md.aapl").is_some() && m.sees(b, 114)
    });

    m.nodes[a].shutdown();
    m.deliver();
    assert!(!m.sees(b, 114));
    assert!(
        m.nodes[b].force_deregister("md.aapl", m.now).unwrap(),
        "B heard from A and then A left, so B can say how long it has been gone"
    );
}

/// When the owner withdraws a channel, a subscriber must learn that its source is *gone* rather than
/// merely quiet.
#[test]
fn a_tombstone_retires_a_subscriber() {
    let mut m = Mesh::new();
    let a = m.start(91);
    let b = m.start(92);
    let n = 4u64;
    m.host(a, "md.aapl", n);
    m.connect(b, control_addr(91));
    m.tick_until("B can resolve", |m| m.resolve(b, "md.aapl").is_some());
    let id = m.subscribe(b, "md.aapl");
    m.tick_until("synced", |m| m.nodes[b].subscription_synced("md.aapl") == Some(n));

    // The owner withdraws it through the client RPC.
    let withdraw = || ClientRequest::Deregister { name: "md.aapl".into() };
    let step = m.nodes[a].handle_request(withdraw(), m.now, WALL);
    let RequestStep::Delete { remove_dir, reply } = step else { panic!("a reply and a deletion") };
    assert_eq!(reply, ClientReply::Deregistered { existed: true });
    assert_eq!(remove_dir.as_deref(), Some("/data/91/md.aapl"));

    // B converges on the tombstone and retires its subscription.
    m.tick_until("retired", |m| !m.nodes[b].subscriptions.contains("md.aapl"));
    assert!(
        m.nodes[b].subscription_status("md.aapl", 0, m.now).is_none(),
        "a retired subscription must not keep reporting as a live source"
    );
    m.tick();
    m.tick();
    assert!(m.nodes[b].conducted.get(id).is_none(), "and is forgotten once its connection is gone");

    // Deregistering again is not an error — it simply reports nothing was there.
    let step = m.nodes[a].handle_request(withdraw(), m.now, WALL);
    assert!(matches!(
        step,
        RequestStep::Delete { remove_dir: None, reply: ClientReply::Deregistered { existed: false } }
    ));
}

/// Status must distinguish a source that is merely quiet from one whose replication is broken.
#[test]
fn status_reports_progress_and_liveness_separately() {
    let mut m = Mesh::new();
    let a = m.start(81);
    let b = m.start(82);
    let n = 5u64;
    m.host(a, "md.aapl", n);

    // A hosts it: local, caught up by definition, nothing to lag behind.
    let local = m.nodes[a].subscription_status("md.aapl", n, m.now).unwrap();
    assert!(local.local && local.active && local.owner_live);
    assert_eq!(local.synced, RecordIndex(n));
    assert_eq!(local.owner, NodeId(81));

    // B replicates it: not local, owner live, progress tracked, no rebuilds.
    m.connect(b, control_addr(81));
    m.tick_until("B can resolve", |m| m.resolve(b, "md.aapl").is_some());
    m.subscribe(b, "md.aapl");
    m.tick_until("synced", |m| m.nodes[b].subscription_synced("md.aapl") == Some(n));
    let remote = m.nodes[b].subscription_status("md.aapl", 0, m.now).unwrap();
    assert!(remote.owner_live && remote.synced == RecordIndex(n));
    assert!(!remote.local);
    assert!(remote.active);
    assert_eq!(remote.owner, NodeId(81));
    assert_eq!(remote.head_at_connect, RecordIndex(n));
    assert_eq!(remote.rebuilds_gap, 0);
    assert_eq!(remote.rebuilds_diverged, 0);
    assert!(
        remote.last_record_at_ms > 0,
        "records arrived, so the live staleness signal must be set"
    );

    // An unknown channel is an error, not a fabricated healthy-looking zero status.
    assert!(m.nodes[b].subscription_status("md.unknown", 0, m.now).is_none());

    // Once the owner falls silent, the number stands and the liveness does not.
    let later = m.now + 10_001 * MS;
    let stalled = m.nodes[b].subscription_status("md.aapl", 0, later).unwrap();
    assert!(!stalled.owner_live && stalled.active && stalled.synced == RecordIndex(n));
}

#[test]
fn subscription_stops_cleanly() {
    let mut m = Mesh::new();
    let a = m.start(11);
    let b = m.start(12);
    let n = 10u64;
    m.host(a, "c", n);
    m.connect(b, control_addr(11));
    m.tick_until("B can resolve", |m| m.resolve(b, "c").is_some());

    let id = m.subscribe(b, "c");
    m.tick_until("synced", |m| m.nodes[b].subscription_synced("c") == Some(n));
    assert!(m.nodes[b].conducted.get(id).unwrap().sub.is_active());

    m.nodes[b].stop_subscription(id);
    assert!(!m.nodes[b].conducted.get(id).unwrap().sub.is_active());
    m.heads.push(("c".to_string(), n + 1));
    m.heads.swap(0, 1);
    m.forward();
    let sub = &m.nodes[b].conducted.get(id).unwrap().sub;
    assert_eq!(sub.synced_index(), n, "sync frozen after stop");
    assert!(!sub.connected, "the duty cycle has let go of it");
}

/// A subscription outlives its source's restart: it is healed once the owner is back.
#[test]
fn a_dropped_subscription_is_healed() {
    let mut m = Mesh::new();
    let a = m.start(11);
    let b = m.start(12);
    m.host(a, "c", 3);
    m.connect(b, control_addr(11));
    m.tick_until("B can resolve", |m| m.resolve(b, "c").is_some());
    let id = m.subscribe(b, "c");
    m.forward();
    assert_eq!(m.nodes[b].subscription_synced("c"), Some(3));
    m.nodes[b].client_released(id);
    m.heads[0].1 = 8;
    m.tick_until("healed", |m| m.nodes[b].subscription_synced("c") == Some(8));
}

/// A channel registered anywhere is known everywhere, and so is its withdrawal; every watcher ends
/// with the same set.
#[test]
fn registrations_flood_the_mesh_and_die_down() {
    let mut m = Mesh::new();
    let ids = [1u64, 2, 3, 4];
    m.start(1);
    for w in ids.windows(2) {
        m.start_seeded(w[1], &[control_addr(w[0])]);
    }
    m.tick_until("a full mesh", |m| (0..4).all(|i| ids.iter().all(|x| ids[i] == *x || m.sees(i, *x))));
    m.host(3, "md.aapl", 0);
    m.host(0, "md.msft", 0);
    m.tick_until("both known everywhere", |m| {
        m.nodes.iter().all(|n| n.registry.get("md.aapl").is_some() && n.registry.get("md.msft").is_some())
    });
    m.nodes[3].deregister("md.aapl");
    m.deliver();
    m.tick_until("gone everywhere", |m| m.nodes.iter().all(|n| n.registry.get("md.aapl").is_none()));
    // Nothing is carried on any more: a tick sends heartbeats alone.
    for _ in 0..3 {
        m.tick();
    }
    for i in 0..4 {
        m.upkeep(i);
        let sent = m.nodes[i].take_messages();
        assert!(sent.iter().all(|d| matches!(d.msg, ControlMsg::Heartbeat(_))));
        assert_eq!(sent.len(), 1);
    }
}
