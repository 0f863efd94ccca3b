//! A client drives a node: requests, and what each calls for.
use xchannel_net::addr::SocketAddr;
use xchannel_net::config::NodeConfig;
use xchannel_net::identity::{ChannelIdentity, NodeId, RecordIndex};
use xchannel_net::mux_idle::MuxIdle;
use xchannel_net::node::client::{created_or_error, subscribed_or_error, RequestStep};
use xchannel_net::node::subscribing::{resolve_within, Resolution};
use xchannel_net::node::Node;
use xchannel_net::time::Duration;
use xchannel_net::wire::{
    ChannelChange, ChannelInfo, ChannelOptions, ClientReply, ClientRequest, DiscoveryCursor,
    TopicOptions,
};

const MS: u64 = 1_000_000;
const WALL: u64 = 1_700_000_000_000_000_000;

fn node(id: u64, dir: &str) -> Node {
    let config = NodeConfig {
        node_id: NodeId(id),
        data_dir: dir.to_string(),
        control_addr: SocketAddr::v4(127, 0, 0, 1, 0),
        stream_addr: SocketAddr::v4(127, 0, 0, 1, 0),
        client_path: format!("{dir}/client.sock"),
        seeds: vec![],
        reclaim_after: Duration::from_secs(300),
        promoted_topics: vec![],
        mux_idle: MuxIdle::default(),
        advertise_control_addr: None,
        advertise_stream_addr: None,
        node_name: "client-rpc-test".to_string(),
        id_generated: false,
    };
    Node::new(config, 42)
}

/// Runs a request to its reply, on a disk that does whatever it is asked.
struct Daemon {
    node: Node,
    /// The discovery log.
    log: Vec<ChannelChange>,
    now: u64,
}

impl Daemon {
    fn new(id: u64, dir: &str) -> Daemon {
        Daemon { node: node(id, dir), log: vec![], now: MS }
    }

    fn flush(&mut self) {
        self.log.extend(self.node.take_changes());
        self.node.take_messages();
    }

    fn request(&mut self, req: ClientRequest) -> ClientReply {
        let step = self.node.handle_request(req, self.now, WALL);
        let reply = match step {
            RequestStep::Reply(reply) => reply,
            RequestStep::CreateOrigin(plan) => {
                let path = self.node.origin_created(plan);
                created_or_error(Ok(path))
            }
            RequestStep::CreateTopic { plan, member_reap_after_ms } => {
                let name = plan.origin.identity.name.clone();
                let path = self.node.origin_created(plan.origin);
                self.node.topic_opened(&name, member_reap_after_ms);
                created_or_error(Ok(path))
            }
            RequestStep::Publish { plan, topic } => {
                let member = plan.identity.name.clone();
                let path = self.node.origin_created(plan);
                if let Some(epoch) = self.node.attach_epoch(&topic, &member) {
                    self.node.member_attached(&topic, &member, epoch);
                }
                created_or_error(Ok(path))
            }
            RequestStep::Subscribe { name, wait } => {
                let mut search = resolve_within(wait, self.now);
                loop {
                    let found = self.node.resolve(&name, &mut search, self.now);
                    match self.node.subscribe(&name, found, self.now) {
                        Ok(Some(started)) => {
                            self.node.keep_subscription(started.id);
                            break subscribed_or_error(Ok(started.replica_path));
                        }
                        Ok(None) => self.now += 5 * MS,
                        Err(e) => break subscribed_or_error(Err(e.message)),
                    }
                }
            }
            RequestStep::Delete { reply, .. } => reply,
            RequestStep::List { prefix } => {
                self.flush();
                let next = self.log.len() as u64;
                let (channels, cursor) = self.node.list_channels(&prefix, next, self.now);
                ClientReply::Channels { channels, cursor }
            }
            RequestStep::ReadHead { name, path } => {
                assert!(path.ends_with("/log"));
                ClientReply::Status(self.node.subscription_status(&name, 30, self.now).unwrap())
            }
        };
        self.flush();
        reply
    }

    fn create(&mut self, name: &str) -> String {
        let reply = self.request(ClientRequest::Create {
            name: name.into(),
            options: ChannelOptions::default(),
        });
        match reply {
            ClientReply::Created { path } => path,
            other => panic!("expected Created, got {other:?}"),
        }
    }

    fn list(&mut self, prefix: &str) -> (Vec<ChannelInfo>, DiscoveryCursor) {
        match self.request(ClientRequest::ListChannels { prefix: prefix.into() }) {
            ClientReply::Channels { channels, cursor } => (channels, cursor),
            other => panic!("expected Channels, got {other:?}"),
        }
    }

    fn error(&mut self, req: ClientRequest) -> String {
        match self.request(req) {
            ClientReply::Error { message } => message,
            other => panic!("expected Error, got {other:?}"),
        }
    }
}

#[test]
fn client_creates_and_subscribes_via_daemon() {
    let mut d = Daemon::new(1, "/daemon");
    let created = d.create("md.aapl");
    assert_eq!(created, "/daemon/md.aapl/log");

    // Subscribe through the daemon. The channel is hosted *here*, so the daemon hands back the
    // origin itself rather than replicating the node to itself.
    let reply = d.request(ClientRequest::Subscribe { name: "md.aapl".into(), wait_ms: 5_000 });
    let ClientReply::Subscribed { replica_path } = reply else {
        panic!("expected Subscribed, got {reply:?}");
    };
    assert!(
        !replica_path.starts_with("/daemon/.replicas"),
        "a locally hosted channel must not be replicated to itself: {replica_path:?}"
    );
    assert_eq!(replica_path, created);
    assert_eq!(
        d.node.subscription_synced("md.aapl"),
        None,
        "and no subscription loop should have been started"
    );
    // Its status is that of the origin's log.
    let reply = d.request(ClientRequest::SubscriptionStatus { name: "md.aapl".into() });
    let ClientReply::Status(status) = reply else { panic!("expected Status, got {reply:?}") };
    assert!(status.local && status.synced == RecordIndex(30) && status.generation == 0);
}

/// Discovery end to end through the client: list, then follow what changes next.
#[test]
fn client_lists_and_watches_channels() {
    let mut d = Daemon::new(3, "/discovery");
    d.create("fills.prod.a");
    d.create("md.aapl");

    let (listed, cursor) = d.list("fills.prod.");
    assert_eq!(listed.len(), 1);
    assert_eq!(listed[0].name, "fills.prod.a");
    assert_eq!(listed[0].epoch, 0);
    assert!(listed[0].owner_live);

    // A watch opened at the cursor sees exactly what happens after the listing.
    let from = cursor.from.0 as usize;
    assert_eq!(cursor.generation, 42);
    assert!(d.log[from..].is_empty(), "nothing has changed yet");

    d.create("fills.prod.b");
    let gone = d.request(ClientRequest::Deregister { name: "fills.prod.a".into() });
    assert_eq!(gone, ClientReply::Deregistered { existed: true });

    let changes = &d.log[from..];
    assert!(matches!(&changes[0], ChannelChange::Upserted(c) if c.name == "fills.prod.b"));
    assert!(matches!(
        &changes[1],
        ChannelChange::Removed { name, .. } if name == "fills.prod.a"
    ));
    assert_eq!(changes.len(), 2, "and nothing else: {changes:?}");
}

#[test]
fn subscribe_to_unknown_channel_times_out() {
    let mut d = Daemon::new(2, "/unknown");
    let message = d.error(ClientRequest::Subscribe { name: "does.not.exist".into(), wait_ms: 200 });
    // The daemon's resolve times out and replies Error.
    assert!(message.to_lowercase().contains("timeout") || message.contains("not resolvable"));
    assert_eq!(d.now, 201 * MS, "it waited as long as it was asked to");
    assert!(d.node.subscriptions.is_empty());
}

/// Subscribing to a channel this node hosts must hand back the **origin**, not start a replication
/// loop against ourselves.
#[test]
fn subscribing_to_a_locally_hosted_channel_returns_the_origin() {
    let mut node = node(71, "/self-subscribe");
    let plan = node.host_channel("md.aapl", 1 << 20, 0, 0, WALL).unwrap();
    let origin = node.origin_created(plan);

    let step = node.handle_request(
        ClientRequest::Subscribe { name: "md.aapl".into(), wait_ms: 1000 },
        0,
        WALL,
    );
    let RequestStep::Reply(ClientReply::Subscribed { replica_path }) = step else {
        panic!("expected Subscribed at once");
    };
    assert_eq!(replica_path, origin, "the client must be pointed at the origin");
    assert!(
        node.subscriptions.is_empty() && node.conducted.len() == 0,
        "and no subscription loop should be running"
    );
}

/// What a search that found the channel `name` returns.
fn found(name: &str) -> Resolution {
    Resolution::Found {
        identity: ChannelIdentity {
            name: name.to_string(),
            owner: NodeId(2),
            region_size: 1 << 20,
            mtu: 0,
            earliest_index: RecordIndex(0),
            registered_at_nanos: 1,
            epoch: 0,
            deleted: false,
            member_of: None,
        },
        addr: SocketAddr::v4(10, 0, 0, 2, 7000),
    }
}

/// An active subscription is used again; a stopped one is not.
#[test]
fn an_active_subscription_is_reused() {
    let mut d = Daemon::new(1, "/reuse");
    let s = d.node.subscribe("md.far", found("md.far"), 0).unwrap().unwrap();
    d.node.keep_subscription(s.id);
    let ask = || ClientRequest::Subscribe { name: "md.far".into(), wait_ms: 5 };
    assert_eq!(
        d.request(ask()),
        ClientReply::Subscribed { replica_path: "/reuse/.replicas/md.far/log".into() }
    );
    d.node.stop_subscription(s.id);
    assert_eq!(d.error(ask()), "channel 'md.far' not resolvable within timeout");
    // A wait of zero is a wait for ever.
    let step = d.node.handle_request(
        ClientRequest::Subscribe { name: "md.far".into(), wait_ms: 0 },
        0,
        WALL,
    );
    assert!(matches!(step, RequestStep::Subscribe { wait: None, .. }));
    let step = d.node.handle_request(ask(), 0, WALL);
    assert!(matches!(
        step,
        RequestStep::Subscribe { wait: Some(w), .. } if w == Duration::from_millis(5)
    ));
}

#[test]
fn a_topic_is_created_and_fed_by_request() {
    let mut d = Daemon::new(1, "/topic");
    let options = TopicOptions { member_reap_after_ms: 9, ..TopicOptions::default() };
    let reply = d.request(ClientRequest::CreateTopic { name: "agg".into(), options });
    assert_eq!(reply, ClientReply::Created { path: "/topic/agg/log".into() });
    assert_eq!(d.node.topic_reap.get("agg"), Some(&Duration::from_millis(9)));
    let reply = d.request(ClientRequest::PublishToTopic {
        topic: "agg".into(),
        member: "mem.a".into(),
        options: ChannelOptions::default(),
    });
    assert_eq!(reply, ClientReply::Created { path: "/topic/mem.a/log".into() });
    assert_eq!(d.node.topic_member_count("agg"), Some(1));
}

/// Each refusal reaches the client in words.
#[test]
fn refusals_are_told_to_the_client() {
    let mut d = Daemon::new(1, "/refuse");
    d.node.registry.merge(ChannelIdentity {
        name: "md.aapl".to_string(),
        owner: NodeId(9),
        region_size: 1 << 20,
        mtu: 0,
        earliest_index: RecordIndex(0),
        registered_at_nanos: 1,
        epoch: 0,
        deleted: false,
        member_of: None,
    });
    let taken = "channel 'md.aapl' already registered by node 9 — registration rejected";
    let options = ChannelOptions::default();
    assert_eq!(d.error(ClientRequest::Create { name: "md.aapl".into(), options }), taken);
    assert_eq!(
        d.error(ClientRequest::CreateTopic {
            name: "md.aapl".into(),
            options: TopicOptions::default()
        }),
        taken
    );
    let publish = ClientRequest::PublishToTopic {
        topic: "t".into(),
        member: "a/b".into(),
        options,
    };
    assert_eq!(
        d.error(publish),
        "channel name must be 1..=48 chars of [A-Za-z0-9._-] with no leading dot"
    );
    assert_eq!(
        d.error(ClientRequest::SubscriptionStatus { name: "md.aapl".into() }),
        "channel 'md.aapl' is neither hosted nor subscribed here"
    );
    let message = d.error(ClientRequest::ForceDeregister { name: "md.aapl".into() });
    assert!(message.contains("less than the 300s required"), "{message}");
    assert_eq!(
        d.request(ClientRequest::ForceDeregister { name: "nope".into() }),
        ClientReply::Deregistered { existed: false }
    );
    // Only its owner may deregister a channel.
    assert_eq!(
        d.request(ClientRequest::Deregister { name: "md.aapl".into() }),
        ClientReply::Deregistered { existed: false }
    );
    assert_eq!(
        created_or_error(Err("disk full".into())),
        ClientReply::Error { message: "disk full".into() }
    );
}
