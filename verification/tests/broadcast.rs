use xchannel_net::addr::SocketAddr;
use xchannel_net::broadcast::BroadcastDissemination;
use xchannel_net::identity::{ChannelIdentity, NodeId, RecordIndex};
use xchannel_net::membership::Introduction;
use xchannel_net::time::Duration;
use xchannel_net::wire::{ControlMsg, PeerId};

const MS: u64 = 1_000_000;

fn ident(name: &str, owner: u64) -> ChannelIdentity {
    ChannelIdentity {
        name: name.to_string(),
        owner: NodeId(owner),
        region_size: 1 << 20,
        mtu: 0,
        earliest_index: RecordIndex(0),
        registered_at_nanos: 1,
        epoch: 0,
        deleted: false,
        member_of: None,
    }
}

fn node(id: u64, port: u16) -> BroadcastDissemination {
    BroadcastDissemination::new(
        NodeId(id),
        SocketAddr::v4(127, 0, 0, 1, port),
        Duration::from_secs(60),
    )
}

/// Carries what `a` has queued for its link `at` over to `b`, where the link is `to`. Messages for
/// other links stay queued.
fn carry(a: &mut BroadcastDissemination, at: PeerId, b: &mut BroadcastDissemination, to: PeerId) {
    for d in &mut a.outbox {
        if let Some(k) = d.to.iter().position(|id| *id == at) {
            d.to.remove(k);
            let copy = |i: &Introduction| Introduction {
                node: i.node,
                addr: i.addr,
                control_addr: i.control_addr,
                name: i.name.clone(),
            };
            let msg = match &d.msg {
                ControlMsg::RegistryDelta(ids) => ControlMsg::RegistryDelta(ids.clone()),
                ControlMsg::RegistrySync(ids) => ControlMsg::RegistrySync(ids.clone()),
                ControlMsg::Heartbeat(i) => ControlMsg::Heartbeat(copy(i)),
                ControlMsg::PeerHint(i) => ControlMsg::PeerHint(copy(i)),
                ControlMsg::Leaving { node } => ControlMsg::Leaving { node: *node },
                ControlMsg::Unexpected => ControlMsg::Unexpected,
            };
            b.receive(to, msg, 5 * MS);
        }
    }
    a.outbox.retain(|d| !d.to.is_empty());
}

/// An announce propagates, and heartbeats populate the membership address map.
#[test]
fn delta_propagates_and_membership_learns_address() {
    let a_addr = SocketAddr::v4(127, 0, 0, 1, 9001);
    let mut a = node(1, 9001);
    let mut b = node(2, 9002);
    // A registers "md.aapl" in its initial sync; both exchange heartbeats on add_peer.
    let at_a = a.add_peer(vec![ident("md.aapl", 1)]);
    let at_b = b.add_peer(vec![]);

    // A announces a new channel after the link is up.
    a.announce(vec![ident("md.msft", 1)]);
    carry(&mut a, at_a, &mut b, at_b);

    // B should receive both the initial sync ("md.aapl") and the delta ("md.msft").
    let mut received: Vec<ChannelIdentity> = b.pump().into_iter().map(|r| r.id).collect();
    received.sort_by(|x, y| x.name.cmp(&y.name));
    assert_eq!(received.len(), 2);
    assert_eq!(received[0].name, "md.aapl");
    assert_eq!(received[1].name, "md.msft");
    assert!(b.pump().is_empty());

    // B learned A's advertised stream address from A's heartbeat.
    assert_eq!(b.addr_of(NodeId(1)), Some(a_addr));
    assert_eq!(b.live_members(5 * MS), vec![NodeId(1)]);
}

/// Relay across two hops: `A — B — C`, with no A–C link. B forwards what it merged, so C learns a
/// change it was never sent directly — and B does not echo it back to A.
#[test]
fn a_delta_relays_across_a_chain_without_echoing_its_source() {
    let mut a = node(1, 9001);
    let mut b = node(2, 9002);
    let mut c = node(3, 9003);
    let (ab, ba) = (a.add_peer(vec![]), b.add_peer(vec![]));
    let (bc, cb) = (b.add_peer(vec![]), c.add_peer(vec![]));

    a.announce(vec![ident("md.aapl", 1)]);
    carry(&mut a, ab, &mut b, ba);

    // B receives it, tagged with the link it came in on.
    let got = b.pump().into_iter().next().unwrap();
    assert_eq!(got.id.name, "md.aapl");
    assert_eq!(got.from, ba);
    b.relay(got.from, vec![got.id]);
    carry(&mut b, ba, &mut a, ab);
    carry(&mut b, bc, &mut c, cb);

    // C learns it two hops from the origin.
    let at_c = c.pump().into_iter().next().unwrap();
    assert_eq!(at_c.id.name, "md.aapl");

    // And A is not sent its own change back.
    assert!(a.pump().is_empty(), "the relay must skip the link it arrived on");
}

/// What was learned is passed on once, and not to the link it came over.
#[test]
fn news_is_passed_on_once() {
    let mut b = node(2, 9002);
    let first = b.add_peer(vec![]);
    let second = b.add_peer(vec![]);
    b.outbox.clear();
    let about = |id: u64| Introduction {
        node: NodeId(id),
        addr: SocketAddr::v4(10, 0, 0, 1, 1),
        control_addr: SocketAddr::v4(10, 0, 0, 1, 2),
        name: "n".to_string(),
    };
    b.receive(first, ControlMsg::PeerHint(about(8)), MS);
    b.receive(first, ControlMsg::PeerHint(about(8)), MS);
    b.relay_hints();
    assert_eq!(b.outbox.len(), 1);
    assert_eq!(b.outbox[0].to, [second]);
    assert!(matches!(&b.outbox[0].msg, ControlMsg::PeerHint(i) if i.node == NodeId(8)));
    b.relay_hints();
    assert_eq!(b.outbox.len(), 1, "nothing new, nothing sent");
    // A message of another plane is ignored.
    b.receive(first, ControlMsg::Unexpected, MS);
    assert!(b.pump().is_empty());
}

/// A link that cannot be sent over goes away; a dialled address that hung up may be dialled again.
#[test]
fn a_broken_link_is_forgotten() {
    let mut a = node(1, 9001);
    let addr = SocketAddr::v4(10, 0, 0, 1, 2);
    let id = a.add_outbound_peer(addr, vec![]);
    let other = a.add_peer(vec![]);
    assert!(a.is_connected(addr));
    assert_eq!(a.peer_count(), 2);
    a.send_failed(id);
    assert_eq!(a.peer_count(), 1);
    a.disconnected(addr);
    assert!(!a.is_connected(addr));
    assert_eq!(a.peers[0].id, other);
}

/// Word of leaving goes to everyone.
#[test]
fn leaving_is_told_to_every_peer() {
    let mut a = node(1, 9001);
    let ids = vec![a.add_peer(vec![]), a.add_peer(vec![])];
    a.outbox.clear();
    a.announce_leaving();
    assert_eq!(a.outbox.len(), 1);
    assert_eq!(a.outbox[0].to, ids);
    assert!(matches!(a.outbox[0].msg, ControlMsg::Leaving { node: NodeId(1) }));
}
