//! Retry gaps: of subscriptions that cannot be established, and of addresses that do not answer.
use std::collections::HashSet;

use xchannel_net::addr::{Host, SocketAddr};
use xchannel_net::backoff::jitter_for;
use xchannel_net::config::NodeConfig;
use xchannel_net::identity::{ChannelIdentity, NodeId, RecordIndex};
use xchannel_net::limits::{
    ATTACH_BACKOFF_MAX_MS, ATTACH_BACKOFF_MIN_MS, DIAL_BACKOFF_MAX_MS, DIAL_BACKOFF_MIN_MS,
    MAX_DIALS_PER_TICK,
};
use xchannel_net::membership::Introduction;
use xchannel_net::mux_idle::MuxIdle;
use xchannel_net::node::subscribing::Establish;
use xchannel_net::node::Node;
use xchannel_net::subscription::{Conducted, Subscription};
use xchannel_net::time::Duration;
use xchannel_net::wire::ControlMsg;

const MS: u64 = 1_000_000;

fn config(id: u64, dir: &str) -> NodeConfig {
    NodeConfig {
        node_id: NodeId(id),
        data_dir: dir.to_string(),
        control_addr: SocketAddr::v4(127, 0, 0, 1, 0),
        stream_addr: SocketAddr::v4(127, 0, 0, 1, 0),
        client_path: format!("{dir}/client.sock"),
        seeds: vec![],
        reclaim_after: Duration::from_millis(0),
        promoted_topics: vec![],
        mux_idle: MuxIdle::default(),
        advertise_control_addr: None,
        advertise_stream_addr: None,
        node_name: format!("test-{id}"),
        id_generated: false,
    }
}

fn node(id: u64, dir: &str) -> Node {
    Node::new(config(id, dir), 1)
}

fn attach_gap(node: &Node, name: &str) -> Duration {
    node.attach_backoff.get(name).unwrap().gap
}

/// Makes the next attempt at `name` due at `now`, whatever its gap.
fn attach_due_now(node: &mut Node, name: &str, now: u64) {
    let mut p = *node.attach_backoff.get(name).unwrap();
    p.next = now as u128;
    node.attach_backoff.insert(name.to_string(), p);
}

fn dial_due_now(node: &mut Node, addr: SocketAddr, now: u64) {
    let mut p = *node.dial_backoff.get(&addr).unwrap();
    p.next = now as u128;
    node.dial_backoff.insert(addr, p);
}

/// A member that cannot be attached must not be retried every tick for ever.
#[test]
fn a_member_that_cannot_attach_backs_off_instead_of_retrying_every_tick() {
    let mut node = node(160, "attach-backoff");
    let now = 10 * MS;

    assert!(node.attach_due("mem.a", now), "a first attempt is never delayed");
    assert!(
        !node.attach_due("mem.a", now),
        "a second attempt in the same window must be refused, or the tick rate becomes the retry rate"
    );

    // The gap escalates while attempts keep coming...
    assert_eq!(attach_gap(&node, "mem.a"), Duration::from_millis(ATTACH_BACKOFF_MIN_MS));
    attach_due_now(&mut node, "mem.a", now);
    assert!(node.attach_due("mem.a", now));
    assert_eq!(
        attach_gap(&node, "mem.a"),
        Duration::from_millis(ATTACH_BACKOFF_MIN_MS * 2),
        "a repeated failure must widen the gap"
    );

    // ...and a member that attaches clears it, so a peer coming back is picked up promptly.
    node.attach_now("mem.a");
    assert!(node.attach_due("mem.a", now), "a cleared penalty means due now");
}

/// The attach ceiling must stay inside what a waiting caller will tolerate.
#[test]
fn the_attach_gap_is_capped_well_inside_a_callers_patience() {
    let mut node = node(160, "attach-ceiling");
    let now = 10 * MS;

    // Escalate as hard as the machinery allows: every attempt due immediately, so the gap only ever
    // doubles. Whatever it converges to is the worst case a caller can be made to wait.
    for _ in 0..64 {
        assert!(node.attach_due("mem.a", now));
        attach_due_now(&mut node, "mem.a", now);
    }
    assert_eq!(
        attach_gap(&node, "mem.a"),
        Duration::from_millis(ATTACH_BACKOFF_MAX_MS),
        "the gap must saturate, not grow"
    );
    assert!(
        Duration::from_millis(ATTACH_BACKOFF_MAX_MS) < Duration::from_secs(5),
        "the ceiling must be under a client's five-second wait for a replica"
    );
}

/// A caller's request is never throttled.
#[test]
fn a_callers_subscribe_is_not_throttled_by_the_retry_backoff() {
    let mut node = node(160, "attach-caller");
    let now = 10 * MS;

    // Burn the name's budget the way a failing retry loop would, then escalate it to the ceiling.
    for _ in 0..8 {
        node.attach_due("mem.a", now);
        attach_due_now(&mut node, "mem.a", now);
    }
    // One more attempt, this time leaving its gap standing: the loop is now throttled.
    assert!(node.attach_due("mem.a", now));
    assert!(
        !node.attach_due("mem.a", now),
        "premise: the retry loop is now throttled for this name"
    );

    // A caller's establishment forgives it; the machinery's does not.
    let id = node.conducted.add(Conducted {
        name: "mem.a".to_string(),
        sub: Subscription::new("/nonexistent".to_string()),
    });
    assert!(!node.spawn_establish(id, Establish::Retry, now));
    assert!(node.attach_backoff.contains("mem.a"));
    assert!(node.spawn_establish(id, Establish::Caller, now));
    assert!(
        !node.attach_backoff.contains("mem.a"),
        "a caller's request must clear the penalty, not queue behind it"
    );
    assert!(
        !node.spawn_establish(id, Establish::Caller, now),
        "one attempt at a time per subscription"
    );
    node.establish_ended(id);
    assert!(node.spawn_establish(id, Establish::Retry, now), "a first retry is not delayed");
}

fn member_of_orders(owner: NodeId) -> ChannelIdentity {
    ChannelIdentity {
        name: "mem.a".to_string(),
        owner,
        region_size: 1 << 20,
        mtu: 0,
        earliest_index: RecordIndex(0),
        registered_at_nanos: 1,
        epoch: 0,
        deleted: false,
        member_of: Some("t.orders".into()),
    }
}

/// An owner coming back must not be waited out.
#[test]
fn an_owner_returning_to_life_clears_its_members_attach_penalties() {
    let mut node = node(160, "attach-revive");
    let now = 10 * MS;
    let owner = NodeId(4242);
    node.registry.merge(member_of_orders(owner));

    // The owner is down and the retries have earned a penalty.
    node.live_owners_noting_revivals(vec![]);
    assert!(node.attach_due("mem.a", now));
    assert!(
        !node.attach_due("mem.a", now),
        "premise: the name is throttled while its owner is away"
    );

    // It comes back.
    assert_eq!(
        node.live_owners_noting_revivals(vec![owner]),
        vec![owner],
        "the live set must come back unchanged; the clearing is a side effect, not a filter"
    );
    assert!(
        node.attach_due("mem.a", now),
        "the penalty must go with the reason for it, or the resume waits out a stale gap"
    );

    // Still live on the next pass is not a transition, so an ongoing failure keeps backing off.
    assert!(!node.attach_due("mem.a", now));
    node.live_owners_noting_revivals(vec![owner]);
    assert!(
        !node.attach_due("mem.a", now),
        "a live owner that stays live must not clear the penalty every tick, or the throttle is gone"
    );
}

/// Members must not escalate in lockstep.
#[test]
fn attach_retries_are_spread_so_members_do_not_come_due_together() {
    let mut node = node(160, "attach-jitter");
    let names: Vec<String> = (0..1000).map(|i| format!("topic.member.{i}")).collect();

    // Every member fails on the same pass, which is the realistic case: their owner is away.
    let base = 10 * MS;
    for n in &names {
        assert!(node.attach_due(n, base));
    }

    // When each becomes due again, bucketed at 100 ms. Without a spread every member carries the same
    // gap from the same pass and they all land in one bucket.
    let wait = |n: &String| node.attach_backoff.get(n).unwrap().next - base as u128;
    let buckets: HashSet<u128> = names.iter().map(|n| wait(n) / 1_000 / 100_000).collect();
    assert!(
        buckets.len() > 1,
        "a thousand members must not all come due in the same 100 ms: {} bucket(s)",
        buckets.len()
    );

    // And the spread only ever delays, by at most half the gap, so it cannot push a member past the
    // ceiling the previous test pins.
    let latest = names.iter().map(wait).max().unwrap();
    let earliest = names.iter().map(wait).min().unwrap();
    assert!(earliest >= (ATTACH_BACKOFF_MIN_MS * MS) as u128);
    assert!(
        latest < ((ATTACH_BACKOFF_MIN_MS + ATTACH_BACKOFF_MIN_MS / 2 + 1_000) * MS) as u128,
        "the spread must be a fraction of the gap, not a multiple of it: {latest:?}"
    );

    // Stable per name, or a member's own gap would jump around between attempts.
    assert_eq!(
        jitter_for("topic.member.7", Duration::from_secs(4)),
        jitter_for("topic.member.7", Duration::from_secs(4))
    );
}

/// The spread of a name, worked out by hand: FNV-1a of the empty name and of `a`, modulo half the
/// gap in microseconds.
#[test]
fn the_jitter_of_a_name_is_its_hash() {
    let half_of_250_ms: u64 = 125_000;
    let empty: u64 = 0xcbf2_9ce4_8422_2325;
    assert_eq!(
        jitter_for("", Duration::from_millis(250)),
        Duration::from_micros(empty % half_of_250_ms)
    );
    let a: u64 = 0xaf63_dc4c_8601_ec8c;
    assert_eq!(
        jitter_for("a", Duration::from_millis(250)),
        Duration::from_micros(a % half_of_250_ms)
    );
    assert_eq!(jitter_for("a", Duration::zero()), Duration::zero());
}

/// A retired subscription takes its penalty with it.
#[test]
fn retiring_a_subscription_drops_its_attach_penalty() {
    let mut node = node(160, "attach-retire");
    let now = 10 * MS;
    assert!(node.attach_due("mem.a", now));
    assert!(!node.attach_due("mem.a", now), "premise: throttled");
    node.retire_subscription("mem.a");
    assert!(node.attach_due("mem.a", now), "a reclaimed name must start with a clean slate");
}

/// What a tick spends on dialling is taken out of this node's liveness.
#[test]
fn dialling_is_capped_per_tick_and_backs_off_per_address() {
    // Six addresses with nothing behind them.
    let dead: Vec<SocketAddr> = (0..6).map(|i| SocketAddr::v4(127, 0, 0, 1, 9000 + i)).collect();
    let mut cfg = config(120, "dial-budget");
    cfg.seeds = dead.clone();
    let mut node = Node::new(cfg, 1);
    let now = 10 * MS;

    assert_eq!(node.connect_seeds(now), dead[0..2]);
    assert_eq!(
        node.dial_backoff.len(),
        MAX_DIALS_PER_TICK,
        "a tick must attempt at most MAX_DIALS_PER_TICK addresses, whatever the candidate count"
    );

    // A second tick must move on to *fresh* addresses rather than retry the two already known to be
    // unreachable.
    assert_eq!(node.connect_seeds(now), dead[2..4]);
    assert_eq!(
        node.dial_backoff.len(),
        2 * MAX_DIALS_PER_TICK,
        "addresses in backoff must be skipped, and the walk must continue where it left off"
    );

    // Every attempt carries a penalty that grows.
    for i in 0..node.dial_backoff.len() {
        let penalty = node.dial_backoff.value_at(i);
        assert!(
            penalty.gap >= Duration::from_millis(DIAL_BACKOFF_MIN_MS)
                && penalty.gap <= Duration::from_millis(DIAL_BACKOFF_MAX_MS),
            "{:?} has an out-of-range backoff {:?}",
            node.dial_backoff.key_at(i),
            penalty.gap
        );
    }

    // The seed walk must not disturb the learned walk.
    assert_eq!(node.dial_cursor_learned, 0, "dialling seeds moved the learned-peer cursor");

    // The walk wraps round, and finds nothing due once all are charged.
    assert_eq!(node.connect_seeds(now), dead[4..6]);
    assert!(node.connect_seeds(now).is_empty());
}

/// An address that accepts and then drops the link must still back off.
#[test]
fn an_address_that_accepts_and_drops_the_link_still_backs_off() {
    let addr = SocketAddr::v4(127, 0, 0, 1, 9100);
    let mut cfg = config(122, "dial-accept-drop");
    cfg.seeds = vec![addr];
    let mut node = Node::new(cfg, 1);
    let now = 10 * MS;
    // The address accepts, takes our join, and hangs up.
    let accept_and_drop = |node: &mut Node, picked: Vec<SocketAddr>| {
        for a in picked {
            let id = node.link_dialled(a);
            node.dissemination.disconnected(a);
            node.dissemination.send_failed(id);
        }
    };

    let picked = node.connect_seeds(now);
    accept_and_drop(&mut node, picked);
    let gap = node
        .dial_backoff
        .get(&addr)
        .expect("an address that accepted the connection and gave us nothing must be penalised")
        .gap;
    assert_eq!(gap, Duration::from_millis(DIAL_BACKOFF_MIN_MS));

    // ...and it must not be retried while that penalty stands, however many ticks run.
    for _ in 0..5 {
        let picked = node.connect_seeds(now);
        accept_and_drop(&mut node, picked);
    }
    let gap = node.dial_backoff.get(&addr).unwrap().gap;
    assert_eq!(
        gap,
        Duration::from_millis(DIAL_BACKOFF_MIN_MS),
        "the address was dialled again inside its own backoff window"
    );

    // And it must keep escalating across attempts.
    for expected in [DIAL_BACKOFF_MIN_MS * 2, DIAL_BACKOFF_MIN_MS * 4] {
        assert!(!node.dissemination.is_connected(addr));
        dial_due_now(&mut node, addr, now);
        let picked = node.connect_seeds(now);
        accept_and_drop(&mut node, picked);
        assert_eq!(
            node.dial_backoff.get(&addr).unwrap().gap,
            Duration::from_millis(expected),
            "an address that accepts and gives us nothing must keep backing off, not reset"
        );
    }
}

/// A link that outlives its own gap has already paid the penalty from the dial that created it, and
/// a long-quiet address starts again at the floor.
#[test]
fn a_penalty_expires_on_its_own_and_decays_when_attempts_stop() {
    let mut node = node(125, "dial-decay");
    let addr = SocketAddr::v4(127, 0, 0, 1, 9200);
    // Far enough from the clock's origin for an attempt three ceilings ago.
    let now = 1_000_000 * MS;

    node.dial_peer(addr, now);
    assert_eq!(
        node.dial_backoff.get(&addr).unwrap().gap,
        Duration::from_millis(DIAL_BACKOFF_MIN_MS)
    );
    assert!(!node.dial_due(addr, now), "the gap has not elapsed yet");

    // An elapsed gap is the entire mechanism — no exemption of any kind is consulted.
    dial_due_now(&mut node, addr, now);
    assert!(
        node.dial_due(addr, now),
        "a peer whose link outlasted its gap must be re-dialled promptly, which is why no permanent \
         exemption is needed"
    );

    // Escalation, while attempts keep coming.
    node.dial_peer(addr, now);
    assert_eq!(
        node.dial_backoff.get(&addr).unwrap().gap,
        Duration::from_millis(DIAL_BACKOFF_MIN_MS * 2),
        "a repeated attempt must double the gap"
    );

    // Decay, once they stop: the doubling must not be monotone for the life of the process.
    let mut p = *node.dial_backoff.get(&addr).unwrap();
    p.attempted_at = now - DIAL_BACKOFF_MAX_MS * 3 * MS;
    node.dial_backoff.insert(addr, p);
    node.dial_peer(addr, now);
    assert_eq!(
        node.dial_backoff.get(&addr).unwrap().gap,
        Duration::from_millis(DIAL_BACKOFF_MIN_MS),
        "a long-quiet address must start again at the floor"
    );
}

/// A dial is due again exactly when its gap has run out.
#[test]
fn a_dialled_address_waits_out_its_gap() {
    let mut node = node(126, "dial-wait");
    let addr = SocketAddr::v4(127, 0, 0, 1, 9201);
    let now = 5_000 * MS;
    node.dial_peer(addr, now);
    assert!(!node.dial_due(addr, now + 1_000 * MS - 1));
    assert!(node.dial_due(addr, now + 1_000 * MS));
    // Doubling runs to the ceiling of a minute: 1, 2, 4, 8, 16, 32, 60.
    let mut at = now;
    for expected in [2, 4, 8, 16, 32, 60, 60] {
        at = node.dial_backoff.get(&addr).unwrap().next as u64;
        node.dial_peer(addr, at);
        assert_eq!(node.dial_backoff.get(&addr).unwrap().gap, Duration::from_secs(expected));
    }
    assert!(at > now);
}

/// A wildcard address is a bind target, never a destination.
#[test]
fn a_wildcard_candidate_is_never_dialled() {
    let mut cfg = config(121, "dial-wildcard");
    cfg.seeds = vec![SocketAddr::v4(0, 0, 0, 0, 7001)];
    let mut node = Node::new(cfg, 1);
    assert!(node.connect_seeds(10 * MS).is_empty());
    assert_eq!(
        node.dial_backoff.len(),
        0,
        "an unspecified address must not even be attempted"
    );
    // Nor is the wildcard of the other family.
    node.config.seeds = vec![SocketAddr {
        host: Host::V6 { bits: 0, flowinfo: 0, scope_id: 0 },
        port: 7001,
    }];
    assert!(node.connect_seeds(10 * MS).is_empty());
}

fn introduction(id: u64, port: u16) -> Introduction {
    Introduction {
        node: NodeId(id),
        addr: SocketAddr::v4(127, 0, 0, 1, port),
        control_addr: SocketAddr::v4(127, 0, 0, 1, port + 1),
        name: String::new(),
    }
}

/// Peers heard of are dialled, two a tick; a node already linked is not dialled again, by whichever
/// address; and whoever claims this node's own id is looked up too.
#[test]
fn learned_peers_are_dialled_until_linked() {
    let mut node = node(1, "dial-learned");
    node.control_bound(SocketAddr::v4(127, 0, 0, 1, 7001));
    let now = 10 * MS;
    let link = node.link_accepted();
    for (id, port) in [(2, 7100), (3, 7200), (4, 7300)] {
        node.dissemination.receive(link, ControlMsg::PeerHint(introduction(id, port)), now);
    }
    // The link turns out to lead to node 2.
    node.dissemination.receive(link, ControlMsg::Heartbeat(introduction(2, 7100)), now);
    let plan = node.connect_learned_peers(now);
    assert_eq!(
        plan.learned,
        [SocketAddr::v4(127, 0, 0, 1, 7201), SocketAddr::v4(127, 0, 0, 1, 7301)]
    );
    assert!(plan.twins.is_empty());

    // A hint about our own id, somewhere else.
    node.dissemination.receive(link, ControlMsg::PeerHint(introduction(1, 7400)), now);
    let plan = node.connect_learned_peers(now);
    assert!(plan.learned.is_empty(), "both carry a penalty by now");
    assert_eq!(plan.twins, [SocketAddr::v4(127, 0, 0, 1, 7401)]);
}
