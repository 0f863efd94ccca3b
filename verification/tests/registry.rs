use xchannel_net::identity::{lost_to, ChannelIdentity, NodeId, RecordIndex};
use xchannel_net::registry::Registry;

fn ident(name: &str, owner: u64, at: u64) -> ChannelIdentity {
    ChannelIdentity {
        name: name.to_string(),
        owner: NodeId(owner),
        region_size: 1 << 20,
        mtu: 0,
        earliest_index: RecordIndex(0),
        registered_at_nanos: at,
        epoch: 0,
        deleted: false,
        member_of: None,
    }
}

#[test]
fn earlier_registration_wins_the_name() {
    let mut r = Registry::new();
    let first = r.merge(ident("md.aapl", 1, 100));
    assert_eq!(first.owner, NodeId(1));
    // A later registration of the same name does not steal it.
    let still = r.merge(ident("md.aapl", 2, 200));
    assert_eq!(still.owner, NodeId(1));
}

#[test]
fn exact_tie_breaks_on_node_id() {
    let mut r = Registry::new();
    r.merge(ident("x", 5, 100));
    let w = r.merge(ident("x", 2, 100));
    assert_eq!(w.owner, NodeId(2), "lower NodeId wins an exact timestamp tie");
}

#[test]
fn deregister_tombstones_and_hides_the_name() {
    let mut r = Registry::new();
    r.merge(ident("md.aapl", 1, 100));
    assert!(r.get("md.aapl").is_some());

    // Only the owner may deregister.
    assert!(r.deregister("md.aapl", NodeId(2)).is_none());
    let tomb = r.deregister("md.aapl", NodeId(1)).expect("owner deregisters");
    assert!(tomb.deleted);
    // Hidden from get(), but retained (raw) so it keeps dominating and propagates.
    assert!(r.get("md.aapl").is_none());
    assert!(r.get_raw("md.aapl").unwrap().deleted);
}

#[test]
fn stale_register_cannot_resurrect_a_tombstone() {
    let mut r = Registry::new();
    r.merge(ident("md.aapl", 1, 100));
    r.deregister("md.aapl", NodeId(1)).unwrap();
    // A late or reordered registration of the same generation (epoch 0) must not revive it.
    r.merge(ident("md.aapl", 1, 100));
    assert!(r.get("md.aapl").is_none(), "tombstone dominates its generation");
}

#[test]
fn a_new_generation_reclaims_a_tombstoned_name() {
    let mut r = Registry::new();
    r.merge(ident("md.aapl", 1, 100));
    r.deregister("md.aapl", NodeId(1)).unwrap();

    // Reclaim: fresh owner registers with the next epoch (as claim_epoch dictates).
    let epoch = r.claim_epoch("md.aapl");
    assert_eq!(epoch, 1, "reclaim uses prev.epoch + 1");
    let mut reclaim = ident("md.aapl", 2, 200);
    reclaim.epoch = epoch;
    let w = r.merge(reclaim);
    assert_eq!(w.owner, NodeId(2));
    assert!(!w.deleted);
    assert_eq!(r.get("md.aapl").unwrap().owner, NodeId(2));
}

/// Every ordering of the same event set converges to the same map.
#[test]
fn merge_converges_under_every_ordering() {
    // Events for one name across two generations: two racing gen-0 registers, a gen-0 tombstone, and
    // a gen-1 reclaim. Whatever order/duplication they arrive in, the map must converge to the
    // reclaim (highest epoch, live).
    let reg_a = ident("c", 1, 100); // gen 0, owner 1, earlier
    let reg_b = ident("c", 2, 150); // gen 0, owner 2, later
    let mut tomb = reg_a.clone();
    tomb.deleted = true; // gen-0 tombstone
    let mut reclaim = ident("c", 3, 300);
    reclaim.epoch = 1; // gen-1 reclaim, owner 3

    let events = [reg_a, reg_b, tomb, reclaim.clone()];
    let n = events.len();

    // Reference result: merge in natural order.
    let mut reference = Registry::new();
    for e in &events {
        reference.merge(e.clone());
    }
    let expect = reference.get_raw("c").unwrap().clone();
    assert_eq!(expect, reclaim, "reclaim (highest epoch, live) must win");

    // Every permutation, with a duplicate appended, converges to the same entry.
    for perm in permutations(&(0..n).collect::<Vec<_>>()) {
        let mut r = Registry::new();
        for &i in &perm {
            r.merge(events[i].clone());
        }
        r.merge(events[perm[0]].clone()); // idempotence: a duplicate changes nothing
        assert_eq!(r.get_raw("c").unwrap().clone(), expect, "diverged on ordering {perm:?}");
    }
}

/// All permutations of `items` (n! — fine for the tiny event sets here).
fn permutations(items: &[usize]) -> Vec<Vec<usize>> {
    if items.len() <= 1 {
        return vec![items.to_vec()];
    }
    let mut out = Vec::new();
    for i in 0..items.len() {
        let mut rest = items.to_vec();
        let head = rest.remove(i);
        for mut p in permutations(&rest) {
            p.insert(0, head);
            out.push(p);
        }
    }
    out
}

/// A second merge of the same entry reports that nothing changed, and keeps the winner.
#[test]
fn a_repeated_merge_changes_nothing() {
    let mut r = Registry::new();
    let first = r.merge_tracked(ident("md.aapl", 1, 100));
    assert!(first.changed);
    let again = r.merge_tracked(ident("md.aapl", 1, 100));
    assert!(!again.changed);
    assert_eq!(again.winner, ident("md.aapl", 1, 100));
    assert_eq!(r.len(), 1);
}

/// Two claims that tie on the ordering key and differ elsewhere: neither loses.
#[test]
fn a_tie_on_the_key_is_no_loss() {
    let a = ident("md.aapl", 1, 100);
    let mut b = a.clone();
    b.mtu = 9;
    assert!(!lost_to(&a, &b));
    let mut r = Registry::new();
    r.merge(a.clone());
    assert_eq!(r.merge(b).mtu, 0, "the first keeps the name");
    assert!(lost_to(&ident("md.aapl", 2, 100), &a));
}

/// Listings come in name order, leave tombstones out, and honour the prefix.
#[test]
fn a_prefix_selects_live_entries_in_name_order() {
    let mut r = Registry::new();
    for name in ["md.z", "md.a", "fills", "md", "md.b"] {
        r.merge(ident(name, 1, 100));
    }
    r.deregister("md.b", NodeId(1)).unwrap();
    let names: Vec<String> = r.with_prefix("md.").into_iter().map(|i| i.name).collect();
    assert_eq!(names, ["md.a", "md.z"]);
    let all: Vec<String> = r.with_prefix("").into_iter().map(|i| i.name).collect();
    assert_eq!(all, ["fills", "md", "md.a", "md.z"]);
    assert_eq!(r.iter().len(), 5, "tombstones are handed to a joining peer");
    assert!(r.with_prefix("nothing.").is_empty());
}

/// A name whose last generation is used up can be claimed no more.
#[test]
fn a_name_out_of_generations_is_not_claimable() {
    let mut r = Registry::new();
    let mut last = ident("md.aapl", 1, 100);
    last.epoch = u64::MAX;
    r.merge(last);
    assert!(r.claimable("md.aapl"), "a live name keeps its generation");
    assert_eq!(r.claim_epoch("md.aapl"), u64::MAX);
    r.reap("md.aapl").unwrap();
    assert!(!r.claimable("md.aapl"));
    assert!(r.claimable("md.msft"));
    assert_eq!(r.claim_epoch("md.msft"), 0);
}

/// Only a live entry can be retired by another node.
#[test]
fn reaping_retires_a_live_entry_once() {
    let mut r = Registry::new();
    assert!(r.reap("md.aapl").is_none());
    r.merge(ident("md.aapl", 7, 100));
    let t = r.reap("md.aapl").unwrap();
    assert!(t.deleted && t.owner == NodeId(7) && t.epoch == 0);
    assert!(r.reap("md.aapl").is_none());
}
