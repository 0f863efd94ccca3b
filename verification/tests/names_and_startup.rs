use xchannel_net::addr::{Host, SocketAddr};
use xchannel_net::error::ErrorKind;
use xchannel_net::names::{
    channel_dir, channel_path, replica_dir, replica_path, validate_channel_name,
};
use xchannel_net::node::reconstruct::DirEntry;
use xchannel_net::startup::{
    address_warnings, is_unknown_key, list_entries, would_orphan_channels, AddressWarnings,
};
use xchannel_net::text::{decimal, parse_number, trim_text};
use xchannel_net::time::Duration;

#[test]
fn rejects_unsafe_channel_names() {
    // Path traversal, current-dir, separators, leading dot (incl. the .replicas subtree), empty, and
    // over-length names are all rejected before touching the FS.
    let long = "x".repeat(201);
    for bad in ["a/b", "..", ".", "../etc", "a\\b", ".hidden", ".replicas", "", long.as_str()] {
        assert_eq!(
            validate_channel_name(bad).unwrap_err().kind,
            ErrorKind::InvalidInput,
            "should reject {bad:?}"
        );
    }
    // Reasonable names pass.
    for ok in ["md.aapl", "feed-1", "a_b.c", "X"] {
        validate_channel_name(ok).unwrap();
    }
}

/// The length limit is the number of bytes that a channel header has for the name.
#[test]
fn a_name_fits_into_the_channel_header() {
    assert_eq!(xchannel::CHANNEL_NAME_MAX, 48);
    validate_channel_name(&"x".repeat(48)).unwrap();
    let err = validate_channel_name(&"x".repeat(49)).unwrap_err();
    assert_eq!(
        err.message,
        "channel name must be 1..=48 chars of [A-Za-z0-9._-] with no leading dot"
    );
    assert!(validate_channel_name("m\u{e9}d").is_err());
}

/// A channel named like a segment of another has a directory of its own, and an origin shares none
/// with a replica of the same name.
#[test]
fn every_channel_has_a_place_of_its_own() {
    assert_eq!(channel_path("/d", "md.aapl").unwrap(), "/d/md.aapl/log");
    assert_eq!(channel_path("/d", "md.aapl.1").unwrap(), "/d/md.aapl.1/log");
    assert_eq!(channel_dir("/d/", "md.aapl").unwrap(), "/d/md.aapl");
    assert_eq!(replica_dir("/d", "md.aapl").unwrap(), "/d/.replicas/md.aapl");
    assert_eq!(replica_path("/d", "md.aapl").unwrap(), "/d/.replicas/md.aapl/log");
    assert_eq!(channel_path("/d", "..").unwrap_err().kind, ErrorKind::InvalidInput);
}

/// Deleting one channel's directory deletes nothing of another's.
#[test]
fn no_channel_lies_below_another() {
    let names = ["md", "md.aapl", "md.aapl.1", "md-aapl"];
    let mut dirs: Vec<String> = names.iter().map(|n| channel_dir("/d", n).unwrap()).collect();
    dirs.extend(names.iter().map(|n| replica_dir("/d", n).unwrap()));
    for a in &dirs {
        assert!(dirs.iter().all(|b| !b.starts_with(&format!("{a}/"))), "something lies below {a}");
    }
}

#[test]
fn an_empty_setting_is_an_empty_list() {
    let list = |items: &[&str]| items.iter().map(|s| s.to_string()).collect::<Vec<_>>();
    assert!(list_entries(&list(&[""])).is_empty());
    assert_eq!(list_entries(&list(&[" a:1 ", "", "\t", "b:2"])), ["a:1", "b:2"]);
}

#[test]
fn a_misspelt_variable_is_noticed() {
    assert!(is_unknown_key("XCHANNELD_SEEDZ"));
    assert!(is_unknown_key("XCHANNELD_"));
    for known in [
        "XCHANNELD_NODE_ID",
        "XCHANNELD_NODE_NAME",
        "XCHANNELD_DATA_DIR",
        "XCHANNELD_CLIENT_PATH",
        "XCHANNELD_STREAM_ADDR",
        "XCHANNELD_CONTROL_ADDR",
        "XCHANNELD_ADVERTISE_STREAM_ADDR",
        "XCHANNELD_ADVERTISE_CONTROL_ADDR",
        "XCHANNELD_SEEDS",
        "XCHANNELD_RECLAIM_AFTER_MS",
        "XCHANNELD_PROMOTED_TOPICS",
        "XCHANNELD_MUX_MAX_PARK_US",
        "XCHANNELD_BIN",
        "PATH",
        "XCHANNEL_SEEDS",
    ] {
        assert!(!is_unknown_key(known), "{known}");
    }
}

#[test]
fn a_lost_identity_is_noticed() {
    let entry = |name: &str, is_dir: bool| DirEntry { name: name.to_string(), is_dir };
    let with_channels = vec![entry("md.aapl", true), entry(".replicas", true)];
    assert!(would_orphan_channels(&with_channels, None));
    assert!(!would_orphan_channels(&with_channels, Some(7)), "the operator set an id");
    let whole = vec![entry("md.aapl", true), entry(".node_id", false)];
    assert!(!would_orphan_channels(&whole, None));
    let fresh = vec![entry(".replicas", true), entry("stray", false)];
    assert!(!would_orphan_channels(&fresh, None));
}

#[test]
fn odd_addresses_are_noticed() {
    let loopback = SocketAddr::v4(127, 3, 2, 1, 7000);
    let wild = SocketAddr::v4(0, 0, 0, 0, 7000);
    let lan = SocketAddr::v4(10, 0, 0, 5, 7000);
    let warn = |exposed, advertises_wildcard, binds_wildcard| AddressWarnings {
        exposed,
        advertises_wildcard,
        binds_wildcard,
    };
    assert_eq!(address_warnings(loopback, None), warn(false, false, false));
    assert_eq!(address_warnings(lan, None), warn(true, false, false));
    assert_eq!(address_warnings(wild, None), warn(true, false, true));
    assert_eq!(address_warnings(wild, Some(lan)), warn(true, false, false));
    assert_eq!(address_warnings(wild, Some(wild)), warn(true, true, false));
    let v6 = |bits: u128| SocketAddr {
        host: Host::V6 { bits, flowinfo: 0, scope_id: 0 },
        port: 1,
    };
    assert_eq!(address_warnings(v6(1), None), warn(false, false, false));
    assert_eq!(address_warnings(v6(0), None), warn(true, false, true));
}

#[test]
fn numbers_are_written_and_read() {
    for n in [0, 9, 10, 1_234_567_890, u64::MAX] {
        let text = decimal(n);
        assert_eq!(text, n.to_string());
        assert_eq!(parse_number(&text.chars().collect()), Some(n));
    }
    assert_eq!(parse_number(&vec!['0', '0', '7']), Some(7));
    assert_eq!(parse_number(&vec!['+']), None);
    assert_eq!(trim_text("\t a b\u{2003}"), "a b");
}

/// A span reads as its parts do.
#[test]
fn spans_are_written_for_people() {
    assert_eq!(Duration::from_secs(300).text(), "300s");
    assert_eq!(Duration::from_millis(1_500).text(), "1.5s");
    assert_eq!(Duration::from_micros(20).text(), "20µs");
    assert_eq!(Duration::zero().text(), "0ns");
    assert_eq!(Duration::from_secs(u64::MAX).saturating_mul(2).as_nanos(), 18446744073709551615999999999);
}
