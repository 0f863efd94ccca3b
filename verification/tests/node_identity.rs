use xchannel_net::error::ErrorKind;
use xchannel_net::identity::NodeId;
use xchannel_net::node_identity::{
    file_text, generate, hostname, id_path, is_persisted, read_file, resolve, NodeIdentity,
    Resolved, NODE_ID_FILE,
};
use xchannel_net::shutdown::{
    none, on_signal, request_restart, requested, restart_wanted, SIGTERM,
};

/// A data directory, as far as the identity goes.
struct Disk {
    file: Option<String>,
    random: u64,
}

impl Disk {
    fn entries(&self) -> Vec<String> {
        match self.file {
            Some(_) => vec!["md.aapl".to_string(), NODE_ID_FILE.to_string()],
            None => vec!["md.aapl".to_string()],
        }
    }

    fn start(&mut self, configured: Option<u64>, name: &str) -> NodeIdentity {
        match resolve("/data", configured, self.file.as_deref(), name.to_string()).unwrap() {
            Resolved::Known(who) => who,
            Resolved::Absent { name } => {
                self.random = self.random.wrapping_mul(6364136223846793005).wrapping_add(1);
                let (who, text) = generate(name, self.random, 1_700_000_000_123);
                self.file = Some(text);
                who
            }
        }
    }
}

/// First start generates and persists; every later start reads the same id back.
#[test]
fn an_id_is_generated_once_and_then_reused() {
    let mut disk = Disk { file: None, random: 99 };
    let first = disk.start(None, "n1");
    assert!(first.generated);
    assert!(is_persisted(&disk.entries()));
    let second = disk.start(None, "n1");
    assert_eq!(first.id, second.id, "the id must survive a restart");
    assert_eq!(second.created_at_ms, 1_700_000_000_123);

    // Discarding it is how a node becomes a *different* node.
    disk.file = None;
    assert!(!is_persisted(&disk.entries()));
    let third = disk.start(None, "n1");
    assert_ne!(first.id, third.id, "a discarded id is not reused");
}

/// An operator-set id wins and is not persisted.
#[test]
fn a_configured_id_wins_and_is_never_discarded() {
    let mut disk = Disk { file: None, random: 99 };
    let ident = disk.start(Some(7), "n7");
    assert_eq!(ident.id, NodeId(7));
    assert!(!ident.generated);
    assert!(!is_persisted(&disk.entries()), "a configured id is not written to disk");
    // It wins over one on disk too.
    disk.file = Some("id=8\n".to_string());
    assert_eq!(disk.start(Some(7), "n7").id, NodeId(7));
    assert_eq!(disk.start(None, "n7").id, NodeId(8));
}

#[test]
fn a_corrupt_id_file_is_an_error_not_a_guess() {
    let err = resolve("/data", None, Some("not-a-number"), "n".to_string()).err().unwrap();
    assert_eq!(err.kind, ErrorKind::InvalidData);
    assert_eq!(
        err.message,
        "\"/data/.node_id\" has no usable `id=` line — refusing to guess this node's identity"
    );
    // The path is shown as paths are.
    let err = resolve("/it's \"data\"", None, Some(""), "n".to_string()).err().unwrap();
    assert_eq!(
        err.message,
        format!(
            "{:?} has no usable `id=` line — refusing to guess this node's identity",
            std::path::Path::new("/it's \"data\"/.node_id")
        )
    );
}

#[test]
fn the_identity_file_reads_as_it_is_written() {
    assert_eq!(file_text(18446744073709551615, 5), "id=18446744073709551615\ncreated_at_ms=5\n");
    for (id, at) in [(0, 0), (7, 1_700_000_000_123), (u64::MAX, u64::MAX)] {
        assert_eq!(read_file("p", &file_text(id, at)), Ok((id, at)));
    }
}

/// Blanks, carriage returns, unknown keys and repeated lines.
#[test]
fn the_identity_file_is_read_leniently() {
    assert_eq!(read_file("p", "  id= 12 \r\n\r\ncolour=red\ncreated_at_ms=soon\n"), Ok((12, 0)));
    assert_eq!(read_file("p", "id=1\nid=2"), Ok((2, 0)), "the last line wins");
    assert_eq!(read_file("p", "created_at_ms=3\nid=+4"), Ok((4, 3)));
    for bad in ["", "id", "id =5", "id=", "id=-1", "id=18446744073709551616", "id=5\nid=x", "ID=5"] {
        assert!(read_file("p", bad).is_err(), "{bad:?} holds no id");
    }
}

#[test]
fn the_identity_file_is_in_the_data_directory() {
    assert_eq!(id_path("/var/x"), "/var/x/.node_id");
    assert_eq!(id_path("/var/x/"), "/var/x/.node_id");
    assert!(!is_persisted(&vec!["node_id".to_string()]));
}

#[test]
fn a_host_is_named_by_the_first_place_that_says_so() {
    let texts = |list: &[&str]| list.iter().map(|s| s.to_string()).collect::<Vec<_>>();
    assert_eq!(hostname(&texts(&["box\n", "other"])), "box");
    assert_eq!(hostname(&texts(&[" \n", "\u{a0}b x\u{3000}\n"])), "b x");
    assert_eq!(hostname(&texts(&[])), "");
}

/// The flag starts clear and the handler sets it.
#[test]
fn the_handler_sets_the_flag() {
    let mut r = none();
    assert!(!requested(&r), "nothing has asked us to stop");
    on_signal(&mut r, SIGTERM);
    assert!(requested(&r));
    assert!(!restart_wanted(&r), "a signal asks for no restart");
    let mut r = none();
    request_restart(&mut r);
    assert!(requested(&r) && restart_wanted(&r));
}
