//! Channel names, and where channels live on disk.
//!
//! Every channel owns a directory: `<data_dir>/<name>` for an origin, `<data_dir>/.replicas/<name>`
//! for a replica, with the log inside it as `log`. Names may not begin with a dot, so none can meet
//! one of the node's own dot-prefixed entries.
use vstd::prelude::*;
use vstd::string::*;

use crate::error::{ErrorKind, NodeError};
use crate::text::{chars_of, decimal, join};

verus! {

/// The longest channel name, in bytes: what a channel header has room for.
pub const NAME_MAX: usize = 48;

/// Reads `xchannel::CHANNEL_NAME_MAX`, the number of bytes that a channel header has for the name.
/// Claimed of it: it is 48.
#[verifier::external_body]
fn channel_name_max() -> (n: usize)
    ensures
        n == NAME_MAX,
{
    xchannel::CHANNEL_NAME_MAX
}

/// The characters a channel name is made of: letters and digits of ASCII, `.`, `_` and `-`.
pub open spec fn name_char(c: char) -> bool {
    ||| 'a' <= c <= 'z'
    ||| 'A' <= c <= 'Z'
    ||| '0' <= c <= '9'
    ||| c == '.'
    ||| c == '_'
    ||| c == '-'
}

/// Whether `name` is a channel name. All its characters are of one byte, so it has as many bytes as
/// characters.
pub open spec fn valid_name(name: Seq<char>) -> bool {
    &&& 1 <= name.len() <= NAME_MAX
    &&& name[0] != '.'
    &&& forall|i: int| 0 <= i < name.len() ==> name_char(#[trigger] name[i])
}

/// The error for a name that is none.
pub open spec fn bad_name() -> (ErrorKind, Seq<char>) {
    (
        ErrorKind::InvalidInput,
        "channel name must be 1..="@ + crate::text::decimal_text(NAME_MAX as nat)
            + " chars of [A-Za-z0-9._-] with no leading dot"@,
    )
}

/// Checks a name before it is used as a path component: path separators, `..`, and the node's own
/// dot-prefixed entries cannot pass.
pub fn validate_channel_name(name: &str) -> (r: Result<(), NodeError>)
    ensures
        r is Ok <==> valid_name(name@),
        r matches Err(e) ==> e@ == bad_name(),
{
    if is_valid_name(name) {
        Ok(())
    } else {
        let mut message = "channel name must be 1..=".to_owned();
        message.append(decimal(channel_name_max() as u64).as_str());
        message.append(" chars of [A-Za-z0-9._-] with no leading dot");
        Err(NodeError { kind: ErrorKind::InvalidInput, message })
    }
}

fn is_valid_name(name: &str) -> (b: bool)
    ensures
        b == valid_name(name@),
{
    let chars = chars_of(name);
    if chars.len() < 1 || chars.len() > channel_name_max() || chars[0] == '.' {
        return false;
    }
    let mut i: usize = 0;
    while i < chars.len()
        invariant
            i <= chars@.len(),
            chars@ == name@,
            forall|j: int| 0 <= j < i ==> name_char(#[trigger] chars@[j]),
        decreases chars@.len() - i,
    {
        let c = chars[i];
        if !((c >= 'a' && c <= 'z') || (c >= 'A' && c <= 'Z') || (c >= '0' && c <= '9') || c == '.'
            || c == '_' || c == '-') {
            assert(!name_char(name@[i as int]));
            return false;
        }
        i = i + 1;
    }
    true
}

// ---------------- layout ----------------
pub open spec fn channel_dir_of(data_dir: Seq<char>, name: Seq<char>) -> Seq<char> {
    crate::text::path_join(data_dir, name)
}

pub open spec fn channel_path_of(data_dir: Seq<char>, name: Seq<char>) -> Seq<char> {
    crate::text::path_join(channel_dir_of(data_dir, name), "log"@)
}

pub open spec fn replica_dir_of(data_dir: Seq<char>, name: Seq<char>) -> Seq<char> {
    crate::text::path_join(crate::text::path_join(data_dir, ".replicas"@), name)
}

pub open spec fn replica_path_of(data_dir: Seq<char>, name: Seq<char>) -> Seq<char> {
    crate::text::path_join(replica_dir_of(data_dir, name), "log"@)
}

/// The directory of an origin channel.
pub fn channel_dir(data_dir: &str, name: &str) -> (r: Result<String, NodeError>)
    ensures
        r is Ok <==> valid_name(name@),
        r matches Ok(p) ==> p@ == channel_dir_of(data_dir@, name@),
        r matches Err(e) ==> e@ == bad_name(),
{
    match validate_channel_name(name) {
        Ok(()) => Ok(join(data_dir, name)),
        Err(e) => Err(e),
    }
}

/// The log of an origin channel.
pub fn channel_path(data_dir: &str, name: &str) -> (r: Result<String, NodeError>)
    ensures
        r is Ok <==> valid_name(name@),
        r matches Ok(p) ==> p@ == channel_path_of(data_dir@, name@),
        r matches Err(e) ==> e@ == bad_name(),
{
    match channel_dir(data_dir, name) {
        Ok(dir) => Ok(join(dir.as_str(), "log")),
        Err(e) => Err(e),
    }
}

/// The directory of a replica.
pub fn replica_dir(data_dir: &str, name: &str) -> (r: Result<String, NodeError>)
    ensures
        r is Ok <==> valid_name(name@),
        r matches Ok(p) ==> p@ == replica_dir_of(data_dir@, name@),
        r matches Err(e) ==> e@ == bad_name(),
{
    match validate_channel_name(name) {
        Ok(()) => Ok(join(join(data_dir, ".replicas").as_str(), name)),
        Err(e) => Err(e),
    }
}

/// The log of a replica.
pub fn replica_path(data_dir: &str, name: &str) -> (r: Result<String, NodeError>)
    ensures
        r is Ok <==> valid_name(name@),
        r matches Ok(p) ==> p@ == replica_path_of(data_dir@, name@),
        r matches Err(e) ==> e@ == bad_name(),
{
    match replica_dir(data_dir, name) {
        Ok(dir) => Ok(join(dir.as_str(), "log")),
        Err(e) => Err(e),
    }
}

// ---------------- laws ----------------
/// A channel name is one path component, and none of the node's own: it holds no separator, and it
/// is neither `.` nor `..` nor anything else that begins with a dot.
pub proof fn law_a_name_is_one_plain_component(name: Seq<char>)
    requires
        valid_name(name),
    ensures
        !name.contains('/'),
        !name.contains('\\'),
        name.len() > 0,
        name[0] != '.',
        name != "."@,
        name != ".."@,
        name != ".replicas"@,
        name != ".discovery"@,
        name != ".node_id"@,
{
    reveal_strlit(".");
    reveal_strlit("..");
    reveal_strlit(".replicas");
    reveal_strlit(".discovery");
    reveal_strlit(".node_id");
    assert forall|i: int| 0 <= i < name.len() implies name[i] != '/' && name[i] != '\\' by {
        assert(name_char(name[i]));
    }
}

/// Different channels live in different directories, whether origins or replicas, and no origin
/// lives where a replica does.
pub proof fn law_channels_do_not_share_a_place(
    data_dir: Seq<char>,
    a: Seq<char>,
    b: Seq<char>,
)
    requires
        valid_name(a),
        valid_name(b),
    ensures
        channel_dir_of(data_dir, a) == channel_dir_of(data_dir, b) ==> a == b,
        channel_path_of(data_dir, a) == channel_path_of(data_dir, b) ==> a == b,
        replica_dir_of(data_dir, a) == replica_dir_of(data_dir, b) ==> a == b,
        replica_path_of(data_dir, a) == replica_path_of(data_dir, b) ==> a == b,
        channel_dir_of(data_dir, a) != replica_dir_of(data_dir, b),
        channel_path_of(data_dir, a) != replica_path_of(data_dir, b),
{
    reveal_strlit(".replicas");
    reveal_strlit("log");
    reveal_strlit("/");
    let replicas = crate::text::path_join(data_dir, ".replicas"@);
    let front = if data_dir.len() == 0 || data_dir.last() == '/' {
        data_dir
    } else {
        data_dir + "/"@
    };
    if channel_dir_of(data_dir, a) == channel_dir_of(data_dir, b) {
        crate::text::lemma_path_join_injective(data_dir, a, b);
    }
    if replica_dir_of(data_dir, a) == replica_dir_of(data_dir, b) {
        crate::text::lemma_path_join_injective(replicas, a, b);
    }
    // A replica's directory goes on from the data directory with a dot, an origin's does not.
    assert(replicas =~= front + ".replicas"@);
    assert(channel_dir_of(data_dir, a) =~= front + a);
    assert(channel_dir_of(data_dir, b) =~= front + b);
    assert(replica_dir_of(data_dir, a) =~= replicas + "/"@ + a);
    assert(replica_dir_of(data_dir, b) =~= replicas + "/"@ + b);
    assert((front + a)[front.len() as int] == a[0]);
    assert(replica_dir_of(data_dir, b)[front.len() as int] == '.');
    assert(name_char(a[a.len() - 1]) && name_char(b[b.len() - 1]));
    lemma_log_of(channel_dir_of(data_dir, a), channel_dir_of(data_dir, b));
    lemma_log_of(replica_dir_of(data_dir, a), replica_dir_of(data_dir, b));
    lemma_log_of(channel_dir_of(data_dir, a), replica_dir_of(data_dir, b));
}

/// Whether `path` lies somewhere below the directory `dir`.
pub open spec fn below(dir: Seq<char>, path: Seq<char>) -> bool {
    (dir + "/"@).is_prefix_of(path)
}

/// No directory of a channel, of an origin or of a replica, lies below another: deleting one deletes
/// nothing of any other.
pub proof fn law_no_channel_lies_below_another(data_dir: Seq<char>, a: Seq<char>, b: Seq<char>)
    requires
        valid_name(a),
        valid_name(b),
    ensures
        !below(channel_dir_of(data_dir, a), channel_dir_of(data_dir, b)),
        !below(replica_dir_of(data_dir, a), replica_dir_of(data_dir, b)),
        !below(channel_dir_of(data_dir, a), replica_dir_of(data_dir, b)),
        !below(replica_dir_of(data_dir, a), channel_dir_of(data_dir, b)),
{
    reveal_strlit(".replicas");
    reveal_strlit("/");
    let replicas = crate::text::path_join(data_dir, ".replicas"@);
    let front = if data_dir.len() == 0 || data_dir.last() == '/' {
        data_dir
    } else {
        data_dir + "/"@
    };
    assert(replicas =~= front + ".replicas"@);
    lemma_not_below(front, a, b);
    lemma_not_below(replicas + "/"@, a, b);
    assert(channel_dir_of(data_dir, a) =~= front + a);
    assert(channel_dir_of(data_dir, b) =~= front + b);
    assert(replica_dir_of(data_dir, a) =~= replicas + "/"@ + a);
    assert(replica_dir_of(data_dir, b) =~= replicas + "/"@ + b);
    let n = front.len() as int;
    if below(channel_dir_of(data_dir, a), replica_dir_of(data_dir, b)) {
        assert((channel_dir_of(data_dir, a) + "/"@)[n] == a[0]);
        assert(replica_dir_of(data_dir, b)[n] == '.');
    }
    if below(replica_dir_of(data_dir, a), channel_dir_of(data_dir, b)) {
        assert((replica_dir_of(data_dir, a) + "/"@)[n] == '.');
        assert(channel_dir_of(data_dir, b)[n] == b[0]);
    }
}

proof fn lemma_not_below(front: Seq<char>, a: Seq<char>, b: Seq<char>)
    requires
        valid_name(a),
        valid_name(b),
    ensures
        !below(front + a, front + b),
{
    reveal_strlit("/");
    if below(front + a, front + b) {
        let n = (front.len() + a.len()) as int;
        assert((front + a + "/"@)[n] == '/');
        assert((front + b)[n] == b[a.len() as int]);
        assert(name_char(b[a.len() as int]));
    }
}

/// Directories that hold the same log are the same directory.
proof fn lemma_log_of(x: Seq<char>, y: Seq<char>)
    requires
        x.len() > 0 && x.last() != '/',
        y.len() > 0 && y.last() != '/',
    ensures
        crate::text::path_join(x, "log"@) == crate::text::path_join(y, "log"@) ==> x == y,
{
    reveal_strlit("log");
    reveal_strlit("/");
    let (p, q) = (crate::text::path_join(x, "log"@), crate::text::path_join(y, "log"@));
    assert(p =~= x + "/"@ + "log"@);
    assert(q =~= y + "/"@ + "log"@);
    if p == q {
        assert(x.len() == y.len());
        assert(x =~= p.subrange(0, x.len() as int));
        assert(y =~= q.subrange(0, y.len() as int));
    }
}

} // verus!
