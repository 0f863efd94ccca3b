//! A node's durable identity: its id, and a name for people to read.
//!
//! The id is 64 random bits, generated at the first start and kept in the data directory, which is
//! what makes the node the node it is: its channels are there. An id set by the operator always wins,
//! and is never written down.
use vstd::prelude::*;
use vstd::string::*;

use crate::config::is_listed;
use crate::error::{ErrorKind, NodeError};
use crate::identity::NodeId;
use crate::text::{chars_of, decimal, join, parse_number, quoted, trim, trim_text};

verus! {

/// The file in the data directory that holds the identity. It begins with a dot, so no channel can
/// have its name.
pub const NODE_ID_FILE: &'static str = ".node_id";

/// A node's identity.
#[derive(PartialEq, Eq, Debug)]
pub struct NodeIdentity {
    pub id: NodeId,
    /// Unix milliseconds when the id was generated; zero if it was not.
    pub created_at_ms: u64,
    /// For people to read; nothing depends on it.
    pub name: String,
    /// Whether the id was generated here rather than set by the operator. Only such an id may be
    /// discarded.
    pub generated: bool,
}

/// A node's identity, as far as it is settled.
pub enum Resolved {
    Known(NodeIdentity),
    /// There is none yet: draw 64 random bits, and [`generate`] one.
    Absent { name: String },
}

// ---------------- the file ----------------
/// What the identity file holds.
pub open spec fn identity_text(id: u64, created_at_ms: u64) -> Seq<char> {
    "id="@ + crate::text::decimal_text(id as nat) + "\ncreated_at_ms="@
        + crate::text::decimal_text(created_at_ms as nat) + "\n"@
}

/// The lines of a text, what follows the last line break among them.
pub open spec fn lines(text: Seq<char>) -> Seq<Seq<char>>
    decreases text.len(),
{
    if text.len() == 0 {
        seq![Seq::empty()]
    } else {
        let rest = lines(text.drop_last());
        if text.last() == '\n' {
            rest.push(Seq::empty())
        } else {
            rest.drop_last().push(rest.last().push(text.last()))
        }
    }
}

/// Whether `s` has its first `=` at `k`.
pub open spec fn splits_at(s: Seq<char>, k: int) -> bool {
    &&& 0 <= k < s.len()
    &&& s[k] == '='
    &&& forall|j: int| 0 <= j < k ==> #[trigger] s[j] != '='
}

/// The key and the value of a line `key=value`.
pub open spec fn entry_of(line: Seq<char>) -> Option<(Seq<char>, Seq<char>)> {
    let s = crate::text::trimmed(line);
    if exists|k: int| splits_at(s, k) {
        let k = choose|k: int| splits_at(s, k);
        Some((s.take(k), crate::text::trimmed(s.skip(k + 1))))
    } else {
        None
    }
}

/// What has been read, the id and the time of creation, after one more line. A later line wins over
/// an earlier one, and an id that is no number over one that is.
pub open spec fn after_line(read: (Option<u64>, u64), line: Seq<char>) -> (Option<u64>, u64) {
    match entry_of(line) {
        Some((key, value)) => if key == "id"@ {
            (crate::text::number_of(value), read.1)
        } else if key == "created_at_ms"@ {
            (
                read.0,
                match crate::text::number_of(value) {
                    Some(n) => n,
                    None => 0,
                },
            )
        } else {
            read
        },
        None => read,
    }
}

/// What has been read after all of `list`.
pub open spec fn after_lines(list: Seq<Seq<char>>) -> (Option<u64>, u64)
    decreases list.len(),
{
    if list.len() == 0 {
        (None, 0)
    } else {
        after_line(after_lines(list.drop_last()), list.last())
    }
}

/// The id and the time of creation that an identity file holds, if it holds an id.
pub open spec fn stored_identity(text: Seq<char>) -> Option<(u64, u64)> {
    match after_lines(lines(text)) {
        (Some(id), created_at_ms) => Some((id, created_at_ms)),
        (None, _) => None,
    }
}

/// The error for an identity file without an id.
pub open spec fn no_usable_id(path: Seq<char>) -> (ErrorKind, Seq<char>) {
    (
        ErrorKind::InvalidData,
        crate::text::quoted_path(path)
            + " has no usable `id=` line — refusing to guess this node's identity"@,
    )
}

/// Writes down an identity.
pub fn file_text(id: u64, created_at_ms: u64) -> (text: String)
    ensures
        text@ == identity_text(id, created_at_ms),
{
    let mut text = "id=".to_owned();
    text.append(decimal(id).as_str());
    text.append("\ncreated_at_ms=");
    text.append(decimal(created_at_ms).as_str());
    text.append("\n");
    text
}

fn spells(s: &Vec<char>, from: usize, to: usize, word: &str) -> (b: bool)
    requires
        from <= to <= s@.len(),
    ensures
        b == (s@.subrange(from as int, to as int) == word@),
{
    let w = chars_of(word);
    if w.len() != to - from {
        return false;
    }
    let mut i: usize = 0;
    while i < w.len()
        invariant
            i <= w@.len() == to - from,
            to <= s@.len(),
            w@ == word@,
            forall|j: int| 0 <= j < i ==> s@[from + j] == #[trigger] w@[j],
        decreases w@.len() - i,
    {
        if s[from + i] != w[i] {
            assert(s@.subrange(from as int, to as int)[i as int] != word@[i as int]);
            return false;
        }
        i = i + 1;
    }
    assert(s@.subrange(from as int, to as int) =~= word@);
    true
}

fn read_line(read: (Option<u64>, u64), text: &Vec<char>, from: usize, to: usize) -> (r: (
    Option<u64>,
    u64,
))
    requires
        from <= to <= text@.len(),
    ensures
        r == after_line(read, text@.subrange(from as int, to as int)),
{
    let s = trim(text, from, to);
    let mut k: usize = 0;
    while k < s.len() && s[k] != '='
        invariant
            k <= s@.len(),
            forall|j: int| 0 <= j < k ==> #[trigger] s@[j] != '=',
        decreases s@.len() - k,
    {
        k = k + 1;
    }
    if k == s.len() {
        assert(forall|j: int| !splits_at(s@, j));
        return read;
    }
    proof {
        assert(splits_at(s@, k as int));
        let c = choose|c: int| splits_at(s@, c);
        assert(c == k) by {
            if c < k {
                assert(s@[c] != '=');
            } else if k < c {
                assert(s@[k as int] != '=');
            }
        }
        assert(s@.take(k as int) =~= s@.subrange(0, k as int));
        assert(s@.skip(k + 1) =~= s@.subrange(k + 1, s@.len() as int));
    }
    if spells(&s, 0, k, "id") {
        let value = trim(&s, k + 1, s.len());
        (parse_number(&value), read.1)
    } else if spells(&s, 0, k, "created_at_ms") {
        let value = trim(&s, k + 1, s.len());
        (
            read.0,
            match parse_number(&value) {
                Some(n) => n,
                None => 0,
            },
        )
    } else {
        read
    }
}

/// Reads an identity file: the id and the time of creation. A file without a usable id is refused
/// rather than replaced: a fresh id would leave every channel here to an owner that is gone.
pub fn read_file(path: &str, text: &str) -> (r: Result<(u64, u64), NodeError>)
    ensures
        match stored_identity(text@) {
            Some(both) => r == Ok::<(u64, u64), NodeError>(both),
            None => r matches Err(e) && e@ == no_usable_id(path@),
        },
{
    let chars = chars_of(text);
    let mut read: (Option<u64>, u64) = (None, 0);
    let mut start: usize = 0;
    let mut i: usize = 0;
    proof {
        assert(chars@.take(0) =~= Seq::<char>::empty());
        assert(lines(chars@.take(0)).drop_last() =~= Seq::<Seq<char>>::empty());
        assert(chars@.subrange(0, 0) =~= Seq::<char>::empty());
    }
    while i < chars.len()
        invariant
            start <= i <= chars@.len(),
            lines(chars@.take(i as int)).len() > 0,
            lines(chars@.take(i as int)).last() == chars@.subrange(start as int, i as int),
            read == after_lines(lines(chars@.take(i as int)).drop_last()),
        decreases chars@.len() - i,
    {
        let ghost before = lines(chars@.take(i as int));
        proof {
            assert(chars@.take(i + 1).drop_last() =~= chars@.take(i as int));
            assert(chars@.take(i + 1).last() == chars@[i as int]);
        }
        if chars[i] == '\n' {
            read = read_line(read, &chars, start, i);
            start = i + 1;
            proof {
                assert(lines(chars@.take(i + 1)).drop_last() =~= before);
                assert(chars@.subrange(i + 1, i + 1) =~= Seq::<char>::empty());
            }
        } else {
            proof {
                assert(lines(chars@.take(i + 1)).drop_last() =~= before.drop_last());
                assert(chars@.subrange(start as int, i + 1) =~= chars@.subrange(
                    start as int,
                    i as int,
                ).push(chars@[i as int]));
            }
        }
        i = i + 1;
    }
    let end = chars.len();
    assert(chars@.take(end as int) =~= text@);
    read = read_line(read, &chars, start, end);
    match read.0 {
        Some(id) => Ok((id, read.1)),
        None => {
            let mut message = quoted(path);
            message.append(" has no usable `id=` line — refusing to guess this node's identity");
            Err(NodeError { kind: ErrorKind::InvalidData, message })
        },
    }
}

/// Where the identity file is.
pub fn id_path(data_dir: &str) -> (path: String)
    ensures
        path@ == crate::text::path_join(data_dir@, NODE_ID_FILE@),
{
    join(data_dir, NODE_ID_FILE)
}

/// Whether a data directory with these entries holds an identity.
pub fn is_persisted(entries: &Vec<String>) -> (b: bool)
    ensures
        b == crate::config::listed(entries@, NODE_ID_FILE@),
{
    is_listed(entries, NODE_ID_FILE)
}

// ---------------- settling it ----------------
/// How a node's identity is settled, from the id set by the operator and from what the identity file
/// holds, if there is one.
pub open spec fn settled(
    data_dir: Seq<char>,
    configured: Option<u64>,
    stored: Option<Seq<char>>,
    name: String,
    r: Result<Resolved, NodeError>,
) -> bool {
    match configured {
        Some(id) => {
            &&& r matches Ok(Resolved::Known(who))
            &&& who == (NodeIdentity { id: NodeId(id), created_at_ms: 0, name, generated: false })
        },
        None => match stored {
            Some(text) => match stored_identity(text) {
                Some((id, created_at_ms)) => {
                    &&& r matches Ok(Resolved::Known(who))
                    &&& who == (NodeIdentity { id: NodeId(id), created_at_ms, name, generated: true })
                },
                None => r matches Err(e) && e@ == no_usable_id(
                    crate::text::path_join(data_dir, NODE_ID_FILE@),
                ),
            },
            None => r matches Ok(Resolved::Absent { name: n }) && n == name,
        },
    }
}

/// Settles a node's identity. `configured` is the id set by the operator; `stored` is what the
/// identity file holds, if there is one.
pub fn resolve(
    data_dir: &str,
    configured: Option<u64>,
    stored: Option<&str>,
    name: String,
) -> (r: Result<Resolved, NodeError>)
    ensures
        settled(
            data_dir@,
            configured,
            match stored {
                Some(text) => Some(text@),
                None => None,
            },
            name,
            r,
        ),
{
    if let Some(id) = configured {
        return Ok(
            Resolved::Known(
                NodeIdentity { id: NodeId(id), created_at_ms: 0, name, generated: false },
            ),
        );
    }
    match stored {
        Some(text) => match read_file(id_path(data_dir).as_str(), text) {
            Ok((id, created_at_ms)) => Ok(
                Resolved::Known(
                    NodeIdentity { id: NodeId(id), created_at_ms, name, generated: true },
                ),
            ),
            Err(e) => Err(e),
        },
        None => Ok(Resolved::Absent { name }),
    }
}

/// A new identity, made of 64 random bits at `now_ms` of Unix time, and what to write into its file
/// before it is used.
pub fn generate(name: String, random: u64, now_ms: u64) -> (r: (NodeIdentity, String))
    ensures
        r.0 == (NodeIdentity { id: NodeId(random), created_at_ms: now_ms, name, generated: true }),
        r.1@ == identity_text(random, now_ms),
{
    let text = file_text(random, now_ms);
    (NodeIdentity { id: NodeId(random), created_at_ms: now_ms, name, generated: true }, text)
}

/// The first of `texts` that is not blank, without the blanks around it.
pub open spec fn first_named(texts: Seq<String>) -> Seq<char>
    decreases texts.len(),
{
    if texts.len() == 0 {
        Seq::empty()
    } else if crate::text::trimmed(texts[0]@).len() > 0 {
        crate::text::trimmed(texts[0]@)
    } else {
        first_named(texts.drop_first())
    }
}

/// This host's name, from what the places that may hold it say; empty if none does.
pub fn hostname(texts: &Vec<String>) -> (name: String)
    ensures
        name@ == first_named(texts@),
{
    let mut i: usize = 0;
    assert(texts@.skip(0) =~= texts@);
    while i < texts.len()
        invariant
            i <= texts@.len(),
            first_named(texts@) == first_named(texts@.skip(i as int)),
        decreases texts@.len() - i,
    {
        let t = trim_text(texts[i].as_str());
        proof {
            assert(texts@.skip(i as int)[0] == texts@[i as int]);
            assert(texts@.skip(i as int).drop_first() =~= texts@.skip(i + 1));
        }
        if !t.as_str().is_empty() {
            return t;
        }
        i = i + 1;
    }
    assert(texts@.skip(i as int) =~= Seq::<String>::empty());
    String::new()
}

// ---------------- laws ----------------
/// What the identity file holds in a data directory whose files are `files`, by name.
pub open spec fn stored_in(files: Map<Seq<char>, Seq<char>>) -> Option<Seq<char>> {
    if files.contains_key(NODE_ID_FILE@) {
        Some(files[NODE_ID_FILE@])
    } else {
        None
    }
}

/// The files once what `r` calls for has been written: an identity generated from `random` at
/// `now_ms`, if there was none, and else nothing.
pub open spec fn once_written(
    files: Map<Seq<char>, Seq<char>>,
    r: Result<Resolved, NodeError>,
    random: u64,
    now_ms: u64,
) -> Map<Seq<char>, Seq<char>> {
    match r {
        Ok(Resolved::Absent { .. }) => files.insert(NODE_ID_FILE@, identity_text(random, now_ms)),
        _ => files,
    }
}

/// Whether `entries` are the names of `files`.
pub open spec fn names_the_files(
    entries: Seq<String>,
    files: Map<Seq<char>, Seq<char>>,
) -> bool {
    forall|name: Seq<char>|
        crate::config::listed(entries, name) <==> #[trigger] files.contains_key(name)
}

/// A node that has settled its identity, with none set by the operator, has it written down; one
/// whose operator set it leaves the file as it was, whether it is there or not; and one that has
/// discarded it has none written down.
pub proof fn law_a_settled_identity_is_written_down(
    data_dir: Seq<char>,
    configured: Option<u64>,
    files: Map<Seq<char>, Seq<char>>,
    name: String,
    r: Result<Resolved, NodeError>,
    random: u64,
    now_ms: u64,
    entries: Seq<String>,
)
    requires
        settled(data_dir, configured, stored_in(files), name, r),
    ensures
        configured is None && r is Ok && names_the_files(
            entries,
            once_written(files, r, random, now_ms),
        ) ==> crate::config::listed(entries, NODE_ID_FILE@),
        configured is Some ==> once_written(files, r, random, now_ms) == files,
        names_the_files(entries, files.remove(NODE_ID_FILE@)) ==> !crate::config::listed(
            entries,
            NODE_ID_FILE@,
        ),
{
    let written = once_written(files, r, random, now_ms);
    if configured is None && r is Ok {
        assert(written.contains_key(NODE_ID_FILE@));
    }
    assert(!files.remove(NODE_ID_FILE@).contains_key(NODE_ID_FILE@));
}

/// An identity is generated once and then used again: a node that found none and wrote one down
/// settles on that one from then on.
pub proof fn law_an_identity_is_generated_once(
    data_dir: Seq<char>,
    files: Map<Seq<char>, Seq<char>>,
    name: String,
    r: Result<Resolved, NodeError>,
    random: u64,
    now_ms: u64,
    later_name: String,
    later: Result<Resolved, NodeError>,
)
    requires
        settled(data_dir, None, stored_in(files), name, r),
        !files.contains_key(NODE_ID_FILE@),
        settled(
            data_dir,
            None,
            stored_in(once_written(files, r, random, now_ms)),
            later_name,
            later,
        ),
    ensures
        r is Ok && r->Ok_0 is Absent,
        later == Ok::<Resolved, NodeError>(
            Resolved::Known(
                NodeIdentity {
                    id: NodeId(random),
                    created_at_ms: now_ms,
                    name: later_name,
                    generated: true,
                },
            ),
        ),
{
    law_an_identity_survives_a_restart(random, now_ms);
}

/// A node that restarts reads back the identity it wrote down.
pub proof fn law_an_identity_survives_a_restart(id: u64, created_at_ms: u64)
    ensures
        stored_identity(identity_text(id, created_at_ms)) == Some((id, created_at_ms)),
{
    reveal_strlit("id=");
    reveal_strlit("id");
    reveal_strlit("\ncreated_at_ms=");
    reveal_strlit("created_at_ms=");
    reveal_strlit("created_at_ms");
    reveal_strlit("\n");
    let a = "id="@ + crate::text::decimal_text(id as nat);
    let b = "created_at_ms="@ + crate::text::decimal_text(created_at_ms as nat);
    crate::text::lemma_decimal_digits(id as nat);
    crate::text::lemma_decimal_digits(created_at_ms as nat);
    let none = Seq::<char>::empty();
    let text = identity_text(id, created_at_ms);
    let first = a.push('\n');
    let both = (first + b).push('\n');
    assert(text =~= both);
    assert(lines(none) =~= seq![none]);
    lemma_lines_extend(none, a);
    assert(none + a =~= a);
    assert(lines(a) =~= seq![a]) by {
        assert(none + a =~= a);
    }
    assert(first.drop_last() =~= a);
    assert(lines(first) =~= seq![a, none]);
    lemma_lines_extend(first, b);
    assert(lines(first + b) =~= seq![a, b]) by {
        assert(none + b =~= b);
    }
    assert(both.drop_last() =~= first + b);
    let all = lines(both);
    assert(all =~= seq![a, b, none]);
    lemma_entry("id"@, id);
    lemma_entry("created_at_ms"@, created_at_ms);
    assert(a =~= "id"@.push('=') + crate::text::decimal_text(id as nat));
    assert(b =~= "created_at_ms"@.push('=') + crate::text::decimal_text(created_at_ms as nat));
    assert("id"@ != "created_at_ms"@) by {
        assert("id"@.len() != "created_at_ms"@.len());
    }
    assert(entry_of(none) is None);
    crate::text::lemma_decimal_round_trip(id);
    crate::text::lemma_decimal_round_trip(created_at_ms);
    let one = seq![a];
    let two = seq![a, b];
    assert(one.drop_last() =~= Seq::<Seq<char>>::empty());
    assert(two.drop_last() =~= one);
    assert(all.drop_last() =~= two);
    assert(after_lines(Seq::<Seq<char>>::empty()) == (None::<u64>, 0u64));
    assert(after_lines(one) == (Some(id), 0u64));
    assert(after_lines(two) == (Some(id), created_at_ms));
}

/// What follows on a line, with no break in it, belongs to that line.
proof fn lemma_lines_extend(text: Seq<char>, s: Seq<char>)
    requires
        forall|i: int| 0 <= i < s.len() ==> #[trigger] s[i] != '\n',
    ensures
        lines(text).len() > 0,
        lines(text + s) == lines(text).drop_last().push(lines(text).last() + s),
    decreases s.len(),
{
    lemma_lines_some(text);
    if s.len() == 0 {
        assert(text + s =~= text);
        assert(lines(text).last() + s =~= lines(text).last());
        assert(lines(text).drop_last().push(lines(text).last()) =~= lines(text));
    } else {
        let init = s.drop_last();
        assert forall|i: int| 0 <= i < init.len() implies #[trigger] init[i] != '\n' by {
            assert(init[i] == s[i]);
        }
        lemma_lines_extend(text, init);
        assert((text + s).drop_last() =~= text + init);
        assert((text + s).last() == s.last());
        let rest = lines(text + init);
        assert(rest.drop_last() =~= lines(text).drop_last());
        assert(rest.last() == lines(text).last() + init);
        assert((lines(text).last() + init).push(s.last()) =~= lines(text).last() + s);
    }
}

proof fn lemma_lines_some(text: Seq<char>)
    ensures
        lines(text).len() > 0,
    decreases text.len(),
{
    if text.len() > 0 {
        lemma_lines_some(text.drop_last());
    }
}

/// A line of a key, `=` and a number is read as that.
proof fn lemma_entry(key: Seq<char>, n: u64)
    requires
        key.len() > 0,
        !crate::text::is_blank(key[0]),
        forall|i: int| 0 <= i < key.len() ==> #[trigger] key[i] != '=',
    ensures
        entry_of(key.push('=') + crate::text::decimal_text(n as nat)) == Some(
            (key, crate::text::decimal_text(n as nat)),
        ),
{
    let digits = crate::text::decimal_text(n as nat);
    crate::text::lemma_decimal_digits(n as nat);
    let line = key.push('=') + digits;
    let k = key.len() as int;
    assert(crate::text::is_digit(digits[0]));
    assert(crate::text::is_digit(digits[digits.len() - 1]));
    assert(line.last() == digits.last());
    assert(line[0] == key[0]);
    assert(crate::text::trimmed(line) == line);
    assert(splits_at(line, k)) by {
        assert forall|j: int| 0 <= j < k implies #[trigger] line[j] != '=' by {
            assert(line[j] == key[j]);
        }
    }
    let c = choose|c: int| splits_at(line, c);
    assert(c == k) by {
        if c < k {
            assert(line[c] != '=');
        } else if k < c {
            assert(line[k] != '=');
        }
    }
    assert(line.take(k) =~= key);
    assert(line.skip(k + 1) =~= digits);
    assert(crate::text::trimmed(digits) == digits);
}

} // verus!
