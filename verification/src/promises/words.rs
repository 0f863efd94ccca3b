//! Text: numbers, names, paths, and what is written in an identity file.
use vstd::prelude::*;

use crate::error::{ErrorKind, NodeError};
use crate::identity::NodeId;
use crate::node_identity::{
    after_lines, entry_of, first_named, lines, settled, splits_at, stored_identity, Resolved,
};
use crate::promises::sequences::{lemma_filter_map_last, lemma_filter_map_none};
use crate::text::{
    all_digits, bytes_before, decimal_text, differ_first_at, digits_value, is_blank, number_of,
    path_join, trimmed, trimmed_back, trimmed_front,
};

verus! {

// ---------------- order ----------------
/// Names are in the order of their bytes: what two have in common at the front plays no part, the
/// first byte in which they differ decides, and one that ends there comes first.
pub proof fn law_the_first_difference_decides(
    front: Seq<u8>,
    x: u8,
    y: u8,
    a: Seq<u8>,
    b: Seq<u8>,
)
    ensures
        x != y ==> (bytes_before(front.push(x) + a, front.push(y) + b) <==> x < y),
        b.len() > 0 ==> bytes_before(front, front + b),
        !bytes_before(front + b, front),
{
    let (s, t) = (front.push(x) + a, front.push(y) + b);
    let n = front.len() as int;
    assert(s[n] == x && t[n] == y);
    assert(forall|j: int| 0 <= j < n ==> s[j] == front[j] && t[j] == front[j]);
    if x < y {
        assert(differ_first_at(s, t, n));
    }
    if x != y && bytes_before(s, t) {
        let k = choose|k: int| #[trigger] differ_first_at(s, t, k);
        assert(k == n);
    }
    if b.len() > 0 {
        assert(differ_first_at(front, front + b, n));
    }
    if bytes_before(front + b, front) {
        let k = choose|k: int| #[trigger] differ_first_at(front + b, front, k);
        assert((front + b)[k] == front[k]);
    }
}

// ---------------- numbers ----------------
/// A number is written in decimal digits, highest first, without superfluous zeros; and the text says
/// that number.
pub proof fn law_how_a_number_is_written(n: nat)
    ensures
        decimal_text(n).len() > 0,
        forall|i: int| 0 <= i < decimal_text(n).len() ==> '0' <= #[trigger] decimal_text(n)[i] <= '9',
        n > 0 ==> decimal_text(n)[0] != '0',
        n == 0 ==> decimal_text(n) == seq!['0'],
        digits_value(decimal_text(n)) == n,
    decreases n,
{
    crate::text::lemma_decimal_digits(n);
    assert(all_digits(decimal_text(n)));
    if n >= 10 {
        law_how_a_number_is_written(n / 10);
        assert(decimal_text(n)[0] == decimal_text(n / 10)[0]);
    }
}

/// What a run of digits comes to: another digit at the end counts for itself, and what stood there
/// before for ten times as much.
pub proof fn law_what_digits_come_to(s: Seq<char>, c: char)
    requires
        '0' <= c <= '9',
    ensures
        digits_value(Seq::<char>::empty()) == 0,
        digits_value(s.push(c)) == 10 * digits_value(s) + (c as int - 0x30),
{
    assert(s.push(c).drop_last() =~= s);
}

/// What is left of a text without the one plus sign that it may begin with.
pub open spec fn without_sign(s: Seq<char>) -> Seq<char> {
    if s.len() > 0 && s[0] == '+' {
        s.subrange(1, s.len() as int)
    } else {
        s
    }
}

/// A text says a number exactly if it is digits alone, at least one, perhaps after one plus sign, and
/// the number fits; and then it says what those digits come to.
pub proof fn law_which_texts_are_numbers(s: Seq<char>)
    ensures
        ({
            let t = without_sign(s);
            &&& number_of(s) is Some <==> {
                &&& t.len() > 0
                &&& forall|i: int| 0 <= i < t.len() ==> '0' <= #[trigger] t[i] <= '9'
                &&& digits_value(t) <= 0xffff_ffff_ffff_ffff
            }
            &&& number_of(s) is Some ==> number_of(s)->0 == digits_value(t)
        }),
{
    let t = without_sign(s);
    if s.len() > 0 && s[0] == '+' {
        assert(s.drop_first() =~= t);
    }
    if all_digits(t) {
        assert(forall|i: int| 0 <= i < t.len() ==> '0' <= #[trigger] t[i] <= '9');
    }
    if forall|i: int| 0 <= i < t.len() ==> '0' <= #[trigger] t[i] <= '9' {
        assert(all_digits(t));
    }
}

// ---------------- blanks ----------------
/// Which characters are blank, by their code points: those that Unicode calls white space.
pub proof fn law_which_characters_are_blank(c: char)
    ensures
        is_blank(c) <==> {
            let n = c as u32;
            ||| 9 <= n <= 13
            ||| n == 0x20
            ||| n == 0x85
            ||| n == 0xa0
            ||| n == 0x1680
            ||| 0x2000 <= n <= 0x200a
            ||| n == 0x2028
            ||| n == 0x2029
            ||| n == 0x202f
            ||| n == 0x205f
            ||| n == 0x3000
        },
{
}

/// Whether `t` is what is left of `s` when `i` blanks at the front and all from `j` on are cut off, and
/// neither end of it is blank.
pub open spec fn cut_out(s: Seq<char>, t: Seq<char>, i: int, j: int) -> bool {
    &&& 0 <= i <= j <= s.len()
    &&& t == s.subrange(i, j)
    &&& forall|k: int| 0 <= k < i || j <= k < s.len() ==> is_blank(#[trigger] s[k])
    &&& t.len() > 0 ==> !is_blank(t[0]) && !is_blank(t.last())
}

/// Trimming cuts the blanks off both ends of a text, all of them and nothing else.
pub proof fn law_trimming_cuts_blanks_off(s: Seq<char>) -> (ends: (int, int))
    ensures
        cut_out(s, trimmed(s), ends.0, ends.1),
{
    let i = lemma_front(s);
    let t = trimmed_front(s);
    let j = lemma_back(t);
    let r = trimmed(s);
    assert(r =~= s.subrange(i, i + j));
    assert forall|k: int| 0 <= k < i || i + j <= k < s.len() implies is_blank(#[trigger] s[k]) by {
        if k >= i + j {
            assert(t[k - i] == s[k]);
        }
    }
    if r.len() > 0 {
        assert(r[0] == t[0]);
    }
    (i, i + j)
}

proof fn lemma_front(s: Seq<char>) -> (i: int)
    ensures
        0 <= i <= s.len(),
        trimmed_front(s) == s.subrange(i, s.len() as int),
        forall|k: int| 0 <= k < i ==> is_blank(#[trigger] s[k]),
        i < s.len() ==> !is_blank(s[i]),
    decreases s.len(),
{
    if s.len() > 0 && is_blank(s[0]) {
        let rest = s.drop_first();
        let i = lemma_front(rest);
        assert(rest.subrange(i, rest.len() as int) =~= s.subrange(i + 1, s.len() as int));
        assert forall|k: int| 0 <= k < i + 1 implies is_blank(#[trigger] s[k]) by {
            if k > 0 {
                assert(rest[k - 1] == s[k]);
            }
        }
        i + 1
    } else {
        assert(s.subrange(0, s.len() as int) =~= s);
        0
    }
}

proof fn lemma_back(s: Seq<char>) -> (j: int)
    ensures
        0 <= j <= s.len(),
        trimmed_back(s) == s.subrange(0, j),
        forall|k: int| j <= k < s.len() ==> is_blank(#[trigger] s[k]),
        j > 0 ==> !is_blank(s[j - 1]),
    decreases s.len(),
{
    if s.len() > 0 && is_blank(s.last()) {
        let rest = s.drop_last();
        let j = lemma_back(rest);
        assert(rest.subrange(0, j) =~= s.subrange(0, j));
        assert forall|k: int| j <= k < s.len() implies is_blank(#[trigger] s[k]) by {
            if k < rest.len() {
                assert(rest[k] == s[k]);
            }
        }
        j
    } else {
        assert(s.subrange(0, s.len() as int) =~= s);
        s.len() as int
    }
}

pub open spec fn says_something() -> spec_fn(String) -> bool {
    |s: String| trimmed(s@).len() > 0
}

pub open spec fn its_text() -> spec_fn(String) -> Seq<char> {
    |s: String| trimmed(s@)
}

/// The entries of a list in the configuration are those that are more than blanks, without the blanks
/// round them, in order.
pub proof fn law_blank_entries_do_not_count(raw: Seq<String>)
    ensures
        crate::startup::entries_of(raw) == raw.filter(says_something()).map_values(its_text()),
    decreases raw.len(),
{
    if raw.len() > 0 {
        law_blank_entries_do_not_count(raw.drop_last());
        lemma_filter_map_last(raw, says_something(), its_text());
    } else {
        lemma_filter_map_none(raw, says_something(), its_text());
    }
}

/// A node goes by the first of the texts offered that is more than blanks, without the blanks round
/// it; by none if there is no such text.
pub proof fn law_the_first_name_counts(texts: Seq<String>, i: int)
    ensures
        0 <= i < texts.len() && trimmed(texts[i]@).len() > 0 && (forall|j: int|
            0 <= j < i ==> trimmed((#[trigger] texts[j])@).len() == 0) ==> first_named(texts)
            == trimmed(texts[i]@),
        (forall|j: int| 0 <= j < texts.len() ==> trimmed((#[trigger] texts[j])@).len() == 0)
            ==> first_named(texts).len() == 0,
    decreases texts.len(),
{
    if texts.len() > 0 && trimmed(texts[0]@).len() == 0 {
        let rest = texts.drop_first();
        law_the_first_name_counts(rest, i - 1);
        assert(forall|j: int| 0 <= j < rest.len() ==> #[trigger] rest[j] == texts[j + 1]);
        if 0 < i < texts.len() {
            assert(rest[i - 1] == texts[i]);
        }
    }
}

// ---------------- paths ----------------
/// A path to something in a directory is the directory's, one separator unless it ends in one already
/// or is empty, and the name of the thing.
pub proof fn law_how_paths_are_joined(base: Seq<char>, part: Seq<char>)
    ensures
        base.is_prefix_of(path_join(base, part)),
        part.is_suffix_of(path_join(base, part)),
        base.len() > 0 && base.last() != '/' ==> path_join(base, part).len() == base.len() + 1
            + part.len() && path_join(base, part)[base.len() as int] == '/',
        base.len() == 0 || base.last() == '/' ==> path_join(base, part).len() == base.len()
            + part.len(),
{
    reveal_strlit("/");
    assert(base =~= path_join(base, part).subrange(0, base.len() as int));
    let p = path_join(base, part);
    assert(part =~= p.subrange(p.len() - part.len(), p.len() as int));
}

/// Where things are, for a data directory that is no bare root: a channel's log is `log` in the
/// directory of its name, a replica's the same below `.replicas`, and the discovery log `log` in
/// `.discovery`.
pub proof fn law_where_things_are(dir: Seq<char>, name: Seq<char>)
    requires
        dir.len() > 0,
        dir.last() != '/',
        crate::names::valid_name(name),
    ensures
        crate::names::channel_dir_of(dir, name) == dir + "/"@ + name,
        crate::names::channel_path_of(dir, name) == dir + "/"@ + name + "/"@ + "log"@,
        crate::names::replica_dir_of(dir, name) == dir + "/"@ + ".replicas"@ + "/"@ + name,
        crate::names::replica_path_of(dir, name) == dir + "/"@ + ".replicas"@ + "/"@ + name + "/"@
            + "log"@,
        crate::node::discovery::discovery_dir_of(dir) == dir + "/"@ + ".discovery"@,
        crate::node::discovery::discovery_path_of(dir) == dir + "/"@ + ".discovery"@ + "/"@ + "log"@,
{
    crate::names::law_a_name_is_one_plain_component(name);
    reveal_strlit("/");
    reveal_strlit(".replicas");
    reveal_strlit(".discovery");
    let a = dir + "/"@ + name;
    assert(a.last() == name.last());
    assert(name.contains(name.last()));
    let b = dir + "/"@ + ".replicas"@;
    assert(b.last() == 's');
    let c = b + "/"@ + name;
    assert(c.last() == name.last());
    let d = dir + "/"@ + ".discovery"@;
    assert(d.last() == 'y');
}

/// What is a channel name: one to forty-eight letters, digits, dots, underscores and hyphens, the first
/// of them no dot.
pub proof fn law_what_is_a_name(name: Seq<char>)
    ensures
        crate::names::valid_name(name) <==> {
            &&& 1 <= name.len() <= 48
            &&& name[0] != '.'
            &&& forall|i: int|
                0 <= i < name.len() ==> {
                    let c = #[trigger] name[i];
                    ('a' <= c && c <= 'z') || ('A' <= c && c <= 'Z') || ('0' <= c && c <= '9') || c
                        == '.' || c == '_' || c == '-'
                }
        },
{
    if crate::names::valid_name(name) {
        assert(forall|i: int|
            0 <= i < name.len() ==> crate::names::name_char(#[trigger] name[i]));
    }
}

// ---------------- identity files ----------------
/// The lines put together again, with a line end between each and the next.
pub open spec fn joined(list: Seq<Seq<char>>) -> Seq<char>
    decreases list.len(),
{
    if list.len() == 0 {
        Seq::empty()
    } else if list.len() == 1 {
        list[0]
    } else {
        joined(list.drop_last()).push('\n') + list.last()
    }
}

/// The lines of a text are what stands between its line ends: none holds one, and put together again
/// they are the text.
pub proof fn law_lines_are_what_line_ends_part(text: Seq<char>)
    ensures
        lines(text).len() > 0,
        joined(lines(text)) == text,
        forall|i: int| 0 <= i < lines(text).len() ==> !(#[trigger] lines(text)[i]).contains('\n'),
    decreases text.len(),
{
    let list = lines(text);
    if text.len() == 0 {
        assert(list.len() == 1);
        assert(joined(list) =~= text);
    } else {
        let front = text.drop_last();
        law_lines_are_what_line_ends_part(front);
        let rest = lines(front);
        assert(text =~= front.push(text.last()));
        if text.last() == '\n' {
            assert(list.drop_last() =~= rest);
            assert(list.last() =~= Seq::<char>::empty());
            assert(joined(list) =~= text);
            assert forall|i: int| 0 <= i < list.len() implies !(#[trigger] list[i]).contains('\n') by {
                if i < rest.len() {
                    assert(list[i] == rest[i]);
                }
            }
        } else {
            let last = rest.last().push(text.last());
            assert(list.len() == rest.len());
            assert(list.last() == last);
            assert(list.drop_last() =~= rest.drop_last());
            crate::broadcast::lemma_push_contains(rest.last(), text.last());
            if rest.len() == 1 {
                assert(rest.last() == rest[0]);
                assert(list[0] == last);
                assert(joined(list) =~= text);
            } else {
                assert(joined(list) =~= joined(rest).push(text.last()));
            }
            assert forall|i: int| 0 <= i < list.len() implies !(#[trigger] list[i]).contains('\n') by {
                if i < rest.len() - 1 {
                    assert(list[i] == rest[i]);
                } else {
                    assert(list[i] == last);
                    assert(rest[rest.len() - 1] == rest.last());
                    assert(!rest.last().contains('\n'));
                }
            }
        }
    }
}

/// A line is an entry exactly if it holds an equals sign: the key is what stands before the first one,
/// without blanks at the front, and the value what stands after it, without blanks round it.
pub proof fn law_what_an_entry_is(line: Seq<char>)
    ensures
        ({
            let s = trimmed(line);
            &&& entry_of(line) is Some <==> s.contains('=')
            &&& entry_of(line) is Some ==> {
                let (key, value) = entry_of(line)->0;
                &&& !key.contains('=')
                &&& key.len() < s.len()
                &&& s[key.len() as int] == '='
                &&& key == s.subrange(0, key.len() as int)
                &&& value == trimmed(s.subrange(key.len() as int + 1, s.len() as int))
            }
        }),
{
    let s = trimmed(line);
    if s.contains('=') {
        let n = choose|n: int| 0 <= n < s.len() && s[n] == '=';
        let k = lemma_first_sign(s, n);
        assert(splits_at(s, k));
    }
    if exists|k: int| splits_at(s, k) {
        let k = choose|k: int| splits_at(s, k);
        assert(s[k] == '=');
        let key = s.take(k);
        assert(key =~= s.subrange(0, k));
        assert(s.skip(k + 1) =~= s.subrange(k + 1, s.len() as int));
        assert(forall|j: int| 0 <= j < key.len() ==> #[trigger] key[j] == s[j]);
    }
}

proof fn lemma_first_sign(s: Seq<char>, n: int) -> (k: int)
    requires
        0 <= n < s.len(),
        s[n] == '=',
    ensures
        splits_at(s, k),
    decreases n,
{
    if exists|j: int| 0 <= j < n && #[trigger] s[j] == '=' {
        let j = choose|j: int| 0 <= j < n && #[trigger] s[j] == '=';
        lemma_first_sign(s, j)
    } else {
        n
    }
}

/// Of two lines with one key the later counts: after a line `id=` the id is what that line says, and
/// none if that is no number; after a line `created_at_ms=` the time is what it says, and zero if that
/// is no number; any other line changes nothing.
pub proof fn law_the_later_line_counts(list: Seq<Seq<char>>, line: Seq<char>)
    ensures
        after_lines(Seq::<Seq<char>>::empty()) == (None::<u64>, 0u64),
        ({
            let (was, is) = (after_lines(list), after_lines(list.push(line)));
            let e = entry_of(line);
            &&& e is Some && (e->0).0 == "id"@ ==> is.0 == number_of((e->0).1) && is.1 == was.1
            &&& e is Some && (e->0).0 == "created_at_ms"@ ==> is.0 == was.0 && (number_of(
                (e->0).1,
            ) is Some ==> is.1 == number_of((e->0).1)->0) && (number_of((e->0).1) is None ==> is.1
                == 0)
            &&& e is None ==> is == was
            &&& e is Some && (e->0).0 != "id"@ && (e->0).0 != "created_at_ms"@ ==> is == was
        }),
{
    reveal_strlit("id");
    reveal_strlit("created_at_ms");
    assert("id"@.len() != "created_at_ms"@.len());
    assert(list.push(line).drop_last() =~= list);
}

/// Who a node is. An id set by the operator is taken as it is and counts as not generated, whatever is
/// written down. Else the one written down is taken, and counts as generated; what is written down and
/// says no id is refused rather than replaced. Only where nothing is written down is there none yet.
pub proof fn law_who_a_node_is(
    data_dir: Seq<char>,
    configured: Option<u64>,
    stored: Option<Seq<char>>,
    name: String,
    r: Result<Resolved, NodeError>,
)
    requires
        settled(data_dir, configured, stored, name, r),
    ensures
        r is Err <==> configured is None && stored is Some && stored_identity(stored->0) is None,
        r is Ok && r->Ok_0 is Absent <==> configured is None && stored is None,
        configured is Some ==> {
            let who = r->Ok_0->Known_0;
            who.id.0 == configured->0 && !who.generated && who.created_at_ms == 0 && who.name == name
        },
        configured is None && stored is Some && r is Ok ==> {
            let who = r->Ok_0->Known_0;
            &&& who.generated
            &&& who.name == name
            &&& after_lines(lines(stored->0)).0 == Some(who.id.0)
            &&& after_lines(lines(stored->0)).1 == who.created_at_ms
        },
        r is Ok && r->Ok_0 is Absent ==> r->Ok_0->Absent_name == name,
{
}

// ---------------- settings ----------------
/// The settings that a node knows, by what follows `XCHANNELD_` in their names.
pub proof fn law_which_settings_are_known(s: Seq<char>)
    ensures
        crate::startup::known_key("XCHANNELD_"@ + s) <==> {
            ||| s == "NODE_ID"@
            ||| s == "NODE_NAME"@
            ||| s == "DATA_DIR"@
            ||| s == "CLIENT_PATH"@
            ||| s == "STREAM_ADDR"@
            ||| s == "CONTROL_ADDR"@
            ||| s == "ADVERTISE_STREAM_ADDR"@
            ||| s == "ADVERTISE_CONTROL_ADDR"@
            ||| s == "SEEDS"@
            ||| s == "RECLAIM_AFTER_MS"@
            ||| s == "PROMOTED_TOPICS"@
            ||| s == "MUX_MAX_PARK_US"@
            ||| s == "BIN"@
        },
{
    reveal_strlit("XCHANNELD_");
    reveal_strlit("NODE_ID");
    reveal_strlit("XCHANNELD_NODE_ID");
    assert("XCHANNELD_"@ + "NODE_ID"@ =~= "XCHANNELD_NODE_ID"@);
    lemma_same_front("XCHANNELD_"@, s, "NODE_ID"@);
    reveal_strlit("NODE_NAME");
    reveal_strlit("XCHANNELD_NODE_NAME");
    assert("XCHANNELD_"@ + "NODE_NAME"@ =~= "XCHANNELD_NODE_NAME"@);
    lemma_same_front("XCHANNELD_"@, s, "NODE_NAME"@);
    reveal_strlit("DATA_DIR");
    reveal_strlit("XCHANNELD_DATA_DIR");
    assert("XCHANNELD_"@ + "DATA_DIR"@ =~= "XCHANNELD_DATA_DIR"@);
    lemma_same_front("XCHANNELD_"@, s, "DATA_DIR"@);
    reveal_strlit("CLIENT_PATH");
    reveal_strlit("XCHANNELD_CLIENT_PATH");
    assert("XCHANNELD_"@ + "CLIENT_PATH"@ =~= "XCHANNELD_CLIENT_PATH"@);
    lemma_same_front("XCHANNELD_"@, s, "CLIENT_PATH"@);
    reveal_strlit("STREAM_ADDR");
    reveal_strlit("XCHANNELD_STREAM_ADDR");
    assert("XCHANNELD_"@ + "STREAM_ADDR"@ =~= "XCHANNELD_STREAM_ADDR"@);
    lemma_same_front("XCHANNELD_"@, s, "STREAM_ADDR"@);
    reveal_strlit("CONTROL_ADDR");
    reveal_strlit("XCHANNELD_CONTROL_ADDR");
    assert("XCHANNELD_"@ + "CONTROL_ADDR"@ =~= "XCHANNELD_CONTROL_ADDR"@);
    lemma_same_front("XCHANNELD_"@, s, "CONTROL_ADDR"@);
    reveal_strlit("ADVERTISE_STREAM_ADDR");
    reveal_strlit("XCHANNELD_ADVERTISE_STREAM_ADDR");
    assert("XCHANNELD_"@ + "ADVERTISE_STREAM_ADDR"@ =~= "XCHANNELD_ADVERTISE_STREAM_ADDR"@);
    lemma_same_front("XCHANNELD_"@, s, "ADVERTISE_STREAM_ADDR"@);
    reveal_strlit("ADVERTISE_CONTROL_ADDR");
    reveal_strlit("XCHANNELD_ADVERTISE_CONTROL_ADDR");
    assert("XCHANNELD_"@ + "ADVERTISE_CONTROL_ADDR"@ =~= "XCHANNELD_ADVERTISE_CONTROL_ADDR"@);
    lemma_same_front("XCHANNELD_"@, s, "ADVERTISE_CONTROL_ADDR"@);
    reveal_strlit("SEEDS");
    reveal_strlit("XCHANNELD_SEEDS");
    assert("XCHANNELD_"@ + "SEEDS"@ =~= "XCHANNELD_SEEDS"@);
    lemma_same_front("XCHANNELD_"@, s, "SEEDS"@);
    reveal_strlit("RECLAIM_AFTER_MS");
    reveal_strlit("XCHANNELD_RECLAIM_AFTER_MS");
    assert("XCHANNELD_"@ + "RECLAIM_AFTER_MS"@ =~= "XCHANNELD_RECLAIM_AFTER_MS"@);
    lemma_same_front("XCHANNELD_"@, s, "RECLAIM_AFTER_MS"@);
    reveal_strlit("PROMOTED_TOPICS");
    reveal_strlit("XCHANNELD_PROMOTED_TOPICS");
    assert("XCHANNELD_"@ + "PROMOTED_TOPICS"@ =~= "XCHANNELD_PROMOTED_TOPICS"@);
    lemma_same_front("XCHANNELD_"@, s, "PROMOTED_TOPICS"@);
    reveal_strlit("MUX_MAX_PARK_US");
    reveal_strlit("XCHANNELD_MUX_MAX_PARK_US");
    assert("XCHANNELD_"@ + "MUX_MAX_PARK_US"@ =~= "XCHANNELD_MUX_MAX_PARK_US"@);
    lemma_same_front("XCHANNELD_"@, s, "MUX_MAX_PARK_US"@);
    reveal_strlit("BIN");
    reveal_strlit("XCHANNELD_BIN");
    assert("XCHANNELD_"@ + "BIN"@ =~= "XCHANNELD_BIN"@);
    lemma_same_front("XCHANNELD_"@, s, "BIN"@);
}

proof fn lemma_same_front(front: Seq<char>, a: Seq<char>, b: Seq<char>)
    ensures
        front + a == front + b <==> a == b,
{
    if front + a == front + b {
        assert(a =~= (front + a).skip(front.len() as int));
        assert(b =~= (front + b).skip(front.len() as int));
    }
}

// ---------------- refusals ----------------
/// What a request is refused for can be told by the kind of the error, and its words begin with the
/// channel it is about and name the node that stands in the way.
pub proof fn law_what_refusals_say(name: Seq<char>, owner: NodeId, label: Seq<char>, gone: nat, required: nat)
    ensures
        ({
            let taken = crate::node::registration::name_taken(name, owner);
            let own = crate::node::registration::own_channel(name);
            let live = crate::node::registration::owner_is_live(name, label);
            let recent = crate::node::registration::gone_too_recently(name, owner, gone, required);
            let id = decimal_text(owner.0 as nat);
            &&& taken.0 == ErrorKind::AlreadyExists
            &&& own.0 == ErrorKind::InvalidInput
            &&& live.0 == ErrorKind::ResourceBusy
            &&& recent.0 == ErrorKind::ResourceBusy
            &&& crate::names::bad_name().0 == ErrorKind::InvalidInput
            &&& ("channel '"@ + name + "' already registered by node "@ + id).is_prefix_of(taken.1)
            &&& ("channel '"@ + name + "'"@).is_prefix_of(own.1)
            &&& ("owner of '"@ + name + "' (node "@ + label + ")"@).is_prefix_of(live.1)
            &&& ("owner of '"@ + name + "' (node "@ + id + ")"@).is_prefix_of(recent.1)
            &&& ("channel '"@ + name + "'"@).is_prefix_of(crate::node::client::not_read_here(name))
        }),
{
    reveal_strlit("'");
    reveal_strlit(")");
    reveal_strlit("' is owned by this node — use deregister");
    reveal_strlit("' is neither hosted nor subscribed here");
    reveal_strlit(") is a live member — it has not gone anywhere");
    reveal_strlit(") has been unreachable for ");
    let own = crate::node::registration::own_channel(name).1;
    let live = crate::node::registration::owner_is_live(name, label).1;
    let recent = crate::node::registration::gone_too_recently(name, owner, gone, required).1;
    let taken = crate::node::registration::name_taken(name, owner).1;
    let id = decimal_text(owner.0 as nat);
    let a = "channel '"@ + name + "'"@;
    assert(a =~= own.subrange(0, a.len() as int));
    let other = crate::node::client::not_read_here(name);
    assert(a =~= other.subrange(0, a.len() as int));
    let b = "owner of '"@ + name + "' (node "@ + label + ")"@;
    assert(b =~= live.subrange(0, b.len() as int));
    let c = "owner of '"@ + name + "' (node "@ + id + ")"@;
    assert(c =~= recent.subrange(0, c.len() as int));
    let d = "channel '"@ + name + "' already registered by node "@ + id;
    assert(d =~= taken.subrange(0, d.len() as int));
}

/// What was found on disk and is not what it should be is refused as bad data, with the path that it was
/// found at first.
pub proof fn law_bad_data_is_refused_as_such(path: Seq<char>, stamped: Seq<char>, expected: Seq<char>)
    ensures
        crate::node_identity::no_usable_id(path).0 == ErrorKind::InvalidData,
        crate::node::reconstruct::other_channel(path, stamped, expected).0 == ErrorKind::InvalidData,
        crate::text::quoted_path(path).is_prefix_of(crate::node_identity::no_usable_id(path).1),
        (crate::text::quoted_path(path) + " holds channel '"@ + stamped
            + "', but its directory says '"@ + expected).is_prefix_of(
            crate::node::reconstruct::other_channel(path, stamped, expected).1,
        ),
{
    let a = crate::node_identity::no_usable_id(path).1;
    let q = crate::text::quoted_path(path);
    assert(q =~= a.subrange(0, q.len() as int));
    let b = crate::node::reconstruct::other_channel(path, stamped, expected).1;
    let r = q + " holds channel '"@ + stamped + "', but its directory says '"@ + expected;
    assert(r =~= b.subrange(0, r.len() as int));
}

/// A span is told by its whole seconds and the nanoseconds that are left over.
pub proof fn law_how_a_span_is_told(secs: u64, nanos: u32)
    requires
        nanos < 1_000_000_000,
    ensures
        crate::node::registration::span_text((secs * 1_000_000_000 + nanos) as nat)
            == crate::time::duration_text(secs, nanos),
{
    let n = (secs * 1_000_000_000 + nanos) as nat;
    assert(n / 1_000_000_000 == secs && n % 1_000_000_000 == nanos);
}

/// A node is called by its label and its id, and one without a label by its id alone.
pub proof fn law_what_a_node_is_called(known: crate::membership::Acquaintances, node: NodeId)
    ensures
        ({
            let id = decimal_text(node.0 as nat);
            let text = crate::node::registration::label_text(known, node);
            let labelled = known.contains_key(node) && known[node].name.len() > 0;
            &&& labelled ==> text == known[node].name + " ("@ + id + ")"@
            &&& !labelled ==> text == id
        }),
{
}

} // verus!
