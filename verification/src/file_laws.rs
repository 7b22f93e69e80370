//! What every whitelist file means.

use crate::line_laws::margins_and_comments_are_ignored;
use crate::log::LogText;
use crate::numbers::decimal;
use crate::order::{bytes_less, less};
use crate::parser::{
    entries_are_what_the_lines_say, first_error, has_entry, line_notice, line_result, v4_entries,
    v6_entries, whitelist_log, whitelist_result, EntryText, EntryTexts,
};
use crate::text::{
    all_white, find, lemma_find, lemma_lines_first, lemma_lines_joined, lemma_lines_single, lines,
    strip_cr,
};
use crate::whitelist_laws::lemma_first_error;
use vstd::prelude::*;
use vstd::utf8::encode_utf8;

verus! {

/// Whether the first text stands before the second: where they first differ
/// its byte is smaller, or it ends there.
pub open spec fn precedes(a: Seq<char>, b: Seq<char>) -> bool {
    exists|k: int| differs_at(encode_utf8(a), encode_utf8(b), k)
}

/// Whether the bytes agree up to `k`, and the first is smaller or ends there.
pub open spec fn differs_at(x: Seq<u8>, y: Seq<u8>, k: int) -> bool {
    &&& 0 <= k <= x.len()
    &&& k < y.len()
    &&& forall|i: int| 0 <= i < k ==> x[i] == y[i]
    &&& k == x.len() || x[k] < y[k]
}

/// The order of strings decides at the first difference.
proof fn lemma_bytes_less(x: Seq<u8>, y: Seq<u8>)
    requires
        bytes_less(x, y),
    ensures
        exists|k: int| differs_at(x, y, k),
    decreases x.len(),
{
    if x.len() > 0 && y.len() > 0 && x[0] == y[0] {
        let u = x.skip(1);
        let v = y.skip(1);
        lemma_bytes_less(u, v);
        let k = choose|k: int| differs_at(u, v, k);
        assert forall|i: int| 0 <= i < k + 1 implies x[i] == y[i] by {
            if i > 0 {
                assert(u[i - 1] == x[i] && v[i - 1] == y[i]);
            }
        }
        if k < u.len() {
            assert(u[k] == x[k + 1] && v[k] == y[k + 1]);
        }
        assert(differs_at(x, y, k + 1));
    } else {
        assert(differs_at(x, y, 0));
    }
}

/// Of what one or other of two lists of lines says, both together say all.
proof fn lemma_has_entry_concat(a: Seq<Seq<char>>, b: Seq<Seq<char>>, strict: bool, e: EntryText)
    ensures
        has_entry(a + b, strict, e) <==> has_entry(a, strict, e) || has_entry(b, strict, e),
{
    let ab = a + b;
    if has_entry(ab, strict, e) {
        let i = choose|i: int|
            0 <= i < ab.len() && line_result(#[trigger] ab[i], strict) == Ok::<_, Seq<char>>(Some(e));
        if i < a.len() {
            assert(a[i] == ab[i]);
        } else {
            assert(b[i - a.len()] == ab[i]);
        }
    }
    if has_entry(a, strict, e) {
        let i = choose|i: int|
            0 <= i < a.len() && line_result(#[trigger] a[i], strict) == Ok::<_, Seq<char>>(Some(e));
        assert(ab[i] == a[i]);
    }
    if has_entry(b, strict, e) {
        let i = choose|i: int|
            0 <= i < b.len() && line_result(#[trigger] b[i], strict) == Ok::<_, Seq<char>>(Some(e));
        assert(ab[i + a.len()] == b[i]);
    }
}

/// A single line says what it says.
proof fn lemma_has_entry_single(l: Seq<char>, strict: bool, e: EntryText)
    ensures
        has_entry(seq![l], strict, e) <==> line_result(l, strict) == Ok::<_, Seq<char>>(Some(e)),
{
    let ls = seq![l];
    assert(ls[0] == l);
}

/// A carriage return at the end of a line changes nothing.
proof fn lemma_strip_cr(l: Seq<char>, strict: bool)
    ensures
        line_result(strip_cr(l), strict) == line_result(l, strict),
        line_result(Seq::<char>::empty(), strict) == Ok::<Option<EntryText>, Seq<char>>(None),
{
    let none = Seq::<char>::empty();
    crate::line_laws::a_line_gives_its_address(none, strict);
    if l.len() > 0 && l.last() == '\r' {
        let cr = seq!['\r'];
        assert(all_white(cr));
        margins_and_comments_are_ignored(none, strip_cr(l), cr, none, strict);
        assert(none + strip_cr(l) + cr =~= l);
    }
}

/// A line feed at the end of a file changes nothing of what it says.
proof fn lemma_closing_line_feed(a: Seq<char>, strict: bool, e: EntryText)
    ensures
        has_entry(lines(a + seq!['\n']), strict, e) <==> has_entry(lines(a), strict, e),
    decreases a.len(),
{
    let none = Seq::<char>::empty();
    let no_lines = Seq::<Seq<char>>::empty();
    let closed = a + seq!['\n'];
    lemma_find(a, '\n');
    let k = find(a, '\n');
    if k < a.len() {
        let front = a.take(k);
        let rest = a.skip(k + 1);
        assert(!front.contains('\n'));
        assert(a =~= front + seq!['\n'] + rest);
        assert(closed =~= front + seq!['\n'] + (rest + seq!['\n']));
        lemma_lines_first(front, rest);
        lemma_lines_first(front, rest + seq!['\n']);
        lemma_closing_line_feed(rest, strict, e);
        lemma_has_entry_concat(seq![strip_cr(front)], lines(rest), strict, e);
        lemma_has_entry_concat(seq![strip_cr(front)], lines(rest + seq!['\n']), strict, e);
    } else {
        assert(!a.contains('\n'));
        lemma_lines_first(a, none);
        assert(closed =~= a + seq!['\n'] + none);
        lemma_lines_single(a);
        assert(lines(none) =~= no_lines);
        assert(seq![strip_cr(a)] + no_lines =~= seq![strip_cr(a)]);
        lemma_strip_cr(a, strict);
        lemma_has_entry_single(strip_cr(a), strict, e);
        lemma_has_entry_single(a, strict, e);
        if a.len() == 0 {
            assert(strip_cr(a) =~= none);
            assert(!has_entry(no_lines, strict, e));
        }
    }
}

/// What two files say together is what either says: no entry is lost at the
/// seam, and none is made up.
pub proof fn files_add_up(a: Seq<char>, b: Seq<char>, t: Seq<char>)
    ensures
        ({
            let first = whitelist_result(a, false)->Ok_0;
            let second = whitelist_result(b, false)->Ok_0;
            let both = whitelist_result(a + "\n"@ + b, false)->Ok_0;
            &&& both.v4.contains(t) <==> first.v4.contains(t) || second.v4.contains(t)
            &&& both.v6.contains(t) <==> first.v6.contains(t) || second.v6.contains(t)
        }),
{
    reveal_strlit("\n");
    assert("\n"@ =~= seq!['\n']);
    let whole = a + "\n"@ + b;
    lemma_lines_joined(a, b);
    entries_are_what_the_lines_say(lines(a), false);
    entries_are_what_the_lines_say(lines(b), false);
    entries_are_what_the_lines_say(lines(whole), false);
    lemma_closing_line_feed(a, false, EntryText::V4(t));
    lemma_closing_line_feed(a, false, EntryText::V6(t));
    lemma_has_entry_concat(lines(a + seq!['\n']), lines(b), false, EntryText::V4(t));
    lemma_has_entry_concat(lines(a + seq!['\n']), lines(b), false, EntryText::V6(t));
    assert(lines(whole) == lines(a + seq!['\n']) + lines(b));
    assert(v4_entries(lines(whole), false).contains(t) <==> has_entry(
        lines(whole),
        false,
        EntryText::V4(t),
    ));
    assert(v4_entries(lines(a), false).contains(t) <==> has_entry(
        lines(a),
        false,
        EntryText::V4(t),
    ));
    assert(v4_entries(lines(b), false).contains(t) <==> has_entry(
        lines(b),
        false,
        EntryText::V4(t),
    ));
    assert(v6_entries(lines(whole), false).contains(t) <==> has_entry(
        lines(whole),
        false,
        EntryText::V6(t),
    ));
    assert(v6_entries(lines(a), false).contains(t) <==> has_entry(
        lines(a),
        false,
        EntryText::V6(t),
    ));
    assert(v6_entries(lines(b), false).contains(t) <==> has_entry(
        lines(b),
        false,
        EntryText::V6(t),
    ));
}

/// A file of a single line says what the line says.
pub proof fn a_file_says_what_its_line_says(s: Seq<char>, t: Seq<char>)
    requires
        !s.contains('\n'),
    ensures
        ({
            let entries = whitelist_result(s, false)->Ok_0;
            &&& whitelist_result(s, false) is Ok
            &&& entries.v4.contains(t) <==> line_result(s, false) == Ok::<_, Seq<char>>(
                Some(EntryText::V4(t)),
            )
            &&& entries.v6.contains(t) <==> line_result(s, false) == Ok::<_, Seq<char>>(
                Some(EntryText::V6(t)),
            )
        }),
{
    lemma_lines_single(s);
    lemma_strip_cr(s, false);
    entries_are_what_the_lines_say(lines(s), false);
    lemma_has_entry_single(s, false, EntryText::V4(t));
    lemma_has_entry_single(s, false, EntryText::V6(t));
    assert(v4_entries(lines(s), false).contains(t) <==> has_entry(
        lines(s),
        false,
        EntryText::V4(t),
    ));
    assert(v6_entries(lines(s), false).contains(t) <==> has_entry(
        lines(s),
        false,
        EntryText::V6(t),
    ));
    if s.len() == 0 {
        assert(s =~= Seq::<char>::empty());
        assert(!has_entry(lines(s), false, EntryText::V4(t)));
        assert(!has_entry(lines(s), false, EntryText::V6(t)));
    }
}

/// The entries of each family stand in the order of their bytes, none twice.
pub proof fn entries_are_in_order(content: Seq<char>, strict: bool, i: int, j: int)
    ensures
        whitelist_result(content, strict) matches Ok(entries) ==> {
            &&& 0 <= i < j < entries.v4.len() ==> precedes(entries.v4[i], entries.v4[j])
            &&& 0 <= i < j < entries.v6.len() ==> precedes(entries.v6[i], entries.v6[j])
        },
{
    let ls = lines(content);
    entries_are_what_the_lines_say(ls, strict);
    let v4 = v4_entries(ls, strict);
    let v6 = v6_entries(ls, strict);
    if 0 <= i < j < v4.len() {
        assert(less(v4[i], v4[j]));
        lemma_bytes_less(encode_utf8(v4[i]), encode_utf8(v4[j]));
    }
    if 0 <= i < j < v6.len() {
        assert(less(v6[i], v6[j]));
        lemma_bytes_less(encode_utf8(v6[i]), encode_utf8(v6[j]));
    }
}

/// The lines of a file end at its line feeds, and a carriage return before
/// one does not count.
pub proof fn lines_end_at_line_feeds(line: Seq<char>, rest: Seq<char>)
    requires
        !line.contains('\n'),
    ensures
        lines(line + "\n"@ + rest) == seq![
            if line.len() > 0 && line.last() == '\r' {
                line.drop_last()
            } else {
                line
            },
        ] + lines(rest),
        lines(line) == (if line.len() == 0 {
            Seq::empty()
        } else {
            seq![line]
        }),
{
    reveal_strlit("\n");
    assert("\n"@ =~= seq!['\n']);
    lemma_lines_first(line, rest);
    lemma_lines_single(line);
}

/// A strict reading fails with the first line in error, and names it.
pub proof fn a_strict_reading_names_the_first_error(content: Seq<char>, k: int, e: Seq<char>)
    requires
        0 <= k < lines(content).len(),
        forall|i: int| 0 <= i < k ==> line_result(#[trigger] lines(content)[i], true) is Ok,
        line_result(lines(content)[k], true) == Err::<Option<EntryText>, _>(e),
    ensures
        whitelist_result(content, true) == Err::<EntryTexts, _>(
            "Line "@ + decimal((k + 1) as nat) + ": "@ + e,
        ),
{
    let ls = lines(content);
    lemma_first_error(ls);
    if first_error(ls) < k {
        assert(line_result(ls[first_error(ls)], true) is Ok);
    }
    if first_error(ls) > k {
        assert(line_result(ls[k], true) is Ok);
    }
}

/// A reading that is not strict tells the operator about each line in turn:
/// about a network that it cut to its prefix, about an error with its number,
/// and nothing else.
pub proof fn each_line_is_told_about(ls: Seq<Seq<char>>, l: Seq<char>)
    ensures
        whitelist_log(Seq::empty()) == Seq::<LogText>::empty(),
        whitelist_log(ls.push(l)) == whitelist_log(ls) + (match (
            line_notice(l, false),
            line_result(l, false),
        ) {
            (Some(notice), _) => seq![LogText::Stderr(notice)],
            (None, Err(e)) => seq![
                LogText::Stderr(
                    "[Gateway] Warning: Ignored invalid whitelist entry: "@ + ("Line "@ + decimal(
                        ls.len() + 1,
                    ) + ": "@ + e),
                ),
            ],
            (None, Ok(_)) => Seq::empty(),
        }),
{
    assert(ls.push(l).drop_last() =~= ls);
}

} // verus!
