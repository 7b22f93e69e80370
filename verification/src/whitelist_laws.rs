//! What holds of every whitelist.

use crate::cidr::{canonicalization_is_idempotent, network_v4, network_v6};
use crate::ipv4::{v4_in, v4_text_reads_back, Ipv4Addr};
use crate::ipv6::{is_hex_char, lemma_v6_text_shape, v6_in, v6_text_reads_back, Ipv6Addr};
use crate::log::LogText;
use crate::numbers::{decimal, lemma_numeral, lemma_unsigned_of_decimal, unsigned};
use crate::parser::{
    cidr_text, content_of, entries_are_what_the_lines_say, first_error, has_entry,
    lemma_entries_are, line_notice, line_result, lists_v4, lists_v6, v4_entries, v6_entries,
    whitelist_log, whitelist_result, EntryText,
};
use crate::text::{
    before, lemma_find, lemma_lines_of_unlines, lemma_split_first, lemma_split_single, lemma_trim,
    lemma_trim_is_identity, lines, split_once, strip_cr, trim, unlines,
};
use vstd::prelude::*;

verus! {

/// The text of an entry.
pub open spec fn entry_text(entry: EntryText) -> Seq<char> {
    match entry {
        EntryText::V4(t) => t,
        EntryText::V6(t) => t,
    }
}

/// Whether the entry is an address, or a network of a fitting prefix without host bits.
pub open spec fn is_canonical(entry: EntryText) -> bool {
    match entry {
        EntryText::V4(t) => {
            ||| exists|ip: Ipv4Addr| t == #[trigger] ip.text()
            ||| exists|ip: Ipv4Addr, p: u8|
                #![trigger network_v4(ip, p)]
                p <= 32 && network_v4(ip, p) == ip && t == cidr_text(ip.text(), p as nat)
        },
        EntryText::V6(t) => {
            ||| exists|ip: Ipv6Addr| t == #[trigger] ip.text()
            ||| exists|ip: Ipv6Addr, p: u8|
                #![trigger network_v6(ip, p)]
                p <= 128 && network_v6(ip, p) == ip && t == cidr_text(ip.text(), p as nat)
        },
    }
}

/// Every entry is an address, or a network without host bits whose prefix fits
/// its family: nothing that `nft` would refuse for its form.
pub proof fn entries_are_canonical(raw: Seq<char>, strict: bool)
    ensures
        line_result(raw, strict) matches Ok(Some(entry)) ==> is_canonical(entry),
{
    let line = content_of(raw);
    if let Ok(Some(entry)) = line_result(raw, strict) {
        match split_once(line, '/') {
            Some((a, b)) => {
                let p = unsigned(trim(b), 255)->0 as u8;
                match v4_in(trim(a)) {
                    Some(ip) => {
                        let network = network_v4(ip, p);
                        canonicalization_is_idempotent(ip, Ipv6Addr { bits: 0 }, p);
                        assert(network_v4(network, p) == network);
                    },
                    None => {
                        let ip = v6_in(trim(a))->0;
                        let network = network_v6(ip, p);
                        canonicalization_is_idempotent(Ipv4Addr { bits: 0 }, ip, p);
                        assert(network_v6(network, p) == network);
                    },
                }
            },
            None => {
                if let Some(ip) = v4_in(line) {
                    assert(entry == EntryText::V4(ip.text()));
                }
            },
        }
    }
}

/// Whether the character can stand in an entry.
pub open spec fn is_entry_char(c: char) -> bool {
    is_hex_char(c) || c == ':' || c == '.' || c == '/'
}

/// Whether the text is made of characters that can stand in an entry.
pub open spec fn is_entry_like(s: Seq<char>) -> bool {
    s.len() > 0 && forall|i: int| 0 <= i < s.len() ==> is_entry_char(#[trigger] s[i])
}

/// Text made of the characters of entries is neither comment nor white space.
pub proof fn lemma_entry_like(s: Seq<char>)
    requires
        is_entry_like(s),
    ensures
        content_of(s) == s,
        trim(s) == s,
        !s.contains('\n'),
        strip_cr(s) == s,
{
    assert(is_entry_char(s[0]) && is_entry_char(s[s.len() - 1]));
    assert(!s.contains('#')) by {
        if s.contains('#') {
            let i = choose|i: int| 0 <= i < s.len() && s[i] == '#';
            assert(is_entry_char(s[i]));
        }
    }
    assert(!s.contains('\n')) by {
        if s.contains('\n') {
            let i = choose|i: int| 0 <= i < s.len() && s[i] == '\n';
            assert(is_entry_char(s[i]));
        }
    }
    lemma_split_single(s, '#');
    lemma_trim_is_identity(s);
}

/// What the text of an address is made of.
proof fn lemma_address_texts(v4: Ipv4Addr, v6: Ipv6Addr)
    ensures
        is_entry_like(v4.text()),
        !v4.text().contains('/'),
        is_entry_like(v6.text()),
        !v6.text().contains('/'),
{
    v4_text_reads_back(v4);
    lemma_v6_text_shape(v6);
    let s = v4.text();
    assert forall|i: int| 0 <= i < s.len() implies is_entry_char(#[trigger] s[i]) by {}
    let t = v6.text();
    assert forall|i: int| 0 <= i < t.len() implies is_entry_char(#[trigger] t[i]) by {}
}

/// What the text of a network is made of, and that it comes apart again.
proof fn lemma_cidr_text(address: Seq<char>, p: u8)
    requires
        is_entry_like(address),
        !address.contains('/'),
    ensures
        is_entry_like(cidr_text(address, p as nat)),
        split_once(cidr_text(address, p as nat), '/') == Some((address, decimal(p as nat))),
        trim(decimal(p as nat)) == decimal(p as nat),
        unsigned(decimal(p as nat), 255) == Some(p as nat),
{
    let digits = decimal(p as nat);
    let s = cidr_text(address, p as nat);
    reveal_strlit("/");
    assert("/"@ =~= seq!['/']);
    lemma_numeral(p as nat, 10);
    lemma_unsigned_of_decimal(p as nat, 255);
    lemma_split_first(address, '/', digits);
    assert forall|i: int| 0 <= i < digits.len() implies is_entry_char(#[trigger] digits[i]) by {}
    lemma_entry_like(digits);
    assert forall|i: int| 0 <= i < s.len() implies is_entry_char(#[trigger] s[i]) by {
        if i < address.len() {
            assert(s[i] == address[i]);
        } else if i > address.len() {
            assert(s[i] == digits[i - address.len() - 1]);
        }
    }
}

/// A canonical entry is read as itself, strictly or not, and without a notice.
proof fn lemma_canonical_reads_back(entry: EntryText, strict: bool)
    requires
        is_canonical(entry),
    ensures
        line_result(entry_text(entry), strict) == Ok::<_, Seq<char>>(Some(entry)),
        line_notice(entry_text(entry), strict) is None,
        is_entry_like(entry_text(entry)),
{
    let text = entry_text(entry);
    match entry {
        EntryText::V4(t) => {
            if exists|ip: Ipv4Addr| t == #[trigger] ip.text() {
                let ip = choose|ip: Ipv4Addr| t == #[trigger] ip.text();
                lemma_address_texts(ip, Ipv6Addr { bits: 0 });
                v4_text_reads_back(ip);
                lemma_entry_like(t);
                lemma_split_single(t, '/');
            } else {
                let (ip, p) = choose|ip: Ipv4Addr, p: u8|
                    #![trigger network_v4(ip, p)]
                    p <= 32 && network_v4(ip, p) == ip && t == cidr_text(ip.text(), p as nat);
                lemma_address_texts(ip, Ipv6Addr { bits: 0 });
                v4_text_reads_back(ip);
                lemma_cidr_text(ip.text(), p);
                lemma_entry_like(ip.text());
                lemma_entry_like(t);
            }
        },
        EntryText::V6(t) => {
            if exists|ip: Ipv6Addr| t == #[trigger] ip.text() {
                let ip = choose|ip: Ipv6Addr| t == #[trigger] ip.text();
                lemma_address_texts(Ipv4Addr { bits: 0 }, ip);
                v6_text_reads_back(ip);
                lemma_entry_like(t);
                lemma_split_single(t, '/');
            } else {
                let (ip, p) = choose|ip: Ipv6Addr, p: u8|
                    #![trigger network_v6(ip, p)]
                    p <= 128 && network_v6(ip, p) == ip && t == cidr_text(ip.text(), p as nat);
                lemma_address_texts(Ipv4Addr { bits: 0 }, ip);
                v6_text_reads_back(ip);
                lemma_cidr_text(ip.text(), p);
                lemma_entry_like(ip.text());
                lemma_entry_like(t);
            }
        },
    }
}

/// Reading the text of an entry gives the entry, even strictly, and says
/// nothing to the operator: canonicalization has nothing more to do.
pub proof fn an_entry_reads_back(raw: Seq<char>, strict: bool, strict_again: bool)
    ensures
        line_result(raw, strict) matches Ok(Some(entry)) ==> {
            &&& line_result(entry_text(entry), strict_again) == Ok::<_, Seq<char>>(Some(entry))
            &&& line_notice(entry_text(entry), strict_again) is None
        },
{
    entries_are_canonical(raw, strict);
    if let Ok(Some(entry)) = line_result(raw, strict) {
        lemma_canonical_reads_back(entry, strict_again);
    }
}

/// Neither a comment nor white space at the ends changes what a line says.
pub proof fn comments_and_margins_do_not_matter(raw: Seq<char>, strict: bool)
    ensures
        line_result(content_of(raw), strict) == line_result(raw, strict),
        line_notice(content_of(raw), strict) == line_notice(raw, strict),
{
    let body = before(raw, '#');
    let line = trim(body);
    lemma_find(raw, '#');
    lemma_trim(body);
    assert(!line.contains('#')) by {
        if line.contains('#') {
            let i = choose|i: int| 0 <= i < body.len() && body[i] == '#';
            assert(raw[i] != '#');
        }
    }
    lemma_split_single(line, '#');
    lemma_trim_is_identity(line);
}

/// What a line says strictly, it says also otherwise, without a notice.
proof fn lemma_strict_line(raw: Seq<char>)
    ensures
        line_result(raw, true) is Ok ==> {
            &&& line_result(raw, false) == line_result(raw, true)
            &&& line_notice(raw, false) is None
        },
{
}

/// A reading that is not strict never fails.
pub proof fn a_lenient_reading_succeeds(content: Seq<char>)
    ensures
        whitelist_result(content, false) is Ok,
{
}

/// `first_error` gives the first line in error.
pub proof fn lemma_first_error(ls: Seq<Seq<char>>)
    ensures
        0 <= first_error(ls) <= ls.len(),
        first_error(ls) < ls.len() ==> line_result(ls[first_error(ls)], true) is Err,
        forall|i: int| 0 <= i < first_error(ls) ==> line_result(#[trigger] ls[i], true) is Ok,
    decreases ls.len(),
{
    if ls.len() > 0 && line_result(ls[0], true) is Ok {
        let rest = ls.skip(1);
        lemma_first_error(rest);
        assert forall|i: int| 0 <= i < first_error(ls) implies line_result(
            #[trigger] ls[i],
            true,
        ) is Ok by {
            if i > 0 {
                assert(ls[i] == rest[i - 1]);
            }
        }
        if first_error(ls) < ls.len() {
            assert(ls[first_error(ls)] == rest[first_error(rest)]);
        }
    }
}

/// A strict reading succeeds if and only if every line is in order, and then
/// gives what a reading that is not strict gives without a word.
pub proof fn a_strict_reading_accepts_what_is_in_order(content: Seq<char>)
    ensures
        whitelist_result(content, true) is Ok <==> forall|i: int|
            0 <= i < lines(content).len() ==> line_result(#[trigger] lines(content)[i], true) is Ok,
        whitelist_result(content, true) is Ok ==> {
            &&& whitelist_result(content, false) == whitelist_result(content, true)
            &&& whitelist_log(lines(content)) == Seq::<LogText>::empty()
        },
{
    let ls = lines(content);
    lemma_first_error(ls);
    if whitelist_result(content, true) is Ok {
        assert forall|i: int| 0 <= i < ls.len() implies {
            &&& line_result(#[trigger] ls[i], false) == line_result(ls[i], true)
            &&& line_notice(ls[i], false) is None
            &&& line_result(ls[i], false) is Ok
        } by {
            assert(line_result(ls[i], true) is Ok);
            lemma_strict_line(ls[i]);
        }
        lemma_no_log(ls);
        assert forall|e: EntryText| #[trigger] has_entry(ls, true, e) <==> has_entry(
            ls,
            false,
            e,
        ) by {}
        entries_are_what_the_lines_say(ls, true);
        assert(lists_v4(v4_entries(ls, true), ls, false));
        assert(lists_v6(v6_entries(ls, true), ls, false));
        lemma_entries_are(v4_entries(ls, true), v6_entries(ls, true), ls, false);
    }
}

/// Lines in order give rise to no word.
proof fn lemma_no_log(ls: Seq<Seq<char>>)
    requires
        forall|i: int|
            0 <= i < ls.len() ==> line_result(#[trigger] ls[i], false) is Ok && line_notice(
                ls[i],
                false,
            ) is None,
    ensures
        whitelist_log(ls) == Seq::<LogText>::empty(),
    decreases ls.len(),
{
    if ls.len() > 0 {
        let front = ls.drop_last();
        assert forall|i: int| 0 <= i < front.len() implies line_result(
            #[trigger] front[i],
            false,
        ) is Ok && line_notice(front[i], false) is None by {
            assert(front[i] == ls[i]);
        }
        lemma_no_log(front);
        assert(ls.last() == ls[ls.len() - 1]);
        assert(whitelist_log(ls) =~= Seq::empty());
    }
}

/// Neither the order of the lines nor how often one occurs matters.
pub proof fn only_the_set_of_lines_matters(a: Seq<Seq<char>>, b: Seq<Seq<char>>, strict: bool)
    requires
        forall|l: Seq<char>| #[trigger] a.contains(l) <==> b.contains(l),
    ensures
        v4_entries(a, strict) == v4_entries(b, strict),
        v6_entries(a, strict) == v6_entries(b, strict),
        first_error(a) < a.len() <==> first_error(b) < b.len(),
{
    assert forall|e: EntryText| #[trigger] has_entry(a, strict, e) <==> has_entry(b, strict, e) by {
        lemma_has_entry(a, b, strict, e);
        lemma_has_entry(b, a, strict, e);
    }
    entries_are_what_the_lines_say(a, strict);
    assert(lists_v4(v4_entries(a, strict), b, strict));
    assert(lists_v6(v6_entries(a, strict), b, strict));
    lemma_entries_are(v4_entries(a, strict), v6_entries(a, strict), b, strict);
    lemma_error_anywhere(a, b);
    lemma_error_anywhere(b, a);
}

/// More lines say no less.
proof fn lemma_has_entry(a: Seq<Seq<char>>, b: Seq<Seq<char>>, strict: bool, e: EntryText)
    requires
        forall|l: Seq<char>| #[trigger] a.contains(l) ==> b.contains(l),
    ensures
        has_entry(a, strict, e) ==> has_entry(b, strict, e),
{
    if has_entry(a, strict, e) {
        let i = choose|i: int|
            0 <= i < a.len() && line_result(#[trigger] a[i], strict) == Ok::<_, Seq<char>>(Some(e));
        assert(a.contains(a[i]));
        let j = choose|j: int| 0 <= j < b.len() && b[j] == a[i];
        assert(line_result(b[j], strict) == Ok::<_, Seq<char>>(Some(e)));
    }
}

/// More lines are no less in error.
proof fn lemma_error_anywhere(a: Seq<Seq<char>>, b: Seq<Seq<char>>)
    requires
        forall|l: Seq<char>| #[trigger] a.contains(l) ==> b.contains(l),
    ensures
        first_error(a) < a.len() ==> first_error(b) < b.len(),
{
    lemma_first_error(a);
    lemma_first_error(b);
    if first_error(a) < a.len() {
        let l = a[first_error(a)];
        assert(a.contains(l));
        let j = choose|j: int| 0 <= j < b.len() && b[j] == l;
        assert(line_result(b[j], true) is Err);
    }
}

/// Writing the entries of a whitelist out, one in a line, and reading that
/// gives the same entries, strictly or not.
pub proof fn a_whitelist_reads_back(content: Seq<char>, strict: bool, strict_again: bool)
    ensures
        whitelist_result(content, strict) matches Ok(entries) ==> whitelist_result(
            unlines(entries.v4 + entries.v6),
            strict_again,
        ) == Ok::<_, Seq<char>>(entries),
{
    let ls = lines(content);
    if let Ok(entries) = whitelist_result(content, strict) {
        let v4 = entries.v4;
        let v6 = entries.v6;
        let out = v4 + v6;
        entries_are_what_the_lines_say(ls, strict);
        assert forall|i: int| 0 <= i < out.len() implies {
            &&& line_result(#[trigger] out[i], strict_again) == Ok::<_, Seq<char>>(
                Some(
                    if i < v4.len() {
                        EntryText::V4(out[i])
                    } else {
                        EntryText::V6(out[i])
                    },
                ),
            )
            &&& line_result(out[i], true) is Ok
            &&& !out[i].contains('\n')
            &&& strip_cr(out[i]) == out[i]
        } by {
            let entry = if i < v4.len() {
                assert(v4.contains(v4[i]));
                EntryText::V4(out[i])
            } else {
                assert(v6.contains(v6[i - v4.len()]));
                EntryText::V6(out[i])
            };
            assert(has_entry(ls, strict, entry));
            let k = choose|k: int|
                0 <= k < ls.len() && line_result(#[trigger] ls[k], strict) == Ok::<_, Seq<char>>(
                    Some(entry),
                );
            entries_are_canonical(ls[k], strict);
            lemma_canonical_reads_back(entry, strict_again);
            lemma_canonical_reads_back(entry, true);
            lemma_entry_like(out[i]);
        }
        lemma_lines_of_unlines(out);
        lemma_first_error(out);
        assert forall|t: Seq<char>| #[trigger] v4.contains(t) <==> has_entry(
            out,
            strict_again,
            EntryText::V4(t),
        ) by {
            if v4.contains(t) {
                let i = choose|i: int| 0 <= i < v4.len() && v4[i] == t;
                assert(out[i] == t);
            }
            if has_entry(out, strict_again, EntryText::V4(t)) {
                let i = choose|i: int|
                    0 <= i < out.len() && line_result(#[trigger] out[i], strict_again) == Ok::<
                        _,
                        Seq<char>,
                    >(Some(EntryText::V4(t)));
                assert(v4[i] == t);
            }
        }
        assert forall|t: Seq<char>| #[trigger] v6.contains(t) <==> has_entry(
            out,
            strict_again,
            EntryText::V6(t),
        ) by {
            if v6.contains(t) {
                let i = choose|i: int| 0 <= i < v6.len() && v6[i] == t;
                assert(out[i + v4.len()] == t);
            }
            if has_entry(out, strict_again, EntryText::V6(t)) {
                let i = choose|i: int|
                    0 <= i < out.len() && line_result(#[trigger] out[i], strict_again) == Ok::<
                        _,
                        Seq<char>,
                    >(Some(EntryText::V6(t)));
                assert(v6[i - v4.len()] == t);
            }
        }
        assert(lists_v4(v4, out, strict_again));
        assert(lists_v6(v6, out, strict_again));
        lemma_entries_are(v4, v6, out, strict_again);
    }
}

} // verus!
