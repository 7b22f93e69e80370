//! What every resolver configuration means.

use crate::addr::{ip_in, IpAddr};
use crate::ipv4::v4_in;
use crate::ipv6::v6_in;
use crate::line_laws::lemma_v6_is_not_v4;
use crate::resolv::{
    directive_of, first_nameservers, first_v4, first_v6, nameserver_in, nameservers_in,
};
use crate::text::{
    all_white, before, find, is_white, lemma_before, lemma_find, lemma_first_word,
    lemma_lines_first, lemma_lines_joined, lemma_lines_single, lemma_no_words, lemma_split_single,
    lemma_trim_before, lemma_trim_margins, lemma_trim_parts, lemma_white_has_not,
    lemma_words_margins, lines, strip_cr, trim, words,
};
use vstd::prelude::*;

verus! {

/// A text that is an address of one family is read as that address.
pub proof fn addresses_are_those_of_their_family(s: Seq<char>)
    ensures
        v4_in(s) matches Some(ip) ==> ip_in(s) == Some(IpAddr::V4(ip)),
        v6_in(s) matches Some(ip) ==> ip_in(s) == Some(IpAddr::V6(ip)),
        v4_in(s) is None && v6_in(s) is None ==> ip_in(s) is None,
{
    if v6_in(s) is Some {
        lemma_v6_is_not_v4(s);
    }
}

/// What is left of a line when its comments and margins are gone.
proof fn lemma_directive(raw: Seq<char>)
    ensures
        directive_of(raw) == trim(before(before(raw, '#'), ';')),
        words(directive_of(raw)) == words(before(before(raw, '#'), ';')),
{
    lemma_trim_before(before(raw, '#'), ';');
    let body = before(before(raw, '#'), ';');
    let (m, n) = lemma_trim_parts(body);
    lemma_words_margins(m, trim(body), n);
}

/// White space around a line, and a comment of either kind behind it, change
/// nothing of what it declares.
pub proof fn resolver_comments_are_ignored(
    m: Seq<char>,
    s: Seq<char>,
    n: Seq<char>,
    comment: Seq<char>,
)
    requires
        all_white(m),
        all_white(n),
    ensures
        nameserver_in(m + s + n) == nameserver_in(s),
        nameserver_in(s + "#"@ + comment) == nameserver_in(s),
        nameserver_in(s + ";"@ + comment) == nameserver_in(s),
{
    reveal_strlit("#");
    reveal_strlit(";");
    assert("#"@ =~= seq!['#']);
    assert(";"@ =~= seq![';']);
    let none = Seq::<char>::empty();
    lemma_directive(s);
    // A comment behind a number sign.
    lemma_directive(s + seq!['#'] + comment);
    lemma_before(s, '#', comment);
    // A comment behind a semicolon.
    lemma_directive(s + seq![';'] + comment);
    let tail = seq![';'] + comment;
    assert(s + seq![';'] + comment =~= s + tail);
    lemma_before(s, '#', tail);
    assert(!seq![';'].contains('#'));
    lemma_before(seq![';'], '#', comment);
    let cut = before(comment, '#');
    if !s.contains('#') {
        lemma_split_single(s, '#');
        assert(s + before(tail, '#') =~= s + seq![';'] + cut);
        lemma_before(s, ';', cut);
    }
    // Margins.
    lemma_directive(m + s + n);
    lemma_white_has_not(m, '#');
    lemma_white_has_not(n, '#');
    lemma_white_has_not(m, ';');
    lemma_white_has_not(n, ';');
    assert(m + s + n =~= m + (s + n));
    lemma_before(m, '#', s + n);
    lemma_before(s, '#', n);
    if s.contains('#') {
        let b = before(s, '#');
        lemma_before(m, ';', b);
        lemma_trim_margins(m, before(b, ';'), none);
        assert(m + before(b, ';') + none =~= m + before(b, ';'));
    } else {
        lemma_split_single(s, '#');
        lemma_split_single(n, '#');
        lemma_before(m, ';', s + n);
        lemma_before(s, ';', n);
        if s.contains(';') {
            lemma_trim_margins(m, before(s, ';'), none);
            assert(m + before(s, ';') + none =~= m + before(s, ';'));
        } else {
            lemma_split_single(n, ';');
            lemma_split_single(s, ';');
            lemma_trim_margins(m, s, n);
        }
    }
    assert(directive_of(m + s + n) == directive_of(s));
}

/// Whether the text is a word: without white space, and without a comment.
pub open spec fn is_word(w: Seq<char>) -> bool {
    &&& w.len() > 0
    &&& forall|i: int|
        0 <= i < w.len() ==> !is_white(#[trigger] w[i]) && w[i] != '#' && w[i] != ';'
}

/// Whether the text can follow a word: nothing, or white space and then
/// anything but a comment.
pub open spec fn follows_a_word(rest: Seq<char>) -> bool {
    &&& rest.len() == 0 || is_white(rest[0])
    &&& !rest.contains('#')
    &&& !rest.contains(';')
}

/// A line without comments is its own directive.
proof fn lemma_uncommented(s: Seq<char>)
    requires
        !s.contains('#'),
        !s.contains(';'),
    ensures
        words(directive_of(s)) == words(s),
{
    lemma_directive(s);
    lemma_split_single(s, '#');
    lemma_split_single(s, ';');
}

/// A word and what can follow it hold no comment.
proof fn lemma_word_then(w: Seq<char>, rest: Seq<char>)
    requires
        is_word(w),
        !rest.contains('#'),
        !rest.contains(';'),
    ensures
        !(w + rest).contains('#'),
        !(w + rest).contains(';'),
{
    let s = w + rest;
    if s.contains('#') {
        let i = choose|i: int| 0 <= i < s.len() && s[i] == '#';
        if i < w.len() {
            assert(w[i] == '#');
        } else {
            assert(rest[i - w.len()] == '#');
        }
    }
    if s.contains(';') {
        let i = choose|i: int| 0 <= i < s.len() && s[i] == ';';
        if i < w.len() {
            assert(w[i] == ';');
        } else {
            assert(rest[i - w.len()] == ';');
        }
    }
}

/// A line whose first word is `nameserver` declares the address that its
/// second word is, whatever follows; any other line declares nothing.
pub proof fn a_line_declares_its_second_word(
    w: Seq<char>,
    gap: Seq<char>,
    server: Seq<char>,
    rest: Seq<char>,
)
    requires
        is_word(w),
        is_word(server),
        gap.len() > 0,
        all_white(gap),
        follows_a_word(rest),
    ensures
        nameserver_in(w + gap + server + rest) == (if w == "nameserver"@ {
            ip_in(server)
        } else {
            None
        }),
        nameserver_in(w + gap) is None,
        nameserver_in(w) is None,
        nameserver_in(gap) is None,
{
    let none = Seq::<char>::empty();
    let line = w + gap + server + rest;
    let tail = gap + server + rest;
    lemma_white_has_not(gap, '#');
    lemma_white_has_not(gap, ';');
    lemma_word_then(server, rest);
    assert(tail =~= gap + (server + rest));
    assert(!tail.contains('#') && !tail.contains(';')) by {
        if tail.contains('#') {
            let i = choose|i: int| 0 <= i < tail.len() && tail[i] == '#';
            if i < gap.len() {
                assert(gap[i] == '#');
            } else {
                assert((server + rest)[i - gap.len()] == '#');
            }
        }
        if tail.contains(';') {
            let i = choose|i: int| 0 <= i < tail.len() && tail[i] == ';';
            if i < gap.len() {
                assert(gap[i] == ';');
            } else {
                assert((server + rest)[i - gap.len()] == ';');
            }
        }
    }
    lemma_word_then(w, tail);
    assert(line =~= w + tail);
    lemma_uncommented(line);
    assert(is_white(gap[0]) && tail[0] == gap[0]);
    lemma_first_word(none, w, tail);
    assert(none + w + tail =~= line);
    lemma_first_word(gap, server, rest);
    let ws = words(line);
    assert(ws[0] == w && ws[1] == server);
    // Too few words.
    lemma_word_then(w, gap);
    lemma_uncommented(w + gap);
    lemma_first_word(none, w, gap);
    assert(none + w + gap =~= w + gap);
    lemma_no_words(gap);
    lemma_word_then(w, none);
    assert(w + none =~= w);
    lemma_uncommented(w);
    lemma_first_word(none, w, none);
    assert(none + w + none =~= w);
    lemma_no_words(none);
    lemma_uncommented(gap);
}

/// The servers of two lists of lines.
proof fn lemma_servers_concat(a: Seq<Seq<char>>, b: Seq<Seq<char>>)
    ensures
        nameservers_in(a + b) == nameservers_in(a) + nameservers_in(b),
    decreases b.len(),
{
    let none = Seq::<IpAddr>::empty();
    if b.len() == 0 {
        assert(a + b =~= a);
        assert(nameservers_in(b) =~= none);
        assert(nameservers_in(a) + none =~= nameservers_in(a));
    } else {
        lemma_servers_concat(a, b.drop_last());
        assert((a + b).drop_last() =~= a + b.drop_last());
        assert((a + b).last() == b.last());
        assert(nameservers_in(a + b) =~= nameservers_in(a) + nameservers_in(b));
    }
}

/// The servers of one line.
proof fn lemma_servers_single(l: Seq<char>)
    ensures
        nameservers_in(seq![l]) == (match nameserver_in(l) {
            Some(ip) => seq![ip],
            None => Seq::empty(),
        }),
{
    let ls = seq![l];
    let f = |raw: Seq<char>| nameserver_in(raw);
    assert(ls.drop_last() =~= Seq::empty());
    assert(ls.drop_last().filter_map(f) =~= Seq::<IpAddr>::empty());
    match nameserver_in(l) {
        Some(ip) => {
            assert(nameservers_in(ls) =~= seq![ip]);
        },
        None => {
            assert(nameservers_in(ls) =~= Seq::<IpAddr>::empty());
        },
    }
}

/// A line feed at the end changes nothing.
proof fn lemma_closing_line_feed(a: Seq<char>)
    ensures
        nameservers_in(lines(a + seq!['\n'])) == nameservers_in(lines(a)),
    decreases a.len(),
{
    let none = Seq::<char>::empty();
    let no_lines = Seq::<Seq<char>>::empty();
    let closed = a + seq!['\n'];
    lemma_find(a, '\n');
    let k = find(a, '\n');
    if k < a.len() {
        let front = a.take(k);
        let rest = a.skip(k + 1);
        assert(!front.contains('\n'));
        assert(a =~= front + seq!['\n'] + rest);
        assert(closed =~= front + seq!['\n'] + (rest + seq!['\n']));
        lemma_lines_first(front, rest);
        lemma_lines_first(front, rest + seq!['\n']);
        lemma_closing_line_feed(rest);
        lemma_servers_concat(seq![strip_cr(front)], lines(rest));
        lemma_servers_concat(seq![strip_cr(front)], lines(rest + seq!['\n']));
    } else {
        assert(!a.contains('\n'));
        lemma_lines_first(a, none);
        assert(closed =~= a + seq!['\n'] + none);
        lemma_lines_single(a);
        assert(lines(none) =~= no_lines);
        assert(seq![strip_cr(a)] + no_lines =~= seq![strip_cr(a)]);
        lemma_servers_single(strip_cr(a));
        lemma_servers_single(a);
        if a.len() > 0 && a.last() == '\r' {
            let cr = seq!['\r'];
            assert(all_white(cr));
            resolver_comments_are_ignored(none, strip_cr(a), cr, none);
            assert(none + strip_cr(a) + cr =~= a);
        }
        if a.len() == 0 {
            assert(strip_cr(a) =~= none);
            lemma_uncommented(none);
            lemma_no_words(none);
            assert(nameservers_in(no_lines) =~= Seq::<IpAddr>::empty());
        }
    }
}

/// Two configurations together declare the servers of one and then those of
/// the other, in order; one of a single line declares what the line does.
pub proof fn configurations_add_up(a: Seq<char>, b: Seq<char>)
    ensures
        nameservers_in(lines(a + "\n"@ + b)) == nameservers_in(lines(a)) + nameservers_in(lines(b)),
        !a.contains('\n') ==> nameservers_in(lines(a)) == (match nameserver_in(a) {
            Some(ip) => seq![ip],
            None => Seq::empty(),
        }),
{
    reveal_strlit("\n");
    assert("\n"@ =~= seq!['\n']);
    lemma_lines_joined(a, b);
    lemma_servers_concat(lines(a + seq!['\n']), lines(b));
    lemma_closing_line_feed(a);
    if !a.contains('\n') {
        lemma_lines_single(a);
        lemma_servers_single(a);
        if a.len() == 0 {
            let none = Seq::<char>::empty();
            assert(a =~= none);
            lemma_uncommented(none);
            lemma_no_words(none);
            assert(nameservers_in(lines(a)) =~= Seq::<IpAddr>::empty());
        }
    }
}

/// The first IPv4 address of a list.
pub proof fn lemma_first_v4_is(ips: Seq<IpAddr>)
    ensures
        match first_v4(ips) {
            Some(ip) => exists|i: int|
                0 <= i < ips.len() && #[trigger] ips[i] == IpAddr::V4(ip) && forall|j: int|
                    0 <= j < i ==> !(#[trigger] ips[j] is V4),
            None => forall|i: int| 0 <= i < ips.len() ==> !(#[trigger] ips[i] is V4),
        },
    decreases ips.len(),
{
    if ips.len() > 0 {
        let front = ips.drop_last();
        lemma_first_v4_is(front);
        match first_v4(front) {
            Some(ip) => {
                let i = choose|i: int|
                    0 <= i < front.len() && #[trigger] front[i] == IpAddr::V4(ip) && forall|j: int|
                        0 <= j < i ==> !(#[trigger] front[j] is V4);
                assert(ips[i] == front[i]);
                assert forall|j: int| 0 <= j < i implies !(#[trigger] ips[j] is V4) by {
                    assert(front[j] == ips[j]);
                }
            },
            None => {
                assert forall|j: int| 0 <= j < ips.len() - 1 implies !(#[trigger] ips[j] is V4) by {
                    assert(front[j] == ips[j]);
                }
                assert(ips[ips.len() - 1] == ips.last());
            },
        }
    }
}

/// The first IPv6 address of a list.
pub proof fn lemma_first_v6_is(ips: Seq<IpAddr>)
    ensures
        match first_v6(ips) {
            Some(ip) => exists|i: int|
                0 <= i < ips.len() && #[trigger] ips[i] == IpAddr::V6(ip) && forall|j: int|
                    0 <= j < i ==> !(#[trigger] ips[j] is V6),
            None => forall|i: int| 0 <= i < ips.len() ==> !(#[trigger] ips[i] is V6),
        },
    decreases ips.len(),
{
    if ips.len() > 0 {
        let front = ips.drop_last();
        lemma_first_v6_is(front);
        match first_v6(front) {
            Some(ip) => {
                let i = choose|i: int|
                    0 <= i < front.len() && #[trigger] front[i] == IpAddr::V6(ip) && forall|j: int|
                        0 <= j < i ==> !(#[trigger] front[j] is V6);
                assert(ips[i] == front[i]);
                assert forall|j: int| 0 <= j < i implies !(#[trigger] ips[j] is V6) by {
                    assert(front[j] == ips[j]);
                }
            },
            None => {
                assert forall|j: int| 0 <= j < ips.len() - 1 implies !(#[trigger] ips[j] is V6) by {
                    assert(front[j] == ips[j]);
                }
                assert(ips[ips.len() - 1] == ips.last());
            },
        }
    }
}

/// The detected servers are the first one of each family, and none only if no
/// server of the family is declared.
pub proof fn the_first_of_each_family_is_taken(content: Seq<char>)
    ensures
        ({
            let servers = nameservers_in(lines(content));
            let dns = first_nameservers(content);
            &&& match dns.v4 {
                Some(ip) => exists|i: int|
                    0 <= i < servers.len() && #[trigger] servers[i] == IpAddr::V4(ip) && forall|
                        j: int,
                    |
                        0 <= j < i ==> !(#[trigger] servers[j] is V4),
                None => forall|i: int| 0 <= i < servers.len() ==> !(#[trigger] servers[i] is V4),
            }
            &&& match dns.v6 {
                Some(ip) => exists|i: int|
                    0 <= i < servers.len() && #[trigger] servers[i] == IpAddr::V6(ip) && forall|
                        j: int,
                    |
                        0 <= j < i ==> !(#[trigger] servers[j] is V6),
                None => forall|i: int| 0 <= i < servers.len() ==> !(#[trigger] servers[i] is V6),
            }
        }),
{
    lemma_first_v4_is(nameservers_in(lines(content)));
    lemma_first_v6_is(nameservers_in(lines(content)));
}

} // verus!
