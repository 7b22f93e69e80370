//! What every line of a whitelist means.

use crate::cidr::{network_v4, network_v6};
use crate::ipv4::{octet, v4_in, Ipv4Addr};
use crate::ipv6::{
    find_gap, hex_group, lemma_colon_is_not_v4, lemma_find_gap, mixed_groups, plain_groups, v6_in,
    Ipv6Addr,
};
use crate::numbers::{decimal, is_digit, unsigned};
use crate::parser::{
    canonicalized, cidr_notice, cidr_result, cidr_text, content_of, host_bits_error, line_notice,
    line_result, width_error, EntryText,
};
use crate::text::{
    all_white, before, is_white, lemma_before, lemma_split_covers, lemma_split_first,
    lemma_split_single, lemma_trim_is_identity, lemma_trim_margins, lemma_white_has_not, split,
};
use crate::whitelist_laws::{is_entry_char, is_entry_like, lemma_entry_like};
use vstd::arithmetic::div_mod::lemma_mod_decreases;
use vstd::arithmetic::power2::{lemma2_to64, lemma_pow2_pos, pow2};
use vstd::prelude::*;

verus! {

/// The text of an IPv4 address is of digits and dots.
proof fn lemma_v4_chars(s: Seq<char>)
    requires
        v4_in(s) is Some,
    ensures
        is_entry_like(s),
        !s.contains('/'),
        !s.contains('#'),
{
    let f = split(s, '.');
    assert forall|i: int| 0 <= i < s.len() implies '0' <= #[trigger] s[i] <= '9' || s[i] == '.' by {
        if s[i] != '.' {
            assert(s.contains(s[i]));
            lemma_split_covers(s, '.', s[i]);
            let j = choose|j: int| 0 <= j < f.len() && (#[trigger] f[j]).contains(s[i]);
            let k = choose|k: int| 0 <= k < f[j].len() && f[j][k] == s[i];
            assert(octet(f[j]) is Some);
            assert(is_digit(f[j][k], 10));
        }
    }
    if s.len() == 0 {
        lemma_split_single(s, '.');
    }
}

/// The fields of an IPv6 address are of hexadecimal digits, or of digits and dots.
proof fn lemma_group_chars(s: Seq<char>)
    requires
        mixed_groups(s) is Some,
    ensures
        forall|i: int| 0 <= i < s.len() ==> is_any_hex(#[trigger] s[i]) || s[i] == ':' || s[i] == '.',
{
    let f = split(s, ':');
    if s.len() > 0 {
        assert forall|i: int| 0 <= i < s.len() implies is_any_hex(#[trigger] s[i]) || s[i] == ':'
            || s[i] == '.' by {
            if s[i] != ':' {
                assert(s.contains(s[i]));
                lemma_split_covers(s, ':', s[i]);
                let j = choose|j: int| 0 <= j < f.len() && (#[trigger] f[j]).contains(s[i]);
                let k = choose|k: int| 0 <= k < f[j].len() && f[j][k] == s[i];
                if hex_group(f[j]) is Some {
                    assert(is_digit(f[j][k], 16));
                } else {
                    if plain_groups(s) is None {
                        if j < f.len() - 1 {
                            assert(f.drop_last()[j] == f[j]);
                            assert(hex_group(f.drop_last()[j]) is Some);
                        }
                        lemma_v4_chars(f.last());
                        assert(is_entry_char(f.last()[k]));
                    } else {
                        assert(hex_group(f[j]) is Some);
                    }
                }
            }
        }
    }
}

/// A hexadecimal digit of either case.
spec fn is_any_hex(c: char) -> bool {
    '0' <= c <= '9' || 'a' <= c <= 'f' || 'A' <= c <= 'F'
}

/// The text of an IPv6 address is of hexadecimal digits, colons and dots.
proof fn lemma_v6_chars(s: Seq<char>)
    requires
        v6_in(s) is Some,
    ensures
        s.len() > 0,
        forall|i: int| 0 <= i < s.len() ==> is_any_hex(#[trigger] s[i]) || s[i] == ':' || s[i] == '.',
        !s.contains('/'),
        !s.contains('#'),
{
    lemma_find_gap(s);
    let k = find_gap(s);
    if k < s.len() {
        let h = s.take(k);
        let t = s.skip(k + 2);
        lemma_group_chars(t);
        assert(mixed_groups(h) == plain_groups(h));
        lemma_group_chars(h);
        lemma_gap_at(s);
        assert forall|i: int| 0 <= i < s.len() implies is_any_hex(#[trigger] s[i]) || s[i] == ':'
            || s[i] == '.' by {
            if i < k {
                assert(h[i] == s[i]);
            } else if i >= k + 2 {
                assert(t[i - k - 2] == s[i]);
            }
        }
    } else {
        lemma_group_chars(s);
    }
}

/// The gap is made of two colons.
pub proof fn lemma_gap_at(s: Seq<char>)
    requires
        find_gap(s) < s.len(),
    ensures
        s[find_gap(s)] == ':',
        s[find_gap(s) + 1] == ':',
    decreases s.len(),
{
    lemma_find_gap(s);
    if !(s.len() > 1 && s[0] == ':' && s[1] == ':') {
        let t = s.skip(1);
        lemma_find_gap(t);
        lemma_gap_at(t);
        assert(t[find_gap(t)] == s[find_gap(s)] && t[find_gap(t) + 1] == s[find_gap(s) + 1]);
    }
}

/// The text of a number is of digits, perhaps with a plus sign before them.
proof fn lemma_number_chars(q: Seq<char>)
    requires
        unsigned(q, 255) is Some,
    ensures
        is_bare(q),
        q.len() > 0,
{
    let digits = if q[0] == '+' {
        q.skip(1)
    } else {
        q
    };
    assert forall|i: int| 0 <= i < q.len() implies '0' <= #[trigger] q[i] <= '9' || q[i] == '+' by {
        if q[0] == '+' && i > 0 {
            assert(is_digit(digits[i - 1], 10));
        } else if q[0] != '+' {
            assert(is_digit(digits[i], 10));
        }
    }
}

/// Whether the text holds no comment, and neither starts nor ends in white space.
pub open spec fn is_bare(s: Seq<char>) -> bool {
    &&& !s.contains('#')
    &&& s.len() > 0 ==> !is_white(s[0]) && !is_white(s.last())
}

/// A line with a slash comes apart at it.
proof fn lemma_slash_line(a: Seq<char>, x: Seq<char>, y: Seq<char>, q: Seq<char>, strict: bool)
    requires
        is_bare(a),
        is_bare(q),
        !a.contains('/'),
        all_white(x),
        all_white(y),
        a.len() == 0 ==> x.len() == 0,
        q.len() == 0 ==> y.len() == 0,
    ensures
        ({
            let line = a + x + "/"@ + y + q;
            &&& line_result(line, strict) == cidr_result(line, a, q, strict)
            &&& line_notice(line, strict) == cidr_notice(line, a, q, strict)
        }),
{
    reveal_strlit("/");
    let line = a + x + "/"@ + y + q;
    let none = Seq::<char>::empty();
    let front = a + x;
    let back = y + q;
    lemma_white_has_not(x, '#');
    lemma_white_has_not(y, '#');
    lemma_white_has_not(x, '/');
    assert("/"@ =~= seq!['/']);
    assert(line =~= front + seq!['/'] + back);
    assert(!front.contains('/')) by {
        if front.contains('/') {
            let i = choose|i: int| 0 <= i < front.len() && front[i] == '/';
            if i < a.len() {
                assert(a[i] == '/');
            } else {
                assert(x[i - a.len()] == '/');
            }
        }
    }
    assert(!line.contains('#')) by {
        if line.contains('#') {
            let i = choose|i: int| 0 <= i < line.len() && line[i] == '#';
            if i < a.len() {
                assert(a[i] == '#');
            } else if i < front.len() {
                assert(x[i - a.len()] == '#');
            } else if i > front.len() {
                let j = i - front.len() - 1;
                assert(back[j] == '#');
                if j < y.len() {
                    assert(y[j] == '#');
                } else {
                    assert(q[j - y.len()] == '#');
                }
            }
        }
    }
    lemma_split_single(line, '#');
    if a.len() > 0 {
        assert(line[0] == a[0]);
    } else {
        assert(line[0] == '/');
    }
    if q.len() > 0 {
        assert(line.last() == q.last());
    } else {
        assert(line.last() == '/');
    }
    lemma_trim_is_identity(line);
    lemma_split_first(front, '/', back);
    lemma_trim_margins(none, a, x);
    assert(none + a + x =~= front);
    lemma_trim_margins(y, q, none);
    assert(y + q + none =~= back);
    lemma_trim_is_identity(a);
    lemma_trim_is_identity(q);
}

/// The network of an address is the address less its remainder by the size of
/// the network; a prefix length beyond the width of the address keeps it.
pub proof fn networks_lose_their_host_bits(v4: Ipv4Addr, v6: Ipv6Addr, p: u8)
    ensures
        p > 32 ==> network_v4(v4, p) == v4,
        p > 128 ==> network_v6(v6, p) == v6,
        p <= 32 ==> network_v4(v4, p) == (Ipv4Addr {
            bits: (v4.bits - v4.bits as nat % pow2((32 - p) as nat)) as u32,
        }),
        p <= 128 ==> network_v6(v6, p) == (Ipv6Addr {
            bits: (v6.bits - v6.bits as nat % pow2((128 - p) as nat)) as u128,
        }),
        p <= 32 ==> v4.bits as nat % pow2((32 - p) as nat) <= v4.bits,
        p <= 128 ==> v6.bits as nat % pow2((128 - p) as nat) <= v6.bits,
{
    lemma2_to64();
    if p <= 128 {
        lemma_pow2_pos((128 - p) as nat);
        lemma_mod_decreases(v6.bits as nat, pow2((128 - p) as nat));
    }
    if p <= 32 {
        lemma_pow2_pos((32 - p) as nat);
        lemma_mod_decreases(v4.bits as nat, pow2((32 - p) as nat));
    }
}

/// The messages about IPv4 networks, in full.
proof fn lemma_v4_messages(line: Seq<char>, entry: Seq<char>, p: u8)
    ensures
        width_error("IPv4"@, p as nat, "32"@, line) == "IPv4 CIDR prefix /"@ + decimal(p as nat)
            + " must be <= 32 in '"@ + line + "'"@,
        host_bits_error("IPv4"@, line, entry) == "IPv4 CIDR '"@ + line
            + "' has host bits set, expected '"@ + entry + "'"@,
        canonicalized("IPv4"@, line, entry) == "[Gateway] Notice: Canonicalized IPv4 CIDR '"@ + line
            + "' -> '"@ + entry + "'"@,
{
    let n = decimal(p as nat);
    assert("IPv4"@ + " CIDR prefix /"@ =~= "IPv4 CIDR prefix /"@) by {
        reveal_strlit("IPv4");
        reveal_strlit(" CIDR prefix /");
        reveal_strlit("IPv4 CIDR prefix /");
    }
    assert(" must be <= "@ + "32"@ + " in '"@ =~= " must be <= 32 in '"@) by {
        reveal_strlit(" must be <= ");
        reveal_strlit("32");
        reveal_strlit(" in '");
        reveal_strlit(" must be <= 32 in '");
    }
    assert("IPv4"@ + " CIDR '"@ =~= "IPv4 CIDR '"@) by {
        reveal_strlit("IPv4");
        reveal_strlit(" CIDR '");
        reveal_strlit("IPv4 CIDR '");
    }
    assert("[Gateway] Notice: Canonicalized "@ + "IPv4"@ + " CIDR '"@
        =~= "[Gateway] Notice: Canonicalized IPv4 CIDR '"@) by {
        reveal_strlit("[Gateway] Notice: Canonicalized ");
        reveal_strlit("IPv4");
        reveal_strlit(" CIDR '");
        reveal_strlit("[Gateway] Notice: Canonicalized IPv4 CIDR '");
    }
    assert(width_error("IPv4"@, p as nat, "32"@, line) =~= ("IPv4"@ + " CIDR prefix /"@) + n + (
    " must be <= "@ + "32"@ + " in '"@) + line + "'"@);
    assert(canonicalized("IPv4"@, line, entry) =~= ("[Gateway] Notice: Canonicalized "@ + "IPv4"@
        + " CIDR '"@) + line + "' -> '"@ + entry + "'"@);
}

/// The messages about IPv6 networks, in full.
proof fn lemma_v6_messages(line: Seq<char>, entry: Seq<char>, p: u8)
    ensures
        width_error("IPv6"@, p as nat, "128"@, line) == "IPv6 CIDR prefix /"@ + decimal(p as nat)
            + " must be <= 128 in '"@ + line + "'"@,
        host_bits_error("IPv6"@, line, entry) == "IPv6 CIDR '"@ + line
            + "' has host bits set, expected '"@ + entry + "'"@,
        canonicalized("IPv6"@, line, entry) == "[Gateway] Notice: Canonicalized IPv6 CIDR '"@ + line
            + "' -> '"@ + entry + "'"@,
{
    let n = decimal(p as nat);
    assert("IPv6"@ + " CIDR prefix /"@ =~= "IPv6 CIDR prefix /"@) by {
        reveal_strlit("IPv6");
        reveal_strlit(" CIDR prefix /");
        reveal_strlit("IPv6 CIDR prefix /");
    }
    assert(" must be <= "@ + "128"@ + " in '"@ =~= " must be <= 128 in '"@) by {
        reveal_strlit(" must be <= ");
        reveal_strlit("128");
        reveal_strlit(" in '");
        reveal_strlit(" must be <= 128 in '");
    }
    assert("IPv6"@ + " CIDR '"@ =~= "IPv6 CIDR '"@) by {
        reveal_strlit("IPv6");
        reveal_strlit(" CIDR '");
        reveal_strlit("IPv6 CIDR '");
    }
    assert("[Gateway] Notice: Canonicalized "@ + "IPv6"@ + " CIDR '"@
        =~= "[Gateway] Notice: Canonicalized IPv6 CIDR '"@) by {
        reveal_strlit("[Gateway] Notice: Canonicalized ");
        reveal_strlit("IPv6");
        reveal_strlit(" CIDR '");
        reveal_strlit("[Gateway] Notice: Canonicalized IPv6 CIDR '");
    }
    assert(width_error("IPv6"@, p as nat, "128"@, line) =~= ("IPv6"@ + " CIDR prefix /"@) + n + (
    " must be <= "@ + "128"@ + " in '"@) + line + "'"@);
    assert(canonicalized("IPv6"@, line, entry) =~= ("[Gateway] Notice: Canonicalized "@ + "IPv6"@
        + " CIDR '"@) + line + "' -> '"@ + entry + "'"@);
}

/// A line that names an IPv4 network gives that network and no other: its
/// prefix length, and its address without the remainder that the prefix
/// leaves to hosts. A remainder is an error in a strict reading and noticed in
/// any other; a prefix length beyond the address is always an error. White
/// space around the slash does not matter.
pub proof fn a_line_gives_its_v4_network(
    a: Seq<char>,
    x: Seq<char>,
    y: Seq<char>,
    q: Seq<char>,
    ip: Ipv4Addr,
    p: u8,
)
    requires
        v4_in(a) == Some(ip),
        unsigned(q, 255) == Some(p as nat),
        all_white(x),
        all_white(y),
    ensures
        ({
            let line = a + x + "/"@ + y + q;
            let rest = ip.bits as nat % pow2((32 - p) as nat);
            let network = Ipv4Addr { bits: (ip.bits - rest) as u32 };
            let entry = network.text() + "/"@ + decimal(p as nat);
            let too_long = "IPv4 CIDR prefix /"@ + decimal(p as nat) + " must be <= 32 in '"@ + line
                + "'"@;
            &&& p <= 32 ==> {
                &&& line_result(line, false) == Ok::<_, Seq<char>>(Some(EntryText::V4(entry)))
                &&& rest == 0 ==> line_result(line, true) == Ok::<_, Seq<char>>(
                    Some(EntryText::V4(entry)),
                ) && line_notice(line, false) is None
                &&& rest > 0 ==> line_result(line, true) == Err::<Option<EntryText>, _>(
                    "IPv4 CIDR '"@ + line + "' has host bits set, expected '"@ + entry + "'"@,
                ) && line_notice(line, false) == Some(
                    "[Gateway] Notice: Canonicalized IPv4 CIDR '"@ + line + "' -> '"@ + entry
                        + "'"@,
                )
            }
            &&& p > 32 ==> {
                &&& line_result(line, false) == Err::<Option<EntryText>, _>(too_long)
                &&& line_result(line, true) == Err::<Option<EntryText>, _>(too_long)
                &&& line_notice(line, false) is None
            }
            &&& line_notice(line, true) is None
        }),
{
    let line = a + x + "/"@ + y + q;
    let rest = ip.bits as nat % pow2((32 - p) as nat);
    lemma_v4_chars(a);
    lemma_entry_like(a);
    lemma_number_chars(q);
    assert(is_entry_char(a[0]) && is_entry_char(a[a.len() - 1]));
    lemma_slash_line(a, x, y, q, false);
    lemma_slash_line(a, x, y, q, true);
    networks_lose_their_host_bits(ip, Ipv6Addr { bits: 0 }, p);
    let entry = cidr_text(network_v4(ip, p).text(), p as nat);
    lemma_v4_messages(line, entry, p);
}

/// A line that names an IPv6 network gives that network and no other, as a
/// line that names an IPv4 network does.
pub proof fn a_line_gives_its_v6_network(
    a: Seq<char>,
    x: Seq<char>,
    y: Seq<char>,
    q: Seq<char>,
    ip: Ipv6Addr,
    p: u8,
)
    requires
        v6_in(a) == Some(ip),
        unsigned(q, 255) == Some(p as nat),
        all_white(x),
        all_white(y),
    ensures
        ({
            let line = a + x + "/"@ + y + q;
            let rest = ip.bits as nat % pow2((128 - p) as nat);
            let network = Ipv6Addr { bits: (ip.bits - rest) as u128 };
            let entry = network.text() + "/"@ + decimal(p as nat);
            let too_long = "IPv6 CIDR prefix /"@ + decimal(p as nat) + " must be <= 128 in '"@
                + line + "'"@;
            &&& p <= 128 ==> {
                &&& line_result(line, false) == Ok::<_, Seq<char>>(Some(EntryText::V6(entry)))
                &&& rest == 0 ==> line_result(line, true) == Ok::<_, Seq<char>>(
                    Some(EntryText::V6(entry)),
                ) && line_notice(line, false) is None
                &&& rest > 0 ==> line_result(line, true) == Err::<Option<EntryText>, _>(
                    "IPv6 CIDR '"@ + line + "' has host bits set, expected '"@ + entry + "'"@,
                ) && line_notice(line, false) == Some(
                    "[Gateway] Notice: Canonicalized IPv6 CIDR '"@ + line + "' -> '"@ + entry
                        + "'"@,
                )
            }
            &&& p > 128 ==> {
                &&& line_result(line, false) == Err::<Option<EntryText>, _>(too_long)
                &&& line_result(line, true) == Err::<Option<EntryText>, _>(too_long)
                &&& line_notice(line, false) is None
            }
            &&& line_notice(line, true) is None
        }),
{
    let line = a + x + "/"@ + y + q;
    lemma_v6_chars(a);
    lemma_v6_is_not_v4(a);
    lemma_number_chars(q);
    assert(is_any_hex(a[0]) || a[0] == ':' || a[0] == '.');
    assert(is_any_hex(a[a.len() - 1]) || a[a.len() - 1] == ':' || a[a.len() - 1] == '.');
    lemma_slash_line(a, x, y, q, false);
    lemma_slash_line(a, x, y, q, true);
    networks_lose_their_host_bits(Ipv4Addr { bits: 0 }, ip, p);
    let entry = cidr_text(network_v6(ip, p).text(), p as nat);
    lemma_v6_messages(line, entry, p);
}

/// No text is an address of both families.
pub proof fn lemma_v6_is_not_v4(s: Seq<char>)
    requires
        v6_in(s) is Some,
    ensures
        v4_in(s) is None,
{
    lemma_find_gap(s);
    if find_gap(s) < s.len() {
        lemma_gap_at(s);
        assert(s.contains(':'));
    } else {
        if !s.contains(':') {
            lemma_split_single(s, ':');
            let f = split(s, ':');
            assert(mixed_groups(s) is Some);
            assert(f.drop_last() =~= Seq::empty());
            assert(false);
        }
    }
    lemma_colon_is_not_v4(s);
}

/// A line with a slash whose parts are not a number and an address is an
/// error, strictly or not.
pub proof fn a_network_needs_an_address_and_a_number(
    a: Seq<char>,
    x: Seq<char>,
    y: Seq<char>,
    q: Seq<char>,
    strict: bool,
)
    requires
        is_bare(a),
        is_bare(q),
        !a.contains('/'),
        all_white(x),
        all_white(y),
        a.len() == 0 ==> x.len() == 0,
        q.len() == 0 ==> y.len() == 0,
    ensures
        ({
            let line = a + x + "/"@ + y + q;
            &&& unsigned(q, 255) is None ==> line_result(line, strict) == Err::<
                Option<EntryText>,
                _,
            >("Invalid CIDR prefix '"@ + q + "' in '"@ + line + "'"@)
            &&& unsigned(q, 255) is Some && v4_in(a) is None && v6_in(a) is None ==> line_result(
                line,
                strict,
            ) == Err::<Option<EntryText>, _>(
                "Invalid IP address '"@ + a + "' in CIDR '"@ + line + "'"@,
            )
        }),
{
    lemma_slash_line(a, x, y, q, strict);
}

/// A line without a slash says nothing if it is empty, names the address that
/// stands there, or is an error, strictly or not.
pub proof fn a_line_gives_its_address(s: Seq<char>, strict: bool)
    requires
        is_bare(s),
        !s.contains('/'),
    ensures
        s.len() == 0 ==> line_result(s, strict) == Ok::<Option<EntryText>, Seq<char>>(None),
        v4_in(s) matches Some(ip) ==> line_result(s, strict) == Ok::<_, Seq<char>>(
            Some(EntryText::V4(ip.text())),
        ),
        v6_in(s) matches Some(ip) ==> line_result(s, strict) == Ok::<_, Seq<char>>(
            Some(EntryText::V6(ip.text())),
        ),
        s.len() > 0 && v4_in(s) is None && v6_in(s) is None ==> line_result(s, strict) == Err::<
            Option<EntryText>,
            _,
        >("Invalid IP address or CIDR: '"@ + s + "'"@),
        line_notice(s, strict) is None,
{
    lemma_split_single(s, '#');
    lemma_split_single(s, '/');
    lemma_trim_is_identity(s);
    if v6_in(s) is Some {
        lemma_v6_is_not_v4(s);
        lemma_v6_chars(s);
    }
    if v4_in(s) is Some {
        lemma_v4_chars(s);
    }
}

/// White space around a line, and a comment behind it, change nothing.
pub proof fn margins_and_comments_are_ignored(
    m: Seq<char>,
    s: Seq<char>,
    n: Seq<char>,
    comment: Seq<char>,
    strict: bool,
)
    requires
        all_white(m),
        all_white(n),
    ensures
        line_result(m + s + n, strict) == line_result(s, strict),
        line_notice(m + s + n, strict) == line_notice(s, strict),
        line_result(s + "#"@ + comment, strict) == line_result(s, strict),
        line_notice(s + "#"@ + comment, strict) == line_notice(s, strict),
{
    reveal_strlit("#");
    assert("#"@ =~= seq!['#']);
    lemma_before(s, '#', comment);
    lemma_white_has_not(m, '#');
    lemma_white_has_not(n, '#');
    assert(m + s + n =~= m + (s + n));
    lemma_before(m, '#', s + n);
    lemma_before(s, '#', n);
    let none = Seq::<char>::empty();
    if s.contains('#') {
        lemma_trim_margins(m, before(s, '#'), none);
        assert(m + before(s, '#') + none =~= m + before(s, '#'));
    } else {
        lemma_split_single(n, '#');
        lemma_split_single(s, '#');
        lemma_trim_margins(m, s, n);
    }
    assert(content_of(m + s + n) == content_of(s));
    assert(content_of(s + "#"@ + comment) == content_of(s));
}

} // verus!
