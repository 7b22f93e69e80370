//! What the listings of interfaces and routes mean.

use crate::addr::{ip_in, IpAddr};
use crate::ipv4::v4_in;
use crate::ipv6::v6_in;
use crate::numbers::unsigned;
use crate::router::{
    first_route, first_route_in, gateway_interface_in, interface_in, interface_name, interfaces_in,
    lemma_family_index_is, route_from, route_in, InterfaceView, RouteView,
};
use crate::text::{
    all_white, before, find, lemma_find, lemma_lines_first, lemma_lines_joined, lemma_lines_single,
    lemma_no_words, lemma_split_first, lemma_split_single, lemma_before, lemma_words_margins, lines,
    strip_cr, strip_end, strip_start, words,
};
use vstd::prelude::*;

verus! {

// ---------------------------------------------------------------------------
// Names
// ---------------------------------------------------------------------------

/// Stripping the start leaves alone what follows the first character that stays.
proof fn lemma_strip_start(s: Seq<char>, c: char)
    ensures
        strip_start(s, c).len() == 0 ==> strip_start(s.push(c), c).len() == 0,
        strip_start(s, c).len() > 0 ==> strip_start(s.push(c), c) == strip_start(s, c).push(c),
        strip_start(s, c).len() > 0 ==> strip_start(s, c)[0] != c,
    decreases s.len(),
{
    let t = s.push(c);
    if s.len() == 0 {
        assert(t[0] == c);
        assert(t.skip(1) =~= Seq::<char>::empty());
        assert(strip_start(t.skip(1), c).len() == 0);
    } else {
        assert(t[0] == s[0]);
        if s[0] == c {
            lemma_strip_start(s.skip(1), c);
            assert(t.skip(1) =~= s.skip(1).push(c));
        }
    }
}

/// The name of an interface stands between colons, and before an `@`.
pub proof fn interface_names_are_cleaned(name: Seq<char>, peer: Seq<char>, s: Seq<char>)
    requires
        name.len() > 0,
        !name.contains(':'),
        !name.contains('@'),
    ensures
        interface_name(name) == name,
        interface_name(name + "@"@ + peer) == name,
        interface_name(":"@ + s) == interface_name(s),
        interface_name(s + ":"@) == interface_name(s),
{
    reveal_strlit("@");
    reveal_strlit(":");
    assert("@"@ =~= seq!['@']);
    assert(":"@ =~= seq![':']);
    assert(name.contains(name[0]) && name.contains(name.last()));
    lemma_split_single(name, '@');
    // A peer behind the name.
    let s1 = name + seq!['@'] + peer;
    assert(s1[0] == name[0]);
    assert(strip_start(s1, ':') == s1);
    lemma_strip_end_keeps(name + seq!['@'], peer);
    let kept = strip_end(s1, ':').skip(name.len() as int + 1);
    assert(strip_end(s1, ':') =~= name + seq!['@'] + kept);
    lemma_before(name, '@', kept);
    // Colons.
    assert((seq![':'] + s).skip(1) =~= s);
    assert((seq![':'] + s)[0] == ':');
    assert(s + seq![':'] =~= s.push(':'));
    lemma_strip_start(s, ':');
    let t = strip_start(s, ':');
    if t.len() > 0 {
        assert(t.push(':').drop_last() =~= t);
        assert(t.push(':').last() == ':');
    } else {
        assert(strip_start(s.push(':'), ':') =~= t);
    }
}

/// Stripping the end does not reach beyond a character that stays.
proof fn lemma_strip_end_keeps(front: Seq<char>, back: Seq<char>)
    requires
        front.len() > 0,
        front.last() != ':',
    ensures
        strip_end(front + back, ':').len() >= front.len(),
        strip_end(front + back, ':').take(front.len() as int) == front,
    decreases back.len(),
{
    let s = front + back;
    if back.len() == 0 {
        assert(s =~= front);
        assert(s.take(front.len() as int) =~= front);
    } else if back.last() == ':' {
        assert(s.last() == ':');
        assert(s.drop_last() =~= front + back.drop_last());
        lemma_strip_end_keeps(front, back.drop_last());
    } else {
        assert(s.last() == back.last());
        assert(s.take(front.len() as int) =~= front);
    }
}

// ---------------------------------------------------------------------------
// Interface addresses
// ---------------------------------------------------------------------------

/// Whether the word names an address family.
pub open spec fn is_family(w: Seq<char>) -> bool {
    w == "inet"@ || w == "inet6"@
}

/// Whether word `k` is the first that names a family, with a word before it
/// and one behind it.
pub open spec fn family_at(w: Seq<Seq<char>>, k: int) -> bool {
    &&& 1 <= k
    &&& k + 1 < w.len()
    &&& w.len() >= 4
    &&& is_family(w[k])
    &&& forall|i: int| 0 <= i < k ==> !is_family(#[trigger] w[i])
}

/// The line of an interface names it by the word before the family, and gives
/// its address and prefix length by the word behind it. An address of another
/// family, a loopback address, and a word that is not such a pair give nothing.
pub proof fn an_interface_line_is_read(
    line: Seq<char>,
    k: int,
    address: Seq<char>,
    prefix: Seq<char>,
)
    requires
        family_at(words(line), k),
        !address.contains('/'),
        words(line)[k + 1] == address + "/"@ + prefix,
    ensures
        ({
            let w = words(line);
            let name = interface_name(w[k - 1]);
            &&& w[k] == "inet"@ ==> interface_in(line) == (match (
                v4_in(address),
                unsigned(prefix, 255),
            ) {
                (Some(ip), Some(p)) => if ip.bits / 0x100_0000 == 127 {
                    None
                } else {
                    Some(InterfaceView { ifname: name, ip: IpAddr::V4(ip), prefix: p as u8 })
                },
                _ => None,
            })
            &&& w[k] == "inet6"@ ==> interface_in(line) == (match (
                v6_in(address),
                unsigned(prefix, 255),
            ) {
                (Some(ip), Some(p)) => if ip.bits == 1 {
                    None
                } else {
                    Some(InterfaceView { ifname: name, ip: IpAddr::V6(ip), prefix: p as u8 })
                },
                _ => None,
            })
        }),
{
    let w = words(line);
    reveal_strlit("/");
    assert("/"@ =~= seq!['/']);
    lemma_split_first(address, '/', prefix);
    assert forall|i: int| 0 <= i < k implies #[trigger] w[i] != "inet"@ && w[i] != "inet6"@ by {
        assert(!is_family(w[i]));
    }
    lemma_family_index_is(w, k);
    assert("inet"@ != "inet6"@) by {
        reveal_strlit("inet");
        reveal_strlit("inet6");
        assert("inet"@.len() == 4 && "inet6"@.len() == 5);
    }
    if let Some(ip) = v4_in(address) {
        assert(ip.octet_at(0) == ip.bits / 0x100_0000);
    }
}

/// A line without a family, with one that lacks a neighbour, of fewer than
/// four words, or without a slash behind the family gives nothing.
pub proof fn other_interface_lines_give_nothing(line: Seq<char>, k: int)
    ensures
        words(line).len() < 4 ==> interface_in(line) is None,
        (forall|i: int| 0 <= i < words(line).len() ==> !is_family(#[trigger] words(line)[i]))
            ==> interface_in(line) is None,
        words(line).len() > 0 && is_family(words(line)[0]) ==> interface_in(line) is None,
        (forall|i: int| 0 <= i < words(line).len() - 1 ==> !is_family(#[trigger] words(line)[i]))
            ==> interface_in(line) is None,
        family_at(words(line), k) && !words(line)[k + 1].contains('/') ==> interface_in(
            line,
        ) is None,
{
    let w = words(line);
    if forall|i: int| 0 <= i < w.len() ==> !is_family(#[trigger] w[i]) {
        assert forall|i: int| 0 <= i < w.len() implies #[trigger] w[i] != "inet"@ && w[i]
            != "inet6"@ by {
            assert(!is_family(w[i]));
        }
        lemma_family_index_is(w, w.len() as int);
    }
    if w.len() > 0 && is_family(w[0]) {
        lemma_family_index_is(w, 0);
    }
    if w.len() > 0 && (forall|i: int| 0 <= i < w.len() - 1 ==> !is_family(#[trigger] w[i])) {
        let last = w.len() - 1;
        assert forall|i: int| 0 <= i < last implies #[trigger] w[i] != "inet"@ && w[i] != "inet6"@ by {
            assert(!is_family(w[i]));
        }
        if is_family(w[last]) {
            lemma_family_index_is(w, last);
        } else {
            lemma_family_index_is(w, w.len() as int);
        }
    }
    if family_at(w, k) && !w[k + 1].contains('/') {
        assert forall|i: int| 0 <= i < k implies #[trigger] w[i] != "inet"@ && w[i] != "inet6"@ by {
            assert(!is_family(w[i]));
        }
        lemma_family_index_is(w, k);
        lemma_split_single(w[k + 1], '/');
    }
}

/// The addresses in two lists of lines.
proof fn lemma_interfaces_concat(a: Seq<Seq<char>>, b: Seq<Seq<char>>)
    ensures
        ({
            let f = |line: Seq<char>| gateway_interface_in(line);
            (a + b).filter_map(f) == a.filter_map(f) + b.filter_map(f)
        }),
    decreases b.len(),
{
    let f = |line: Seq<char>| gateway_interface_in(line);
    let none = Seq::<InterfaceView>::empty();
    if b.len() == 0 {
        assert(a + b =~= a);
        assert(b.filter_map(f) =~= none);
        assert(a.filter_map(f) + none =~= a.filter_map(f));
    } else {
        lemma_interfaces_concat(a, b.drop_last());
        assert((a + b).drop_last() =~= a + b.drop_last());
        assert((a + b).last() == b.last());
        assert((a + b).filter_map(f) =~= a.filter_map(f) + b.filter_map(f));
    }
}

/// The addresses in one line.
proof fn lemma_interfaces_single(l: Seq<char>)
    ensures
        seq![l].filter_map(|line: Seq<char>| gateway_interface_in(line)) == (match interface_in(l) {
            Some(i) if i.ifname != "lo"@ => seq![i],
            _ => Seq::empty(),
        }),
{
    let ls = seq![l];
    let f = |line: Seq<char>| gateway_interface_in(line);
    let none = Seq::<InterfaceView>::empty();
    assert(ls.drop_last() =~= Seq::empty());
    assert(ls.drop_last().filter_map(f) =~= none);
    match interface_in(l) {
        Some(i) if i.ifname != "lo"@ => {
            assert(ls.filter_map(f) =~= seq![i]);
        },
        _ => {
            assert(ls.filter_map(f) =~= none);
        },
    }
}

/// A carriage return at the end of a line is no part of its words.
proof fn lemma_words_strip_cr(l: Seq<char>)
    ensures
        words(strip_cr(l)) == words(l),
{
    let none = Seq::<char>::empty();
    if l.len() > 0 && l.last() == '\r' {
        let cr = seq!['\r'];
        assert(all_white(cr));
        lemma_words_margins(none, strip_cr(l), cr);
        assert(none + strip_cr(l) + cr =~= l);
    }
}

/// A line feed at the end changes nothing.
proof fn lemma_interfaces_closed(a: Seq<char>)
    ensures
        interfaces_in(Some(a + seq!['\n'])) == interfaces_in(Some(a)),
    decreases a.len(),
{
    let none = Seq::<char>::empty();
    let no_lines = Seq::<Seq<char>>::empty();
    let closed = a + seq!['\n'];
    lemma_find(a, '\n');
    let k = find(a, '\n');
    if k < a.len() {
        let front = a.take(k);
        let rest = a.skip(k + 1);
        assert(!front.contains('\n'));
        assert(a =~= front + seq!['\n'] + rest);
        assert(closed =~= front + seq!['\n'] + (rest + seq!['\n']));
        lemma_lines_first(front, rest);
        lemma_lines_first(front, rest + seq!['\n']);
        lemma_interfaces_closed(rest);
        lemma_interfaces_concat(seq![strip_cr(front)], lines(rest));
        lemma_interfaces_concat(seq![strip_cr(front)], lines(rest + seq!['\n']));
    } else {
        assert(!a.contains('\n'));
        lemma_lines_first(a, none);
        assert(closed =~= a + seq!['\n'] + none);
        lemma_lines_single(a);
        assert(lines(none) =~= no_lines);
        assert(seq![strip_cr(a)] + no_lines =~= seq![strip_cr(a)]);
        lemma_words_strip_cr(a);
        lemma_interfaces_single(strip_cr(a));
        lemma_interfaces_single(a);
        if a.len() == 0 {
            assert(strip_cr(a) =~= none);
            lemma_no_words(none);
            assert(no_lines.filter_map(|line: Seq<char>| gateway_interface_in(line))
                =~= Seq::<InterfaceView>::empty());
        }
    }
}

/// A listing gives the addresses of its lines in order, but for those of the
/// loopback interface; without a listing there are none.
pub proof fn interface_listings_add_up(a: Seq<char>, b: Seq<char>)
    ensures
        interfaces_in(None) == Seq::<InterfaceView>::empty(),
        interfaces_in(Some(a + "\n"@ + b)) == interfaces_in(Some(a)) + interfaces_in(Some(b)),
        !a.contains('\n') ==> interfaces_in(Some(a)) == (match interface_in(a) {
            Some(i) if i.ifname != "lo"@ => seq![i],
            _ => Seq::empty(),
        }),
{
    reveal_strlit("\n");
    assert("\n"@ =~= seq!['\n']);
    lemma_lines_joined(a, b);
    lemma_interfaces_concat(lines(a + seq!['\n']), lines(b));
    lemma_interfaces_closed(a);
    if !a.contains('\n') {
        lemma_lines_single(a);
        lemma_interfaces_single(a);
        if a.len() == 0 {
            let none = Seq::<char>::empty();
            assert(a =~= none);
            lemma_no_words(none);
            assert(interfaces_in(Some(a)) =~= Seq::<InterfaceView>::empty());
        }
    }
}

// ---------------------------------------------------------------------------
// Default routes
// ---------------------------------------------------------------------------

/// Whether none of the words is `via` or `dev`.
pub open spec fn is_plain(w: Seq<Seq<char>>) -> bool {
    forall|i: int| 0 <= i < w.len() ==> #[trigger] w[i] != "via"@ && w[i] != "dev"@
}

/// Plain words change nothing of a route.
proof fn lemma_plain_words(
    w: Seq<Seq<char>>,
    i: int,
    j: int,
    gateway: Option<IpAddr>,
    ifname: Option<Seq<char>>,
)
    requires
        0 <= i <= j <= w.len(),
        is_plain(w.subrange(i, j)),
    ensures
        route_from(w, i, gateway, ifname) == route_from(w, j, gateway, ifname),
    decreases j - i,
{
    if i < j {
        let part = w.subrange(i, j);
        assert(part[0] == w[i]);
        assert(part[0] != "via"@ && part[0] != "dev"@);
        let rest = w.subrange(i + 1, j);
        assert forall|k: int| 0 <= k < rest.len() implies #[trigger] rest[k] != "via"@ && rest[k]
            != "dev"@ by {
            assert(rest[k] == part[k + 1]);
        }
        lemma_plain_words(w, i + 1, j, gateway, ifname);
    }
}

/// The words `via` and `dev` differ.
proof fn lemma_via_is_not_dev()
    ensures
        "via"@ != "dev"@,
{
    reveal_strlit("via");
    reveal_strlit("dev");
    assert("via"@[0] == 'v' && "dev"@[0] == 'd');
}

/// The line of a default route gives the interface behind `dev` and the
/// gateway behind `via`, if there is one, in either order and among other
/// words; without `dev`, or with another first word, it gives nothing.
pub proof fn a_route_line_is_read(
    line: Seq<char>,
    pre: Seq<Seq<char>>,
    mid: Seq<Seq<char>>,
    post: Seq<Seq<char>>,
    gateway: Seq<char>,
    name: Seq<char>,
)
    requires
        is_plain(pre),
        is_plain(mid),
        is_plain(post),
    ensures
        words(line) == seq!["default"@] + pre + seq!["via"@, gateway] + mid + seq!["dev"@, name]
            + post ==> route_in(line) == Some(
            RouteView { ifname: interface_name(name), gateway: ip_in(gateway) },
        ),
        words(line) == seq!["default"@] + pre + seq!["dev"@, name] + mid + seq!["via"@, gateway]
            + post ==> route_in(line) == Some(
            RouteView { ifname: interface_name(name), gateway: ip_in(gateway) },
        ),
        words(line) == seq!["default"@] + pre + seq!["dev"@, name] + post ==> route_in(line) == Some(
            RouteView { ifname: interface_name(name), gateway: None },
        ),
        words(line) == seq!["default"@] + pre ==> route_in(line) is None,
        words(line) == seq!["default"@] + pre + seq!["via"@, gateway] + post ==> route_in(
            line,
        ) is None,
        words(line).len() == 0 || words(line)[0] != "default"@ ==> route_in(line) is None,
{
    let w = words(line);
    let a = 1 + pre.len() as int;
    let b = a + 2 + mid.len();
    let n = w.len() as int;
    lemma_via_is_not_dev();
    if w == seq!["default"@] + pre + seq!["via"@, gateway] + mid + seq!["dev"@, name] + post {
        assert(w.subrange(1, a) =~= pre);
        assert(w.subrange(a + 2, b) =~= mid);
        assert(w.subrange(b + 2, n) =~= post);
        assert(w[a] == "via"@ && w[a + 1] == gateway && w[b] == "dev"@ && w[b + 1] == name);
        lemma_plain_words(w, 1, a, None, None);
        lemma_plain_words(w, a + 2, b, ip_in(gateway), None);
        lemma_plain_words(w, b + 2, n, ip_in(gateway), Some(interface_name(name)));
        assert(w[0] == "default"@);
    }
    if w == seq!["default"@] + pre + seq!["dev"@, name] + mid + seq!["via"@, gateway] + post {
        assert(w.subrange(1, a) =~= pre);
        assert(w.subrange(a + 2, b) =~= mid);
        assert(w.subrange(b + 2, n) =~= post);
        assert(w[a] == "dev"@ && w[a + 1] == name && w[b] == "via"@ && w[b + 1] == gateway);
        lemma_plain_words(w, 1, a, None, None);
        lemma_plain_words(w, a + 2, b, None, Some(interface_name(name)));
        lemma_plain_words(w, b + 2, n, ip_in(gateway), Some(interface_name(name)));
        assert(w[0] == "default"@);
    }
    if w == seq!["default"@] + pre + seq!["dev"@, name] + post {
        assert(w.subrange(1, a) =~= pre);
        assert(w.subrange(a + 2, n) =~= post);
        assert(w[a] == "dev"@ && w[a + 1] == name);
        lemma_plain_words(w, 1, a, None, None);
        lemma_plain_words(w, a + 2, n, None, Some(interface_name(name)));
        assert(w[0] == "default"@);
    }
    if w == seq!["default"@] + pre {
        assert(w.subrange(1, n) =~= pre);
        lemma_plain_words(w, 1, n, None, None);
        assert(w[0] == "default"@);
    }
    if w == seq!["default"@] + pre + seq!["via"@, gateway] + post {
        assert(w.subrange(1, a) =~= pre);
        assert(w.subrange(a + 2, n) =~= post);
        assert(w[a] == "via"@ && w[a + 1] == gateway);
        lemma_plain_words(w, 1, a, None, None);
        lemma_plain_words(w, a + 2, n, ip_in(gateway), None);
        assert(w[0] == "default"@);
    }
}

/// Of two words `dev` the later one prevails.
pub proof fn a_later_interface_prevails(
    line: Seq<char>,
    pre: Seq<Seq<char>>,
    mid: Seq<Seq<char>>,
    post: Seq<Seq<char>>,
    other: Seq<char>,
    name: Seq<char>,
)
    requires
        is_plain(pre),
        is_plain(mid),
        is_plain(post),
        words(line) == seq!["default"@] + pre + seq!["dev"@, other] + mid + seq!["dev"@, name] + post,
    ensures
        route_in(line) == Some(RouteView { ifname: interface_name(name), gateway: None }),
{
    let w = words(line);
    let a = 1 + pre.len() as int;
    let b = a + 2 + mid.len();
    let n = w.len() as int;
    lemma_via_is_not_dev();
    assert(w.subrange(1, a) =~= pre);
    assert(w.subrange(a + 2, b) =~= mid);
    assert(w.subrange(b + 2, n) =~= post);
    assert(w[0] == "default"@);
    assert(w[a] == "dev"@ && w[a + 1] == other && w[b] == "dev"@ && w[b + 1] == name);
    lemma_plain_words(w, 1, a, None, None);
    lemma_plain_words(w, a + 2, b, None, Some(interface_name(other)));
    lemma_plain_words(w, b + 2, n, None, Some(interface_name(name)));
}

/// Of two words `via` the later one prevails.
pub proof fn a_later_gateway_prevails(
    line: Seq<char>,
    pre: Seq<Seq<char>>,
    mid: Seq<Seq<char>>,
    post: Seq<Seq<char>>,
    name: Seq<char>,
    other: Seq<char>,
    gateway: Seq<char>,
)
    requires
        is_plain(pre),
        is_plain(mid),
        is_plain(post),
        words(line) == seq!["default"@] + pre + seq!["dev"@, name] + mid + seq![
            "via"@,
            other,
            "via"@,
            gateway,
        ] + post,
    ensures
        route_in(line) == Some(
            RouteView { ifname: interface_name(name), gateway: ip_in(gateway) },
        ),
{
    let w = words(line);
    let a = 1 + pre.len() as int;
    let b = a + 2 + mid.len();
    let n = w.len() as int;
    let found = Some(interface_name(name));
    lemma_via_is_not_dev();
    assert(w.subrange(1, a) =~= pre);
    assert(w.subrange(a + 2, b) =~= mid);
    assert(w.subrange(b + 4, n) =~= post);
    assert(w[0] == "default"@);
    assert(w[a] == "dev"@ && w[a + 1] == name && w[b] == "via"@ && w[b + 1] == other);
    assert(w[b + 2] == "via"@ && w[b + 3] == gateway);
    lemma_plain_words(w, 1, a, None, None);
    lemma_plain_words(w, a + 2, b, None, found);
    assert(route_from(w, b, None, found) == route_from(w, b + 2, ip_in(other), found));
    lemma_plain_words(w, b + 4, n, ip_in(gateway), found);
}

/// A word `dev` or `via` with nothing behind it is passed over.
pub proof fn a_word_at_the_end_takes_nothing(
    line: Seq<char>,
    pre: Seq<Seq<char>>,
    post: Seq<Seq<char>>,
    name: Seq<char>,
    last: Seq<char>,
)
    requires
        is_plain(pre),
        is_plain(post),
        last == "dev"@ || last == "via"@,
    ensures
        words(line) == seq!["default"@] + pre + seq![last] ==> route_in(line) is None,
        words(line) == seq!["default"@] + pre + seq!["dev"@, name] + post + seq![last] ==> route_in(
            line,
        ) == Some(RouteView { ifname: interface_name(name), gateway: None }),
{
    let w = words(line);
    let a = 1 + pre.len() as int;
    let n = w.len() as int;
    lemma_via_is_not_dev();
    if w == seq!["default"@] + pre + seq![last] {
        assert(w.subrange(1, a) =~= pre);
        assert(w[0] == "default"@);
        assert(n == a + 1);
        lemma_plain_words(w, 1, a, None, None);
        assert(route_from(w, a, None, None) == route_from(w, n, None, None));
    }
    if w == seq!["default"@] + pre + seq!["dev"@, name] + post + seq![last] {
        let found = Some(interface_name(name));
        assert(w.subrange(1, a) =~= pre);
        assert(w.subrange(a + 2, n - 1) =~= post);
        assert(w[0] == "default"@);
        assert(w[a] == "dev"@ && w[a + 1] == name);
        lemma_plain_words(w, 1, a, None, None);
        lemma_plain_words(w, a + 2, n - 1, None, found);
        assert(route_from(w, n - 1, None, found) == route_from(w, n, None, found));
    }
}

/// The first route in two lists of lines.
proof fn lemma_first_route_concat(a: Seq<Seq<char>>, b: Seq<Seq<char>>)
    ensures
        first_route(a + b) == (match first_route(a) {
            Some(r) => Some(r),
            None => first_route(b),
        }),
    decreases a.len(),
{
    if a.len() == 0 {
        assert(a + b =~= b);
    } else {
        assert((a + b)[0] == a[0]);
        assert((a + b).skip(1) =~= a.skip(1) + b);
        lemma_first_route_concat(a.skip(1), b);
    }
}

/// The route in one line.
proof fn lemma_first_route_single(l: Seq<char>)
    ensures
        first_route(seq![l]) == route_in(l),
{
    let ls = seq![l];
    reveal_with_fuel(first_route, 2);
    assert(ls.skip(1) =~= Seq::empty());
}

/// A line feed at the end changes nothing.
proof fn lemma_routes_closed(a: Seq<char>)
    ensures
        first_route(lines(a + seq!['\n'])) == first_route(lines(a)),
    decreases a.len(),
{
    let none = Seq::<char>::empty();
    let no_lines = Seq::<Seq<char>>::empty();
    let closed = a + seq!['\n'];
    lemma_find(a, '\n');
    let k = find(a, '\n');
    if k < a.len() {
        let front = a.take(k);
        let rest = a.skip(k + 1);
        assert(!front.contains('\n'));
        assert(a =~= front + seq!['\n'] + rest);
        assert(closed =~= front + seq!['\n'] + (rest + seq!['\n']));
        lemma_lines_first(front, rest);
        lemma_lines_first(front, rest + seq!['\n']);
        lemma_routes_closed(rest);
        lemma_first_route_concat(seq![strip_cr(front)], lines(rest));
        lemma_first_route_concat(seq![strip_cr(front)], lines(rest + seq!['\n']));
    } else {
        assert(!a.contains('\n'));
        lemma_lines_first(a, none);
        assert(closed =~= a + seq!['\n'] + none);
        lemma_lines_single(a);
        assert(lines(none) =~= no_lines);
        assert(seq![strip_cr(a)] + no_lines =~= seq![strip_cr(a)]);
        lemma_words_strip_cr(a);
        lemma_first_route_single(strip_cr(a));
        lemma_first_route_single(a);
        if a.len() == 0 {
            assert(strip_cr(a) =~= none);
            lemma_no_words(none);
        }
    }
}

/// A listing gives the route of its first line that holds one; without a
/// listing there is none.
pub proof fn the_first_route_is_taken(a: Seq<char>, b: Seq<char>)
    ensures
        first_route_in(None) is None,
        first_route_in(Some(a + "\n"@ + b)) == (match first_route_in(Some(a)) {
            Some(r) => Some(r),
            None => first_route_in(Some(b)),
        }),
        !a.contains('\n') ==> first_route_in(Some(a)) == route_in(a),
{
    reveal_strlit("\n");
    assert("\n"@ =~= seq!['\n']);
    lemma_lines_joined(a, b);
    lemma_first_route_concat(lines(a + seq!['\n']), lines(b));
    lemma_routes_closed(a);
    if !a.contains('\n') {
        lemma_lines_single(a);
        lemma_first_route_single(a);
        if a.len() == 0 {
            let none = Seq::<char>::empty();
            assert(a =~= none);
            lemma_no_words(none);
        }
    }
}

} // verus!
