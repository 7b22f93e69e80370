//! What holds of every choice of the upstream DNS servers.

use crate::addr::IpAddr;
use crate::dns::{
    auto_dns, auto_dns_log, gateway_v4, gateway_v6, in_some_subnet, in_subnet, internal_subnets,
    first_usable_v4, first_usable_v6, is_auto, is_external, is_off, lemma_first_v4, lemma_first_v6,
    no_usable_v4, no_usable_v6, outside, servers_in, settings_mean_what_they_say, skip_log,
    upstream, upstream_log, v4_text, v6_text, NetworkView,
};
use crate::ipv4::Ipv4Addr;
use crate::ipv6::Ipv6Addr;
use crate::log::LogText;
use crate::resolv::{first_nameservers, first_v4, first_v6, nameservers_in, DetectedDns};
use crate::router::{InterfaceView, RouteView};
use crate::text::{lines, lower, same_ignoring_case};
use vstd::arithmetic::div_mod::{lemma_fundamental_div_mod, lemma_mod_decreases};
use vstd::arithmetic::power2::{lemma2_to64, lemma_pow2_pos, pow2};
use vstd::prelude::*;

verus! {

// ---------------------------------------------------------------------------
// Internal networks
// ---------------------------------------------------------------------------

/// Whether the route leaves by the interface of that name.
pub open spec fn routed_by(route: Option<RouteView>, ifname: Seq<char>) -> bool {
    route is Some && route->0.ifname == ifname
}

/// An address is that of an internal network if and only if its interface is
/// not the one of the default route of its own family, whatever the default
/// route of the other family is.
pub proof fn internal_networks_are_off_the_default_route(net: NetworkView, x: InterfaceView)
    ensures
        internal_subnets(net).contains(x) <==> net.interfaces.contains(x) && match x.ip {
            IpAddr::V4(_) => !routed_by(net.v4_default, x.ifname),
            IpAddr::V6(_) => !routed_by(net.v6_default, x.ifname),
        },
{
    let keep = |i: InterfaceView| !is_external(i, net);
    let all = net.interfaces;
    all.filter_lemma(keep);
    if all.filter(keep).contains(x) {
        all.lemma_filter_contains_rev(keep, x);
        let j = choose|j: int| 0 <= j < all.filter(keep).len() && all.filter(keep)[j] == x;
        assert(keep(all.filter(keep)[j]));
    }
    if all.contains(x) && !is_external(x, net) {
        let j = choose|j: int| 0 <= j < all.len() && all[j] == x;
        assert(all.filter(keep).contains(all[j]));
    }
}

/// The internal networks are listed in the order of the interfaces, one for
/// one: those of two lists are those of the one and then those of the other.
pub proof fn internal_networks_add_up(
    a: Seq<InterfaceView>,
    b: Seq<InterfaceView>,
    v4_default: Option<RouteView>,
    v6_default: Option<RouteView>,
)
    ensures
        internal_subnets(NetworkView { interfaces: a + b, v4_default, v6_default })
            == internal_subnets(NetworkView { interfaces: a, v4_default, v6_default })
            + internal_subnets(NetworkView { interfaces: b, v4_default, v6_default }),
        a.len() == 1 ==> internal_subnets(NetworkView { interfaces: a, v4_default, v6_default }).len()
            <= 1,
{
    let whole = NetworkView { interfaces: a + b, v4_default, v6_default };
    let first = NetworkView { interfaces: a, v4_default, v6_default };
    let second = NetworkView { interfaces: b, v4_default, v6_default };
    let keep = |i: InterfaceView| !is_external(i, whole);
    assert(keep =~= (|i: InterfaceView| !is_external(i, first)));
    assert(keep =~= (|i: InterfaceView| !is_external(i, second)));
    Seq::filter_distributes_over_add(a, b, keep);
    a.filter_lemma(keep);
}

/// What is in an internal network of one list is in one of the other, if both
/// lists hold the same networks of its family.
proof fn lemma_same_networks(ip: IpAddr, s: Seq<InterfaceView>, t: Seq<InterfaceView>)
    requires
        forall|x: InterfaceView|
            (x.ip is V4 <==> ip is V4) ==> (#[trigger] s.contains(x) <==> t.contains(x)),
    ensures
        in_some_subnet(ip, s) == in_some_subnet(ip, t),
{
    if in_some_subnet(ip, s) {
        let k = choose|k: int| 0 <= k < s.len() && in_subnet(ip, #[trigger] s[k]);
        assert(s.contains(s[k]));
        assert(t.contains(s[k]));
        let j = choose|j: int| 0 <= j < t.len() && t[j] == s[k];
        assert(in_subnet(ip, t[j]));
    }
    if in_some_subnet(ip, t) {
        let k = choose|k: int| 0 <= k < t.len() && in_subnet(ip, #[trigger] t[k]);
        assert(t.contains(t[k]));
        assert(s.contains(t[k]));
        let j = choose|j: int| 0 <= j < s.len() && s[j] == t[k];
        assert(in_subnet(ip, s[j]));
    }
}

/// The first IPv4 server that is left depends on the IPv4 networks alone.
proof fn lemma_first_v4_same(servers: Seq<IpAddr>, s: Seq<InterfaceView>, t: Seq<InterfaceView>)
    requires
        forall|x: InterfaceView| x.ip is V4 ==> (#[trigger] s.contains(x) <==> t.contains(x)),
    ensures
        first_v4(outside(servers, s)) == first_v4(outside(servers, t)),
    decreases servers.len(),
{
    reveal(Seq::filter);
    if servers.len() > 0 {
        let front = servers.drop_last();
        let last = servers.last();
        lemma_first_v4_same(front, s, t);
        if last is V4 {
            lemma_same_networks(last, s, t);
        }
        assert(outside(front, s).push(last).drop_last() =~= outside(front, s));
        assert(outside(front, t).push(last).drop_last() =~= outside(front, t));
    }
}

/// The first IPv6 server that is left depends on the IPv6 networks alone.
proof fn lemma_first_v6_same(servers: Seq<IpAddr>, s: Seq<InterfaceView>, t: Seq<InterfaceView>)
    requires
        forall|x: InterfaceView| x.ip is V6 ==> (#[trigger] s.contains(x) <==> t.contains(x)),
    ensures
        first_v6(outside(servers, s)) == first_v6(outside(servers, t)),
    decreases servers.len(),
{
    reveal(Seq::filter);
    if servers.len() > 0 {
        let front = servers.drop_last();
        let last = servers.last();
        lemma_first_v6_same(front, s, t);
        if last is V6 {
            lemma_same_networks(last, s, t);
        }
        assert(outside(front, s).push(last).drop_last() =~= outside(front, s));
        assert(outside(front, t).push(last).drop_last() =~= outside(front, t));
    }
}

/// As long as internal networks remain, the server of a family does not change
/// with the default route of the other.
pub proof fn a_family_ignores_the_other_default_route(
    net: NetworkView,
    other: NetworkView,
    resolv: Option<Seq<char>>,
)
    requires
        net.interfaces == other.interfaces,
        internal_subnets(net).len() > 0,
        internal_subnets(other).len() > 0,
    ensures
        net.v4_default == other.v4_default ==> auto_dns(net, resolv).v4 == auto_dns(
            other,
            resolv,
        ).v4,
        net.v6_default == other.v6_default ==> auto_dns(net, resolv).v6 == auto_dns(
            other,
            resolv,
        ).v6,
{
    let s = internal_subnets(net);
    let t = internal_subnets(other);
    if net.v4_default == other.v4_default {
        assert forall|x: InterfaceView| x.ip is V4 implies (#[trigger] s.contains(x)
            <==> t.contains(x)) by {
            internal_networks_are_off_the_default_route(net, x);
            internal_networks_are_off_the_default_route(other, x);
        }
        lemma_first_v4_same(servers_in(resolv), s, t);
    }
    if net.v6_default == other.v6_default {
        assert forall|x: InterfaceView| x.ip is V6 implies (#[trigger] s.contains(x)
            <==> t.contains(x)) by {
            internal_networks_are_off_the_default_route(net, x);
            internal_networks_are_off_the_default_route(other, x);
        }
        lemma_first_v6_same(servers_in(resolv), s, t);
    }
}

// ---------------------------------------------------------------------------
// Membership
// ---------------------------------------------------------------------------

/// Two numbers agree but for their low bits if and only if they are equal
/// without them.
proof fn lemma_same_front(a: nat, b: nat, m: nat)
    requires
        m > 0,
    ensures
        a - a % m == b - b % m <==> a / m == b / m,
        a % m <= a,
        b % m <= b,
{
    lemma_fundamental_div_mod(a as int, m as int);
    lemma_fundamental_div_mod(b as int, m as int);
    lemma_mod_decreases(a, m);
    lemma_mod_decreases(b, m);
    let (x, y) = ((a / m) as int, (b / m) as int);
    let n = m as int;
    if x < y {
        assert(n * x < n * y) by (nonlinear_arith)
            requires
                x < y,
                n > 0,
        ;
    }
    if y < x {
        assert(n * y < n * x) by (nonlinear_arith)
            requires
                y < x,
                n > 0,
        ;
    }
}

/// An address is in the network of another of its family if the two agree in
/// the leading bits that the prefix length counts, all of them if it is longer
/// than the address; an address of the other family is not.
pub proof fn a_network_is_a_prefix(
    a: Ipv4Addr,
    b: Ipv4Addr,
    c: Ipv6Addr,
    d: Ipv6Addr,
    p: u8,
    name: Seq<char>,
)
    ensures
        ({
            let v4 = InterfaceView { ifname: name, ip: IpAddr::V4(b), prefix: p };
            let v6 = InterfaceView { ifname: name, ip: IpAddr::V6(d), prefix: p };
            &&& p <= 32 ==> (in_subnet(IpAddr::V4(a), v4) <==> a.bits as nat / pow2(
                (32 - p) as nat,
            ) == b.bits as nat / pow2((32 - p) as nat))
            &&& p > 32 ==> (in_subnet(IpAddr::V4(a), v4) <==> a == b)
            &&& p <= 128 ==> (in_subnet(IpAddr::V6(c), v6) <==> c.bits as nat / pow2(
                (128 - p) as nat,
            ) == d.bits as nat / pow2((128 - p) as nat))
            &&& p > 128 ==> (in_subnet(IpAddr::V6(c), v6) <==> c == d)
            &&& !in_subnet(IpAddr::V4(a), v6)
            &&& !in_subnet(IpAddr::V6(c), v4)
        }),
{
    lemma2_to64();
    if p <= 32 {
        lemma_pow2_pos((32 - p) as nat);
        lemma_same_front(a.bits as nat, b.bits as nat, pow2((32 - p) as nat));
    }
    if p <= 128 {
        lemma_pow2_pos((128 - p) as nat);
        lemma_same_front(c.bits as nat, d.bits as nat, pow2((128 - p) as nat));
    }
}

/// What is in a list of networks is in one of them, at whatever position.
pub proof fn membership_adds_up(
    ip: IpAddr,
    a: Seq<InterfaceView>,
    b: Seq<InterfaceView>,
    x: InterfaceView,
)
    ensures
        in_some_subnet(ip, a + b) <==> in_some_subnet(ip, a) || in_some_subnet(ip, b),
        in_some_subnet(ip, seq![x]) <==> in_subnet(ip, x),
        !in_some_subnet(ip, Seq::empty()),
{
    let s = a + b;
    if in_some_subnet(ip, s) {
        let k = choose|k: int| 0 <= k < s.len() && in_subnet(ip, #[trigger] s[k]);
        if k < a.len() {
            assert(in_subnet(ip, a[k]));
        } else {
            assert(in_subnet(ip, b[k - a.len()]));
        }
    }
    if in_some_subnet(ip, a) {
        let k = choose|k: int| 0 <= k < a.len() && in_subnet(ip, #[trigger] a[k]);
        assert(in_subnet(ip, s[k]));
    }
    if in_some_subnet(ip, b) {
        let k = choose|k: int| 0 <= k < b.len() && in_subnet(ip, #[trigger] b[k]);
        assert(in_subnet(ip, s[a.len() + k]));
    }
    if in_subnet(ip, x) {
        assert(in_subnet(ip, seq![x][0]));
    }
}

/// The servers are those that the resolver configuration declares, and none
/// without one; the gateway of a family is that of its own default route, and
/// a server is named by its text.
pub proof fn servers_and_gateways_are_as_given(
    content: Seq<char>,
    name: Seq<char>,
    a: Ipv4Addr,
    b: Ipv6Addr,
)
    ensures
        servers_in(Some(content)) == nameservers_in(lines(content)),
        servers_in(None) == Seq::<IpAddr>::empty(),
        gateway_v4(Some(RouteView { ifname: name, gateway: Some(IpAddr::V4(a)) })) == Some(a),
        gateway_v4(Some(RouteView { ifname: name, gateway: Some(IpAddr::V6(b)) })) is None,
        gateway_v4(Some(RouteView { ifname: name, gateway: None })) is None,
        gateway_v4(None) is None,
        gateway_v6(Some(RouteView { ifname: name, gateway: Some(IpAddr::V6(b)) })) == Some(b),
        gateway_v6(Some(RouteView { ifname: name, gateway: Some(IpAddr::V4(a)) })) is None,
        gateway_v6(Some(RouteView { ifname: name, gateway: None })) is None,
        gateway_v6(None) is None,
        IpAddr::V4(a).text() == a.text(),
        IpAddr::V6(b).text() == b.text(),
        v4_text(DetectedDns { v4: Some(a), v6: None }) == Some(a.text()),
        v4_text(DetectedDns { v4: None, v6: Some(b) }) is None,
        v6_text(DetectedDns { v4: None, v6: Some(b) }) == Some(b.text()),
        v6_text(DetectedDns { v4: Some(a), v6: None }) is None,
{
}

/// Without internal networks the first server of each family is taken, and a
/// gateway never stands in.
pub proof fn a_plain_host_takes_its_servers(net: NetworkView, content: Seq<char>)
    requires
        forall|x: InterfaceView| #[trigger] net.interfaces.contains(x) ==> match x.ip {
            IpAddr::V4(_) => routed_by(net.v4_default, x.ifname),
            IpAddr::V6(_) => routed_by(net.v6_default, x.ifname),
        },
    ensures
        auto_dns(net, Some(content)) == first_nameservers(content),
        auto_dns(net, None) == (DetectedDns { v4: None, v6: None }),
{
    let s = internal_subnets(net);
    if s.len() > 0 {
        internal_networks_are_off_the_default_route(net, s[0]);
        assert(s.contains(s[0]));
    }
}

// ---------------------------------------------------------------------------
// Settings
// ---------------------------------------------------------------------------

/// Whether the text is the word, each letter small or capital.
pub open spec fn spells(s: Seq<char>, small: Seq<char>, capital: Seq<char>) -> bool {
    s.len() == small.len() && forall|i: int|
        0 <= i < s.len() ==> #[trigger] s[i] == small[i] || s[i] == capital[i]
}

/// Whether the letters of one word are the capitals of the other.
spec fn is_capital_of(small: Seq<char>, capital: Seq<char>) -> bool {
    small.len() == capital.len() && forall|i: int|
        0 <= i < small.len() ==> 'a' <= #[trigger] small[i] <= 'z' && capital[i] as u32 + 32
            == small[i] as u32
}

/// A letter is small or capital.
proof fn lemma_letter(c: char, small: char, capital: char)
    requires
        'a' <= small <= 'z',
        capital as u32 + 32 == small as u32,
    ensures
        lower(c) == lower(small) <==> c == small || c == capital,
{
    assert(lower(small) == small);
    assert('A' <= capital <= 'Z');
    if 'A' <= c <= 'Z' {
        assert(lower(c) as u32 == c as u32 + 32);
        assert(c == capital <==> c as u32 == capital as u32);
    }
}

/// Texts are equal up to case if each letter is one of the two.
proof fn lemma_spells(s: Seq<char>, small: Seq<char>, capital: Seq<char>)
    requires
        is_capital_of(small, capital),
    ensures
        same_ignoring_case(s, small) <==> spells(s, small, capital),
{
    assert forall|i: int| 0 <= i < small.len() implies (lower(#[trigger] s[i]) == lower(small[i])
        <==> s[i] == small[i] || s[i] == capital[i]) by {
        assert('a' <= small[i] <= 'z');
        lemma_letter(s[i], small[i], capital[i]);
    }
    if same_ignoring_case(s, small) {
        assert forall|i: int| 0 <= i < s.len() implies #[trigger] s[i] == small[i] || s[i]
            == capital[i] by {
            assert(lower(s[i]) == lower(small[i]));
        }
    }
}

/// What a setting comes to, by its letters: nothing or `auto` mean what was
/// detected; `off`, `none` and `disabled` mean no server; each letter may be
/// small or capital. Anything else means itself.
pub proof fn settings_are_read_by_their_letters(setting: Seq<char>, detected: Option<Seq<char>>)
    ensures
        upstream(setting, detected) == (if setting.len() == 0 || spells(
            setting,
            "auto"@,
            "AUTO"@,
        ) {
            detected
        } else if spells(setting, "off"@, "OFF"@) || spells(setting, "none"@, "NONE"@) || spells(
            setting,
            "disabled"@,
            "DISABLED"@,
        ) {
            None
        } else {
            Some(setting)
        }),
{
    reveal_strlit("auto");
    reveal_strlit("AUTO");
    reveal_strlit("off");
    reveal_strlit("OFF");
    reveal_strlit("none");
    reveal_strlit("NONE");
    reveal_strlit("disabled");
    reveal_strlit("DISABLED");
    lemma_spells(setting, "auto"@, "AUTO"@);
    lemma_spells(setting, "off"@, "OFF"@);
    lemma_spells(setting, "none"@, "NONE"@);
    lemma_spells(setting, "disabled"@, "DISABLED"@);
}

// ---------------------------------------------------------------------------
// What is told
// ---------------------------------------------------------------------------

/// Each server in an internal network is told about, in order, and no other.
pub proof fn each_server_passed_over_is_told_about(
    servers: Seq<IpAddr>,
    ip: IpAddr,
    subnets: Seq<InterfaceView>,
    path: Seq<char>,
)
    ensures
        skip_log(Seq::empty(), subnets, path) == Seq::<LogText>::empty(),
        skip_log(servers.push(ip), subnets, path) == skip_log(servers, subnets, path) + (
        if in_some_subnet(ip, subnets) {
            seq![
                LogText::Stdout(
                    "[Gateway] Skipping internal bridge nameserver "@ + ip.text() + " from "@
                        + path,
                ),
            ]
        } else {
            Seq::empty()
        }),
{
    assert(servers.push(ip).drop_last() =~= servers);
    assert(skip_log(servers, subnets, path) + Seq::<LogText>::empty() =~= skip_log(
        servers,
        subnets,
        path,
    ));
}

/// A gateway that stands in is told about, and only then: the server in effect
/// is the gateway, and no configured server is left in its family.
pub proof fn a_gateway_that_stands_in_is_told_about(
    net: NetworkView,
    path: Seq<char>,
    resolv: Option<Seq<char>>,
)
    ensures
        ({
            let subnets = internal_subnets(net);
            let servers = servers_in(resolv);
            let dns = auto_dns(net, resolv);
            let log = auto_dns_log(net, path, resolv);
            let told_v4 = if dns.v4 is Some && no_usable_v4(servers, subnets) {
                seq![
                    LogText::Stdout(
                        "[Gateway] Fallback: Using external default gateway "@ + dns.v4->0.text()
                            + " as upstream DNS "@ + "IPv4"@,
                    ),
                ]
            } else {
                Seq::empty()
            };
            let told_v6 = if dns.v6 is Some && no_usable_v6(servers, subnets) {
                seq![
                    LogText::Stdout(
                        "[Gateway] Fallback: Using external default gateway "@ + dns.v6->0.text()
                            + " as upstream DNS "@ + "IPv6"@,
                    ),
                ]
            } else {
                Seq::empty()
            };
            &&& subnets.len() == 0 ==> log == Seq::<LogText>::empty()
            &&& subnets.len() > 0 ==> log == skip_log(servers, subnets, path) + told_v4 + told_v6
        }),
{
    let subnets = internal_subnets(net);
    let servers = servers_in(resolv);
    lemma_first_v4(servers, subnets);
    lemma_first_v6(servers, subnets);
    if let Some(ip) = first_v4(outside(servers, subnets)) {
        let i = choose|i: int|
            #[trigger] first_usable_v4(servers, subnets, i) && servers[i] == IpAddr::V4(ip);
        assert(servers[i] is V4);
    }
    if let Some(ip) = first_v6(outside(servers, subnets)) {
        let i = choose|i: int|
            #[trigger] first_usable_v6(servers, subnets, i) && servers[i] == IpAddr::V6(ip);
        assert(servers[i] is V6);
    }
}

/// One line at most is told about the server of a family; it names the server
/// in effect, or says why there is none.
pub proof fn the_server_in_effect_is_told(
    family: Seq<char>,
    setting: Seq<char>,
    detected: Option<Seq<char>>,
    path: Seq<char>,
    notice: bool,
)
    ensures
        ({
            let log = upstream_log(family, setting, detected, path, notice);
            match upstream(setting, detected) {
                Some(server) => log == seq![
                    if is_auto(setting) {
                        LogText::Stdout(
                            "[Gateway] Auto-detected host/gateway DNS "@ + family + " from "@ + path
                                + ": "@ + server,
                        )
                    } else {
                        LogText::Stdout(
                            "[Gateway] Using specified DNS upstream "@ + family + ": "@ + server,
                        )
                    },
                ],
                None => if is_off(setting) {
                    log == seq![
                        LogText::Stdout(
                            "[Gateway] Transparent DNS "@ + family
                                + " redirect disabled by configuration"@,
                        ),
                    ]
                } else if notice {
                    log == seq![
                        LogText::Stdout(
                            "[Gateway] Notice: No external "@ + family
                                + " nameserver auto-detected from "@ + path,
                        ),
                    ]
                } else {
                    log == Seq::<LogText>::empty()
                },
            }
        }),
{
    settings_mean_what_they_say(setting, detected);
    if let Some(server) = detected {
        let front = "[Gateway] Auto-detected host/gateway DNS "@ + family + " from "@ + path;
        assert(front + ": "@ + server =~= front + (": "@ + server));
    }
}

} // verus!
