//! Interfaces and routes, as the `ip` command lists them.

use crate::addr::{ip_in, IpAddr};
use crate::ipv4::{v4_in, Ipv4Addr};
use crate::ipv6::{v6_in, Ipv6Addr};
use crate::numbers::{read_unsigned, unsigned};
use crate::text::{
    before, before_char, lines, lines_chars, optional_text, same_str, same_text, slices,
    split_once, split_once_char, strip_both, strip_both_chars, text_view, to_chars, to_text, words,
    words_chars,
};
use vstd::prelude::*;

verus! {

/// An address on an interface, with its prefix length.
#[derive(Debug, Clone, PartialEq, Eq)]
pub struct InterfaceIp {
    pub ifname: String,
    pub ip: IpAddr,
    pub prefix: u8,
}

/// An interface address, its name taken by the characters.
pub struct InterfaceView {
    pub ifname: Seq<char>,
    pub ip: IpAddr,
    pub prefix: u8,
}

impl View for InterfaceIp {
    type V = InterfaceView;

    open spec fn view(&self) -> InterfaceView {
        InterfaceView { ifname: self.ifname@, ip: self.ip, prefix: self.prefix }
    }
}

/// A default route.
#[derive(Debug, Clone, PartialEq, Eq)]
pub struct DefaultRoute {
    pub ifname: String,
    pub gateway: Option<IpAddr>,
}

/// A default route, the name of its interface taken by the characters.
pub struct RouteView {
    pub ifname: Seq<char>,
    pub gateway: Option<IpAddr>,
}

impl View for DefaultRoute {
    type V = RouteView;

    open spec fn view(&self) -> RouteView {
        RouteView { ifname: self.ifname@, gateway: self.gateway }
    }
}

// ---------------------------------------------------------------------------
// Interface addresses
// ---------------------------------------------------------------------------

/// An interface name without the colons around it and without what follows `@`.
pub open spec fn interface_name(s: Seq<char>) -> Seq<char> {
    before(strip_both(s, ':'), '@')
}

/// The index of the first word that names an address family, or the number of words.
pub open spec fn family_index(w: Seq<Seq<char>>) -> int
    decreases w.len(),
{
    if w.len() == 0 || w[0] == "inet"@ || w[0] == "inet6"@ {
        0
    } else {
        1 + family_index(w.skip(1))
    }
}

/// The address that the text denotes in the given family, unless it is a loopback address.
pub open spec fn outward_address(s: Seq<char>, is_v6: bool) -> Option<IpAddr> {
    if is_v6 {
        match v6_in(s) {
            Some(ip) => if ip.bits == 1 {
                None
            } else {
                Some(IpAddr::V6(ip))
            },
            None => None,
        }
    } else {
        match v4_in(s) {
            Some(ip) => if ip.octet_at(0) == 127 {
                None
            } else {
                Some(IpAddr::V4(ip))
            },
            None => None,
        }
    }
}

/// The interface address in a line: the word before the family is the name,
/// the one behind it the address and the prefix length.
pub open spec fn interface_in(line: Seq<char>) -> Option<InterfaceView> {
    let w = words(line);
    let k = family_index(w);
    if w.len() < 4 || k == 0 || k + 1 >= w.len() {
        None
    } else {
        match split_once(w[k + 1], '/') {
            None => None,
            Some((address, prefix)) => match (
                unsigned(prefix, 255),
                outward_address(address, w[k] == "inet6"@),
            ) {
                (Some(p), Some(ip)) => Some(
                    InterfaceView { ifname: interface_name(w[k - 1]), ip, prefix: p as u8 },
                ),
                _ => None,
            },
        }
    }
}

/// The first word that names a family is the one that `family_index` gives.
pub proof fn lemma_family_index_is(w: Seq<Seq<char>>, k: int)
    requires
        0 <= k <= w.len(),
        forall|i: int| 0 <= i < k ==> #[trigger] w[i] != "inet"@ && w[i] != "inet6"@,
        k < w.len() ==> w[k] == "inet"@ || w[k] == "inet6"@,
    ensures
        family_index(w) == k,
    decreases w.len(),
{
    if k > 0 {
        let t = w.skip(1);
        assert(w[0] != "inet"@ && w[0] != "inet6"@);
        assert forall|i: int| 0 <= i < k - 1 implies #[trigger] t[i] != "inet"@ && t[i] != "inet6"@ by {
            assert(t[i] == w[i + 1]);
        }
        lemma_family_index_is(t, k - 1);
    }
}

/// An interface name without the colons around it and without what follows `@`.
fn read_interface_name(s: &[char]) -> (r: String)
    ensures
        r@ == interface_name(s@),
{
    to_text(before_char(strip_both_chars(s, ':'), '@'))
}

/// Reads an address of the given family, unless it is a loopback address.
fn read_outward_address(s: &[char], is_v6: bool) -> (r: Option<IpAddr>)
    ensures
        r == outward_address(s@, is_v6),
{
    if is_v6 {
        match Ipv6Addr::read(s) {
            Some(ip) => if ip.is_loopback() {
                None
            } else {
                Some(IpAddr::V6(ip))
            },
            None => None,
        }
    } else {
        match Ipv4Addr::read(s) {
            Some(ip) => if ip.is_loopback() {
                None
            } else {
                Some(IpAddr::V4(ip))
            },
            None => None,
        }
    }
}

/// An optional interface address, its name taken by the characters.
pub open spec fn interface_view(r: Option<InterfaceIp>) -> Option<InterfaceView> {
    match r {
        Some(i) => Some(i@),
        None => None,
    }
}

/// Reads the interface address in a line.
fn read_interface(line: &[char]) -> (r: Option<InterfaceIp>)
    ensures
        interface_view(r) == interface_in(line@),
{
    let parts = words_chars(line);
    let ghost w = words(line@);
    if parts.len() < 4 {
        return None;
    }
    let mut k: usize = 0;
    while k < parts.len() && !same_text(parts[k], "inet") && !same_text(parts[k], "inet6")
        invariant
            slices(parts@) == w,
            k <= parts.len(),
            forall|i: int| 0 <= i < k ==> #[trigger] w[i] != "inet"@ && w[i] != "inet6"@,
        decreases parts.len() - k,
    {
        assert(w[k as int] == parts@[k as int]@);
        k = k + 1;
    }
    assert(k < parts.len() ==> w[k as int] == parts@[k as int]@);
    proof {
        lemma_family_index_is(w, k as int);
    }
    if k == 0 || k >= parts.len() || k + 1 >= parts.len() {
        return None;
    }
    assert(w[k - 1] == parts@[k - 1]@ && w[k + 1] == parts@[k + 1]@);
    let is_v6 = same_text(parts[k], "inet6");
    let ifname = read_interface_name(parts[k - 1]);
    match split_once_char(parts[k + 1], '/') {
        None => None,
        Some((address, prefix)) => match (
            read_unsigned(prefix, 255),
            read_outward_address(address, is_v6),
        ) {
            (Some(p), Some(ip)) => Some(InterfaceIp { ifname, ip, prefix: p as u8 }),
            _ => None,
        },
    }
}

/// Parse a single line from `ip -o addr show scope global`.
pub fn parse_ip_line(line: &str) -> (r: Option<InterfaceIp>)
    ensures
        interface_view(r) == interface_in(line@),
{
    let chars = to_chars(line);
    read_interface(chars.as_slice())
}

/// The interface address in a line, unless the interface is `lo`.
pub open spec fn gateway_interface_in(line: Seq<char>) -> Option<InterfaceView> {
    match interface_in(line) {
        Some(i) => if i.ifname == "lo"@ {
            None
        } else {
            Some(i)
        },
        None => None,
    }
}

/// The interface addresses in the output of a command, in order; none where it did not run.
pub open spec fn interfaces_in(output: Option<Seq<char>>) -> Seq<InterfaceView> {
    match output {
        Some(s) => lines(s).filter_map(|line: Seq<char>| gateway_interface_in(line)),
        None => Seq::empty(),
    }
}

/// A list of interface addresses, the names taken by their characters.
pub open spec fn interface_views(v: Seq<InterfaceIp>) -> Seq<InterfaceView> {
    Seq::new(v.len(), |i: int| v[i]@)
}

/// Adds the interface addresses in the output of a command to a list.
fn add_interfaces(ips: &mut Vec<InterfaceIp>, output: &str)
    ensures
        interface_views(final(ips)@) == interface_views(old(ips)@) + interfaces_in(Some(output@)),
{
    let chars = to_chars(output);
    let rows = lines_chars(chars.as_slice());
    let ghost ls = lines(output@);
    let ghost f = |line: Seq<char>| gateway_interface_in(line);
    let ghost start = interface_views(ips@);
    assert(start + ls.take(0).filter_map(f) =~= start);
    for i in 0..rows.len()
        invariant
            slices(rows@) == ls,
            f == (|line: Seq<char>| gateway_interface_in(line)),
            interface_views(ips@) == start + ls.take(i as int).filter_map(f),
    {
        assert(rows@[i as int]@ == ls[i as int]);
        assert(ls.take(i + 1).drop_last() =~= ls.take(i as int));
        if let Some(iface) = read_interface(rows[i]) {
            if !same_str(iface.ifname.as_str(), "lo") {
                let ghost before = interface_views(ips@);
                let ghost added = iface@;
                ips.push(iface);
                assert(interface_views(ips@) =~= before.push(added));
                assert(before.push(added) =~= start + (ls.take(i as int).filter_map(f) + seq![added]));
            }
        }
    }
    assert(ls.take(rows@.len() as int) =~= ls);
}

/// All global addresses on the gateway's interfaces, from the listings of the
/// IPv4 and of the IPv6 addresses.
pub fn get_gateway_ips(v4_output: Option<&str>, v6_output: Option<&str>) -> (r: Vec<InterfaceIp>)
    ensures
        interface_views(r@) == interfaces_in(optional_text(v4_output)) + interfaces_in(
            optional_text(v6_output),
        ),
{
    let mut ips: Vec<InterfaceIp> = Vec::new();
    assert(interface_views(ips@) =~= Seq::empty());
    if let Some(output) = v4_output {
        add_interfaces(&mut ips, output);
    }
    assert(interface_views(ips@) =~= interfaces_in(optional_text(v4_output)));
    let ghost first = interface_views(ips@);
    if let Some(output) = v6_output {
        add_interfaces(&mut ips, output);
    } else {
        assert(first + Seq::<InterfaceView>::empty() =~= first);
    }
    ips
}

// ---------------------------------------------------------------------------
// Default routes
// ---------------------------------------------------------------------------

/// The gateway and the interface name that the words from index `i` on settle:
/// `via` and `dev` each take the word behind them, and a later one prevails.
pub open spec fn route_from(
    w: Seq<Seq<char>>,
    i: int,
    gateway: Option<IpAddr>,
    ifname: Option<Seq<char>>,
) -> Option<RouteView>
    decreases w.len() - i,
{
    if i >= w.len() {
        match ifname {
            Some(name) => Some(RouteView { ifname: name, gateway }),
            None => None,
        }
    } else if w[i] == "via"@ && i + 1 < w.len() {
        route_from(w, i + 2, ip_in(w[i + 1]), ifname)
    } else if w[i] == "dev"@ && i + 1 < w.len() {
        route_from(w, i + 2, gateway, Some(interface_name(w[i + 1])))
    } else {
        route_from(w, i + 1, gateway, ifname)
    }
}

/// The default route in a line.
pub open spec fn route_in(line: Seq<char>) -> Option<RouteView> {
    let w = words(line);
    if w.len() == 0 || w[0] != "default"@ {
        None
    } else {
        route_from(w, 1, None, None)
    }
}

/// An optional route, the name of its interface taken by the characters.
pub open spec fn route_view(r: Option<DefaultRoute>) -> Option<RouteView> {
    match r {
        Some(d) => Some(d@),
        None => None,
    }
}

/// Reads the default route in a line.
fn read_route(line: &[char]) -> (r: Option<DefaultRoute>)
    ensures
        route_view(r) == route_in(line@),
{
    let parts = words_chars(line);
    let ghost w = words(line@);
    if parts.len() == 0 {
        return None;
    }
    assert(w[0] == parts@[0]@);
    if !same_text(parts[0], "default") {
        return None;
    }
    let mut gateway: Option<IpAddr> = None;
    let mut ifname: Option<String> = None;
    let mut i: usize = 1;
    while i < parts.len()
        invariant
            slices(parts@) == w,
            1 <= i <= parts.len(),
            route_from(w, i as int, gateway, text_view(ifname)) == route_in(line@),
        decreases parts.len() - i,
    {
        assert(w[i as int] == parts@[i as int]@);
        let more = parts.len() - i > 1;
        assert(more ==> w[i + 1] == parts@[i + 1]@);
        if more && same_text(parts[i], "via") {
            gateway = IpAddr::read(parts[i + 1]);
            i = i + 2;
        } else if more && same_text(parts[i], "dev") {
            ifname = Some(read_interface_name(parts[i + 1]));
            i = i + 2;
        } else {
            i = i + 1;
        }
    }
    match ifname {
        Some(name) => Some(DefaultRoute { ifname: name, gateway }),
        None => None,
    }
}

/// Parse default route line from `ip -o route show default` or `ip -o -6 route show default`.
pub fn parse_default_route_line(line: &str) -> (r: Option<DefaultRoute>)
    ensures
        route_view(r) == route_in(line@),
{
    let chars = to_chars(line);
    read_route(chars.as_slice())
}

/// The route in the first of the lines that holds one.
pub open spec fn first_route(ls: Seq<Seq<char>>) -> Option<RouteView>
    decreases ls.len(),
{
    if ls.len() == 0 {
        None
    } else {
        match route_in(ls[0]) {
            Some(r) => Some(r),
            None => first_route(ls.skip(1)),
        }
    }
}

/// The first default route in the output of a command; none where it did not run.
pub open spec fn first_route_in(output: Option<Seq<char>>) -> Option<RouteView> {
    match output {
        Some(s) => first_route(lines(s)),
        None => None,
    }
}

/// Reads the first default route in the output of a command.
fn read_first_route(output: Option<&str>) -> (r: Option<DefaultRoute>)
    ensures
        route_view(r) == first_route_in(optional_text(output)),
{
    match output {
        None => None,
        Some(s) => {
            let chars = to_chars(s);
            let rows = lines_chars(chars.as_slice());
            let ghost ls = lines(s@);
            assert(ls.skip(0) =~= ls);
            for i in 0..rows.len()
                invariant
                    slices(rows@) == ls,
                    first_route(ls.skip(i as int)) == first_route(ls),
                    output == Some(s),
                    ls == lines(s@),
            {
                assert(rows@[i as int]@ == ls[i as int]);
                assert(ls.skip(i as int).skip(1) =~= ls.skip(i + 1));
                if let Some(route) = read_route(rows[i]) {
                    return Some(route);
                }
            }
            None
        },
    }
}

/// The default routes of the gateway, from the listings of the IPv4 and of the
/// IPv6 default routes.
pub fn get_default_routes(v4_output: Option<&str>, v6_output: Option<&str>) -> (r: (
    Option<DefaultRoute>,
    Option<DefaultRoute>,
))
    ensures
        route_view(r.0) == first_route_in(optional_text(v4_output)),
        route_view(r.1) == first_route_in(optional_text(v6_output)),
{
    (read_first_route(v4_output), read_first_route(v6_output))
}

// ---------------------------------------------------------------------------
// Laws
// ---------------------------------------------------------------------------

/// Whether the address is one by which a host reaches itself.
pub open spec fn is_loopback(ip: IpAddr) -> bool {
    match ip {
        IpAddr::V4(v4) => v4.octet_at(0) == 127,
        IpAddr::V6(v6) => v6.bits == 1,
    }
}

/// No address of the gateway is on the loopback interface or a loopback address.
pub proof fn gateway_addresses_face_outward(output: Option<Seq<char>>, i: int)
    requires
        0 <= i < interfaces_in(output).len(),
    ensures
        interfaces_in(output)[i].ifname != "lo"@,
        !is_loopback(interfaces_in(output)[i].ip),
{
    if let Some(s) = output {
        let f = |line: Seq<char>| gateway_interface_in(line);
        let found = interfaces_in(output)[i];
        assert(lines(s).filter_map(f).contains(found));
        lines(s).lemma_filter_map_contains(f, found);
        let line = choose|line: Seq<char>| #[trigger]
            lines(s).contains(line) && f(line) == Some(found);
        assert(gateway_interface_in(line) == Some(found));
    }
}

} // verus!
