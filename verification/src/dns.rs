//! The choice of the upstream DNS servers.

use crate::addr::IpAddr;
use crate::cidr::{canonicalize_v4, canonicalize_v6, network_v4, network_v6};
use crate::config::DaemonConfig;
use crate::ipv4::Ipv4Addr;
use crate::ipv6::Ipv6Addr;
use crate::log::{add_line, log_texts, LogLine, LogText};
use crate::resolv::{
    detect_system_dns, first_nameservers, first_v4, first_v6, nameservers_in,
    parse_all_nameservers, DetectedDns,
};
use crate::router::{
    interface_views, route_view, DefaultRoute, InterfaceIp, InterfaceView, RouteView,
};
use crate::text::{
    cat2, cat4, lines, lower, optional_text, same_ignoring_case, same_str, same_str_ignoring_case,
    text_view,
};
use vstd::prelude::*;

verus! {

/// What is known of the gateway's own network.
pub struct HostNetwork {
    pub interfaces: Vec<InterfaceIp>,
    pub v4_default: Option<DefaultRoute>,
    pub v6_default: Option<DefaultRoute>,
}

/// The gateway's own network, with strings taken by their characters.
pub struct NetworkView {
    pub interfaces: Seq<InterfaceView>,
    pub v4_default: Option<RouteView>,
    pub v6_default: Option<RouteView>,
}

impl View for HostNetwork {
    type V = NetworkView;

    open spec fn view(&self) -> NetworkView {
        NetworkView {
            interfaces: interface_views(self.interfaces@),
            v4_default: route_view(self.v4_default),
            v6_default: route_view(self.v6_default),
        }
    }
}

// ---------------------------------------------------------------------------
// Detection
// ---------------------------------------------------------------------------

/// Whether the interface of the address holds the default route of its family.
pub open spec fn is_external(i: InterfaceView, net: NetworkView) -> bool {
    match i.ip {
        IpAddr::V4(_) => net.v4_default matches Some(d) && d.ifname == i.ifname,
        IpAddr::V6(_) => net.v6_default matches Some(d) && d.ifname == i.ifname,
    }
}

/// The addresses on interfaces without the default route.
pub open spec fn internal_subnets(net: NetworkView) -> Seq<InterfaceView> {
    net.interfaces.filter(|i: InterfaceView| !is_external(i, net))
}

/// Whether `ip` is in the network of an interface address.
pub open spec fn in_subnet(ip: IpAddr, subnet: InterfaceView) -> bool {
    match (ip, subnet.ip) {
        (IpAddr::V4(a), IpAddr::V4(b)) => network_v4(a, subnet.prefix) == network_v4(
            b,
            subnet.prefix,
        ),
        (IpAddr::V6(a), IpAddr::V6(b)) => network_v6(a, subnet.prefix) == network_v6(
            b,
            subnet.prefix,
        ),
        _ => false,
    }
}

/// Whether `ip` is in one of the networks.
pub open spec fn in_some_subnet(ip: IpAddr, subnets: Seq<InterfaceView>) -> bool {
    exists|k: int| 0 <= k < subnets.len() && in_subnet(ip, #[trigger] subnets[k])
}

/// The servers outside all of the networks, in order.
pub open spec fn outside(servers: Seq<IpAddr>, subnets: Seq<InterfaceView>) -> Seq<IpAddr> {
    servers.filter(|ip: IpAddr| !in_some_subnet(ip, subnets))
}

/// The IPv4 gateway of a route.
pub open spec fn gateway_v4(route: Option<RouteView>) -> Option<Ipv4Addr> {
    match route {
        Some(r) => match r.gateway {
            Some(IpAddr::V4(v4)) => Some(v4),
            _ => None,
        },
        None => None,
    }
}

/// The IPv6 gateway of a route.
pub open spec fn gateway_v6(route: Option<RouteView>) -> Option<Ipv6Addr> {
    match route {
        Some(r) => match r.gateway {
            Some(IpAddr::V6(v6)) => Some(v6),
            _ => None,
        },
        None => None,
    }
}

/// The name servers of a configuration, none where it could not be read.
pub open spec fn servers_in(resolv: Option<Seq<char>>) -> Seq<IpAddr> {
    match resolv {
        Some(c) => nameservers_in(lines(c)),
        None => Seq::empty(),
    }
}

/// The name servers to use: the first of each family. On a host with internal
/// networks, those in such a network do not count, and the default gateway
/// stands in where none is left.
pub open spec fn auto_dns(net: NetworkView, resolv: Option<Seq<char>>) -> DetectedDns {
    let subnets = internal_subnets(net);
    if subnets.len() == 0 {
        match resolv {
            Some(c) => first_nameservers(c),
            None => DetectedDns { v4: None, v6: None },
        }
    } else {
        let servers = outside(servers_in(resolv), subnets);
        DetectedDns {
            v4: match first_v4(servers) {
                Some(v4) => Some(v4),
                None => gateway_v4(net.v4_default),
            },
            v6: match first_v6(servers) {
                Some(v6) => Some(v6),
                None => gateway_v6(net.v6_default),
            },
        }
    }
}

/// The lines about the servers that do not count.
pub open spec fn skip_log(
    servers: Seq<IpAddr>,
    subnets: Seq<InterfaceView>,
    path: Seq<char>,
) -> Seq<LogText>
    decreases servers.len(),
{
    if servers.len() == 0 {
        Seq::empty()
    } else {
        let rest = skip_log(servers.drop_last(), subnets, path);
        if in_some_subnet(servers.last(), subnets) {
            rest.push(
                LogText::Stdout(
                    "[Gateway] Skipping internal bridge nameserver "@ + servers.last().text()
                        + " from "@ + path,
                ),
            )
        } else {
            rest
        }
    }
}

/// The line about a default gateway that stands in.
pub open spec fn fallback_line(gateway: Seq<char>, family: Seq<char>) -> LogText {
    LogText::Stdout(
        "[Gateway] Fallback: Using external default gateway "@ + gateway + " as upstream DNS "@
            + family,
    )
}

/// What the operator is told about the detection.
pub open spec fn auto_dns_log(
    net: NetworkView,
    path: Seq<char>,
    resolv: Option<Seq<char>>,
) -> Seq<LogText> {
    let subnets = internal_subnets(net);
    let servers = outside(servers_in(resolv), subnets);
    if subnets.len() == 0 {
        Seq::empty()
    } else {
        skip_log(servers_in(resolv), subnets, path) + (match (
            first_v4(servers),
            gateway_v4(net.v4_default),
        ) {
            (None, Some(v4)) => seq![fallback_line(v4.text(), "IPv4"@)],
            _ => Seq::empty(),
        }) + (match (first_v6(servers), gateway_v6(net.v6_default)) {
            (None, Some(v6)) => seq![fallback_line(v6.text(), "IPv6"@)],
            _ => Seq::empty(),
        })
    }
}

/// The detected name servers, and what to tell the operator.
pub struct DetectionReport {
    pub dns: DetectedDns,
    pub log: Vec<LogLine>,
}

/// Whether the route leaves by the named interface.
fn leaves_by(route: &Option<DefaultRoute>, ifname: &String) -> (r: bool)
    ensures
        r == (route_view(*route) matches Some(d) && d.ifname == ifname@),
{
    match route {
        Some(d) => same_str(d.ifname.as_str(), ifname.as_str()),
        None => false,
    }
}

/// The addresses on interfaces without the default route.
fn find_internal_subnets(net: &HostNetwork) -> (r: Vec<&InterfaceIp>)
    ensures
        r@.map_values(|i: &InterfaceIp| i@) == internal_subnets(net@),
{
    let mut subnets: Vec<&InterfaceIp> = Vec::new();
    let ghost view = |i: &InterfaceIp| i@;
    let ghost keep = |i: InterfaceView| !is_external(i, net@);
    let ghost all = net@.interfaces;
    reveal(Seq::filter);
    assert(subnets@.map_values(view) =~= all.take(0).filter(keep));
    for k in 0..net.interfaces.len()
        invariant
            all == net@.interfaces,
            view == (|i: &InterfaceIp| i@),
            keep == (|i: InterfaceView| !is_external(i, net@)),
            subnets@.map_values(view) == all.take(k as int).filter(keep),
    {
        reveal(Seq::filter);
        let ghost before = subnets@;
        let i = &net.interfaces[k];
        assert(all[k as int] == i@);
        assert(all.take(k + 1).drop_last() =~= all.take(k as int));
        let external = match i.ip {
            IpAddr::V4(_) => leaves_by(&net.v4_default, &i.ifname),
            IpAddr::V6(_) => leaves_by(&net.v6_default, &i.ifname),
        };
        if !external {
            subnets.push(i);
            assert(subnets@.map_values(view) =~= before.map_values(view).push(i@));
        }
    }
    assert(all.take(net.interfaces@.len() as int) =~= all);
    subnets
}

/// Whether `ip` is in one of the networks.
fn is_in_subnets(ip: IpAddr, subnets: &Vec<&InterfaceIp>) -> (r: bool)
    ensures
        r == in_some_subnet(ip, subnets@.map_values(|i: &InterfaceIp| i@)),
{
    let ghost views = subnets@.map_values(|i: &InterfaceIp| i@);
    for k in 0..subnets.len()
        invariant
            views == subnets@.map_values(|i: &InterfaceIp| i@),
            forall|j: int| 0 <= j < k ==> !in_subnet(ip, #[trigger] views[j]),
    {
        let subnet = subnets[k];
        assert(views[k as int] == subnet@);
        let inside = match (ip, subnet.ip) {
            (IpAddr::V4(a), IpAddr::V4(b)) => canonicalize_v4(a, subnet.prefix) == canonicalize_v4(
                b,
                subnet.prefix,
            ),
            (IpAddr::V6(a), IpAddr::V6(b)) => canonicalize_v6(a, subnet.prefix) == canonicalize_v6(
                b,
                subnet.prefix,
            ),
            _ => false,
        };
        if inside {
            return true;
        }
    }
    false
}

/// Finds the name servers to use. `resolv` is the content of the resolver
/// configuration at `path`, where it could be read.
pub fn detect_auto_dns(net: &HostNetwork, path: &str, resolv: Option<&str>) -> (r: DetectionReport)
    ensures
        r.dns == auto_dns(net@, optional_text(resolv)),
        log_texts(r.log@) == auto_dns_log(net@, path@, optional_text(resolv)),
{
    let subnets = find_internal_subnets(net);
    let ghost views = subnets@.map_values(|i: &InterfaceIp| i@);
    let mut log: Vec<LogLine> = Vec::new();
    assert(log_texts(log@) =~= Seq::empty());
    if subnets.len() == 0 {
        return DetectionReport { dns: detect_system_dns(resolv), log };
    }
    let servers = match resolv {
        Some(c) => parse_all_nameservers(c),
        None => Vec::new(),
    };
    assert(servers@ =~= servers_in(optional_text(resolv)));
    let ghost keep = |ip: IpAddr| !in_some_subnet(ip, views);
    let mut v4: Option<Ipv4Addr> = None;
    let mut v6: Option<Ipv6Addr> = None;
    reveal(Seq::filter);
    for k in 0..servers.len()
        invariant
            views == subnets@.map_values(|i: &InterfaceIp| i@),
            keep == (|ip: IpAddr| !in_some_subnet(ip, views)),
            v4 == first_v4(servers@.take(k as int).filter(keep)),
            v6 == first_v6(servers@.take(k as int).filter(keep)),
            log_texts(log@) == skip_log(servers@.take(k as int), views, path@),
    {
        reveal(Seq::filter);
        let ghost front = servers@.take(k as int);
        assert(servers@.take(k + 1).drop_last() =~= front);
        let ns = servers[k];
        if is_in_subnets(ns, &subnets) {
            add_line(
                &mut log,
                LogLine::Stdout(
                    cat4(
                        "[Gateway] Skipping internal bridge nameserver ",
                        ns.to_text().as_str(),
                        " from ",
                        path,
                    ),
                ),
            );
        } else {
            assert(front.filter(keep).push(ns).drop_last() =~= front.filter(keep));
            match ns {
                IpAddr::V4(a) => {
                    if v4.is_none() {
                        v4 = Some(a);
                    }
                },
                IpAddr::V6(a) => {
                    if v6.is_none() {
                        v6 = Some(a);
                    }
                },
            }
        }
    }
    assert(servers@.take(servers@.len() as int) =~= servers@);
    if v4.is_none() {
        if let Some(d) = &net.v4_default {
            if let Some(IpAddr::V4(gw)) = d.gateway {
                add_line(
                    &mut log,
                    LogLine::Stdout(
                        cat4(
                            "[Gateway] Fallback: Using external default gateway ",
                            gw.to_text().as_str(),
                            " as upstream DNS ",
                            "IPv4",
                        ),
                    ),
                );
                v4 = Some(gw);
            }
        }
    }
    if v6.is_none() {
        if let Some(d) = &net.v6_default {
            if let Some(IpAddr::V6(gw)) = d.gateway {
                add_line(
                    &mut log,
                    LogLine::Stdout(
                        cat4(
                            "[Gateway] Fallback: Using external default gateway ",
                            gw.to_text().as_str(),
                            " as upstream DNS ",
                            "IPv6",
                        ),
                    ),
                );
                v6 = Some(gw);
            }
        }
    }
    assert(log_texts(log@) =~= auto_dns_log(net@, path@, optional_text(resolv)));
    DetectionReport { dns: DetectedDns { v4, v6 }, log }
}

// ---------------------------------------------------------------------------
// Settings
// ---------------------------------------------------------------------------

/// Whether a setting asks for detection.
pub open spec fn is_auto(setting: Seq<char>) -> bool {
    setting.len() == 0 || same_ignoring_case(setting, "auto"@)
}

/// Whether a setting switches the redirection off.
pub open spec fn is_off(setting: Seq<char>) -> bool {
    same_ignoring_case(setting, "off"@) || same_ignoring_case(setting, "none"@)
        || same_ignoring_case(setting, "disabled"@)
}

/// The upstream server of a family: what was detected, none, or what the setting names.
pub open spec fn upstream(setting: Seq<char>, detected: Option<Seq<char>>) -> Option<Seq<char>> {
    if is_auto(setting) {
        detected
    } else if is_off(setting) {
        None
    } else {
        Some(setting)
    }
}

/// What the operator is told about the upstream server of a family. That
/// nothing was detected is told only where `notice` is set.
pub open spec fn upstream_log(
    family: Seq<char>,
    setting: Seq<char>,
    detected: Option<Seq<char>>,
    path: Seq<char>,
    notice: bool,
) -> Seq<LogText> {
    if is_auto(setting) {
        match detected {
            Some(server) => seq![
                LogText::Stdout(
                    "[Gateway] Auto-detected host/gateway DNS "@ + family + " from "@ + path
                        + (": "@ + server),
                ),
            ],
            None => if notice {
                seq![
                    LogText::Stdout(
                        "[Gateway] Notice: No external "@ + family
                            + " nameserver auto-detected from "@ + path,
                    ),
                ]
            } else {
                Seq::empty()
            },
        }
    } else if is_off(setting) {
        seq![
            LogText::Stdout(
                "[Gateway] Transparent DNS "@ + family + " redirect disabled by configuration"@,
            ),
        ]
    } else {
        seq![
            LogText::Stdout(
                "[Gateway] Using specified DNS upstream "@ + family + ": "@ + setting,
            ),
        ]
    }
}

/// The text of the IPv4 server that was detected.
pub open spec fn v4_text(dns: DetectedDns) -> Option<Seq<char>> {
    match dns.v4 {
        Some(v4) => Some(v4.text()),
        None => None,
    }
}

/// The text of the IPv6 server that was detected.
pub open spec fn v6_text(dns: DetectedDns) -> Option<Seq<char>> {
    match dns.v6 {
        Some(v6) => Some(v6.text()),
        None => None,
    }
}

/// Whether a setting asks for detection.
fn asks_auto(setting: &String) -> (r: bool)
    ensures
        r == is_auto(setting@),
{
    setting.as_str().is_empty() || same_str_ignoring_case(setting.as_str(), "auto")
}

/// Whether a setting switches the redirection off.
fn asks_off(setting: &String) -> (r: bool)
    ensures
        r == is_off(setting@),
{
    same_str_ignoring_case(setting.as_str(), "off") || same_str_ignoring_case(
        setting.as_str(),
        "none",
    ) || same_str_ignoring_case(setting.as_str(), "disabled")
}

/// Settles the upstream server of a family.
fn settle_upstream(
    log: &mut Vec<LogLine>,
    family: &str,
    setting: &String,
    detected: Option<String>,
    path: &str,
    notice: bool,
) -> (r: Option<String>)
    ensures
        text_view(r) == upstream(setting@, text_view(detected)),
        log_texts(final(log)@) == log_texts(old(log)@) + upstream_log(
            family@,
            setting@,
            text_view(detected),
            path@,
            notice,
        ),
{
    let ghost start = log_texts(log@);
    let ghost found = text_view(detected);
    let r = if asks_auto(setting) {
        match detected {
            Some(server) => {
                let mut line = cat4(
                    "[Gateway] Auto-detected host/gateway DNS ",
                    family,
                    " from ",
                    path,
                );
                line.append(cat2(": ", server.as_str()).as_str());
                add_line(log, LogLine::Stdout(line));
                Some(server)
            },
            None => {
                if notice {
                    add_line(
                        log,
                        LogLine::Stdout(
                            cat4(
                                "[Gateway] Notice: No external ",
                                family,
                                " nameserver auto-detected from ",
                                path,
                            ),
                        ),
                    );
                }
                None
            },
        }
    } else if asks_off(setting) {
        let mut line = cat2("[Gateway] Transparent DNS ", family);
        line.append(" redirect disabled by configuration");
        add_line(log, LogLine::Stdout(line));
        None
    } else {
        add_line(
            log,
            LogLine::Stdout(
                cat4("[Gateway] Using specified DNS upstream ", family, ": ", setting.as_str()),
            ),
        );
        Some(setting.clone())
    };
    assert(log_texts(log@) =~= start + upstream_log(family@, setting@, found, path@, notice));
    r
}

/// The upstream servers in effect, and what to tell the operator.
pub struct UpstreamReport {
    pub v4: Option<String>,
    pub v6: Option<String>,
    pub log: Vec<LogLine>,
}

/// Settles the upstream server of each family. `resolv` is the content of the
/// resolver configuration, where it could be read.
pub fn resolve_dns_upstreams(config: &DaemonConfig, net: &HostNetwork, resolv: Option<&str>) -> (r:
    UpstreamReport)
    ensures
        ({
            let dns = auto_dns(net@, optional_text(resolv));
            let path = config@.resolv_conf_path;
            &&& text_view(r.v4) == upstream(config@.dns_upstream_v4, v4_text(dns))
            &&& text_view(r.v6) == upstream(config@.dns_upstream_v6, v6_text(dns))
            &&& log_texts(r.log@) == auto_dns_log(net@, path, optional_text(resolv)) + upstream_log(
                "IPv4"@,
                config@.dns_upstream_v4,
                v4_text(dns),
                path,
                true,
            ) + upstream_log("IPv6"@, config@.dns_upstream_v6, v6_text(dns), path, false)
        }),
{
    let path = config.resolv_conf_path.as_str();
    let report = detect_auto_dns(net, path, resolv);
    let mut log = report.log;
    let found_v4 = match report.dns.v4 {
        Some(v4) => Some(v4.to_text()),
        None => None,
    };
    let found_v6 = match report.dns.v6 {
        Some(v6) => Some(v6.to_text()),
        None => None,
    };
    let v4 = settle_upstream(&mut log, "IPv4", &config.dns_upstream_v4, found_v4, path, true);
    let v6 = settle_upstream(&mut log, "IPv6", &config.dns_upstream_v6, found_v6, path, false);
    UpstreamReport { v4, v6, log }
}

// ---------------------------------------------------------------------------
// Laws
// ---------------------------------------------------------------------------

/// Whether server `i` is the first IPv4 one outside all of the networks.
pub open spec fn first_usable_v4(servers: Seq<IpAddr>, subnets: Seq<InterfaceView>, i: int) -> bool {
    &&& 0 <= i < servers.len()
    &&& servers[i] is V4
    &&& !in_some_subnet(servers[i], subnets)
    &&& forall|j: int|
        0 <= j < i && #[trigger] servers[j] is V4 ==> in_some_subnet(servers[j], subnets)
}

/// Whether server `i` is the first IPv6 one outside all of the networks.
pub open spec fn first_usable_v6(servers: Seq<IpAddr>, subnets: Seq<InterfaceView>, i: int) -> bool {
    &&& 0 <= i < servers.len()
    &&& servers[i] is V6
    &&& !in_some_subnet(servers[i], subnets)
    &&& forall|j: int|
        0 <= j < i && #[trigger] servers[j] is V6 ==> in_some_subnet(servers[j], subnets)
}

/// Whether every IPv4 server is in one of the networks.
pub open spec fn no_usable_v4(servers: Seq<IpAddr>, subnets: Seq<InterfaceView>) -> bool {
    forall|i: int|
        0 <= i < servers.len() && #[trigger] servers[i] is V4 ==> in_some_subnet(servers[i], subnets)
}

/// The first IPv4 server that is left is the first usable one.
pub proof fn lemma_first_v4(servers: Seq<IpAddr>, subnets: Seq<InterfaceView>)
    ensures
        match first_v4(outside(servers, subnets)) {
            Some(ip) => exists|i: int|
                #[trigger] first_usable_v4(servers, subnets, i) && servers[i] == IpAddr::V4(ip),
            None => no_usable_v4(servers, subnets),
        },
    decreases servers.len(),
{
    reveal(Seq::filter);
    if servers.len() > 0 {
        let front = servers.drop_last();
        let last = servers.last();
        lemma_first_v4(front, subnets);
        let kept = outside(front, subnets);
        if !in_some_subnet(last, subnets) {
            assert(kept.push(last).drop_last() =~= kept);
        }
        if let Some(ip) = first_v4(kept) {
            let i = choose|i: int|
                #[trigger] first_usable_v4(front, subnets, i) && front[i] == IpAddr::V4(ip);
            assert forall|j: int| 0 <= j < i && #[trigger] servers[j] is V4 implies in_some_subnet(
                servers[j],
                subnets,
            ) by {
                assert(front[j] is V4);
            }
            assert(first_usable_v4(servers, subnets, i));
        } else {
            let n = servers.len() - 1;
            assert forall|j: int| 0 <= j < n && #[trigger] servers[j] is V4 implies in_some_subnet(
                servers[j],
                subnets,
            ) by {
                assert(front[j] is V4);
            }
            if last is V4 && !in_some_subnet(last, subnets) {
                assert(first_usable_v4(servers, subnets, n));
            }
        }
    }
}

/// Whether every IPv6 server is in one of the networks.
pub open spec fn no_usable_v6(servers: Seq<IpAddr>, subnets: Seq<InterfaceView>) -> bool {
    forall|i: int|
        0 <= i < servers.len() && #[trigger] servers[i] is V6 ==> in_some_subnet(servers[i], subnets)
}

/// The first IPv6 server that is left is the first usable one.
pub proof fn lemma_first_v6(servers: Seq<IpAddr>, subnets: Seq<InterfaceView>)
    ensures
        match first_v6(outside(servers, subnets)) {
            Some(ip) => exists|i: int|
                #[trigger] first_usable_v6(servers, subnets, i) && servers[i] == IpAddr::V6(ip),
            None => no_usable_v6(servers, subnets),
        },
    decreases servers.len(),
{
    reveal(Seq::filter);
    if servers.len() > 0 {
        let front = servers.drop_last();
        let last = servers.last();
        lemma_first_v6(front, subnets);
        let kept = outside(front, subnets);
        if !in_some_subnet(last, subnets) {
            assert(kept.push(last).drop_last() =~= kept);
        }
        if let Some(ip) = first_v6(kept) {
            let i = choose|i: int|
                #[trigger] first_usable_v6(front, subnets, i) && front[i] == IpAddr::V6(ip);
            assert forall|j: int| 0 <= j < i && #[trigger] servers[j] is V6 implies in_some_subnet(
                servers[j],
                subnets,
            ) by {
                assert(front[j] is V6);
            }
            assert(first_usable_v6(servers, subnets, i));
        } else {
            let n = servers.len() - 1;
            assert forall|j: int| 0 <= j < n && #[trigger] servers[j] is V6 implies in_some_subnet(
                servers[j],
                subnets,
            ) by {
                assert(front[j] is V6);
            }
            if last is V6 && !in_some_subnet(last, subnets) {
                assert(first_usable_v6(servers, subnets, n));
            }
        }
    }
}

/// Without networks to leave out nothing is left out.
proof fn lemma_nothing_left_out(servers: Seq<IpAddr>)
    ensures
        outside(servers, Seq::empty()) == servers,
    decreases servers.len(),
{
    reveal(Seq::filter);
    if servers.len() > 0 {
        lemma_nothing_left_out(servers.drop_last());
        assert(!in_some_subnet(servers.last(), Seq::empty()));
        assert(outside(servers, Seq::empty()) =~= servers);
    } else {
        assert(outside(servers, Seq::empty()) =~= servers);
    }
}

/// A detected server is never made up, and is not that of an internal network:
/// per family it is the first configured one outside the internal networks;
/// only without one, and only on a host that has such networks, it is the
/// default gateway. Without a server there was neither.
pub proof fn detected_servers_are_external(net: NetworkView, resolv: Option<Seq<char>>)
    ensures
        ({
            let servers = servers_in(resolv);
            let subnets = internal_subnets(net);
            let dns = auto_dns(net, resolv);
            &&& match dns.v4 {
                Some(ip) => {
                    ||| exists|i: int|
                        #[trigger] first_usable_v4(servers, subnets, i) && servers[i] == IpAddr::V4(ip)
                    ||| subnets.len() > 0 && gateway_v4(net.v4_default) == Some(ip)
                        && no_usable_v4(servers, subnets)
                },
                None => no_usable_v4(servers, subnets) && (subnets.len() > 0 ==> gateway_v4(
                    net.v4_default,
                ) is None),
            }
            &&& match dns.v6 {
                Some(ip) => {
                    ||| exists|i: int|
                        #[trigger] first_usable_v6(servers, subnets, i) && servers[i] == IpAddr::V6(ip)
                    ||| subnets.len() > 0 && gateway_v6(net.v6_default) == Some(ip)
                        && no_usable_v6(servers, subnets)
                },
                None => no_usable_v6(servers, subnets) && (subnets.len() > 0 ==> gateway_v6(
                    net.v6_default,
                ) is None),
            }
        }),
{
    let servers = servers_in(resolv);
    let subnets = internal_subnets(net);
    lemma_first_v4(servers, subnets);
    lemma_first_v6(servers, subnets);
    if subnets.len() == 0 {
        assert(subnets =~= Seq::empty());
        lemma_nothing_left_out(servers);
    }
}

/// What a setting comes to: `off`, `none` and `disabled`, in any case, mean no
/// server whatever was detected; `auto`, in any case, and nothing mean what was
/// detected; anything else means itself.
pub proof fn settings_mean_what_they_say(setting: Seq<char>, detected: Option<Seq<char>>)
    ensures
        is_off(setting) ==> upstream(setting, detected) is None,
        is_auto(setting) ==> upstream(setting, detected) == detected,
        !is_off(setting) && !is_auto(setting) ==> upstream(setting, detected) == Some(setting),
        !(is_off(setting) && is_auto(setting)),
{
    reveal_strlit("auto");
    reveal_strlit("off");
    reveal_strlit("none");
    reveal_strlit("disabled");
    if same_ignoring_case(setting, "none"@) && same_ignoring_case(setting, "auto"@) {
        assert(lower("none"@[0]) == lower("auto"@[0]));
    }
}

} // verus!
