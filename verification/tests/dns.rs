use nft_egress_daemon::addr::IpAddr;
use nft_egress_daemon::config::DaemonConfig;
use nft_egress_daemon::dns::{detect_auto_dns, resolve_dns_upstreams, HostNetwork};
use nft_egress_daemon::ipv4::Ipv4Addr;
use nft_egress_daemon::ipv6::Ipv6Addr;
use nft_egress_daemon::log::LogLine;
use nft_egress_daemon::router::{get_default_routes, get_gateway_ips};

const PATH: &str = "/etc/resolv.conf";

fn v6(text: &str) -> Ipv6Addr {
    Ipv6Addr::read(&text.chars().collect::<Vec<char>>()).unwrap()
}

fn out(text: &str) -> LogLine {
    LogLine::Stdout(text.to_string())
}

/// A host with one external and, for both families, one internal interface.
fn bridged() -> HostNetwork {
    let (v4_default, v6_default) = get_default_routes(
        Some("default via 192.0.2.1 dev eth0\n"),
        Some("default via 2001:db8::1 dev eth0\n"),
    );
    HostNetwork {
        interfaces: get_gateway_ips(
            Some("2: eth0 inet 192.0.2.7/24 scope global\n3: br0 inet 10.89.0.1/24 scope global\n"),
            Some("2: eth0 inet6 2001:db8::7/64 scope global\n3: br0 inet6 fd26::1/64 scope global\n"),
        ),
        v4_default,
        v6_default,
    }
}

fn external_only() -> HostNetwork {
    let (v4_default, v6_default) = get_default_routes(Some("default via 192.0.2.1 dev eth0\n"), None);
    HostNetwork {
        interfaces: get_gateway_ips(Some("2: eth0 inet 192.0.2.7/24 scope global\n"), None),
        v4_default,
        v6_default,
    }
}

#[test]
fn internal_servers_are_skipped() {
    let resolv = "nameserver 10.89.0.53\nnameserver fd26::53\nnameserver 9.9.9.9\nnameserver 8.8.8.8\nnameserver 2620:fe::fe\n";
    let report = detect_auto_dns(&bridged(), PATH, Some(resolv));
    assert_eq!(report.dns.v4, Some(Ipv4Addr::new(9, 9, 9, 9)));
    assert_eq!(report.dns.v6, Some(v6("2620:fe::fe")));
    assert_eq!(
        report.log,
        vec![
            out("[Gateway] Skipping internal bridge nameserver 10.89.0.53 from /etc/resolv.conf"),
            out("[Gateway] Skipping internal bridge nameserver fd26::53 from /etc/resolv.conf"),
        ]
    );
}

#[test]
fn the_default_gateway_stands_in() {
    for resolv in [None, Some("nameserver 10.89.0.53\n")] {
        let report = detect_auto_dns(&bridged(), PATH, resolv);
        assert_eq!(report.dns.v4, Some(Ipv4Addr::new(192, 0, 2, 1)));
        assert_eq!(report.dns.v6, Some(v6("2001:db8::1")));
        let n = report.log.len();
        assert_eq!(
            report.log[n - 2],
            out("[Gateway] Fallback: Using external default gateway 192.0.2.1 as upstream DNS IPv4")
        );
        assert_eq!(
            report.log[n - 1],
            out("[Gateway] Fallback: Using external default gateway 2001:db8::1 as upstream DNS IPv6")
        );
    }
}

#[test]
fn a_host_without_internal_networks_takes_the_configuration() {
    let report = detect_auto_dns(&external_only(), PATH, Some("nameserver 192.0.2.1\n"));
    assert_eq!(report.dns.v4, Some(Ipv4Addr::new(192, 0, 2, 1)));
    assert_eq!(report.dns.v6, None);
    assert_eq!(report.log, vec![]);
    let report = detect_auto_dns(&external_only(), PATH, None);
    assert_eq!(report.dns.v4, None);
    assert_eq!(report.dns.v6, None);
}

#[test]
fn without_a_default_route_every_interface_is_internal() {
    let net = HostNetwork {
        interfaces: get_gateway_ips(Some("2: eth0 inet 192.0.2.7/24 scope global\n"), None),
        v4_default: None,
        v6_default: None,
    };
    let report = detect_auto_dns(&net, PATH, Some("nameserver 192.0.2.1\nnameserver 9.9.9.9\n"));
    assert_eq!(report.dns.v4, Some(Ipv4Addr::new(9, 9, 9, 9)));
    assert_eq!(net.interfaces[0].ip, IpAddr::V4(Ipv4Addr::new(192, 0, 2, 7)));
}

#[test]
fn detected_upstreams() {
    let config = DaemonConfig::default();
    let report = resolve_dns_upstreams(&config, &external_only(), Some("nameserver 9.9.9.9\nnameserver ::2\n"));
    assert_eq!(report.v4.as_deref(), Some("9.9.9.9"));
    assert_eq!(report.v6.as_deref(), Some("::2"));
    assert_eq!(
        report.log,
        vec![
            out("[Gateway] Auto-detected host/gateway DNS IPv4 from /etc/resolv.conf: 9.9.9.9"),
            out("[Gateway] Auto-detected host/gateway DNS IPv6 from /etc/resolv.conf: ::2"),
        ]
    );
    let report = resolve_dns_upstreams(&config, &external_only(), None);
    assert_eq!(report.v4, None);
    assert_eq!(report.v6, None);
    assert_eq!(
        report.log,
        vec![out("[Gateway] Notice: No external IPv4 nameserver auto-detected from /etc/resolv.conf")]
    );
}

#[test]
fn settings_override_detection() {
    let mut config = DaemonConfig::default();
    config.dns_upstream_v4 = "10.0.0.53".to_string();
    for off in ["off", "None", "DISABLED"] {
        config.dns_upstream_v6 = off.to_string();
        let report = resolve_dns_upstreams(&config, &external_only(), Some("nameserver ::2\n"));
        assert_eq!(report.v4.as_deref(), Some("10.0.0.53"));
        assert_eq!(report.v6, None);
        assert_eq!(
            report.log,
            vec![
                out("[Gateway] Using specified DNS upstream IPv4: 10.0.0.53"),
                out("[Gateway] Transparent DNS IPv6 redirect disabled by configuration"),
            ]
        );
    }
    for auto in ["", "AUTO", "Auto"] {
        config.dns_upstream_v6 = auto.to_string();
        let report = resolve_dns_upstreams(&config, &external_only(), Some("nameserver ::2\n"));
        assert_eq!(report.v6.as_deref(), Some("::2"));
    }
    config.dns_upstream_v4 = "off".to_string();
    config.dns_upstream_v6 = "auto ".to_string();
    let report = resolve_dns_upstreams(&config, &external_only(), None);
    assert_eq!(report.v4, None);
    assert_eq!(report.v6.as_deref(), Some("auto "));
    assert_eq!(
        report.log,
        vec![
            out("[Gateway] Transparent DNS IPv4 redirect disabled by configuration"),
            out("[Gateway] Using specified DNS upstream IPv6: auto "),
        ]
    );
}
