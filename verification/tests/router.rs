use nft_egress_daemon::addr::IpAddr;
use nft_egress_daemon::ipv4::Ipv4Addr;
use nft_egress_daemon::ipv6::Ipv6Addr;
use nft_egress_daemon::router::{
    get_default_routes, get_gateway_ips, parse_default_route_line, parse_ip_line,
};

fn v6(text: &str) -> Ipv6Addr {
    Ipv6Addr::read(&text.chars().collect::<Vec<char>>()).unwrap()
}

#[test]
fn test_parse_ip_line_v4() {
    let line = "2: eth0    inet 172.20.0.2/24 brd 172.20.0.255 scope global eth0\\       valid_lft forever";
    let parsed = parse_ip_line(line).unwrap();
    assert_eq!(parsed.ifname, "eth0");
    assert_eq!(parsed.ip, IpAddr::V4(Ipv4Addr::new(172, 20, 0, 2)));
    assert_eq!(parsed.prefix, 24);
}

#[test]
fn test_parse_ip_line_v6() {
    let line = "2: eth0    inet6 fd00:dead:beef::2/64 scope global \\       valid_lft forever";
    let parsed = parse_ip_line(line).unwrap();
    assert_eq!(parsed.ifname, "eth0");
    assert_eq!(parsed.ip, IpAddr::V6(v6("fd00:dead:beef::2")));
    assert_eq!(parsed.prefix, 64);
}

#[test]
fn test_parse_default_route_line() {
    let line_v4 = "default via 10.89.1.1 dev eth1 proto static metric 100";
    let r_v4 = parse_default_route_line(line_v4).unwrap();
    assert_eq!(r_v4.ifname, "eth1");
    assert_eq!(r_v4.gateway, Some(IpAddr::V4(Ipv4Addr::new(10, 89, 1, 1))));

    let line_v6 = "default via fd62::1 dev eth1 proto static metric 100";
    let r_v6 = parse_default_route_line(line_v6).unwrap();
    assert_eq!(r_v6.ifname, "eth1");
    assert_eq!(r_v6.gateway, Some(IpAddr::V6(v6("fd62::1"))));

    let line_no_via = "default dev eth0 proto kernel scope link";
    let r_no_via = parse_default_route_line(line_no_via).unwrap();
    assert_eq!(r_no_via.ifname, "eth0");
    assert_eq!(r_no_via.gateway, None);
}

#[test]
fn ip_lines_that_give_nothing() {
    assert!(parse_ip_line("").is_none());
    assert!(parse_ip_line("eth0 inet 10.0.0.1/8").is_none());
    assert!(parse_ip_line("inet 10.0.0.1/8 scope global").is_none());
    assert!(parse_ip_line("2: a eth0 inet").is_none());
    assert!(parse_ip_line("2: eth0 inet 10.0.0.1 brd").is_none());
    assert!(parse_ip_line("2: eth0 inet 10.0.0.1/256").is_none());
    assert!(parse_ip_line("2: eth0 inet fd00::1/64").is_none());
    assert!(parse_ip_line("2: eth0 inet6 10.0.0.1/8").is_none());
    assert!(parse_ip_line("1: lo inet 127.0.0.1/8 scope host").is_none());
    assert!(parse_ip_line("1: lo inet6 ::1/128 scope host").is_none());
}

#[test]
fn interface_names_are_cleaned() {
    assert_eq!(parse_ip_line("2: eth0@if7: inet 10.0.0.1/8").unwrap().ifname, "eth0");
    assert_eq!(parse_ip_line("2: :veth: inet 10.0.0.1/200").unwrap().prefix, 200);
    assert_eq!(parse_default_route_line("default dev eth1@if9").unwrap().ifname, "eth1");
}

#[test]
fn gateway_addresses() {
    let v4 = "2: eth0 inet 10.0.0.1/8 scope global\n1: lo inet 10.9.9.9/32 scope global\nnoise\n";
    let v6_output = "2: eth0 inet6 fd00::1/64 scope global\n";
    let ips = get_gateway_ips(Some(v4), Some(v6_output));
    assert_eq!(ips.len(), 2);
    assert_eq!(ips[0].ip, IpAddr::V4(Ipv4Addr::new(10, 0, 0, 1)));
    assert_eq!(ips[1].ip, IpAddr::V6(v6("fd00::1")));
    assert_eq!(get_gateway_ips(None, Some(v6_output)).len(), 1);
    assert_eq!(get_gateway_ips(None, None).len(), 0);
}

#[test]
fn default_routes() {
    let (v4, v6_route) = get_default_routes(
        Some("10.0.0.0/8 dev eth0\ndefault via 10.0.0.254 dev eth0\ndefault via 10.0.0.9 dev eth1\n"),
        None,
    );
    assert_eq!(v4.unwrap().gateway, Some(IpAddr::V4(Ipv4Addr::new(10, 0, 0, 254))));
    assert!(v6_route.is_none());
    let (v4, v6_route) = get_default_routes(None, Some("default via fd00::9 dev eth2 metric 1\n"));
    assert!(v4.is_none());
    assert_eq!(v6_route.unwrap().ifname, "eth2");
}

#[test]
fn route_lines() {
    assert!(parse_default_route_line("").is_none());
    assert!(parse_default_route_line("10.0.0.0/8 dev eth0").is_none());
    assert!(parse_default_route_line("default via 10.0.0.1").is_none());
    let bad_gateway = parse_default_route_line("default via nowhere dev eth0").unwrap();
    assert_eq!(bad_gateway.gateway, None);
    let twice = parse_default_route_line("default via 1.1.1.1 dev a via 2.2.2.2 dev b").unwrap();
    assert_eq!(twice.ifname, "b");
    assert_eq!(twice.gateway, Some(IpAddr::V4(Ipv4Addr::new(2, 2, 2, 2))));
    assert_eq!(parse_default_route_line("default dev eth0 dev").unwrap().ifname, "eth0");
}
