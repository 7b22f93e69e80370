use nft_egress_daemon::addr::IpAddr;
use nft_egress_daemon::cidr::{canonicalize_v4, canonicalize_v6};
use nft_egress_daemon::ipv4::Ipv4Addr;
use nft_egress_daemon::ipv6::Ipv6Addr;
use nft_egress_daemon::log::LogLine;
use nft_egress_daemon::parser::{examine_whitelist, parse_line, parse_whitelist, EntryType};
use nft_egress_daemon::resolv::{detect_system_dns, parse_all_nameservers, parse_resolv_conf};

fn v4(text: &str) -> Option<Ipv4Addr> {
    Ipv4Addr::read(&text.chars().collect::<Vec<char>>())
}

fn v6(text: &str) -> Option<Ipv6Addr> {
    Ipv6Addr::read(&text.chars().collect::<Vec<char>>())
}

#[test]
fn test_parse_resolv_conf() {
    let sample = r"
        # DNS configuration
        search example.com
        nameserver 10.89.5.1 # Gateway container DNS
        nameserver 1.1.1.1   # Secondary
        nameserver 2606:4700:4700::1111 ; IPv6 DNS
        options edns0
        ";
    let detected = parse_resolv_conf(sample);
    assert_eq!(detected.v4, Some(Ipv4Addr::new(10, 89, 5, 1)));
    assert_eq!(detected.v6, Some(v6("2606:4700:4700::1111").unwrap()));
}

#[test]
fn test_parse_all_nameservers() {
    let sample = r"
        search dns.podman
        nameserver 10.89.0.1
        nameserver fd26::1
        nameserver 1.1.1.1
        ";
    let all = parse_all_nameservers(sample);
    assert_eq!(all.len(), 3);
    assert_eq!(all[0], IpAddr::V4(Ipv4Addr::new(10, 89, 0, 1)));
    assert_eq!(all[1], IpAddr::V6(v6("fd26::1").unwrap()));
    assert_eq!(all[2], IpAddr::V4(Ipv4Addr::new(1, 1, 1, 1)));
}

#[test]
fn test_parse_resolv_conf_empty() {
    let detected = parse_resolv_conf("# Only comments\nsearch local\n");
    assert_eq!(detected.v4, None);
    assert_eq!(detected.v6, None);
}

#[test]
fn test_valid_entries() {
    let sample = r"
        # Comments and whitespace
        192.168.1.100
        10.0.0.0/8 # Private IPv4 CIDR
        fc00:1234::1
        fd12:3456:789a::/48 # IPv6 CIDR
        ";
    let res = parse_whitelist(sample, true).unwrap();
    assert_eq!(res.v4, vec!["10.0.0.0/8", "192.168.1.100"]);
    assert_eq!(res.v6, vec!["fc00:1234::1", "fd12:3456:789a::/48"]);
}

#[test]
fn test_deduplication() {
    let sample = r"
        192.168.1.100
        192.168.1.100
        10.0.0.0/8
        10.0.0.0/8
        fc00::1
        fc00::1
        ";
    let res = parse_whitelist(sample, true).unwrap();
    assert_eq!(res.v4, vec!["10.0.0.0/8", "192.168.1.100"]);
    assert_eq!(res.v6, vec!["fc00::1"]);
}

#[test]
fn test_cidr_canonicalization_non_strict() {
    let sample = r"
        192.168.1.50/24
        fd12:3456:789a:1::1/48
        ";
    let res = parse_whitelist(sample, false).unwrap();
    assert_eq!(res.v4, vec!["192.168.1.0/24"]);
    assert_eq!(res.v6, vec!["fd12:3456:789a::/48"]);
}

#[test]
fn test_cidr_canonicalization_strict_fails() {
    let sample = "192.168.1.50/24\n";
    let err = parse_whitelist(sample, true).unwrap_err();
    assert!(err.contains("has host bits set"));
}

#[test]
fn test_invalid_entries_non_strict() {
    let sample = "192.168.1.1\ninvalid-ip\n10.0.0.1/99\n::1\n";
    let res = parse_whitelist(sample, false).unwrap();
    assert_eq!(res.v4, vec!["192.168.1.1"]);
    assert_eq!(res.v6, vec!["::1"]);
}

#[test]
fn test_invalid_entries_strict() {
    let sample = "192.168.1.1\ninvalid-ip\n";
    assert!(parse_whitelist(sample, true).is_err());
}

#[test]
fn test_detect_system_dns() {
    // "/nonexistent_path/resolv.conf" cannot be read, so there is no content.
    let detected = detect_system_dns(None);
    assert_eq!(detected.v4, None);
    assert_eq!(detected.v6, None);
}

#[test]
fn system_dns_from_content() {
    let detected = detect_system_dns(Some("nameserver 9.9.9.9\n"));
    assert_eq!(detected.v4, Some(Ipv4Addr::new(9, 9, 9, 9)));
    assert_eq!(detected.v6, None);
}

#[test]
fn nameserver_lines() {
    let one = |line: &str| parse_all_nameservers(line);
    let nine = vec![IpAddr::V4(Ipv4Addr::new(9, 9, 9, 9))];
    assert_eq!(one("nameserver 9.9.9.9 8.8.8.8"), nine);
    assert_eq!(one("\tnameserver\t9.9.9.9;x"), nine);
    assert_eq!(one("nameserver 9.9.9.9\r\n"), nine);
    assert_eq!(one("nameserver"), vec![]);
    assert_eq!(one("nameservers 9.9.9.9"), vec![]);
    assert_eq!(one("Nameserver 9.9.9.9"), vec![]);
    assert_eq!(one("# nameserver 9.9.9.9"), vec![]);
    assert_eq!(one("; nameserver 9.9.9.9"), vec![]);
    assert_eq!(one("nameserver fe80::1%eth0"), vec![]);
}

#[test]
fn line_results() {
    let say = |line: &str| parse_line(line, false);
    assert_eq!(say(""), Ok(None));
    assert_eq!(say("   # only a comment"), Ok(None));
    assert_eq!(say(" 10.1.2.3 # host"), Ok(Some(EntryType::V4("10.1.2.3".to_string()))));
    assert_eq!(say("FE80::0001"), Ok(Some(EntryType::V6("fe80::1".to_string()))));
    assert_eq!(say("10.1.2.3 / 8"), Ok(Some(EntryType::V4("10.0.0.0/8".to_string()))));
    assert_eq!(say("10.1.2.3/+8"), Ok(Some(EntryType::V4("10.0.0.0/8".to_string()))));
    assert_eq!(say("10.1.2.3/0"), Ok(Some(EntryType::V4("0.0.0.0/0".to_string()))));
    assert_eq!(say("10.1.2.3/32"), Ok(Some(EntryType::V4("10.1.2.3/32".to_string()))));
    assert_eq!(say("fd00::1/128"), Ok(Some(EntryType::V6("fd00::1/128".to_string()))));
    assert_eq!(say("fd00::1/0"), Ok(Some(EntryType::V6("::/0".to_string()))));
    assert_eq!(
        say("::ffff:1.2.3.4"),
        Ok(Some(EntryType::V6("::ffff:1.2.3.4".to_string())))
    );
}

#[test]
fn line_errors() {
    let fail = |line: &str, strict: bool| parse_line(line, strict).unwrap_err();
    assert_eq!(fail("nonsense", false), "Invalid IP address or CIDR: 'nonsense'");
    assert_eq!(fail("01.2.3.4", false), "Invalid IP address or CIDR: '01.2.3.4'");
    assert_eq!(fail("10.0.0.0/x # c", false), "Invalid CIDR prefix 'x' in '10.0.0.0/x'");
    assert_eq!(fail("10.0.0.0/256", false), "Invalid CIDR prefix '256' in '10.0.0.0/256'");
    assert_eq!(fail("10.0.0.0/8/8", false), "Invalid CIDR prefix '8/8' in '10.0.0.0/8/8'");
    assert_eq!(fail("10.0.0.0/33", false), "IPv4 CIDR prefix /33 must be <= 32 in '10.0.0.0/33'");
    assert_eq!(fail("fd00::/129", false), "IPv6 CIDR prefix /129 must be <= 128 in 'fd00::/129'");
    assert_eq!(fail("host/8", false), "Invalid IP address 'host' in CIDR 'host/8'");
    assert_eq!(
        fail("192.168.1.50/24", true),
        "IPv4 CIDR '192.168.1.50/24' has host bits set, expected '192.168.1.0/24'"
    );
    assert_eq!(
        fail("fd12::1/48", true),
        "IPv6 CIDR 'fd12::1/48' has host bits set, expected 'fd12::/48'"
    );
}

#[test]
fn strict_reading_names_the_line() {
    assert_eq!(
        parse_whitelist("10.0.0.1\n\nbad\nworse\n", true).unwrap_err(),
        "Line 3: Invalid IP address or CIDR: 'bad'"
    );
}

#[test]
fn lenient_reading_tells_the_operator() {
    let report = examine_whitelist("10.1.2.3/8\nbad\nfd12::1/48\n", false);
    assert_eq!(
        report.log,
        vec![
            LogLine::Stderr(
                "[Gateway] Notice: Canonicalized IPv4 CIDR '10.1.2.3/8' -> '10.0.0.0/8'".to_string()
            ),
            LogLine::Stderr(
                "[Gateway] Warning: Ignored invalid whitelist entry: Line 2: Invalid IP address or CIDR: 'bad'"
                    .to_string()
            ),
            LogLine::Stderr(
                "[Gateway] Notice: Canonicalized IPv6 CIDR 'fd12::1/48' -> 'fd12::/48'".to_string()
            ),
        ]
    );
    assert_eq!(examine_whitelist("10.1.2.3/8\n", true).log, vec![]);
}

#[test]
fn whitelist_reads_back() {
    let first = parse_whitelist("fd12::1/48\n10.1.2.3/8\n10.1.2.3\n9.9.9.9\n", false).unwrap();
    let mut out = String::new();
    for entry in first.v4.iter().chain(first.v6.iter()) {
        out.push_str(entry);
        out.push('\n');
    }
    assert_eq!(parse_whitelist(&out, true), Ok(first));
}

#[test]
fn order_and_repetition_do_not_matter() {
    let a = parse_whitelist("9.9.9.9\n10.0.0.1\n", true);
    let b = parse_whitelist("10.0.0.1\r\n9.9.9.9\n10.0.0.1", true);
    assert_eq!(a, b);
    assert_eq!(a.unwrap().v4, vec!["10.0.0.1", "9.9.9.9"]);
}

#[test]
fn comments_and_margins() {
    for line in ["10.1.2.3/8", "\t10.1.2.3/8  ", "10.1.2.3/8# a # b", "  10.1.2.3/8 #"] {
        assert_eq!(parse_line(line, false), Ok(Some(EntryType::V4("10.0.0.0/8".to_string()))));
        assert!(parse_line(line, true).is_err());
    }
    assert_eq!(parse_line("\u{3000}::1\u{a0}", true), Ok(Some(EntryType::V6("::1".to_string()))));
}

#[test]
fn canonicalization() {
    let ip = Ipv4Addr::new(192, 168, 255, 129);
    assert_eq!(canonicalize_v4(ip, 0), Ipv4Addr::new(0, 0, 0, 0));
    assert_eq!(canonicalize_v4(ip, 1), Ipv4Addr::new(128, 0, 0, 0));
    assert_eq!(canonicalize_v4(ip, 24), Ipv4Addr::new(192, 168, 255, 0));
    assert_eq!(canonicalize_v4(ip, 25), Ipv4Addr::new(192, 168, 255, 128));
    assert_eq!(canonicalize_v4(ip, 32), ip);
    assert_eq!(canonicalize_v4(ip, 255), ip);
    let ip = v6("ffff:ffff::ffff").unwrap();
    assert_eq!(canonicalize_v6(ip, 0), v6("::").unwrap());
    assert_eq!(canonicalize_v6(ip, 17), v6("ffff:8000::").unwrap());
    assert_eq!(canonicalize_v6(ip, 127), v6("ffff:ffff::fffe").unwrap());
    assert_eq!(canonicalize_v6(ip, 128), ip);
    assert_eq!(canonicalize_v6(ip, 200), ip);
    assert_eq!(canonicalize_v6(canonicalize_v6(ip, 20), 20), canonicalize_v6(ip, 20));
    assert_eq!(canonicalize_v6(canonicalize_v6(ip, 17), 20), canonicalize_v6(ip, 17));
    assert_eq!(canonicalize_v6(canonicalize_v6(ip, 20), 17), canonicalize_v6(ip, 17));
}

#[test]
fn v4_texts() {
    assert_eq!(v4("0.0.0.0"), Some(Ipv4Addr { bits: 0 }));
    assert_eq!(v4("255.255.255.255"), Some(Ipv4Addr { bits: u32::MAX }));
    assert_eq!(v4("1.2.3.4").unwrap().to_text(), "1.2.3.4");
    for bad in ["", "1.2.3", "1.2.3.4.5", "1.2.3.256", "1.2.3.04", "1.2.3.+4", " 1.2.3.4", "1..2.3", "1.2.3.4."] {
        assert_eq!(v4(bad), None);
    }
    assert!(v4("127.3.2.1").unwrap().is_loopback());
    assert!(!v4("128.0.0.1").unwrap().is_loopback());
}

#[test]
fn v6_texts() {
    for (text, wanted) in [
        ("::", "::"),
        ("::1", "::1"),
        ("1::", "1::"),
        ("0:0:0:0:0:0:0:0", "::"),
        ("1:0:0:2:0:0:0:3", "1:0:0:2::3"),
        ("1:0:0:2:3:0:0:4", "1::2:3:0:0:4"),
        ("1:0:2:3:4:5:6:7", "1:0:2:3:4:5:6:7"),
        ("2001:DB8::A", "2001:db8::a"),
        ("::ffff:192.0.2.1", "::ffff:192.0.2.1"),
        ("::192.0.2.1", "::c000:201"),
        ("64:ff9b::192.0.2.33", "64:ff9b::c000:221"),
        ("1:2:3:4:5:6:7.8.9.10", "1:2:3:4:5:6:708:90a"),
        ("1:2:3:4:5:6:7::", "1:2:3:4:5:6:7:0"),
        ("::2:3:4:5:6:7:8", "0:2:3:4:5:6:7:8"),
        ("1:2:3:4:5::1.2.3.4", "1:2:3:4:5:0:102:304"),
    ] {
        assert_eq!(v6(text).unwrap().to_text(), wanted);
        assert_eq!(v6(wanted), v6(text));
    }
    for bad in [
        "", ":", ":::", "1", "1:2:3:4:5:6:7", "1:2:3:4:5:6:7:8:9", "1::2::3", "12345::", "g::", ":1::", "1:::2",
        "1:2:3:4:5:6:7:8::", "::1.2.3", "1.2.3.4::", "fe80::1%1", " ::1", "1:2:3:4:5:6:7::8",
        "1:2:3:4:5:6::1.2.3.4", "1:2:3:4:5:6:7:1.2.3.4", "::01.2.3.4", "1:1.2.3.4::",
    ] {
        assert_eq!(v6(bad), None);
    }
    assert!(v6("::1").unwrap().is_loopback());
    assert!(!v6("::2").unwrap().is_loopback());
}
