use nft_egress_daemon::log::LogLine;
use nft_egress_daemon::nft::{
    announce_ruleset_content, announce_ruleset_load, conclude_batch, conclude_dns_redirect, conclude_ruleset_content, conclude_ruleset_load,
    generate_base_ruleset, generate_batch_script, generate_dns_redirect_script, NftExit, NftRun,
};
use nft_egress_daemon::parser::WhitelistEntries;

#[test]
fn test_batch_script_generation() {
    let entries = WhitelistEntries {
        v4: vec!["1.1.1.1".to_string(), "10.0.0.0/8".to_string()],
        v6: vec!["fe80::1".to_string()],
    };
    let script = generate_batch_script("inet", "filter", "lan_v4", "lan_v6", &entries);
    assert_eq!(
        script,
        "flush set inet filter lan_v4\nadd element inet filter lan_v4 { 1.1.1.1, 10.0.0.0/8 }\nflush set inet filter lan_v6\nadd element inet filter lan_v6 { fe80::1 }\n"
    );
}

#[test]
fn test_batch_script_generation_empty() {
    let entries = WhitelistEntries::default();
    let script = generate_batch_script("inet", "filter", "lan_v4", "lan_v6", &entries);
    assert_eq!(
        script,
        "flush set inet filter lan_v4\nflush set inet filter lan_v6\n"
    );
}

#[test]
fn test_dns_redirect_script_generation() {
    let script = generate_dns_redirect_script(
        "inet",
        "filter",
        Some("8.8.8.8"),
        Some("2001:4860:4860::8888"),
    );
    assert!(script.contains("flush chain inet filter nat_output"));
    assert!(script.contains("dnat ip to 8.8.8.8:53"));
    assert!(script.contains("dnat ip6 to [2001:4860:4860::8888]:53"));
    assert!(script.contains("flush set inet filter dns_upstream_v4"));
    assert!(script.contains("add element inet filter dns_upstream_v4 { 8.8.8.8 }"));
    assert!(script.contains("flush set inet filter dns_upstream_v6"));
    assert!(script.contains("add element inet filter dns_upstream_v6 { 2001:4860:4860::8888 }"));
}

#[test]
fn test_dns_redirect_script_generation_v4_only() {
    let script = generate_dns_redirect_script("inet", "filter", Some("10.89.5.1"), None);
    assert!(script.contains("flush chain inet filter nat_output"));
    assert!(script.contains("dnat ip to 10.89.5.1:53"));
    assert!(!script.contains("dnat ip6"));
    assert!(script.contains("add element inet filter dns_upstream_v4 { 10.89.5.1 }"));
}

#[test]
fn test_base_ruleset_generation() {
    let ruleset = generate_base_ruleset(
        "inet",
        "filter",
        "lan_v4",
        "lan_v6",
        Some("1.1.1.1"),
        Some("2606:4700:4700::1111"),
    );
    assert!(ruleset.contains("chain nat_output"));
    assert!(ruleset.contains("type nat hook output priority dstnat; policy accept;"));
    assert!(ruleset.contains("dnat ip to 1.1.1.1:53"));
    assert!(ruleset.contains("dnat ip6 to [2606:4700:4700::1111]:53"));
    assert!(ruleset.contains("chain nat_postrouting"));
    assert!(ruleset.contains("type nat hook postrouting priority srcnat; policy accept;"));
    assert!(ruleset.contains("oifname != \"lo\" masquerade"));
    assert!(ruleset.contains("chain output"));
    assert!(ruleset.contains("type filter hook output priority 0; policy drop;"));
    assert!(ruleset.contains("oifname \"lo\" accept"));
    assert!(ruleset.contains("ip daddr @dns_upstream_v4 th dport 53 accept"));
    assert!(ruleset.contains("ip6 daddr @dns_upstream_v6 th dport 53 accept"));
    assert!(ruleset.contains("ip daddr @lan_v4 accept"));
    assert!(ruleset.contains("ip6 daddr @lan_v6 accept"));
    assert!(ruleset.contains("ip daddr @private_v4 drop"));
    assert!(ruleset.contains("ip6 daddr @private_v6 drop"));
}

#[test]
fn dns_redirect_script_in_full() {
    assert_eq!(
        generate_dns_redirect_script("ip", "t", Some("9.9.9.9"), Some("::1")),
        "flush chain ip t nat_output\nflush set ip t dns_upstream_v4\nflush set ip t dns_upstream_v6\nadd rule ip t nat_output meta l4proto { udp, tcp } th dport 53 dnat ip to 9.9.9.9:53\nadd element ip t dns_upstream_v4 { 9.9.9.9 }\nadd rule ip t nat_output meta l4proto { udp, tcp } th dport 53 dnat ip6 to [::1]:53\nadd element ip t dns_upstream_v6 { ::1 }\n"
    );
    assert_eq!(
        generate_dns_redirect_script("ip", "t", None, None),
        "flush chain ip t nat_output\nflush set ip t dns_upstream_v4\nflush set ip t dns_upstream_v6\n"
    );
}

#[test]
fn base_ruleset_in_full() {
    let ruleset = generate_base_ruleset("inet", "filter", "a4", "a6", Some("9.9.9.9"), None);
    let wanted = "flush ruleset\n\ntable inet filter {\n  set a4 {\n    type ipv4_addr\n    flags interval\n  }\n  set a6 {\n    type ipv6_addr\n    flags interval\n  }\n  set dns_upstream_v4 {\n    type ipv4_addr\n    flags interval\n  }\n  set dns_upstream_v6 {\n    type ipv6_addr\n    flags interval\n  }\n  set private_v4 {\n    type ipv4_addr\n    flags interval\n    elements = { \n      10.0.0.0/8, \n      172.16.0.0/12, \n      192.168.0.0/16, \n      169.254.0.0/16,\n      100.64.0.0/10,\n      127.0.0.0/8 \n    }\n  }\n  set private_v6 {\n    type ipv6_addr\n    flags interval\n    elements = { \n      ::1/128,\n      fc00::/7,\n      fe80::/10\n    }\n  }\n\n  chain nat_output {\n    type nat hook output priority dstnat; policy accept;\n    meta l4proto { udp, tcp } th dport 53 dnat ip to 9.9.9.9:53\n  }\n\n  chain nat_postrouting {\n    type nat hook postrouting priority srcnat; policy accept;\n    oifname != \"lo\" masquerade\n  }\n\n  chain output {\n    type filter hook output priority 0; policy drop;\n    oifname \"lo\" accept\n    ct state established,related accept\n    meta l4proto ipv6-icmp accept\n    ip daddr @dns_upstream_v4 th dport 53 accept\n    ip6 daddr @dns_upstream_v6 th dport 53 accept\n    ip daddr @a4 accept\n    ip6 daddr @a6 accept\n    ip daddr @private_v4 limit rate 10/minute log prefix \"[ANTI-SSRF DROP-V4]: \"\n    ip daddr @private_v4 drop\n    ip6 daddr @private_v6 limit rate 10/minute log prefix \"[ANTI-SSRF DROP-V6]: \"\n    ip6 daddr @private_v6 drop\n    accept\n  }\n}\nadd element inet filter dns_upstream_v4 { 9.9.9.9 }\n";
    assert_eq!(ruleset, wanted);
}

#[test]
fn accepts_come_before_drops() {
    let ruleset = generate_base_ruleset("inet", "filter", "a4", "a6", None, None);
    let at = |needle: &str| ruleset.find(needle).unwrap();
    assert!(at("ip daddr @dns_upstream_v4 th dport 53 accept") < at("ip daddr @private_v4 drop"));
    assert!(at("ip daddr @a4 accept") < at("ip daddr @private_v4 drop"));
    assert!(at("ip6 daddr @a6 accept") < at("ip6 daddr @private_v6 drop"));
    assert!(at("ip6 daddr @private_v6 drop") < at("\n    accept\n"));
}

#[test]
fn batch_runs() {
    let entries = WhitelistEntries {
        v4: vec!["1.1.1.1".to_string(), "10.0.0.0/8".to_string()],
        v6: vec![],
    };
    let good = NftRun::Finished { success: true, stderr: String::new() };
    let report = conclude_batch(&entries, &good);
    assert_eq!(report.result, Ok(()));
    assert_eq!(
        report.log,
        Some(LogLine::Stdout(
            "[Gateway] Whitelist synced: [IPv4: 1.1.1.1,10.0.0.0/8] [IPv6: none]".to_string()
        ))
    );
    let bad = NftRun::Finished { success: false, stderr: " syntax error\n".to_string() };
    let report = conclude_batch(&entries, &bad);
    assert_eq!(report.result, Err("syntax error".to_string()));
    assert_eq!(
        report.log,
        Some(LogLine::Stderr("[Gateway] Error applying nftables batch: syntax error".to_string()))
    );
    for (run, message) in [
        (NftRun::SpawnFailed("a".to_string()), "Failed to spawn 'nft': a"),
        (NftRun::WriteFailed("b".to_string()), "Failed to write to nft stdin: b"),
        (NftRun::WaitFailed("c".to_string()), "Failed to wait for nft: c"),
    ] {
        let report = conclude_batch(&entries, &run);
        assert_eq!(report.result, Err(message.to_string()));
        assert_eq!(report.log, None);
    }
}

#[test]
fn dns_redirect_runs() {
    let good = NftRun::Finished { success: true, stderr: String::new() };
    let report = conclude_dns_redirect(Some("9.9.9.9"), None, &good);
    assert_eq!(
        report.log,
        Some(LogLine::Stdout(
            "[Gateway] DNS transparent redirect synced: [IPv4: 9.9.9.9] [IPv6: none]".to_string()
        ))
    );
    let bad = NftRun::Finished { success: false, stderr: "no".to_string() };
    let report = conclude_dns_redirect(None, Some("::1"), &bad);
    assert_eq!(report.result, Err("no".to_string()));
    assert_eq!(
        report.log,
        Some(LogLine::Stderr("[Gateway] Error applying DNS redirect rules: no".to_string()))
    );
}

#[test]
fn ruleset_runs() {
    let good = NftRun::Finished { success: true, stderr: String::new() };
    assert_eq!(
        conclude_ruleset_content(&good).log,
        Some(LogLine::Stdout(
            "[Gateway] Ruleset loaded successfully from generated configuration.".to_string()
        ))
    );
    assert_eq!(
        conclude_ruleset_content(&NftRun::WriteFailed("x".to_string())).result,
        Err("Failed to write ruleset to nft stdin: x".to_string())
    );
    let bad = NftRun::Finished { success: false, stderr: "no\n".to_string() };
    assert_eq!(
        conclude_ruleset_content(&bad).log,
        Some(LogLine::Stderr("[Gateway] Warning: Failed to apply generated ruleset: no".to_string()))
    );

    let loaded = conclude_ruleset_load(&Ok(NftExit { success: true, stderr: String::new() }));
    assert_eq!(loaded.result, Ok(()));
    assert_eq!(
        loaded.log,
        Some(LogLine::Stdout("[Gateway] Ruleset loaded successfully.".to_string()))
    );
    let refused = conclude_ruleset_load(&Ok(NftExit { success: false, stderr: "no".to_string() }));
    assert_eq!(refused.result, Err("no".to_string()));
    assert_eq!(
        refused.log,
        Some(LogLine::Stderr(
            "[Gateway] Warning: Failed to apply nftables ruleset. Make sure NET_ADMIN capability is granted. Details: no".to_string()
        ))
    );
    let absent = conclude_ruleset_load(&Err("not found".to_string()));
    assert_eq!(absent.result, Err("Failed to execute nft: not found".to_string()));
    assert_eq!(absent.log, None);
}

#[test]
fn ruleset_announcements() {
    assert_eq!(
        announce_ruleset_load(),
        LogLine::Stdout("[Gateway] Loading nftables initial ruleset...".to_string())
    );
    assert_eq!(
        announce_ruleset_content(),
        LogLine::Stdout("[Gateway] Applying nftables ruleset from configuration...".to_string())
    );
}
