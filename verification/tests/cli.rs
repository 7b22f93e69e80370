use nft_egress_daemon::cli::{
    announce_watching, handle_check, open_invocation, parse_check_options, parse_command_line,
    parse_run_options, report_exec_failure, CheckRequest, Environment, Invocation, RunOptions,
};
use nft_egress_daemon::config::DaemonConfig;
use nft_egress_daemon::log::LogLine;

fn args(words: &[&str]) -> Vec<String> {
    words.iter().map(|w| w.to_string()).collect()
}

fn bare() -> Environment {
    Environment { dns_upstream_v4: None, dns_upstream_v6: None, resolv_conf_path: None }
}

fn options(words: &[&str]) -> Result<RunOptions, String> {
    parse_run_options(&bare(), &args(words))
}

fn out(text: &str) -> LogLine {
    LogLine::Stdout(text.to_string())
}

fn err(text: &str) -> LogLine {
    LogLine::Stderr(text.to_string())
}

#[test]
fn default_settings() {
    let config = DaemonConfig::default();
    assert_eq!(config.rules_path, None);
    assert_eq!(config.whitelist_path, "/etc/nftables/whitelist.txt");
    assert_eq!(config.resolv_conf_path, "/etc/resolv.conf");
    assert_eq!(config.table_family, "inet");
    assert_eq!(config.table_name, "filter");
    assert_eq!(config.v4_set, "lan_whitelist_v4");
    assert_eq!(config.v6_set, "lan_whitelist_v6");
    assert_eq!(config.dns_upstream_v4, "auto");
    assert_eq!(config.dns_upstream_v6, "auto");
    assert_eq!(config.debounce_ms, 150);
}

#[test]
fn every_option_sets_its_field() {
    let run = options(&[
        "--rules", "r", "--whitelist", "w", "--dns-upstream-v4", "4", "--dns-upstream-v6", "6",
        "--resolv-conf", "c", "--family", "ip", "--table", "t", "--v4-set", "s4", "--v6-set", "s6",
        "--debounce-ms", "+25",
    ])
    .ok()
    .unwrap();
    assert!(run.command.is_none());
    let config = run.config;
    assert_eq!(config.rules_path.as_deref(), Some("r"));
    assert_eq!(config.whitelist_path, "w");
    assert_eq!(config.dns_upstream_v4, "4");
    assert_eq!(config.dns_upstream_v6, "6");
    assert_eq!(config.resolv_conf_path, "c");
    assert_eq!(config.table_family, "ip");
    assert_eq!(config.table_name, "t");
    assert_eq!(config.v4_set, "s4");
    assert_eq!(config.v6_set, "s6");
    assert_eq!(config.debounce_ms, 25);
}

#[test]
fn short_names_and_repetition() {
    let config = options(&["--dns-v4", "a", "--dns-v6", "b", "--dns-upstream-v4", "c"]).ok().unwrap().config;
    assert_eq!(config.dns_upstream_v4, "c");
    assert_eq!(config.dns_upstream_v6, "b");
}

#[test]
fn a_time_that_is_no_number_is_passed_over() {
    for bad in ["x", "-1", "", "18446744073709551616"] {
        let run = options(&["--debounce-ms", bad, "--table", "t"]).ok().unwrap();
        assert_eq!(run.config.debounce_ms, 150);
        assert_eq!(run.config.table_name, "t");
    }
    let run = options(&["--debounce-ms", "18446744073709551615"]).ok().unwrap();
    assert_eq!(run.config.debounce_ms, u64::MAX);
}

#[test]
fn commands() {
    let run = options(&["--table", "t", "--", "--rules", "x"]).ok().unwrap();
    let command = run.command.unwrap();
    assert_eq!(command.program, "--rules");
    assert_eq!(command.args, vec!["x"]);
    let run = options(&["--table", "t", "sh", "-c", "true"]).ok().unwrap();
    let command = run.command.unwrap();
    assert_eq!(command.program, "sh");
    assert_eq!(command.args, vec!["-c", "true"]);
    assert!(options(&["--"]).ok().unwrap().command.is_none());
    assert_eq!(options(&[""]).ok().unwrap().command.unwrap().program, "");
}

#[test]
fn unknown_arguments() {
    assert_eq!(options(&["--bogus", "x"]).err().unwrap(), "--bogus");
    assert_eq!(options(&["--table"]).err().unwrap(), "--table");
    assert_eq!(options(&["--strict"]).err().unwrap(), "--strict");
    assert_eq!(options(&["--table", "t", "-v"]).err().unwrap(), "-v");
}

#[test]
fn the_environment_gives_way_to_options() {
    let env = Environment {
        dns_upstream_v4: Some("4.4.4.4".to_string()),
        dns_upstream_v6: Some("off".to_string()),
        resolv_conf_path: Some("/run/resolv.conf".to_string()),
    };
    let config = parse_run_options(&env, &args(&["--dns-upstream-v4", "1.1.1.1"])).ok().unwrap().config;
    assert_eq!(config.dns_upstream_v4, "1.1.1.1");
    assert_eq!(config.dns_upstream_v6, "off");
    assert_eq!(config.resolv_conf_path, "/run/resolv.conf");
}

#[test]
fn whole_command_lines() {
    let read = |words: &[&str]| parse_command_line(&bare(), &args(words));
    assert!(matches!(read(&["run", "-h"]), Invocation::Help));
    assert!(matches!(read(&["--", "ls", "--help"]), Invocation::Help));
    assert!(matches!(
        read(&["check", "--strict", "f"]),
        Invocation::Check(CheckRequest::File { path, strict: true }) if path == "f"
    ));
    assert!(matches!(read(&["check"]), Invocation::Check(CheckRequest::MissingPath)));
    assert!(matches!(
        read(&["run", "--table", "t"]),
        Invocation::Run(Ok(run)) if run.config.table_name == "t" && run.command.is_none()
    ));
    assert!(matches!(
        read(&["--table", "t"]),
        Invocation::Run(Ok(run)) if run.config.table_name == "t" && run.command.is_none()
    ));
    assert!(matches!(
        read(&["sleep", "--table", "t"]),
        Invocation::Run(Ok(run)) if run.config.table_name == "filter"
            && run.command.as_ref().unwrap().program == "sleep"
            && run.command.as_ref().unwrap().args == vec!["--table", "t"]
    ));
    assert!(matches!(
        read(&["run", "sleep", "9"]),
        Invocation::Run(Ok(run)) if run.command.as_ref().unwrap().program == "sleep"
    ));
    assert!(matches!(read(&["run", "-x"]), Invocation::Run(Err(arg)) if arg == "-x"));
    assert!(matches!(read(&[]), Invocation::Run(Ok(run)) if run.command.is_none()));
}

#[test]
fn no_arguments_mean_a_run_under_the_environment() {
    let env = Environment {
        dns_upstream_v4: Some("off".to_string()),
        dns_upstream_v6: None,
        resolv_conf_path: None,
    };
    assert!(matches!(
        parse_command_line(&env, &args(&[])),
        Invocation::Run(Ok(run)) if run.config.dns_upstream_v4 == "off"
    ));
}

#[test]
fn check_options() {
    assert!(matches!(
        parse_check_options(&args(&["a", "b", "--quiet", "--strict"])),
        CheckRequest::File { path, strict: true } if path == "a"
    ));
    assert!(matches!(
        parse_check_options(&args(&["a"])),
        CheckRequest::File { path, strict: false } if path == "a"
    ));
    assert!(matches!(parse_check_options(&args(&["--strict"])), CheckRequest::MissingPath));
    assert!(matches!(parse_check_options(&args(&["a", "-h"])), CheckRequest::Usage));
}

#[test]
fn check_reports() {
    let content = Ok("10.1.2.3/8\nbad\n::1\n".to_string());
    let report = handle_check("w", false, &content);
    assert!(report.success);
    assert_eq!(
        report.log,
        vec![
            err("[Gateway] Notice: Canonicalized IPv4 CIDR '10.1.2.3/8' -> '10.0.0.0/8'"),
            err("[Gateway] Warning: Ignored invalid whitelist entry: Line 2: Invalid IP address or CIDR: 'bad'"),
            out("Validation successful:"),
            out("  IPv4 entries: 1"),
            out("    - 10.0.0.0/8"),
            out("  IPv6 entries: 1"),
            out("    - ::1"),
        ]
    );
    let report = handle_check("w", true, &content);
    assert!(!report.success);
    assert_eq!(
        report.log,
        vec![err(
            "Validation failed: Line 1: IPv4 CIDR '10.1.2.3/8' has host bits set, expected '10.0.0.0/8'"
        )]
    );
    let report = handle_check("w", true, &Ok("10.0.0.0/8\n".to_string()));
    assert!(report.success);
    let report = handle_check("w", false, &Err("gone".to_string()));
    assert!(!report.success);
    assert_eq!(report.log, vec![err("Error reading 'w': gone")]);
}

#[test]
fn the_first_lines() {
    let open = |words: &[&str]| open_invocation(&parse_command_line(&bare(), &args(words)));
    let opening = open(&["check", "w"]);
    assert_eq!(opening.log, vec![out("Checking whitelist file: w")]);
    assert_eq!(opening.exit, None);
    let opening = open(&["check"]);
    assert_eq!(opening.log, vec![err("Error: Missing file path for 'check' command.")]);
    assert_eq!(opening.exit, Some(1));
    let opening = open_invocation(&Invocation::Check(CheckRequest::Usage));
    assert_eq!(opening.log, vec![out("Usage: nft-egress-daemon check [--strict] <FILE>")]);
    assert_eq!(opening.exit, Some(0));
    let opening = open(&["--table", "t"]);
    assert_eq!(opening.log, vec![]);
    assert_eq!(opening.exit, None);

    let help = open(&["-h"]);
    assert_eq!(help.exit, Some(0));
    assert!(matches!(
        &help.log[0],
        LogLine::Stdout(text) if text.starts_with("nft-egress-daemon - High performance")
            && text.contains("\n    --debounce-ms <MS>      File watch debounce window")
            && text.ends_with("Execute custom command instead of running watcher loop\n")
    ));
    let refused = open(&["--bogus"]);
    assert_eq!(refused.exit, Some(1));
    assert_eq!(refused.log.len(), 2);
    assert_eq!(refused.log[0], err("Unknown argument: --bogus"));
    assert_eq!(refused.log[1], help.log[0]);
}

#[test]
fn what_a_run_announces() {
    assert_eq!(
        announce_watching(&options(&[]).ok().unwrap()),
        vec![out("[Gateway] Starting whitelist-watcher daemon (Sidecar mode)...")]
    );
    assert_eq!(announce_watching(&options(&["sh"]).ok().unwrap()), vec![]);
    assert_eq!(
        report_exec_failure("sh", "not found"),
        err("[Gateway] Failed to exec 'sh': not found")
    );
}
