//! Scripts for the `nft` command, and what its runs come to.

use crate::log::{LogLine, LogText};
use crate::parser::WhitelistEntries;
use crate::text::{
    add_text, cat2, cat3, cat5, cat7, join, join_strings, optional_text, texts, to_chars,
    to_text, trim, trim_chars, unlines, unlines_strings,
};
use vstd::prelude::*;

verus! {

// ---------------------------------------------------------------------------
// Whitelist sets
// ---------------------------------------------------------------------------

/// The command that empties a set.
pub open spec fn flush_set(family: Seq<char>, table: Seq<char>, set: Seq<char>) -> Seq<char> {
    "flush set "@ + family + " "@ + table + " "@ + set
}

/// The command that adds `elements` to a set.
pub open spec fn add_elements(
    family: Seq<char>,
    table: Seq<char>,
    set: Seq<char>,
    elements: Seq<char>,
) -> Seq<char> {
    "add element "@ + family + " "@ + table + " "@ + set + " { "@ + elements + " }"@
}

/// The commands that give a set the listed elements and no others.
pub open spec fn replace_set(
    family: Seq<char>,
    table: Seq<char>,
    set: Seq<char>,
    elements: Seq<Seq<char>>,
) -> Seq<Seq<char>> {
    if elements.len() == 0 {
        seq![flush_set(family, table, set)]
    } else {
        seq![
            flush_set(family, table, set),
            add_elements(family, table, set, join(elements, ", "@)),
        ]
    }
}

/// The script that gives both whitelist sets their entries.
pub open spec fn batch_script(
    family: Seq<char>,
    table: Seq<char>,
    v4_set: Seq<char>,
    v6_set: Seq<char>,
    v4: Seq<Seq<char>>,
    v6: Seq<Seq<char>>,
) -> Seq<char> {
    unlines(replace_set(family, table, v4_set, v4) + replace_set(family, table, v6_set, v6))
}

/// The command that empties a set.
fn write_flush_set(family: &str, table: &str, set: &str) -> (r: String)
    ensures
        r@ == flush_set(family@, table@, set@),
{
    let mut r = cat5("flush set ", family, " ", table, " ");
    r.append(set);
    r
}

/// The command that adds elements to a set.
fn write_add_elements(family: &str, table: &str, set: &str, elements: &str) -> (r: String)
    ensures
        r@ == add_elements(family@, table@, set@, elements@),
{
    let mut r = cat7("add element ", family, " ", table, " ", set, " { ");
    r.append(elements);
    r.append(" }");
    r
}

/// Adds the commands that give a set the listed elements and no others.
fn add_replace_set(script: &mut Vec<String>, family: &str, table: &str, set: &str, elements: &Vec<String>)
    ensures
        texts(final(script)@) == texts(old(script)@) + replace_set(
            family@,
            table@,
            set@,
            texts(elements@),
        ),
{
    let ghost start = texts(script@);
    add_text(script, write_flush_set(family, table, set));
    if elements.len() > 0 {
        add_text(
            script,
            write_add_elements(family, table, set, join_strings(elements, ", ").as_str()),
        );
    }
    assert(texts(script@) =~= start + replace_set(family@, table@, set@, texts(elements@)));
}

/// The script that replaces the contents of both whitelist sets.
pub fn generate_batch_script(
    family: &str,
    table: &str,
    v4_set: &str,
    v6_set: &str,
    entries: &WhitelistEntries,
) -> (r: String)
    ensures
        r@ == batch_script(
            family@,
            table@,
            v4_set@,
            v6_set@,
            entries@.v4,
            entries@.v6,
        ),
{
    let mut script: Vec<String> = Vec::new();
    assert(texts(script@) =~= Seq::empty());
    add_replace_set(&mut script, family, table, v4_set, &entries.v4);
    add_replace_set(&mut script, family, table, v6_set, &entries.v6);
    assert(texts(script@) =~= replace_set(family@, table@, v4_set@, texts(entries.v4@)) + replace_set(
        family@,
        table@,
        v6_set@,
        texts(entries.v6@),
    ));
    unlines_strings(&script)
}

// ---------------------------------------------------------------------------
// DNS redirection
// ---------------------------------------------------------------------------

/// The statement that sends DNS queries to an IPv4 server.
pub open spec fn dnat_v4(server: Seq<char>) -> Seq<char> {
    "meta l4proto { udp, tcp } th dport 53 dnat ip to "@ + server + ":53"@
}

/// The statement that sends DNS queries to an IPv6 server.
pub open spec fn dnat_v6(server: Seq<char>) -> Seq<char> {
    "meta l4proto { udp, tcp } th dport 53 dnat ip6 to ["@ + server + "]:53"@
}

/// The command that adds a rule to the chain for locally generated traffic.
pub open spec fn add_nat_rule(family: Seq<char>, table: Seq<char>, statement: Seq<char>) -> Seq<
    char,
> {
    "add rule "@ + family + " "@ + table + " nat_output "@ + statement
}

/// The commands that redirect to a server: a rule, and its membership in the upstream set.
pub open spec fn redirect_to(
    family: Seq<char>,
    table: Seq<char>,
    statement: Seq<char>,
    set: Seq<char>,
    server: Seq<char>,
) -> Seq<Seq<char>> {
    seq![
        add_nat_rule(family, table, statement),
        add_elements(family, table, set, server),
    ]
}

/// The commands of the DNS redirection: what was there goes, and each server that is given comes.
pub open spec fn redirect_commands(
    family: Seq<char>,
    table: Seq<char>,
    dns_v4: Option<Seq<char>>,
    dns_v6: Option<Seq<char>>,
) -> Seq<Seq<char>> {
    seq![
        "flush chain "@ + family + " "@ + table + " nat_output"@,
        flush_set(family, table, "dns_upstream_v4"@),
        flush_set(family, table, "dns_upstream_v6"@),
    ] + (match dns_v4 {
        Some(v4) => redirect_to(family, table, dnat_v4(v4), "dns_upstream_v4"@, v4),
        None => Seq::empty(),
    }) + (match dns_v6 {
        Some(v6) => redirect_to(family, table, dnat_v6(v6), "dns_upstream_v6"@, v6),
        None => Seq::empty(),
    })
}

/// The statement that sends DNS queries to an IPv4 server.
fn write_dnat_v4(server: &str) -> (r: String)
    ensures
        r@ == dnat_v4(server@),
{
    cat3("meta l4proto { udp, tcp } th dport 53 dnat ip to ", server, ":53")
}

/// The statement that sends DNS queries to an IPv6 server.
fn write_dnat_v6(server: &str) -> (r: String)
    ensures
        r@ == dnat_v6(server@),
{
    cat3("meta l4proto { udp, tcp } th dport 53 dnat ip6 to [", server, "]:53")
}

/// The command that adds a rule to the chain for locally generated traffic.
fn write_add_nat_rule(family: &str, table: &str, statement: String) -> (r: String)
    ensures
        r@ == add_nat_rule(family@, table@, statement@),
{
    let mut r = cat5("add rule ", family, " ", table, " nat_output ");
    r.append(statement.as_str());
    r
}

/// The script that redirects DNS queries to the given servers.
pub fn generate_dns_redirect_script(
    family: &str,
    table: &str,
    dns_v4: Option<&str>,
    dns_v6: Option<&str>,
) -> (r: String)
    ensures
        r@ == unlines(
            redirect_commands(family@, table@, optional_text(dns_v4), optional_text(dns_v6)),
        ),
{
    let mut script: Vec<String> = Vec::new();
    add_text(&mut script, cat5("flush chain ", family, " ", table, " nat_output"));
    add_text(&mut script, write_flush_set(family, table, "dns_upstream_v4"));
    add_text(&mut script, write_flush_set(family, table, "dns_upstream_v6"));
    if let Some(v4) = dns_v4 {
        add_text(&mut script, write_add_nat_rule(family, table, write_dnat_v4(v4)));
        add_text(&mut script, write_add_elements(family, table, "dns_upstream_v4", v4));
    }
    if let Some(v6) = dns_v6 {
        add_text(&mut script, write_add_nat_rule(family, table, write_dnat_v6(v6)));
        add_text(&mut script, write_add_elements(family, table, "dns_upstream_v6", v6));
    }
    assert(texts(script@) =~= redirect_commands(
        family@,
        table@,
        optional_text(dns_v4),
        optional_text(dns_v6),
    ));
    unlines_strings(&script)
}

// ---------------------------------------------------------------------------
// Base ruleset
// ---------------------------------------------------------------------------

/// The declaration of an empty set of addresses of the given type.
pub open spec fn empty_set(name: Seq<char>, body: Seq<char>) -> Seq<char> {
    "  set "@ + name + body
}

/// The head of the ruleset: the table, and its sets.
pub open spec fn declarations(
    family: Seq<char>,
    table: Seq<char>,
    v4_set: Seq<char>,
    v6_set: Seq<char>,
) -> Seq<Seq<char>> {
    seq![
        "flush ruleset\n"@,
        "table "@ + family + " "@ + table + " {"@,
        empty_set(v4_set, " {\n    type ipv4_addr\n    flags interval\n  }"@),
        empty_set(v6_set, " {\n    type ipv6_addr\n    flags interval\n  }"@),
        "  set dns_upstream_v4 {\n    type ipv4_addr\n    flags interval\n  }"@,
        "  set dns_upstream_v6 {\n    type ipv6_addr\n    flags interval\n  }"@,
        "  set private_v4 {\n    type ipv4_addr\n    flags interval\n    elements = { \n      10.0.0.0/8, \n      172.16.0.0/12, \n      192.168.0.0/16, \n      169.254.0.0/16,\n      100.64.0.0/10,\n      127.0.0.0/8 \n    }\n  }"@,
        "  set private_v6 {\n    type ipv6_addr\n    flags interval\n    elements = { \n      ::1/128,\n      fc00::/7,\n      fe80::/10\n    }\n  }"@,
    ]
}

/// The chain that redirects the DNS queries of local processes.
pub open spec fn redirect_chain(dns_v4: Option<Seq<char>>, dns_v6: Option<Seq<char>>) -> Seq<
    Seq<char>,
> {
    seq![
        "\n  chain nat_output {\n    type nat hook output priority dstnat; policy accept;"@,
    ] + (match dns_v4 {
        Some(v4) => seq!["    "@ + dnat_v4(v4)],
        None => Seq::empty(),
    }) + (match dns_v6 {
        Some(v6) => seq!["    "@ + dnat_v6(v6)],
        None => Seq::empty(),
    }) + seq!["  }"@]
}

/// The chain that gives outgoing packets the address of the interface.
pub open spec fn masquerade_chain() -> Seq<char> {
    "\n  chain nat_postrouting {\n    type nat hook postrouting priority srcnat; policy accept;\n    oifname != \"lo\" masquerade\n  }"@
}

/// The rule that lets everything to a set of destinations pass.
pub open spec fn accept_set(match_set: Seq<char>, set: Seq<char>) -> Seq<char> {
    match_set + set + " accept"@
}

/// The chain that filters the traffic of local processes. The first rule that
/// decides about a packet prevails.
pub open spec fn filter_chain(v4_set: Seq<char>, v6_set: Seq<char>) -> Seq<Seq<char>> {
    seq![
        "\n  chain output {\n    type filter hook output priority 0; policy drop;"@,
        "    oifname \"lo\" accept"@,
        "    ct state established,related accept"@,
        "    meta l4proto ipv6-icmp accept"@,
        "    ip daddr @dns_upstream_v4 th dport 53 accept"@,
        "    ip6 daddr @dns_upstream_v6 th dport 53 accept"@,
        accept_set("    ip daddr @"@, v4_set),
        accept_set("    ip6 daddr @"@, v6_set),
        "    ip daddr @private_v4 limit rate 10/minute log prefix \"[ANTI-SSRF DROP-V4]: \""@,
        "    ip daddr @private_v4 drop"@,
        "    ip6 daddr @private_v6 limit rate 10/minute log prefix \"[ANTI-SSRF DROP-V6]: \""@,
        "    ip6 daddr @private_v6 drop"@,
        "    accept"@,
        "  }"@,
        "}"@,
    ]
}

/// The commands that put the given servers into the upstream sets.
pub open spec fn upstream_elements(
    family: Seq<char>,
    table: Seq<char>,
    dns_v4: Option<Seq<char>>,
    dns_v6: Option<Seq<char>>,
) -> Seq<Seq<char>> {
    (match dns_v4 {
        Some(v4) => seq![add_elements(family, table, "dns_upstream_v4"@, v4)],
        None => Seq::empty(),
    }) + (match dns_v6 {
        Some(v6) => seq![add_elements(family, table, "dns_upstream_v6"@, v6)],
        None => Seq::empty(),
    })
}

/// The parts of the base ruleset, in order.
pub open spec fn base_parts(
    family: Seq<char>,
    table: Seq<char>,
    v4_set: Seq<char>,
    v6_set: Seq<char>,
    dns_v4: Option<Seq<char>>,
    dns_v6: Option<Seq<char>>,
) -> Seq<Seq<char>> {
    declarations(family, table, v4_set, v6_set) + redirect_chain(dns_v4, dns_v6) + seq![
        masquerade_chain(),
    ] + filter_chain(v4_set, v6_set) + upstream_elements(family, table, dns_v4, dns_v6)
}

/// Adds the head of the ruleset.
fn add_declarations(script: &mut Vec<String>, family: &str, table: &str, v4_set: &str, v6_set: &str)
    ensures
        texts(final(script)@) == texts(old(script)@) + declarations(family@, table@, v4_set@, v6_set@),
{
    let ghost start = texts(script@);
    add_text(script, "flush ruleset\n".to_owned());
    add_text(script, cat5("table ", family, " ", table, " {"));
    add_text(script, cat3("  set ", v4_set, " {\n    type ipv4_addr\n    flags interval\n  }"));
    add_text(script, cat3("  set ", v6_set, " {\n    type ipv6_addr\n    flags interval\n  }"));
    add_text(
        script,
        "  set dns_upstream_v4 {\n    type ipv4_addr\n    flags interval\n  }".to_owned(),
    );
    add_text(
        script,
        "  set dns_upstream_v6 {\n    type ipv6_addr\n    flags interval\n  }".to_owned(),
    );
    add_text(
        script,
        "  set private_v4 {\n    type ipv4_addr\n    flags interval\n    elements = { \n      10.0.0.0/8, \n      172.16.0.0/12, \n      192.168.0.0/16, \n      169.254.0.0/16,\n      100.64.0.0/10,\n      127.0.0.0/8 \n    }\n  }".to_owned(),
    );
    add_text(
        script,
        "  set private_v6 {\n    type ipv6_addr\n    flags interval\n    elements = { \n      ::1/128,\n      fc00::/7,\n      fe80::/10\n    }\n  }".to_owned(),
    );
    assert(texts(script@) =~= start + declarations(family@, table@, v4_set@, v6_set@));
}

/// Adds the chain that redirects the DNS queries of local processes.
fn add_redirect_chain(script: &mut Vec<String>, dns_v4: Option<&str>, dns_v6: Option<&str>)
    ensures
        texts(final(script)@) == texts(old(script)@) + redirect_chain(
            optional_text(dns_v4),
            optional_text(dns_v6),
        ),
{
    let ghost start = texts(script@);
    add_text(
        script,
        "\n  chain nat_output {\n    type nat hook output priority dstnat; policy accept;".to_owned(),
    );
    if let Some(v4) = dns_v4 {
        add_text(script, cat2("    ", write_dnat_v4(v4).as_str()));
    }
    if let Some(v6) = dns_v6 {
        add_text(script, cat2("    ", write_dnat_v6(v6).as_str()));
    }
    add_text(script, "  }".to_owned());
    assert(texts(script@) =~= start + redirect_chain(optional_text(dns_v4), optional_text(dns_v6)));
}

/// Adds the chain that filters the traffic of local processes.
fn add_filter_chain(script: &mut Vec<String>, v4_set: &str, v6_set: &str)
    ensures
        texts(final(script)@) == texts(old(script)@) + filter_chain(v4_set@, v6_set@),
{
    let ghost start = texts(script@);
    add_text(
        script,
        "\n  chain output {\n    type filter hook output priority 0; policy drop;".to_owned(),
    );
    add_text(script, "    oifname \"lo\" accept".to_owned());
    add_text(script, "    ct state established,related accept".to_owned());
    add_text(script, "    meta l4proto ipv6-icmp accept".to_owned());
    add_text(script, "    ip daddr @dns_upstream_v4 th dport 53 accept".to_owned());
    add_text(script, "    ip6 daddr @dns_upstream_v6 th dport 53 accept".to_owned());
    add_text(script, cat3("    ip daddr @", v4_set, " accept"));
    add_text(script, cat3("    ip6 daddr @", v6_set, " accept"));
    add_text(
        script,
        "    ip daddr @private_v4 limit rate 10/minute log prefix \"[ANTI-SSRF DROP-V4]: \"".to_owned(),
    );
    add_text(script, "    ip daddr @private_v4 drop".to_owned());
    add_text(
        script,
        "    ip6 daddr @private_v6 limit rate 10/minute log prefix \"[ANTI-SSRF DROP-V6]: \"".to_owned(),
    );
    add_text(script, "    ip6 daddr @private_v6 drop".to_owned());
    add_text(script, "    accept".to_owned());
    add_text(script, "  }".to_owned());
    add_text(script, "}".to_owned());
    assert(texts(script@) =~= start + filter_chain(v4_set@, v6_set@));
}

/// The ruleset that the gateway starts from.
pub fn generate_base_ruleset(
    family: &str,
    table: &str,
    v4_set: &str,
    v6_set: &str,
    dns_v4: Option<&str>,
    dns_v6: Option<&str>,
) -> (r: String)
    ensures
        r@ == unlines(
            base_parts(
                family@,
                table@,
                v4_set@,
                v6_set@,
                optional_text(dns_v4),
                optional_text(dns_v6),
            ),
        ),
{
    let mut script: Vec<String> = Vec::new();
    assert(texts(script@) =~= Seq::empty());
    add_declarations(&mut script, family, table, v4_set, v6_set);
    assert(texts(script@) =~= declarations(family@, table@, v4_set@, v6_set@));
    add_redirect_chain(&mut script, dns_v4, dns_v6);
    let ghost before = texts(script@);
    add_text(
        &mut script,
        "\n  chain nat_postrouting {\n    type nat hook postrouting priority srcnat; policy accept;\n    oifname != \"lo\" masquerade\n  }".to_owned(),
    );
    assert(texts(script@) =~= before + seq![masquerade_chain()]);
    add_filter_chain(&mut script, v4_set, v6_set);
    let ghost rules = texts(script@);
    if let Some(v4) = dns_v4 {
        add_text(&mut script, write_add_elements(family, table, "dns_upstream_v4", v4));
    }
    if let Some(v6) = dns_v6 {
        add_text(&mut script, write_add_elements(family, table, "dns_upstream_v6", v6));
    }
    assert(texts(script@) =~= rules + upstream_elements(
        family@,
        table@,
        optional_text(dns_v4),
        optional_text(dns_v6),
    ));
    unlines_strings(&script)
}

// ---------------------------------------------------------------------------
// Runs of the command
// ---------------------------------------------------------------------------

/// How far a run of `nft` that reads a script from its standard input came.
/// The strings are the system's error messages, or what the command wrote to
/// its standard error.
pub enum NftRun {
    SpawnFailed(String),
    WriteFailed(String),
    WaitFailed(String),
    Finished { success: bool, stderr: String },
}

/// What a run comes to, and what to tell the operator about it.
pub struct NftReport {
    pub result: Result<(), String>,
    pub log: Option<LogLine>,
}

/// What a run comes to, with strings taken by their characters.
pub struct NftOutcome {
    pub result: Result<(), Seq<char>>,
    pub log: Option<LogText>,
}

impl View for NftReport {
    type V = NftOutcome;

    open spec fn view(&self) -> NftOutcome {
        NftOutcome {
            result: match self.result {
                Ok(()) => Ok(()),
                Err(e) => Err(e@),
            },
            log: match self.log {
                Some(l) => Some(l@),
                None => None,
            },
        }
    }
}

/// An error that is reported to the caller alone.
pub open spec fn failed(message: Seq<char>) -> NftOutcome {
    NftOutcome { result: Err(message), log: None }
}

/// What a command that ended comes to: the success is told on standard output;
/// a failure is told on standard error, and is what the command wrote there.
pub open spec fn ended(
    success: bool,
    stderr: Seq<char>,
    success_line: Seq<char>,
    failure_prefix: Seq<char>,
) -> NftOutcome {
    if success {
        NftOutcome { result: Ok(()), log: Some(LogText::Stdout(success_line)) }
    } else {
        NftOutcome {
            result: Err(trim(stderr)),
            log: Some(LogText::Stderr(failure_prefix + trim(stderr))),
        }
    }
}

/// What a run that reads a script comes to.
pub open spec fn run_outcome(
    run: NftRun,
    write_prefix: Seq<char>,
    success_line: Seq<char>,
    failure_prefix: Seq<char>,
) -> NftOutcome {
    match run {
        NftRun::SpawnFailed(e) => failed("Failed to spawn 'nft': "@ + e@),
        NftRun::WriteFailed(e) => failed(write_prefix + e@),
        NftRun::WaitFailed(e) => failed("Failed to wait for nft: "@ + e@),
        NftRun::Finished { success, stderr } => ended(
            success,
            stderr@,
            success_line,
            failure_prefix,
        ),
    }
}

/// The elements of a list separated by commas, or `none`.
pub open spec fn summary(elements: Seq<Seq<char>>) -> Seq<char> {
    if elements.len() == 0 {
        "none"@
    } else {
        join(elements, ","@)
    }
}

/// A text, or `none`.
pub open spec fn text_or_none(s: Option<Seq<char>>) -> Seq<char> {
    match s {
        Some(t) => t,
        None => "none"@,
    }
}

/// A line about both families.
pub open spec fn both_families(prefix: Seq<char>, v4: Seq<char>, v6: Seq<char>) -> Seq<char> {
    prefix + "[IPv4: "@ + v4 + "] [IPv6: "@ + v6 + "]"@
}

/// What a command that ended comes to.
fn conclude(success: bool, stderr: &str, success_line: String, failure_prefix: &str) -> (r:
    NftReport)
    ensures
        r@ == ended(success, stderr@, success_line@, failure_prefix@),
{
    if success {
        NftReport { result: Ok(()), log: Some(LogLine::Stdout(success_line)) }
    } else {
        let chars = to_chars(stderr);
        let message = to_text(trim_chars(chars.as_slice()));
        let line = cat2(failure_prefix, message.as_str());
        NftReport { result: Err(message), log: Some(LogLine::Stderr(line)) }
    }
}

/// What a run that reads a script comes to.
fn conclude_run(run: &NftRun, write_prefix: &str, success_line: String, failure_prefix: &str) -> (r:
    NftReport)
    ensures
        r@ == run_outcome(*run, write_prefix@, success_line@, failure_prefix@),
{
    match run {
        NftRun::SpawnFailed(e) => NftReport {
            result: Err(cat2("Failed to spawn 'nft': ", e.as_str())),
            log: None,
        },
        NftRun::WriteFailed(e) => NftReport {
            result: Err(cat2(write_prefix, e.as_str())),
            log: None,
        },
        NftRun::WaitFailed(e) => NftReport {
            result: Err(cat2("Failed to wait for nft: ", e.as_str())),
            log: None,
        },
        NftRun::Finished { success, stderr } => conclude(
            *success,
            stderr.as_str(),
            success_line,
            failure_prefix,
        ),
    }
}

/// The elements of a list separated by commas, or `none`.
fn write_summary(elements: &Vec<String>) -> (r: String)
    ensures
        r@ == summary(texts(elements@)),
{
    if elements.len() == 0 {
        "none".to_owned()
    } else {
        join_strings(elements, ",")
    }
}

/// What the run of a script with the given whitelist entries comes to.
pub open spec fn batch_outcome(v4: Seq<Seq<char>>, v6: Seq<Seq<char>>, run: NftRun) -> NftOutcome {
    run_outcome(
        run,
        "Failed to write to nft stdin: "@,
        both_families("[Gateway] Whitelist synced: "@, summary(v4), summary(v6)),
        "[Gateway] Error applying nftables batch: "@,
    )
}

/// What the run of a whitelist script comes to.
pub fn conclude_batch(entries: &WhitelistEntries, run: &NftRun) -> (r: NftReport)
    ensures
        r@ == batch_outcome(entries@.v4, entries@.v6, *run),
{
    let v4 = write_summary(&entries.v4);
    let v6 = write_summary(&entries.v6);
    let mut line = cat5(
        "[Gateway] Whitelist synced: ",
        "[IPv4: ",
        v4.as_str(),
        "] [IPv6: ",
        v6.as_str(),
    );
    line.append("]");
    conclude_run(
        run,
        "Failed to write to nft stdin: ",
        line,
        "[Gateway] Error applying nftables batch: ",
    )
}

/// What the run of a DNS redirection script comes to.
pub fn conclude_dns_redirect(dns_v4: Option<&str>, dns_v6: Option<&str>, run: &NftRun) -> (r:
    NftReport)
    ensures
        r@ == run_outcome(
            *run,
            "Failed to write to nft stdin: "@,
            both_families(
                "[Gateway] DNS transparent redirect synced: "@,
                text_or_none(optional_text(dns_v4)),
                text_or_none(optional_text(dns_v6)),
            ),
            "[Gateway] Error applying DNS redirect rules: "@,
        ),
{
    let v4 = match dns_v4 {
        Some(t) => t,
        None => "none",
    };
    let v6 = match dns_v6 {
        Some(t) => t,
        None => "none",
    };
    let mut line = cat5(
        "[Gateway] DNS transparent redirect synced: ",
        "[IPv4: ",
        v4,
        "] [IPv6: ",
        v6,
    );
    line.append("]");
    conclude_run(
        run,
        "Failed to write to nft stdin: ",
        line,
        "[Gateway] Error applying DNS redirect rules: ",
    )
}

/// What the run of a generated ruleset comes to.
pub fn conclude_ruleset_content(run: &NftRun) -> (r: NftReport)
    ensures
        r@ == run_outcome(
            *run,
            "Failed to write ruleset to nft stdin: "@,
            "[Gateway] Ruleset loaded successfully from generated configuration."@,
            "[Gateway] Warning: Failed to apply generated ruleset: "@,
        ),
{
    conclude_run(
        run,
        "Failed to write ruleset to nft stdin: ",
        "[Gateway] Ruleset loaded successfully from generated configuration.".to_owned(),
        "[Gateway] Warning: Failed to apply generated ruleset: ",
    )
}

/// How a run of `nft` on a ruleset file ended.
pub struct NftExit {
    pub success: bool,
    pub stderr: String,
}

/// What the run on a ruleset file comes to; an error is the system's message
/// that the command could not be run.
pub fn conclude_ruleset_load(run: &Result<NftExit, String>) -> (r: NftReport)
    ensures
        r@ == (match *run {
            Err(e) => failed("Failed to execute nft: "@ + e@),
            Ok(exit) => ended(
                exit.success,
                exit.stderr@,
                "[Gateway] Ruleset loaded successfully."@,
                "[Gateway] Warning: Failed to apply nftables ruleset. Make sure NET_ADMIN capability is granted. Details: "@,
            ),
        }),
{
    match run {
        Err(e) => NftReport {
            result: Err(cat2("Failed to execute nft: ", e.as_str())),
            log: None,
        },
        Ok(exit) => conclude(
            exit.success,
            exit.stderr.as_str(),
            "[Gateway] Ruleset loaded successfully.".to_owned(),
            "[Gateway] Warning: Failed to apply nftables ruleset. Make sure NET_ADMIN capability is granted. Details: ",
        ),
    }
}

/// Announces that a ruleset file is about to be loaded.
pub fn announce_ruleset_load() -> (r: LogLine)
    ensures
        r@ == LogText::Stdout("[Gateway] Loading nftables initial ruleset..."@),
{
    LogLine::Stdout("[Gateway] Loading nftables initial ruleset...".to_owned())
}

/// Announces that the generated ruleset is about to be applied.
pub fn announce_ruleset_content() -> (r: LogLine)
    ensures
        r@ == LogText::Stdout("[Gateway] Applying nftables ruleset from configuration..."@),
{
    LogLine::Stdout("[Gateway] Applying nftables ruleset from configuration...".to_owned())
}

} // verus!
