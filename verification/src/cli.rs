//! The command line of the daemon.

use crate::config::{default_config, ConfigView, DaemonConfig};
use crate::log::{add_line, log_texts, LogLine, LogText};
use crate::numbers::{decimal, read_unsigned, unsigned, write_numeral};
use crate::order::lemma_push_contains;
use crate::parser::{examine_whitelist, line_result, whitelist_log, whitelist_result, EntryTexts};
use crate::text::{cat2, cat3, cat4, lines, same_str, texts, to_chars};
use crate::whitelist_laws::a_strict_reading_accepts_what_is_in_order;
use vstd::prelude::*;

verus! {

/// Whether an argument starts with a dash.
pub open spec fn is_dashed(arg: Seq<char>) -> bool {
    arg.len() > 0 && arg[0] == '-'
}

/// Whether an argument asks for help.
pub open spec fn is_help(arg: Seq<char>) -> bool {
    arg == "--help"@ || arg == "-h"@
}

/// Whether an argument starts with a dash.
fn has_dash(arg: &String) -> (r: bool)
    ensures
        r == is_dashed(arg@),
{
    let chars = to_chars(arg.as_str());
    chars.len() > 0 && chars[0] == '-'
}

/// Whether an argument asks for help.
fn asks_help(arg: &String) -> (r: bool)
    ensures
        r == is_help(arg@),
{
    same_str(arg.as_str(), "--help") || same_str(arg.as_str(), "-h")
}

/// The arguments from the given one on.
fn arguments_from(args: &Vec<String>, start: usize) -> (r: Vec<String>)
    requires
        start <= args@.len(),
    ensures
        texts(r@) == texts(args@).skip(start as int),
{
    let mut r: Vec<String> = Vec::new();
    for i in start..args.len()
        invariant
            start <= args@.len(),
            texts(r@) == texts(args@).subrange(start as int, i as int),
    {
        let ghost before = texts(r@);
        r.push(args[i].clone());
        assert(texts(r@) =~= before.push(texts(args@)[i as int]));
        assert(texts(args@).subrange(start as int, i + 1) =~= before.push(texts(args@)[i as int]));
    }
    assert(texts(args@).subrange(start as int, args@.len() as int) =~= texts(args@).skip(
        start as int,
    ));
    r
}

// ---------------------------------------------------------------------------
// Running
// ---------------------------------------------------------------------------

/// The settings that environment variables give.
pub struct Environment {
    pub dns_upstream_v4: Option<String>,
    pub dns_upstream_v6: Option<String>,
    pub resolv_conf_path: Option<String>,
}

/// A command to execute, and its arguments.
pub struct CustomCommand {
    pub program: String,
    pub args: Vec<String>,
}

/// A command to execute, with strings taken by their characters.
pub struct CommandView {
    pub program: Seq<char>,
    pub args: Seq<Seq<char>>,
}

/// The settings, and the command to execute in place of watching.
pub struct RunOptions {
    pub config: DaemonConfig,
    pub command: Option<CustomCommand>,
}

/// The settings and the command, with strings taken by their characters.
pub struct OptionsView {
    pub config: ConfigView,
    pub command: Option<CommandView>,
}

impl View for CustomCommand {
    type V = CommandView;

    open spec fn view(&self) -> CommandView {
        CommandView { program: self.program@, args: texts(self.args@) }
    }
}

impl View for RunOptions {
    type V = OptionsView;

    open spec fn view(&self) -> OptionsView {
        OptionsView {
            config: self.config@,
            command: match self.command {
                Some(c) => Some(c@),
                None => None,
            },
        }
    }
}

/// A text, or another in its place.
pub open spec fn text_or(s: Option<String>, default: Seq<char>) -> Seq<char> {
    match s {
        Some(t) => t@,
        None => default,
    }
}

/// The settings before the command line is read: the defaults, but for those
/// that environment variables give.
pub open spec fn environment_config(env: Environment) -> ConfigView {
    ConfigView {
        dns_upstream_v4: text_or(env.dns_upstream_v4, default_config().dns_upstream_v4),
        dns_upstream_v6: text_or(env.dns_upstream_v6, default_config().dns_upstream_v6),
        resolv_conf_path: text_or(env.resolv_conf_path, default_config().resolv_conf_path),
        ..default_config()
    }
}

/// The settings after the option `name` with its value; none where there is no
/// such option. A time that is not a number changes nothing.
pub open spec fn with_option(config: ConfigView, name: Seq<char>, value: Seq<char>) -> Option<
    ConfigView,
> {
    if name == "--rules"@ {
        Some(ConfigView { rules_path: Some(value), ..config })
    } else if name == "--whitelist"@ {
        Some(ConfigView { whitelist_path: value, ..config })
    } else if name == "--dns-upstream-v4"@ || name == "--dns-v4"@ {
        Some(ConfigView { dns_upstream_v4: value, ..config })
    } else if name == "--dns-upstream-v6"@ || name == "--dns-v6"@ {
        Some(ConfigView { dns_upstream_v6: value, ..config })
    } else if name == "--resolv-conf"@ {
        Some(ConfigView { resolv_conf_path: value, ..config })
    } else if name == "--family"@ {
        Some(ConfigView { table_family: value, ..config })
    } else if name == "--table"@ {
        Some(ConfigView { table_name: value, ..config })
    } else if name == "--v4-set"@ {
        Some(ConfigView { v4_set: value, ..config })
    } else if name == "--v6-set"@ {
        Some(ConfigView { v6_set: value, ..config })
    } else if name == "--debounce-ms"@ {
        match unsigned(value, u64::MAX as nat) {
            Some(ms) => Some(ConfigView { debounce_ms: ms as u64, ..config }),
            None => Some(config),
        }
    } else {
        None
    }
}

/// What the arguments say, on top of the given settings: options with their
/// values, then perhaps a command, which `--` may announce. An error is the
/// argument that is neither.
pub open spec fn options_in(config: ConfigView, args: Seq<Seq<char>>) -> Result<
    OptionsView,
    Seq<char>,
>
    decreases args.len(),
{
    if args.len() == 0 {
        Ok(OptionsView { config, command: None })
    } else if args[0] == "--"@ {
        Ok(
            OptionsView {
                config,
                command: if args.len() > 1 {
                    Some(CommandView { program: args[1], args: args.skip(2) })
                } else {
                    None
                },
            },
        )
    } else if args.len() > 1 && with_option(config, args[0], args[1]) is Some {
        options_in(with_option(config, args[0], args[1])->0, args.skip(2))
    } else if is_dashed(args[0]) {
        Err(args[0])
    } else {
        Ok(
            OptionsView {
                config,
                command: Some(CommandView { program: args[0], args: args.skip(1) }),
            },
        )
    }
}

/// What was read from the arguments, with strings taken by their characters.
pub open spec fn options_view(r: Result<RunOptions, String>) -> Result<OptionsView, Seq<char>> {
    match r {
        Ok(options) => Ok(options@),
        Err(arg) => Err(arg@),
    }
}

/// The settings before the command line is read.
fn initial_config(env: &Environment) -> (r: DaemonConfig)
    ensures
        r@ == environment_config(*env),
{
    let mut config = DaemonConfig::default();
    if let Some(v4) = &env.dns_upstream_v4 {
        config.dns_upstream_v4 = v4.clone();
    }
    if let Some(v6) = &env.dns_upstream_v6 {
        config.dns_upstream_v6 = v6.clone();
    }
    if let Some(path) = &env.resolv_conf_path {
        config.resolv_conf_path = path.clone();
    }
    config
}

/// Sets the option `name`, and says whether there is one.
fn set_option(config: &mut DaemonConfig, name: &String, value: &String) -> (r: bool)
    ensures
        match with_option(old(config)@, name@, value@) {
            Some(c) => r && final(config)@ == c,
            None => !r && final(config)@ == old(config)@,
        },
{
    let name = name.as_str();
    if same_str(name, "--rules") {
        config.rules_path = Some(value.clone());
    } else if same_str(name, "--whitelist") {
        config.whitelist_path = value.clone();
    } else if same_str(name, "--dns-upstream-v4") || same_str(name, "--dns-v4") {
        config.dns_upstream_v4 = value.clone();
    } else if same_str(name, "--dns-upstream-v6") || same_str(name, "--dns-v6") {
        config.dns_upstream_v6 = value.clone();
    } else if same_str(name, "--resolv-conf") {
        config.resolv_conf_path = value.clone();
    } else if same_str(name, "--family") {
        config.table_family = value.clone();
    } else if same_str(name, "--table") {
        config.table_name = value.clone();
    } else if same_str(name, "--v4-set") {
        config.v4_set = value.clone();
    } else if same_str(name, "--v6-set") {
        config.v6_set = value.clone();
    } else if same_str(name, "--debounce-ms") {
        let digits = to_chars(value.as_str());
        if let Some(ms) = read_unsigned(digits.as_slice(), u64::MAX) {
            config.debounce_ms = ms;
        }
    } else {
        return false;
    }
    true
}

/// Reads the arguments of a run. An error is the argument that is unknown.
pub fn parse_run_options(env: &Environment, args: &Vec<String>) -> (r: Result<RunOptions, String>)
    ensures
        options_view(r) == options_in(environment_config(*env), texts(args@)),
{
    let ghost all = texts(args@);
    let ghost whole = options_in(environment_config(*env), all);
    let mut config = initial_config(env);
    let mut i: usize = 0;
    assert(all.skip(0) =~= all);
    while i < args.len()
        invariant
            i <= args.len(),
            all == texts(args@),
            whole == options_in(environment_config(*env), all),
            options_in(config@, all.skip(i as int)) == whole,
        decreases args.len() - i,
    {
        let ghost rest = all.skip(i as int);
        assert(rest[0] == args@[i as int]@);
        if same_str(args[i].as_str(), "--") {
            if i + 1 < args.len() {
                assert(rest[1] == args@[i + 1]@);
                assert(rest.skip(2) =~= all.skip(i + 2));
                let command = CustomCommand {
                    program: args[i + 1].clone(),
                    args: arguments_from(args, i + 2),
                };
                return Ok(RunOptions { config, command: Some(command) });
            }
            return Ok(RunOptions { config, command: None });
        }
        if i + 1 < args.len() {
            assert(rest[1] == args@[i + 1]@);
            assert(rest.skip(2) =~= all.skip(i + 2));
            if set_option(&mut config, &args[i], &args[i + 1]) {
                i = i + 2;
                continue ;
            }
        }
        if has_dash(&args[i]) {
            return Err(args[i].clone());
        }
        assert(rest.skip(1) =~= all.skip(i + 1));
        let command = CustomCommand {
            program: args[i].clone(),
            args: arguments_from(args, i + 1),
        };
        return Ok(RunOptions { config, command: Some(command) });
    }
    Ok(RunOptions { config, command: None })
}

// ---------------------------------------------------------------------------
// Checking
// ---------------------------------------------------------------------------

/// What the arguments of a check ask for.
pub enum CheckRequest {
    Usage,
    MissingPath,
    File { path: String, strict: bool },
}

/// What the arguments of a check ask for, with strings taken by their characters.
pub enum CheckView {
    Usage,
    MissingPath,
    File { path: Seq<char>, strict: bool },
}

impl View for CheckRequest {
    type V = CheckView;

    open spec fn view(&self) -> CheckView {
        match self {
            CheckRequest::Usage => CheckView::Usage,
            CheckRequest::MissingPath => CheckView::MissingPath,
            CheckRequest::File { path, strict } => CheckView::File { path: path@, strict: *strict },
        }
    }
}

/// Whether one of the arguments asks for help.
pub open spec fn some_help(args: Seq<Seq<char>>) -> bool {
    exists|i: int| 0 <= i < args.len() && is_help(#[trigger] args[i])
}

/// The first argument without a dash.
pub open spec fn first_plain(args: Seq<Seq<char>>) -> Option<Seq<char>>
    decreases args.len(),
{
    if args.len() == 0 {
        None
    } else if !is_dashed(args[0]) {
        Some(args[0])
    } else {
        first_plain(args.skip(1))
    }
}

/// What the arguments of a check ask for. Dashed arguments that mean nothing,
/// and a second path, are passed over.
pub open spec fn check_in(args: Seq<Seq<char>>) -> CheckView {
    if some_help(args) {
        CheckView::Usage
    } else {
        match first_plain(args) {
            Some(path) => CheckView::File { path, strict: args.contains("--strict"@) },
            None => CheckView::MissingPath,
        }
    }
}

/// Whether one of the arguments asks for help.
fn find_help(args: &Vec<String>, start: usize) -> (r: bool)
    requires
        start <= args@.len(),
    ensures
        r == some_help(texts(args@).skip(start as int)),
{
    let ghost rest = texts(args@).skip(start as int);
    for i in start..args.len()
        invariant
            rest == texts(args@).skip(start as int),
            forall|j: int| 0 <= j < i - start ==> !is_help(#[trigger] rest[j]),
    {
        assert(rest[i - start] == args@[i as int]@);
        if asks_help(&args[i]) {
            return true;
        }
    }
    false
}

/// Reads the arguments of a check.
pub fn parse_check_options(args: &Vec<String>) -> (r: CheckRequest)
    ensures
        r@ == check_in(texts(args@)),
{
    let ghost all = texts(args@);
    assert(all.skip(0) =~= all);
    if find_help(args, 0) {
        return CheckRequest::Usage;
    }
    let mut strict = false;
    let mut path: Option<String> = None;
    proof {
        reveal_strlit("--strict");
    }
    for i in 0..args.len()
        invariant
            all == texts(args@),
            strict == all.take(i as int).contains("--strict"@),
            match path {
                Some(p) => first_plain(all) == Some(p@),
                None => first_plain(all.skip(i as int)) == first_plain(all),
            },
    {
        let ghost front = all.take(i as int);
        assert(all[i as int] == args@[i as int]@);
        assert(all.skip(i as int).skip(1) =~= all.skip(i + 1));
        assert(all.take(i + 1) =~= front.push(all[i as int]));
        proof {
            reveal_strlit("--strict");
            lemma_push_contains(front, all[i as int], "--strict"@);
        }
        if same_str(args[i].as_str(), "--strict") {
            strict = true;
        } else if path.is_none() && !has_dash(&args[i]) {
            path = Some(args[i].clone());
        }
    }
    assert(all.take(args@.len() as int) =~= all);
    match path {
        Some(path) => CheckRequest::File { path, strict },
        None => CheckRequest::MissingPath,
    }
}

/// The lines that list the entries of a family.
pub open spec fn listing(family: Seq<char>, entries: Seq<Seq<char>>) -> Seq<LogText> {
    seq![LogText::Stdout("  "@ + family + " entries: "@ + decimal(entries.len()))] + Seq::new(
        entries.len(),
        |i: int| LogText::Stdout("    - "@ + entries[i]),
    )
}

/// What the operator is told about the verdict on a whitelist.
pub open spec fn verdict_log(r: Result<EntryTexts, Seq<char>>) -> Seq<LogText> {
    match r {
        Ok(entries) => seq![LogText::Stdout("Validation successful:"@)] + listing(
            "IPv4"@,
            entries.v4,
        ) + listing("IPv6"@, entries.v6),
        Err(e) => seq![LogText::Stderr("Validation failed: "@ + e)],
    }
}

/// What the operator is told about a check.
pub open spec fn check_log(
    path: Seq<char>,
    strict: bool,
    content: Result<Seq<char>, Seq<char>>,
) -> Seq<LogText> {
    match content {
        Err(e) => seq![LogText::Stderr("Error reading '"@ + path + "': "@ + e)],
        Ok(text) => (if strict {
            Seq::empty()
        } else {
            whitelist_log(lines(text))
        }) + verdict_log(whitelist_result(text, strict)),
    }
}

/// Whether a check succeeds: the whitelist could be read and is in order.
pub open spec fn check_succeeds(strict: bool, content: Result<Seq<char>, Seq<char>>) -> bool {
    content matches Ok(text) && whitelist_result(text, strict) is Ok
}

/// What was read, with strings taken by their characters.
pub open spec fn content_view(content: Result<String, String>) -> Result<Seq<char>, Seq<char>> {
    match content {
        Ok(text) => Ok(text@),
        Err(e) => Err(e@),
    }
}

/// What a check comes to.
pub struct CheckReport {
    pub success: bool,
    pub log: Vec<LogLine>,
}

/// Adds the lines that list the entries of a family.
fn add_listing(log: &mut Vec<LogLine>, family: &str, entries: &Vec<String>)
    ensures
        log_texts(final(log)@) == log_texts(old(log)@) + listing(family@, texts(entries@)),
{
    let ghost start = log_texts(log@);
    let ghost all = texts(entries@);
    let ghost lines = listing(family@, all);
    let head = cat3("  ", family, " entries: ");
    add_line(
        log,
        LogLine::Stdout(cat2(head.as_str(), write_numeral(entries.len() as u64, 10).as_str())),
    );
    assert(log_texts(log@) =~= start + lines.take(1));
    for i in 0..entries.len()
        invariant
            all == texts(entries@),
            lines == listing(family@, all),
            log_texts(log@) == start + lines.take(i + 1),
    {
        let ghost before = log_texts(log@);
        add_line(log, LogLine::Stdout(cat2("    - ", entries[i].as_str())));
        assert(lines[i + 1] == LogText::Stdout("    - "@ + all[i as int]));
        assert(lines.take(i + 2) =~= lines.take(i + 1).push(lines[i + 1]));
        assert(log_texts(log@) =~= start + lines.take(i + 2));
    }
    assert(lines.take(all.len() as int + 1) =~= lines);
}

/// Judges a whitelist. `content` is what stands in the file at `path`, or the
/// system's message that it cannot be read.
pub fn handle_check(path: &str, strict: bool, content: &Result<String, String>) -> (r: CheckReport)
    ensures
        r.success == check_succeeds(strict, content_view(*content)),
        log_texts(r.log@) == check_log(path@, strict, content_view(*content)),
{
    let ghost wanted = check_log(path@, strict, content_view(*content));
    match content {
        Err(e) => {
            let mut log: Vec<LogLine> = Vec::new();
            add_line(
                &mut log,
                LogLine::Stderr(cat4("Error reading '", path, "': ", e.as_str())),
            );
            assert(log_texts(log@) =~= wanted);
            CheckReport { success: false, log }
        },
        Ok(text) => {
            let report = examine_whitelist(text.as_str(), strict);
            let mut log = report.log;
            let ghost start = log_texts(log@);
            match report.result {
                Ok(entries) => {
                    add_line(&mut log, LogLine::Stdout("Validation successful:".to_owned()));
                    add_listing(&mut log, "IPv4", &entries.v4);
                    add_listing(&mut log, "IPv6", &entries.v6);
                    assert(log_texts(log@) =~= start + verdict_log(Ok(entries@)));
                    CheckReport { success: true, log }
                },
                Err(e) => {
                    add_line(&mut log, LogLine::Stderr(cat2("Validation failed: ", e.as_str())));
                    assert(log_texts(log@) =~= start + verdict_log(Err(e@)));
                    CheckReport { success: false, log }
                },
            }
        },
    }
}

// ---------------------------------------------------------------------------
// The whole command line
// ---------------------------------------------------------------------------

/// What the command line asks for. An error in the options is the argument
/// that is unknown.
pub enum Invocation {
    Help,
    Check(CheckRequest),
    Run(Result<RunOptions, String>),
}

/// What the command line asks for, with strings taken by their characters.
pub enum InvocationView {
    Help,
    Check(CheckView),
    Run(Result<OptionsView, Seq<char>>),
}

impl View for Invocation {
    type V = InvocationView;

    open spec fn view(&self) -> InvocationView {
        match self {
            Invocation::Help => InvocationView::Help,
            Invocation::Check(request) => InvocationView::Check(request@),
            Invocation::Run(options) => InvocationView::Run(options_view(*options)),
        }
    }
}

/// What the command line asks for: help, wherever it is asked for; a check; or
/// a run, which is what is meant without a subcommand.
pub open spec fn invocation_in(config: ConfigView, args: Seq<Seq<char>>) -> InvocationView {
    if some_help(args) {
        InvocationView::Help
    } else if args.len() > 0 && args[0] == "check"@ {
        InvocationView::Check(check_in(args.skip(1)))
    } else if args.len() > 0 && args[0] == "run"@ {
        InvocationView::Run(options_in(config, args.skip(1)))
    } else {
        InvocationView::Run(options_in(config, args))
    }
}

/// Reads the command line, the name of the program left out.
pub fn parse_command_line(env: &Environment, args: &Vec<String>) -> (r: Invocation)
    ensures
        r@ == invocation_in(environment_config(*env), texts(args@)),
{
    let ghost all = texts(args@);
    assert(all.skip(0) =~= all);
    if find_help(args, 0) {
        return Invocation::Help;
    }
    if args.len() > 0 {
        assert(all[0] == args@[0]@);
        if same_str(args[0].as_str(), "check") {
            return Invocation::Check(parse_check_options(&arguments_from(args, 1)));
        }
        if same_str(args[0].as_str(), "run") {
            return Invocation::Run(parse_run_options(env, &arguments_from(args, 1)));
        }
    }
    Invocation::Run(parse_run_options(env, args))
}

// ---------------------------------------------------------------------------
// The first lines
// ---------------------------------------------------------------------------

/// What the operator is told about the command line.
pub open spec fn help_text() -> Seq<char> {
    "nft-egress-daemon - High performance, atomic nftables egress whitelist gateway daemon\n\nUSAGE:\n    nft-egress-daemon [SUBCOMMAND | OPTIONS | COMMAND...]\n\nSUBCOMMANDS:\n    run                     Run gateway daemon (loads ruleset and monitors whitelist) [default]\n    check <FILE>            Validate syntax and structure of a whitelist file\n\nOPTIONS (for 'run' or default mode):\n    --rules <PATH>          Path to initial nftables ruleset file to load on startup\n    --whitelist <PATH>      Path to whitelist configuration file (default: /etc/nftables/whitelist.txt)\n    --family <FAMILY>       nftables table family (default: inet)\n    --table <TABLE>         nftables table name (default: filter)\n    --v4-set <SET>          IPv4 whitelist set name (default: lan_whitelist_v4)\n    --v6-set <SET>          IPv6 whitelist set name (default: lan_whitelist_v6)\n    --debounce-ms <MS>      File watch debounce window in milliseconds (default: 150)\n    --dns-upstream-v4 <IP>  Upstream IPv4 DNS for transparent redirection, or 'auto' (default: auto)\n    --dns-upstream-v6 <IP>  Upstream IPv6 DNS for transparent redirection, or 'auto' (default: auto)\n    --resolv-conf <PATH>    Path to resolv.conf for DNS auto-detection (default: /etc/resolv.conf)\n    --strict                In 'check' mode, fail on any warning\n    --help, -h              Print this help information\n    -- <CMD> [ARGS...]      Execute custom command instead of running watcher loop\n"@
}

/// What the operator is told before anything is done. A check names its file;
/// what cannot be done is refused; a run begins without a word.
pub open spec fn opening_log(invocation: InvocationView) -> Seq<LogText> {
    match invocation {
        InvocationView::Help => seq![LogText::Stdout(help_text())],
        InvocationView::Check(CheckView::Usage) => seq![
            LogText::Stdout("Usage: nft-egress-daemon check [--strict] <FILE>"@),
        ],
        InvocationView::Check(CheckView::MissingPath) => seq![
            LogText::Stderr("Error: Missing file path for 'check' command."@),
        ],
        InvocationView::Check(CheckView::File { path, .. }) => seq![
            LogText::Stdout("Checking whitelist file: "@ + path),
        ],
        InvocationView::Run(Ok(_)) => Seq::empty(),
        InvocationView::Run(Err(arg)) => seq![
            LogText::Stderr("Unknown argument: "@ + arg),
            LogText::Stdout(help_text()),
        ],
    }
}

/// The exit status, where there is nothing to do beyond the first lines.
pub open spec fn opening_exit(invocation: InvocationView) -> Option<i32> {
    match invocation {
        InvocationView::Help | InvocationView::Check(CheckView::Usage) => Some(0),
        InvocationView::Check(CheckView::MissingPath) | InvocationView::Run(Err(_)) => Some(1),
        _ => None,
    }
}

/// What to tell the operator first, and the exit status if that is all.
pub struct Opening {
    pub log: Vec<LogLine>,
    pub exit: Option<i32>,
}

/// What the operator is told about the command line.
fn write_help() -> (r: LogLine)
    ensures
        r@ == LogText::Stdout(help_text()),
{
    LogLine::Stdout(
        "nft-egress-daemon - High performance, atomic nftables egress whitelist gateway daemon\n\nUSAGE:\n    nft-egress-daemon [SUBCOMMAND | OPTIONS | COMMAND...]\n\nSUBCOMMANDS:\n    run                     Run gateway daemon (loads ruleset and monitors whitelist) [default]\n    check <FILE>            Validate syntax and structure of a whitelist file\n\nOPTIONS (for 'run' or default mode):\n    --rules <PATH>          Path to initial nftables ruleset file to load on startup\n    --whitelist <PATH>      Path to whitelist configuration file (default: /etc/nftables/whitelist.txt)\n    --family <FAMILY>       nftables table family (default: inet)\n    --table <TABLE>         nftables table name (default: filter)\n    --v4-set <SET>          IPv4 whitelist set name (default: lan_whitelist_v4)\n    --v6-set <SET>          IPv6 whitelist set name (default: lan_whitelist_v6)\n    --debounce-ms <MS>      File watch debounce window in milliseconds (default: 150)\n    --dns-upstream-v4 <IP>  Upstream IPv4 DNS for transparent redirection, or 'auto' (default: auto)\n    --dns-upstream-v6 <IP>  Upstream IPv6 DNS for transparent redirection, or 'auto' (default: auto)\n    --resolv-conf <PATH>    Path to resolv.conf for DNS auto-detection (default: /etc/resolv.conf)\n    --strict                In 'check' mode, fail on any warning\n    --help, -h              Print this help information\n    -- <CMD> [ARGS...]      Execute custom command instead of running watcher loop\n".to_owned(),
    )
}

/// Decides what to tell the operator before anything is done.
pub fn open_invocation(invocation: &Invocation) -> (r: Opening)
    ensures
        log_texts(r.log@) == opening_log(invocation@),
        r.exit == opening_exit(invocation@),
{
    let mut log: Vec<LogLine> = Vec::new();
    let exit: Option<i32> = match invocation {
        Invocation::Help => {
            add_line(&mut log, write_help());
            Some(0)
        },
        Invocation::Check(CheckRequest::Usage) => {
            add_line(
                &mut log,
                LogLine::Stdout("Usage: nft-egress-daemon check [--strict] <FILE>".to_owned()),
            );
            Some(0)
        },
        Invocation::Check(CheckRequest::MissingPath) => {
            add_line(
                &mut log,
                LogLine::Stderr("Error: Missing file path for 'check' command.".to_owned()),
            );
            Some(1)
        },
        Invocation::Check(CheckRequest::File { path, .. }) => {
            add_line(&mut log, LogLine::Stdout(cat2("Checking whitelist file: ", path.as_str())));
            None
        },
        Invocation::Run(Ok(_)) => None,
        Invocation::Run(Err(arg)) => {
            add_line(&mut log, LogLine::Stderr(cat2("Unknown argument: ", arg.as_str())));
            add_line(&mut log, write_help());
            Some(1)
        },
    };
    assert(log_texts(log@) =~= opening_log(invocation@));
    Opening { log, exit }
}

/// What the operator is told when a run has applied its rules and goes on to
/// watch: nothing where a command is executed in place of that.
pub open spec fn watching_log(options: OptionsView) -> Seq<LogText> {
    match options.command {
        Some(_) => Seq::empty(),
        None => seq![
            LogText::Stdout("[Gateway] Starting whitelist-watcher daemon (Sidecar mode)..."@),
        ],
    }
}

/// Announces that the daemon watches the whitelist from now on.
pub fn announce_watching(options: &RunOptions) -> (r: Vec<LogLine>)
    ensures
        log_texts(r@) == watching_log(options@),
{
    let mut log: Vec<LogLine> = Vec::new();
    if options.command.is_none() {
        add_line(
            &mut log,
            LogLine::Stdout(
                "[Gateway] Starting whitelist-watcher daemon (Sidecar mode)...".to_owned(),
            ),
        );
    }
    assert(log_texts(log@) =~= watching_log(options@));
    log
}

/// Says that a command could not be executed; `error` is the system's message.
pub fn report_exec_failure(program: &str, error: &str) -> (r: LogLine)
    ensures
        r@ == LogText::Stderr("[Gateway] Failed to exec '"@ + program@ + "': "@ + error@),
{
    LogLine::Stderr(cat4("[Gateway] Failed to exec '", program, "': ", error))
}

// ---------------------------------------------------------------------------
// Laws
// ---------------------------------------------------------------------------

/// A subcommand `run` changes nothing, unless what follows is the name of a
/// subcommand.
pub proof fn run_is_the_default(config: ConfigView, args: Seq<Seq<char>>)
    requires
        args.len() > 0 ==> args[0] != "run"@ && args[0] != "check"@,
    ensures
        invocation_in(config, seq!["run"@] + args) == invocation_in(config, args),
{
    let all = seq!["run"@] + args;
    reveal_strlit("run");
    reveal_strlit("check");
    reveal_strlit("--help");
    reveal_strlit("-h");
    assert(all.skip(1) =~= args);
    assert(all[0] == "run"@);
    assert("run"@.len() == 3 && "check"@.len() == 5 && "--help"@.len() == 6 && "-h"@.len() == 2);
    if some_help(all) {
        let i = choose|i: int| 0 <= i < all.len() && is_help(#[trigger] all[i]);
        assert(all[i] == args[i - 1]);
    }
    if some_help(args) {
        let i = choose|i: int| 0 <= i < args.len() && is_help(#[trigger] args[i]);
        assert(is_help(all[i + 1]));
    }
}

/// A first argument without a dash, unless it names a subcommand, is a command
/// to execute with all that follows, under the settings of the environment.
pub proof fn a_plain_argument_is_a_command(config: ConfigView, args: Seq<Seq<char>>)
    requires
        args.len() > 0,
        !is_dashed(args[0]),
        args[0] != "run"@,
        args[0] != "check"@,
        !some_help(args),
    ensures
        invocation_in(config, args) == InvocationView::Run(
            Ok(
                OptionsView {
                    config,
                    command: Some(CommandView { program: args[0], args: args.skip(1) }),
                },
            ),
        ),
{
    if args.len() > 1 {
        lemma_option_names(config, args[0], args[1]);
    }
    lemma_option_names(config, args[0], args[0]);
}

/// Whether the arguments are options, each with its value, that lead from one
/// setting to the other.
pub open spec fn options_lead(from: ConfigView, args: Seq<Seq<char>>, to: ConfigView) -> bool
    decreases args.len(),
{
    if args.len() == 0 {
        from == to
    } else {
        &&& args.len() >= 2
        &&& with_option(from, args[0], args[1]) is Some
        &&& options_lead(with_option(from, args[0], args[1])->0, args.skip(2), to)
    }
}

/// Options before a command settle the configuration by themselves, and the
/// command is what follows `--`, whatever it looks like.
pub proof fn options_settle_the_configuration(
    from: ConfigView,
    options: Seq<Seq<char>>,
    to: ConfigView,
    command: Seq<Seq<char>>,
)
    requires
        options_lead(from, options, to),
        command.len() > 0,
    ensures
        options_in(from, options) == Ok::<OptionsView, Seq<char>>(
            OptionsView { config: to, command: None },
        ),
        options_in(from, options + seq!["--"@] + command) == Ok::<OptionsView, Seq<char>>(
            OptionsView {
                config: to,
                command: Some(CommandView { program: command[0], args: command.skip(1) }),
            },
        ),
    decreases options.len(),
{
    let all = options + seq!["--"@] + command;
    if options.len() == 0 {
        assert(all[0] == "--"@);
        assert(all[1] == command[0]);
        assert(all.skip(2) =~= command.skip(1));
    } else {
        lemma_option_names(from, options[0], options[1]);
        let next = with_option(from, options[0], options[1])->0;
        options_settle_the_configuration(next, options.skip(2), to, command);
        assert(all[0] == options[0] && all[1] == options[1]);
        assert(all.skip(2) =~= options.skip(2) + seq!["--"@] + command);
    }
}

/// Options start with a dash, and are more than two dashes.
pub proof fn lemma_option_names(config: ConfigView, name: Seq<char>, value: Seq<char>)
    ensures
        with_option(config, name, value) is Some ==> is_dashed(name) && name != "--"@,
        is_dashed("--"@),
{
    reveal_strlit("--");
    reveal_strlit("--rules");
    reveal_strlit("--whitelist");
    reveal_strlit("--dns-upstream-v4");
    reveal_strlit("--dns-v4");
    reveal_strlit("--dns-upstream-v6");
    reveal_strlit("--dns-v6");
    reveal_strlit("--resolv-conf");
    reveal_strlit("--family");
    reveal_strlit("--table");
    reveal_strlit("--v4-set");
    reveal_strlit("--v6-set");
    reveal_strlit("--debounce-ms");
    assert("--"@.len() == 2 && "--rules"@.len() == 7 && "--whitelist"@.len() == 11);
    assert("--dns-upstream-v4"@.len() == 17 && "--dns-v4"@.len() == 8);
    assert("--dns-upstream-v6"@.len() == 17 && "--dns-v6"@.len() == 8);
    assert("--resolv-conf"@.len() == 13 && "--family"@.len() == 8 && "--table"@.len() == 7);
    assert("--v4-set"@.len() == 8 && "--v6-set"@.len() == 8 && "--debounce-ms"@.len() == 13);
}

/// Of two values for the same option the later one prevails, and what the
/// setting was before does not matter; but for a time that is not a number,
/// which changes nothing.
pub proof fn a_later_option_prevails(
    config: ConfigView,
    name: Seq<char>,
    first: Seq<char>,
    second: Seq<char>,
)
    requires
        with_option(config, name, first) is Some,
        name == "--debounce-ms"@ ==> unsigned(second, u64::MAX as nat) is Some,
    ensures
        with_option(with_option(config, name, first)->0, name, second) == with_option(
            config,
            name,
            second,
        ),
{
}

/// A strict check passes a whitelist that can be read if and only if every
/// line is in order; any other check passes every whitelist that can be read.
pub proof fn a_check_passes_what_is_in_order(text: Seq<char>)
    ensures
        check_succeeds(true, Ok(text)) <==> forall|i: int|
            0 <= i < lines(text).len() ==> line_result(#[trigger] lines(text)[i], true) is Ok,
        check_succeeds(false, Ok(text)),
{
    a_strict_reading_accepts_what_is_in_order(text);
}

} // verus!
