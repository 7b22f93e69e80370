//! What the command line means, and where the whitelist is.

use crate::cli::{
    check_in, check_log, check_succeeds, environment_config, first_plain, invocation_in, is_help,
    lemma_option_names, listing, opening_exit, opening_log, options_in, some_help, verdict_log,
    watching_log, with_option, CheckView, CommandView, Environment, InvocationView, OptionsView,
};
use crate::config::{default_config, ConfigView};
use crate::log::LogText;
use crate::numbers::{decimal, unsigned};
use crate::parser::{whitelist_log, whitelist_result, EntryTexts};
use crate::place::{
    a_file_is_in_its_directory, directory_of, is_file_name, lemma_last_start, name_of, without_tail,
};
use crate::text::lines;
use vstd::prelude::*;

verus! {

// ---------------------------------------------------------------------------
// Settings
// ---------------------------------------------------------------------------

/// The settings before anything is said: the whitelist and the resolver
/// configuration at their usual places, table `inet filter`, detection of the
/// servers, and 150 milliseconds. An environment variable changes the setting
/// that it is for and no other.
pub proof fn the_environment_changes_three_settings(env: Environment)
    ensures
        ({
            let config = environment_config(env);
            &&& config.rules_path is None
            &&& config.whitelist_path == "/etc/nftables/whitelist.txt"@
            &&& config.table_family == "inet"@
            &&& config.table_name == "filter"@
            &&& config.v4_set == "lan_whitelist_v4"@
            &&& config.v6_set == "lan_whitelist_v6"@
            &&& config.debounce_ms == 150
            &&& config.resolv_conf_path == (if env.resolv_conf_path is Some {
                env.resolv_conf_path->0@
            } else {
                "/etc/resolv.conf"@
            })
            &&& config.dns_upstream_v4 == (if env.dns_upstream_v4 is Some {
                env.dns_upstream_v4->0@
            } else {
                "auto"@
            })
            &&& config.dns_upstream_v6 == (if env.dns_upstream_v6 is Some {
                env.dns_upstream_v6->0@
            } else {
                "auto"@
            })
        }),
{
}

/// The names of the options differ.
proof fn lemma_names_differ()
    ensures
        "--rules"@ != "--table"@,
        "--dns-v4"@ != "--dns-v6"@,
        "--dns-v4"@ != "--family"@,
        "--dns-v4"@ != "--v4-set"@,
        "--dns-v4"@ != "--v6-set"@,
        "--dns-v6"@ != "--family"@,
        "--dns-v6"@ != "--v4-set"@,
        "--dns-v6"@ != "--v6-set"@,
        "--family"@ != "--v4-set"@,
        "--family"@ != "--v6-set"@,
        "--v4-set"@ != "--v6-set"@,
        "--dns-upstream-v4"@ != "--dns-upstream-v6"@,
        "--resolv-conf"@ != "--debounce-ms"@,
{
    reveal_strlit("--rules");
    reveal_strlit("--table");
    reveal_strlit("--dns-v4");
    reveal_strlit("--dns-v6");
    reveal_strlit("--family");
    reveal_strlit("--v4-set");
    reveal_strlit("--v6-set");
    reveal_strlit("--dns-upstream-v4");
    reveal_strlit("--dns-upstream-v6");
    reveal_strlit("--resolv-conf");
    reveal_strlit("--debounce-ms");
    assert("--rules"@[2] == 'r' && "--table"@[2] == 't');
    assert("--dns-v4"@[2] == 'd' && "--dns-v6"@[2] == 'd' && "--family"@[2] == 'f');
    assert("--dns-v4"@[7] == '4' && "--dns-v6"@[7] == '6');
    assert("--v4-set"@[2] == 'v' && "--v6-set"@[2] == 'v');
    assert("--v4-set"@[3] == '4' && "--v6-set"@[3] == '6');
    assert("--dns-upstream-v4"@[16] == '4' && "--dns-upstream-v6"@[16] == '6');
    assert("--resolv-conf"@[2] == 'r' && "--debounce-ms"@[2] == 'd');
}

/// The lengths of the names of the options.
proof fn lemma_name_lengths()
    ensures
        "--rules"@.len() == 7,
        "--table"@.len() == 7,
        "--dns-v4"@.len() == 8,
        "--dns-v6"@.len() == 8,
        "--family"@.len() == 8,
        "--v4-set"@.len() == 8,
        "--v6-set"@.len() == 8,
        "--whitelist"@.len() == 11,
        "--resolv-conf"@.len() == 13,
        "--debounce-ms"@.len() == 13,
        "--dns-upstream-v4"@.len() == 17,
        "--dns-upstream-v6"@.len() == 17,
{
    reveal_strlit("--rules");
    reveal_strlit("--table");
    reveal_strlit("--dns-v4");
    reveal_strlit("--dns-v6");
    reveal_strlit("--family");
    reveal_strlit("--v4-set");
    reveal_strlit("--v6-set");
    reveal_strlit("--whitelist");
    reveal_strlit("--resolv-conf");
    reveal_strlit("--debounce-ms");
    reveal_strlit("--dns-upstream-v4");
    reveal_strlit("--dns-upstream-v6");
}

/// Each option sets the setting that it is for to its value, and no other; the
/// short names of the upstream servers mean the long ones.
pub proof fn an_option_sets_its_own_setting(config: ConfigView, value: Seq<char>)
    ensures
        ({
            let set = |name: Seq<char>| with_option(config, name, value);
            &&& set("--rules"@) == Some(ConfigView { rules_path: Some(value), ..config })
            &&& set("--whitelist"@) == Some(ConfigView { whitelist_path: value, ..config })
            &&& set("--resolv-conf"@) == Some(ConfigView { resolv_conf_path: value, ..config })
            &&& set("--family"@) == Some(ConfigView { table_family: value, ..config })
            &&& set("--table"@) == Some(ConfigView { table_name: value, ..config })
            &&& set("--v4-set"@) == Some(ConfigView { v4_set: value, ..config })
            &&& set("--v6-set"@) == Some(ConfigView { v6_set: value, ..config })
            &&& set("--dns-upstream-v4"@) == Some(ConfigView { dns_upstream_v4: value, ..config })
            &&& set("--dns-v4"@) == Some(ConfigView { dns_upstream_v4: value, ..config })
            &&& set("--dns-upstream-v6"@) == Some(ConfigView { dns_upstream_v6: value, ..config })
            &&& set("--dns-v6"@) == Some(ConfigView { dns_upstream_v6: value, ..config })
        }),
{
    lemma_names_differ();
    lemma_name_lengths();
}

/// The time is set to the number that the value is, if it is one that fits
/// into 64 bits, and stays as it was otherwise.
pub proof fn a_time_is_set_by_its_number(config: ConfigView, value: Seq<char>)
    ensures
        with_option(config, "--debounce-ms"@, value) == Some(
            match unsigned(value, 0xffff_ffff_ffff_ffff) {
                Some(ms) => ConfigView { debounce_ms: ms as u64, ..config },
                None => config,
            },
        ),
{
    lemma_names_differ();
    lemma_name_lengths();
}

/// Whether the text names an option that takes a value.
pub open spec fn takes_a_value(name: Seq<char>) -> bool {
    seq![
        "--rules"@,
        "--whitelist"@,
        "--resolv-conf"@,
        "--family"@,
        "--table"@,
        "--v4-set"@,
        "--v6-set"@,
        "--dns-upstream-v4"@,
        "--dns-v4"@,
        "--dns-upstream-v6"@,
        "--dns-v6"@,
        "--debounce-ms"@,
    ].contains(name)
}

/// There are no other options.
pub proof fn there_are_no_other_options(config: ConfigView, name: Seq<char>, value: Seq<char>)
    ensures
        with_option(config, name, value) is Some <==> takes_a_value(name),
{
    let names = seq![
        "--rules"@,
        "--whitelist"@,
        "--resolv-conf"@,
        "--family"@,
        "--table"@,
        "--v4-set"@,
        "--v6-set"@,
        "--dns-upstream-v4"@,
        "--dns-v4"@,
        "--dns-upstream-v6"@,
        "--dns-v6"@,
        "--debounce-ms"@,
    ];
    assert(names[0] == "--rules"@ && names[1] == "--whitelist"@ && names[2] == "--resolv-conf"@);
    assert(names[3] == "--family"@ && names[4] == "--table"@ && names[5] == "--v4-set"@);
    assert(names[6] == "--v6-set"@ && names[7] == "--dns-upstream-v4"@ && names[8] == "--dns-v4"@);
    assert(names[9] == "--dns-upstream-v6"@ && names[10] == "--dns-v6"@);
    assert(names[11] == "--debounce-ms"@);
}

/// What follows options is read under the settings that they lead to.
pub proof fn options_come_one_by_one(
    from: ConfigView,
    name: Seq<char>,
    value: Seq<char>,
    rest: Seq<Seq<char>>,
)
    requires
        takes_a_value(name),
    ensures
        options_in(from, seq![name, value] + rest) == options_in(
            with_option(from, name, value)->0,
            rest,
        ),
        options_in(from, Seq::empty()) == Ok::<_, Seq<char>>(
            OptionsView { config: from, command: None },
        ),
{
    let all = seq![name, value] + rest;
    there_are_no_other_options(from, name, value);
    assert(all[0] == name && all[1] == value);
    assert(all.skip(2) =~= rest);
    reveal_strlit("--");
    lemma_name_lengths();
    assert("--"@.len() == 2);
}

/// An argument with a dash that is no option, or an option without a value, is
/// refused by its name; one without a dash begins a command, and `--` ends the
/// options.
pub proof fn other_arguments_end_the_options(
    config: ConfigView,
    arg: Seq<char>,
    rest: Seq<Seq<char>>,
)
    ensures
        arg.len() > 0 && arg[0] == '-' && arg != "--"@ && (!takes_a_value(arg) || rest.len() == 0)
            ==> options_in(config, seq![arg] + rest) == Err::<OptionsView, _>(arg),
        arg.len() == 0 || arg[0] != '-' ==> options_in(config, seq![arg] + rest) == Ok::<
            _,
            Seq<char>,
        >(OptionsView { config, command: Some(CommandView { program: arg, args: rest }) }),
        options_in(config, seq!["--"@]) == Ok::<_, Seq<char>>(OptionsView { config, command: None }),
        options_in(config, seq!["--"@, arg] + rest) == Ok::<_, Seq<char>>(
            OptionsView { config, command: Some(CommandView { program: arg, args: rest }) },
        ),
{
    let all = seq![arg] + rest;
    assert(all[0] == arg);
    assert(all.skip(1) =~= rest);
    reveal_strlit("--");
    if all.len() > 1 {
        there_are_no_other_options(config, arg, all[1]);
    }
    if arg.len() == 0 || arg[0] != '-' {
        lemma_options_are_dashed(arg);
    }
    let announced = seq!["--"@, arg] + rest;
    assert(announced[0] == "--"@ && announced[1] == arg);
    assert(announced.skip(2) =~= rest);
}

/// Options start with a dash.
proof fn lemma_options_are_dashed(name: Seq<char>)
    ensures
        takes_a_value(name) ==> name.len() > 0 && name[0] == '-',
{
    let config = default_config();
    there_are_no_other_options(config, name, name);
    lemma_option_names(config, name, name);
}

// ---------------------------------------------------------------------------
// The whole command line
// ---------------------------------------------------------------------------

/// Help is given wherever it is asked for. Otherwise the first argument says
/// whether to check or to run, and what follows it is what that is asked to do;
/// without either all of it is about a run.
pub proof fn the_first_argument_is_the_subcommand(config: ConfigView, args: Seq<Seq<char>>)
    ensures
        ({
            let help = args.contains("--help"@) || args.contains("-h"@);
            &&& help ==> invocation_in(config, args) == InvocationView::Help
            &&& !help && args.len() > 0 && args[0] == "check"@ ==> invocation_in(config, args)
                == InvocationView::Check(check_in(args.skip(1)))
            &&& !help && args.len() > 0 && args[0] == "run"@ ==> invocation_in(config, args)
                == InvocationView::Run(options_in(config, args.skip(1)))
            &&& !help && (args.len() == 0 || (args[0] != "check"@ && args[0] != "run"@))
                ==> invocation_in(config, args) == InvocationView::Run(options_in(config, args))
        }),
{
    lemma_some_help(args);
    reveal_strlit("check");
    reveal_strlit("run");
    assert("check"@.len() == 5 && "run"@.len() == 3);
}

/// Help is asked for by one of two arguments.
proof fn lemma_some_help(args: Seq<Seq<char>>)
    ensures
        some_help(args) <==> args.contains("--help"@) || args.contains("-h"@),
{
    if args.contains("--help"@) {
        let i = choose|i: int| 0 <= i < args.len() && args[i] == "--help"@;
        assert(is_help(args[i]));
    }
    if args.contains("-h"@) {
        let i = choose|i: int| 0 <= i < args.len() && args[i] == "-h"@;
        assert(is_help(args[i]));
    }
}

/// Whether each argument starts with a dash.
pub open spec fn all_dashed(args: Seq<Seq<char>>) -> bool {
    forall|i: int| 0 <= i < args.len() ==> (#[trigger] args[i]).len() > 0 && args[i][0] == '-'
}

/// The first argument without a dash, behind arguments with one.
proof fn lemma_first_plain(front: Seq<Seq<char>>, path: Seq<char>, rest: Seq<Seq<char>>)
    requires
        all_dashed(front),
        path.len() == 0 || path[0] != '-',
    ensures
        first_plain(front + seq![path] + rest) == Some(path),
        first_plain(front) is None,
    decreases front.len(),
{
    let all = front + seq![path] + rest;
    if front.len() == 0 {
        assert(all[0] == path);
    } else {
        assert(front[0].len() > 0 && front[0][0] == '-');
        assert(all[0] == front[0]);
        assert(all.skip(1) =~= front.skip(1) + seq![path] + rest);
        assert forall|i: int| 0 <= i < front.skip(1).len() implies (
        #[trigger] front.skip(1)[i]).len() > 0 && front.skip(1)[i][0] == '-' by {
            assert(front.skip(1)[i] == front[i + 1]);
        }
        lemma_first_plain(front.skip(1), path, rest);
    }
}

/// A check is of the first argument without a dash, and is strict if and only
/// if `--strict` stands before or behind it; without such an argument the path
/// is missing.
pub proof fn a_check_is_of_the_first_path(
    front: Seq<Seq<char>>,
    path: Seq<char>,
    rest: Seq<Seq<char>>,
)
    requires
        all_dashed(front),
        path.len() == 0 || path[0] != '-',
    ensures
        ({
            let args = front + seq![path] + rest;
            let help = args.contains("--help"@) || args.contains("-h"@);
            let strict = front.contains("--strict"@) || rest.contains("--strict"@);
            &&& help ==> check_in(args) == CheckView::Usage
            &&& !help ==> check_in(args) == (CheckView::File { path, strict })
            &&& !front.contains("--help"@) && !front.contains("-h"@) ==> check_in(front)
                == CheckView::MissingPath
        }),
{
    let args = front + seq![path] + rest;
    lemma_some_help(args);
    lemma_some_help(front);
    lemma_first_plain(front, path, rest);
    reveal_strlit("--strict");
    let word = "--strict"@;
    if args.contains(word) {
        let i = choose|i: int| 0 <= i < args.len() && args[i] == word;
        if i < front.len() {
            assert(front[i] == word);
        } else if i == front.len() {
            assert(args[i] == path);
        } else {
            assert(rest[i - front.len() - 1] == word);
        }
    }
    if front.contains(word) {
        let i = choose|i: int| 0 <= i < front.len() && front[i] == word;
        assert(args[i] == word);
    }
    if rest.contains(word) {
        let i = choose|i: int| 0 <= i < rest.len() && rest[i] == word;
        assert(args[front.len() + 1 + i] == word);
    }
}

/// The exit status is zero after help, and one after what cannot be done; a
/// check of a file and a run go on. A run says that it watches if it does.
pub proof fn only_a_refusal_fails_at_once(
    options: OptionsView,
    arg: Seq<char>,
    path: Seq<char>,
    strict: bool,
)
    ensures
        ({
            let missing = InvocationView::Check(CheckView::MissingPath);
            let usage = InvocationView::Check(CheckView::Usage);
            let file = InvocationView::Check(CheckView::File { path, strict });
            let run = InvocationView::Run(Ok(options));
            let refused = InvocationView::Run(Err(arg));
            &&& opening_exit(InvocationView::Help) == Some(0i32)
            &&& opening_exit(usage) == Some(0i32)
            &&& opening_exit(missing) == Some(1i32)
            &&& opening_exit(refused) == Some(1i32)
            &&& opening_exit(file) is None
            &&& opening_exit(run) is None
            &&& opening_log(run) == Seq::<LogText>::empty()
            &&& opening_log(InvocationView::Help).len() == 1
            &&& opening_log(refused) == seq![LogText::Stderr("Unknown argument: "@ + arg)]
                + opening_log(InvocationView::Help)
            &&& opening_log(file) == seq![LogText::Stdout("Checking whitelist file: "@ + path)]
            &&& opening_log(missing) == seq![
                LogText::Stderr("Error: Missing file path for 'check' command."@),
            ]
            &&& opening_log(usage) == seq![
                LogText::Stdout("Usage: nft-egress-daemon check [--strict] <FILE>"@),
            ]
            &&& watching_log(options) == (if options.command is Some {
                Seq::empty()
            } else {
                seq![
                    LogText::Stdout(
                        "[Gateway] Starting whitelist-watcher daemon (Sidecar mode)..."@,
                    ),
                ]
            })
        }),
{
    assert(opening_log(InvocationView::Run(Err(arg))) =~= seq![
        LogText::Stderr("Unknown argument: "@ + arg),
    ] + opening_log(InvocationView::Help));
}

// ---------------------------------------------------------------------------
// Checks
// ---------------------------------------------------------------------------

/// A check that passes lists the entries of each family under their number, in
/// order, IPv4 first; one that fails says why, on standard error.
pub proof fn a_verdict_lists_the_entries(
    path: Seq<char>,
    strict: bool,
    text: Seq<char>,
    error: Seq<char>,
    i: int,
)
    ensures
        ({
            let log = check_log(path, strict, Ok(text));
            let before = if strict {
                Seq::empty()
            } else {
                whitelist_log(lines(text))
            };
            let n = before.len() as int;
            &&& match whitelist_result(text, strict) {
                Ok(entries) => {
                    let a = entries.v4.len() as int;
                    let b = entries.v6.len() as int;
                    &&& log.len() == n + a + b + 3
                    &&& log.take(n) == before
                    &&& log[n] == LogText::Stdout("Validation successful:"@)
                    &&& log[n + 1] == LogText::Stdout(
                        "  "@ + "IPv4"@ + " entries: "@ + decimal(a as nat),
                    )
                    &&& 0 <= i < a ==> log[n + 2 + i] == LogText::Stdout("    - "@ + entries.v4[i])
                    &&& log[n + 2 + a] == LogText::Stdout(
                        "  "@ + "IPv6"@ + " entries: "@ + decimal(b as nat),
                    )
                    &&& 0 <= i < b ==> log[n + 3 + a + i] == LogText::Stdout(
                        "    - "@ + entries.v6[i],
                    )
                },
                Err(e) => log == before + seq![LogText::Stderr("Validation failed: "@ + e)],
            }
            &&& check_succeeds(strict, Ok(text)) <==> whitelist_result(text, strict) is Ok
            &&& check_log(path, strict, Err(error)) == seq![
                LogText::Stderr("Error reading '"@ + path + "': "@ + error),
            ]
            &&& !check_succeeds(strict, Err(error))
        }),
{
    let log = check_log(path, strict, Ok(text));
    let before = if strict {
        Seq::empty()
    } else {
        whitelist_log(lines(text))
    };
    let verdict = verdict_log(whitelist_result(text, strict));
    assert(log == before + verdict);
    assert(log.take(before.len() as int) =~= before);
    if let Ok(entries) = whitelist_result(text, strict) {
        lemma_verdict(entries, i);
    }
}

/// The lines of a verdict.
proof fn lemma_verdict(entries: EntryTexts, i: int)
    ensures
        ({
            let log = verdict_log(Ok(entries));
            let a = entries.v4.len() as int;
            let b = entries.v6.len() as int;
            &&& log.len() == a + b + 3
            &&& log[0] == LogText::Stdout("Validation successful:"@)
            &&& log[1] == LogText::Stdout("  "@ + "IPv4"@ + " entries: "@ + decimal(a as nat))
            &&& 0 <= i < a ==> log[2 + i] == LogText::Stdout("    - "@ + entries.v4[i])
            &&& log[2 + a] == LogText::Stdout("  "@ + "IPv6"@ + " entries: "@ + decimal(b as nat))
            &&& 0 <= i < b ==> log[3 + a + i] == LogText::Stdout("    - "@ + entries.v6[i])
        }),
{
    let first = listing("IPv4"@, entries.v4);
    let second = listing("IPv6"@, entries.v6);
    let a = entries.v4.len() as int;
    let log = verdict_log(Ok(entries));
    assert(log[1] == first[0]);
    assert(log[2 + a] == second[0]);
    if 0 <= i < a {
        assert(log[2 + i] == first[1 + i]);
    }
    if 0 <= i < entries.v6.len() {
        assert(log[3 + a + i] == second[1 + i]);
    }
}

// ---------------------------------------------------------------------------
// Places
// ---------------------------------------------------------------------------

/// A file is looked for under its name, in the directory that stands before
/// it; slashes and dots that add nothing to the end of the path are ignored.
pub proof fn a_path_is_its_directory_and_its_name(
    directory: Seq<char>,
    name: Seq<char>,
    path: Seq<char>,
)
    requires
        is_file_name(name),
        directory.len() > 0,
        directory.last() != '/',
        directory.last() == '.' && directory.len() > 1 ==> directory[directory.len() - 2] != '/',
    ensures
        directory_of(directory + "/"@ + name) == directory,
        name_of(directory + "/"@ + name) == Some(name),
        directory_of("/"@ + name) == "/"@,
        name_of("/"@ + name) == Some(name),
        directory_of(name) == "."@,
        name_of(name) == Some(name),
        path.len() > 0 ==> directory_of(path + "/"@) == directory_of(path) && name_of(path + "/"@)
            == name_of(path),
        path.len() > 0 ==> directory_of(path + "/."@) == directory_of(path) && name_of(path + "/."@)
            == name_of(path),
{
    reveal_strlit("/");
    reveal_strlit("/.");
    let none = Seq::<char>::empty();
    a_file_is_in_its_directory(directory, name);
    a_file_is_in_its_directory(none, name);
    let front = directory + "/"@;
    assert(front.last() == '/');
    assert(front.drop_last() =~= directory);
    assert(without_tail(directory) == directory);
    assert(without_tail(front) == directory);
    assert(none + "/"@ =~= "/"@);
    assert(without_tail("/"@) == "/"@);
    if path.len() > 0 {
        let a = path + "/"@;
        let b = path + "/."@;
        assert(a.last() == '/' && a.drop_last() =~= path);
        assert(b.last() == '.' && b[b.len() - 2] == '/' && b.drop_last() =~= a);
        assert(without_tail(a) == without_tail(path));
        assert(without_tail(b) == without_tail(path));
    }
}

/// A slash or a dot too many between the directory and the name changes
/// nothing.
pub proof fn slashes_and_dots_add_nothing(directory: Seq<char>, name: Seq<char>)
    requires
        is_file_name(name),
    ensures
        directory.len() > 0 ==> directory_of(directory + "//"@ + name) == directory_of(
            directory + "/"@ + name,
        ) && name_of(directory + "//"@ + name) == Some(name),
        directory.len() > 0 ==> directory_of(directory + "/./"@ + name) == directory_of(
            directory + "/"@ + name,
        ) && name_of(directory + "/./"@ + name) == Some(name),
        directory_of("//"@ + name) == "/"@,
        directory_of(Seq::empty()) == "."@,
        directory_of("/"@) == "."@,
{
    reveal_strlit("/");
    reveal_strlit("//");
    reveal_strlit("/./");
    let none = Seq::<char>::empty();
    let one = directory + "/"@;
    let two = one + "/"@;
    let dot = directory + "/."@;
    let dotted = dot + "/"@;
    reveal_strlit("/.");
    assert(directory + "//"@ + name =~= one + "/"@ + name);
    assert(directory + "/./"@ + name =~= dot + "/"@ + name);
    a_file_is_in_its_directory(directory, name);
    a_file_is_in_its_directory(one, name);
    a_file_is_in_its_directory(dot, name);
    assert(two.drop_last() =~= one);
    assert(dotted.drop_last() =~= dot);
    assert(dot.drop_last() =~= one);
    assert(dot.last() == '.' && dot[dot.len() - 2] == '/');
    assert(without_tail(dotted) == without_tail(dot));
    assert(without_tail(dot) == without_tail(one));
    a_file_is_in_its_directory("/"@, name);
    assert("//"@ + name =~= "/"@ + "/"@ + name);
    let root = "/"@ + "/"@;
    assert(root.last() == '/' && root.drop_last() =~= "/"@);
    assert(without_tail("/"@) == "/"@);
    assert("/"@.skip(1) =~= none);
    assert(none.skip(0) =~= none);
}

/// A path that ends in a directory names no file.
pub proof fn a_directory_is_no_file(directory: Seq<char>)
    ensures
        name_of(Seq::empty()) is None,
        name_of("/"@) is None,
        name_of("."@) is None,
        name_of(".."@) is None,
        name_of(directory + "/.."@) is None,
{
    reveal_strlit("/");
    reveal_strlit(".");
    reveal_strlit("..");
    reveal_strlit("/..");
    let none = Seq::<char>::empty();
    let path = directory + "/.."@;
    let front = directory + "/"@;
    assert(path =~= front + ".."@);
    assert(path.last() == '.' && path[path.len() - 2] == '.');
    assert(without_tail(path) == path);
    lemma_last_start(front, ".."@);
    assert(path.skip(front.len() as int) =~= ".."@);
    lemma_last_start(none, ".."@);
    assert(none + ".."@ =~= ".."@);
    assert(".."@.skip(0) =~= ".."@);
    lemma_last_start(none, "."@);
    assert(none + "."@ =~= "."@);
    assert("."@.skip(0) =~= "."@);
    assert("/"@.skip(1) =~= none);
    assert(none.skip(0) =~= none);
}

} // verus!
