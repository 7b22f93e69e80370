//! What the help text says.

use crate::cli::help_text;
use crate::text::{has_text, text_at};
use vstd::prelude::*;

verus! {

/// The help text lists the subcommands and every option by its long name, with
/// what it takes.
pub proof fn the_help_lists_what_can_be_asked()
    ensures
        has_text(help_text(), "    run  "@),
        has_text(help_text(), "    check <FILE>  "@),
        has_text(help_text(), "    --rules <PATH>  "@),
        has_text(help_text(), "    --whitelist <PATH>  "@),
        has_text(help_text(), "    --family <FAMILY>  "@),
        has_text(help_text(), "    --table <TABLE>  "@),
        has_text(help_text(), "    --v4-set <SET>  "@),
        has_text(help_text(), "    --v6-set <SET>  "@),
        has_text(help_text(), "    --debounce-ms <MS>  "@),
        has_text(help_text(), "    --dns-upstream-v4 <IP>  "@),
        has_text(help_text(), "    --dns-upstream-v6 <IP>  "@),
        has_text(help_text(), "    --resolv-conf <PATH>  "@),
        has_text(help_text(), "    --strict  "@),
        has_text(help_text(), "    --help, -h  "@),
        has_text(help_text(), "    -- <CMD> [ARGS...]  "@),
{
    let help = help_text();
    reveal_strlit(
        "nft-egress-daemon - High performance, atomic nftables egress whitelist gateway daemon\n\nUSAGE:\n    nft-egress-daemon [SUBCOMMAND | OPTIONS | COMMAND...]\n\nSUBCOMMANDS:\n    run                     Run gateway daemon (loads ruleset and monitors whitelist) [default]\n    check <FILE>            Validate syntax and structure of a whitelist file\n\nOPTIONS (for 'run' or default mode):\n    --rules <PATH>          Path to initial nftables ruleset file to load on startup\n    --whitelist <PATH>      Path to whitelist configuration file (default: /etc/nftables/whitelist.txt)\n    --family <FAMILY>       nftables table family (default: inet)\n    --table <TABLE>         nftables table name (default: filter)\n    --v4-set <SET>          IPv4 whitelist set name (default: lan_whitelist_v4)\n    --v6-set <SET>          IPv6 whitelist set name (default: lan_whitelist_v6)\n    --debounce-ms <MS>      File watch debounce window in milliseconds (default: 150)\n    --dns-upstream-v4 <IP>  Upstream IPv4 DNS for transparent redirection, or 'auto' (default: auto)\n    --dns-upstream-v6 <IP>  Upstream IPv6 DNS for transparent redirection, or 'auto' (default: auto)\n    --resolv-conf <PATH>    Path to resolv.conf for DNS auto-detection (default: /etc/resolv.conf)\n    --strict                In 'check' mode, fail on any warning\n    --help, -h              Print this help information\n    -- <CMD> [ARGS...]      Execute custom command instead of running watcher loop\n",
    );
    reveal_strlit("    run  ");
    assert(help.subrange(166, 175) =~= "    run  "@);
    assert(text_at(help, "    run  "@, 166));
    reveal_strlit("    check <FILE>  ");
    assert(help.subrange(262, 280) =~= "    check <FILE>  "@);
    assert(text_at(help, "    check <FILE>  "@, 262));
    reveal_strlit("    --rules <PATH>  ");
    assert(help.subrange(378, 398) =~= "    --rules <PATH>  "@);
    assert(text_at(help, "    --rules <PATH>  "@, 378));
    reveal_strlit("    --whitelist <PATH>  ");
    assert(help.subrange(463, 487) =~= "    --whitelist <PATH>  "@);
    assert(text_at(help, "    --whitelist <PATH>  "@, 463));
    reveal_strlit("    --family <FAMILY>  ");
    assert(help.subrange(567, 590) =~= "    --family <FAMILY>  "@);
    assert(text_at(help, "    --family <FAMILY>  "@, 567));
    reveal_strlit("    --table <TABLE>  ");
    assert(help.subrange(633, 654) =~= "    --table <TABLE>  "@);
    assert(text_at(help, "    --table <TABLE>  "@, 633));
    reveal_strlit("    --v4-set <SET>  ");
    assert(help.subrange(699, 719) =~= "    --v4-set <SET>  "@);
    assert(text_at(help, "    --v4-set <SET>  "@, 699));
    reveal_strlit("    --v6-set <SET>  ");
    assert(help.subrange(779, 799) =~= "    --v6-set <SET>  "@);
    assert(text_at(help, "    --v6-set <SET>  "@, 779));
    reveal_strlit("    --debounce-ms <MS>  ");
    assert(help.subrange(859, 883) =~= "    --debounce-ms <MS>  "@);
    assert(text_at(help, "    --debounce-ms <MS>  "@, 859));
    reveal_strlit("    --dns-upstream-v4 <IP>  ");
    assert(help.subrange(945, 973) =~= "    --dns-upstream-v4 <IP>  "@);
    assert(text_at(help, "    --dns-upstream-v4 <IP>  "@, 945));
    reveal_strlit("    --dns-upstream-v6 <IP>  ");
    assert(help.subrange(1046, 1074) =~= "    --dns-upstream-v6 <IP>  "@);
    assert(text_at(help, "    --dns-upstream-v6 <IP>  "@, 1046));
    reveal_strlit("    --resolv-conf <PATH>  ");
    assert(help.subrange(1147, 1173) =~= "    --resolv-conf <PATH>  "@);
    assert(text_at(help, "    --resolv-conf <PATH>  "@, 1147));
    reveal_strlit("    --strict  ");
    assert(help.subrange(1246, 1260) =~= "    --strict  "@);
    assert(text_at(help, "    --strict  "@, 1246));
    reveal_strlit("    --help, -h  ");
    assert(help.subrange(1311, 1327) =~= "    --help, -h  "@);
    assert(text_at(help, "    --help, -h  "@, 1311));
    reveal_strlit("    -- <CMD> [ARGS...]  ");
    assert(help.subrange(1367, 1391) =~= "    -- <CMD> [ARGS...]  "@);
    assert(text_at(help, "    -- <CMD> [ARGS...]  "@, 1367));
}

} // verus!
