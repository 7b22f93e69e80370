//! What the scripts for `nft` say, by their text, and what the daemon starts with.

use crate::config::ConfigView;
use crate::log::LogText;
use crate::nft::{
    base_parts, batch_outcome, batch_script, both_families, declarations, filter_chain,
    masquerade_chain, redirect_chain, redirect_commands, replace_set, run_outcome, text_or_none,
    upstream_elements, NftRun,
};
use crate::nft_laws::{
    a_server_is_redirected_to, lemma_listed, the_ruleset_redirects_to_the_servers,
};
use crate::startup::{
    candidates, is_loadable, startup_action, try_candidate, SearchStep, StartupView,
};
use crate::text::{
    has_text, join, lemma_text_between, lemma_unlines_concat, lemma_unlines_single, text_at, trim,
    unlines,
};
use vstd::prelude::*;

verus! {

// ---------------------------------------------------------------------------
// Whitelist sets
// ---------------------------------------------------------------------------

/// The text that a list of elements makes: nothing but the elements, in order,
/// with the separator between two of them.
pub proof fn elements_are_separated(parts: Seq<Seq<char>>, sep: Seq<char>, x: Seq<char>)
    ensures
        join(seq![x], sep) == x,
        parts.len() > 0 ==> join(parts.push(x), sep) == join(parts, sep) + sep + x,
{
    let more = parts.push(x);
    assert(more.drop_last() =~= parts);
    assert(more.last() == x);
}

/// The command that empties a set, then the one that fills it if there is
/// something to fill it with.
pub open spec fn refilled(
    family: Seq<char>,
    table: Seq<char>,
    set: Seq<char>,
    elements: Seq<Seq<char>>,
) -> Seq<char> {
    let place = family + " "@ + table + " "@ + set;
    "flush set "@ + place + "\n"@ + (if elements.len() > 0 {
        "add element "@ + place + " { "@ + join(elements, ", "@) + " }\n"@
    } else {
        Seq::empty()
    })
}

/// The commands of one set, as text.
proof fn lemma_refilled(
    family: Seq<char>,
    table: Seq<char>,
    set: Seq<char>,
    elements: Seq<Seq<char>>,
)
    ensures
        unlines(replace_set(family, table, set, elements)) == refilled(family, table, set, elements),
{
    let cmds = replace_set(family, table, set, elements);
    let place = family + " "@ + table + " "@ + set;
    reveal_strlit("\n");
    reveal_strlit(" }");
    reveal_strlit(" }\n");
    assert("\n"@ =~= seq!['\n']);
    assert(" }\n"@ =~= " }"@ + seq!['\n']);
    lemma_unlines_single(cmds[0]);
    assert(cmds[0] =~= "flush set "@ + place);
    if elements.len() > 0 {
        assert(cmds =~= seq![cmds[0]] + seq![cmds[1]]);
        lemma_unlines_concat(seq![cmds[0]], seq![cmds[1]]);
        lemma_unlines_single(cmds[1]);
        assert(cmds[1] =~= "add element "@ + place + " { "@ + join(elements, ", "@) + " }"@);
        assert(unlines(cmds) =~= refilled(family, table, set, elements));
    } else {
        assert(cmds =~= seq![cmds[0]]);
        assert(unlines(cmds) =~= refilled(family, table, set, elements));
    }
}

/// The whitelist script empties and fills the IPv4 set with the IPv4 entries,
/// and then the IPv6 set with the IPv6 entries.
pub proof fn the_whitelist_script_refills_the_sets(
    family: Seq<char>,
    table: Seq<char>,
    v4_set: Seq<char>,
    v6_set: Seq<char>,
    v4: Seq<Seq<char>>,
    v6: Seq<Seq<char>>,
)
    ensures
        batch_script(family, table, v4_set, v6_set, v4, v6) == refilled(family, table, v4_set, v4)
            + refilled(family, table, v6_set, v6),
{
    lemma_refilled(family, table, v4_set, v4);
    lemma_refilled(family, table, v6_set, v6);
    lemma_unlines_concat(
        replace_set(family, table, v4_set, v4),
        replace_set(family, table, v6_set, v6),
    );
}

// ---------------------------------------------------------------------------
// DNS redirection
// ---------------------------------------------------------------------------

/// The statement that redirects queries to an IPv4 server.
pub open spec fn rule_v4(server: Seq<char>) -> Seq<char> {
    "meta l4proto { udp, tcp } th dport 53 dnat ip to "@ + server + ":53"@
}

/// The statement that redirects queries to an IPv6 server.
pub open spec fn rule_v6(server: Seq<char>) -> Seq<char> {
    "meta l4proto { udp, tcp } th dport 53 dnat ip6 to ["@ + server + "]:53"@
}

/// The command that puts a server into the upstream set of its family.
pub open spec fn trusts(
    family: Seq<char>,
    table: Seq<char>,
    set: Seq<char>,
    server: Seq<char>,
) -> Seq<char> {
    "add element "@ + family + " "@ + table + " "@ + set + " { "@ + server + " }"@
}

/// The redirection of loaded rules clears the chain and both upstream sets,
/// and then, for each server that is given, adds its rule to the chain and
/// puts it into the set of its family; it does nothing else.
pub proof fn a_redirection_clears_and_then_redirects(
    family: Seq<char>,
    table: Seq<char>,
    dns_v4: Option<Seq<char>>,
    dns_v6: Option<Seq<char>>,
)
    ensures
        ({
            let place = family + " "@ + table;
            redirect_commands(family, table, dns_v4, dns_v6) == seq![
                "flush chain "@ + place + " nat_output"@,
                "flush set "@ + place + " "@ + "dns_upstream_v4"@,
                "flush set "@ + place + " "@ + "dns_upstream_v6"@,
            ] + (if dns_v4 is Some {
                seq![
                    "add rule "@ + place + " nat_output "@ + rule_v4(dns_v4->0),
                    trusts(family, table, "dns_upstream_v4"@, dns_v4->0),
                ]
            } else {
                Seq::empty()
            }) + (if dns_v6 is Some {
                seq![
                    "add rule "@ + place + " nat_output "@ + rule_v6(dns_v6->0),
                    trusts(family, table, "dns_upstream_v6"@, dns_v6->0),
                ]
            } else {
                Seq::empty()
            })
        }),
{
    let place = family + " "@ + table;
    assert("flush chain "@ + place =~= "flush chain "@ + family + " "@ + table);
    assert("flush set "@ + place =~= "flush set "@ + family + " "@ + table);
    assert("add rule "@ + place =~= "add rule "@ + family + " "@ + table);
}

// ---------------------------------------------------------------------------
// Base ruleset
// ---------------------------------------------------------------------------

/// Whether item `j` stands in the block that item `i` opens: behind it, and
/// before the first line behind it that closes a block.
pub open spec fn in_block(parts: Seq<Seq<char>>, i: int, j: int) -> bool {
    &&& 0 <= i < j < parts.len()
    &&& forall|k: int| i < k <= j ==> #[trigger] parts[k] != "  }"@
    &&& exists|k: int| j < k < parts.len() && #[trigger] parts[k] == "  }"@
}

/// The header of the chain for the queries of local processes.
pub open spec fn nat_output_header() -> Seq<char> {
    "\n  chain nat_output {\n    type nat hook output priority dstnat; policy accept;"@
}

/// The header of the chain that filters what local processes send.
pub open spec fn output_header() -> Seq<char> {
    "\n  chain output {\n    type filter hook output priority 0; policy drop;"@
}

/// A rule differs from the line that closes a block.
proof fn lemma_rule_is_no_end(server: Seq<char>)
    ensures
        "    "@ + rule_v4(server) != "  }"@,
        "    "@ + rule_v6(server) != "  }"@,
{
    reveal_strlit("    ");
    reveal_strlit("  }");
    assert(("    "@ + rule_v4(server)).len() >= 4);
    assert(("    "@ + rule_v6(server)).len() >= 4);
}

/// For each server that is given, the ruleset holds the redirect rule of its
/// family behind the header of chain `nat_output` and before the first line
/// behind that header that closes a block; what else stands there is the rule
/// of the other server alone.
pub proof fn redirect_rules_are_in_their_chain(
    family: Seq<char>,
    table: Seq<char>,
    v4_set: Seq<char>,
    v6_set: Seq<char>,
    dns_v4: Option<Seq<char>>,
    dns_v6: Option<Seq<char>>,
)
    ensures
        ({
            let parts = base_parts(family, table, v4_set, v6_set, dns_v4, dns_v6);
            &&& exists|i: int| 0 <= i < parts.len() && #[trigger] parts[i] == nat_output_header()
            &&& forall|i: int|
                0 <= i < parts.len() && #[trigger] parts[i] == nat_output_header() ==> {
                    &&& dns_v4 matches Some(v4) ==> exists|j: int|
                        #[trigger] in_block(parts, i, j) && parts[j] == "    "@ + rule_v4(v4)
                    &&& dns_v6 matches Some(v6) ==> exists|j: int|
                        #[trigger] in_block(parts, i, j) && parts[j] == "    "@ + rule_v6(v6)
                    &&& forall|j: int|
                        #[trigger] in_block(parts, i, j) ==> {
                            ||| dns_v4 is Some && parts[j] == "    "@ + rule_v4(dns_v4->0)
                            ||| dns_v6 is Some && parts[j] == "    "@ + rule_v6(dns_v6->0)
                        }
                }
        }),
{
    let parts = base_parts(family, table, v4_set, v6_set, dns_v4, dns_v6);
    let chain = redirect_chain(dns_v4, dns_v6);
    let end = 7 + chain.len() as int;
    assert(parts[8] == nat_output_header());
    assert(parts[end] == "  }"@);
    lemma_one_header(family, table, v4_set, v6_set, dns_v4, dns_v6);
    assert forall|k: int| 8 < k < end implies #[trigger] parts[k] == chain[k - 8] by {}
    if let Some(v4) = dns_v4 {
        lemma_rule_is_no_end(v4);
        assert(parts[9] == "    "@ + rule_v4(v4));
        assert(in_block(parts, 8, 9));
    }
    if let Some(v6) = dns_v6 {
        lemma_rule_is_no_end(v6);
        assert(parts[end - 1] == "    "@ + rule_v6(v6));
        if let Some(v4) = dns_v4 {
            assert(parts[end - 2] == "    "@ + rule_v4(v4));
            assert(end - 2 == 9);
        }
        assert(in_block(parts, 8, end - 1));
    }
    assert forall|j: int| #[trigger] in_block(parts, 8, j) implies {
        ||| dns_v4 is Some && parts[j] == "    "@ + rule_v4(dns_v4->0)
        ||| dns_v6 is Some && parts[j] == "    "@ + rule_v6(dns_v6->0)
    } by {
        assert(j < end);
    }
}

/// No other item is the header of the chain.
proof fn lemma_one_header(
    family: Seq<char>,
    table: Seq<char>,
    v4_set: Seq<char>,
    v6_set: Seq<char>,
    dns_v4: Option<Seq<char>>,
    dns_v6: Option<Seq<char>>,
)
    ensures
        ({
            let parts = base_parts(family, table, v4_set, v6_set, dns_v4, dns_v6);
            forall|i: int|
                0 <= i < parts.len() && #[trigger] parts[i] == nat_output_header() ==> i == 8
        }),
{
    let parts = base_parts(family, table, v4_set, v6_set, dns_v4, dns_v6);
    let chain = redirect_chain(dns_v4, dns_v6);
    let filter = filter_chain(v4_set, v6_set);
    let head = declarations(family, table, v4_set, v6_set);
    let tail = upstream_elements(family, table, dns_v4, dns_v6);
    let n = chain.len() as int;
    lemma_first_chars(family, table, v4_set, v6_set, dns_v4, dns_v6);
    assert forall|i: int| 0 <= i < parts.len() && #[trigger] parts[i] == nat_output_header() implies i
        == 8 by {
        if i < 8 {
            assert(parts[i] == head[i]);
        } else if i < 8 + n {
            assert(parts[i] == chain[i - 8]);
        } else if i == 8 + n {
            assert(parts[i] == masquerade_chain());
        } else if i < 24 + n {
            assert(parts[i] == filter[i - 9 - n]);
        } else {
            assert(parts[i] == tail[i - 24 - n]);
        }
    }
}

/// What tells the items of the ruleset from the header of the chain.
proof fn lemma_first_chars(
    family: Seq<char>,
    table: Seq<char>,
    v4_set: Seq<char>,
    v6_set: Seq<char>,
    dns_v4: Option<Seq<char>>,
    dns_v6: Option<Seq<char>>,
)
    ensures
        nat_output_header()[0] == '\n',
        nat_output_header().len() > 13,
        nat_output_header()[9] == 'n',
        nat_output_header()[13] == 'o',
        masquerade_chain().len() > 13 && masquerade_chain()[13] == 'p',
        output_header().len() > 13 && output_header()[9] == 'o',
        filter_chain(v4_set, v6_set)[0] == output_header(),
        forall|i: int|
            0 <= i < 8 ==> (#[trigger] declarations(family, table, v4_set, v6_set)[i]).len() > 0
                && declarations(family, table, v4_set, v6_set)[i][0] != '\n',
        forall|i: int|
            0 < i < redirect_chain(dns_v4, dns_v6).len() ==> (#[trigger] redirect_chain(
                dns_v4,
                dns_v6,
            )[i]).len() > 0 && redirect_chain(dns_v4, dns_v6)[i][0] != '\n',
        forall|i: int|
            0 < i < 15 ==> (#[trigger] filter_chain(v4_set, v6_set)[i]).len() > 0 && filter_chain(
                v4_set,
                v6_set,
            )[i][0] != '\n',
        forall|i: int|
            0 <= i < upstream_elements(family, table, dns_v4, dns_v6).len() ==> (
            #[trigger] upstream_elements(family, table, dns_v4, dns_v6)[i]).len() > 0
                && upstream_elements(family, table, dns_v4, dns_v6)[i][0] != '\n',
{
    assert(nat_output_header()[0] == '\n' && nat_output_header().len() > 13
        && nat_output_header()[9] == 'n' && nat_output_header()[13] == 'o') by {
        reveal_strlit(
            "\n  chain nat_output {\n    type nat hook output priority dstnat; policy accept;",
        );
    }
    assert(masquerade_chain().len() > 13 && masquerade_chain()[13] == 'p') by {
        reveal_strlit(
            "\n  chain nat_postrouting {\n    type nat hook postrouting priority srcnat; policy accept;\n    oifname != \"lo\" masquerade\n  }",
        );
    }
    assert(output_header().len() > 13 && output_header()[9] == 'o') by {
        reveal_strlit("\n  chain output {\n    type filter hook output priority 0; policy drop;");
    }
    lemma_head_chars(family, table, v4_set, v6_set);
    lemma_chain_chars(dns_v4, dns_v6);
    lemma_filter_chars(v4_set, v6_set);
    reveal_strlit("add element ");
}

/// The items of the head do not start with a line feed.
proof fn lemma_head_chars(
    family: Seq<char>,
    table: Seq<char>,
    v4_set: Seq<char>,
    v6_set: Seq<char>,
)
    ensures
        forall|i: int|
            0 <= i < 8 ==> (#[trigger] declarations(family, table, v4_set, v6_set)[i]).len() > 0
                && declarations(family, table, v4_set, v6_set)[i][0] != '\n',
{
    let head = declarations(family, table, v4_set, v6_set);
    assert(head[0].len() > 0 && head[0][0] == 'f') by {
        reveal_strlit("flush ruleset\n");
    }
    assert(head[1].len() > 0 && head[1][0] == 't') by {
        reveal_strlit("table ");
    }
    assert(head[2].len() > 0 && head[2][0] == ' ' && head[3].len() > 0 && head[3][0] == ' ') by {
        reveal_strlit("  set ");
    }
    assert(head[4].len() > 0 && head[4][0] == ' ') by {
        reveal_strlit("  set dns_upstream_v4 {\n    type ipv4_addr\n    flags interval\n  }");
    }
    assert(head[5].len() > 0 && head[5][0] == ' ') by {
        reveal_strlit("  set dns_upstream_v6 {\n    type ipv6_addr\n    flags interval\n  }");
    }
    assert(head[6].len() > 0 && head[6][0] == ' ') by {
        reveal_strlit(
            "  set private_v4 {\n    type ipv4_addr\n    flags interval\n    elements = { \n      10.0.0.0/8, \n      172.16.0.0/12, \n      192.168.0.0/16, \n      169.254.0.0/16,\n      100.64.0.0/10,\n      127.0.0.0/8 \n    }\n  }",
        );
    }
    assert(head[7].len() > 0 && head[7][0] == ' ') by {
        reveal_strlit(
            "  set private_v6 {\n    type ipv6_addr\n    flags interval\n    elements = { \n      ::1/128,\n      fc00::/7,\n      fe80::/10\n    }\n  }",
        );
    }
}

/// The items behind the header of the chain do not start with a line feed.
proof fn lemma_chain_chars(dns_v4: Option<Seq<char>>, dns_v6: Option<Seq<char>>)
    ensures
        forall|i: int|
            0 < i < redirect_chain(dns_v4, dns_v6).len() ==> (#[trigger] redirect_chain(
                dns_v4,
                dns_v6,
            )[i]).len() > 0 && redirect_chain(dns_v4, dns_v6)[i][0] != '\n',
{
    reveal_strlit("    ");
    reveal_strlit("  }");
}

/// The items behind the header of the filter do not start with a line feed.
proof fn lemma_filter_chars(v4_set: Seq<char>, v6_set: Seq<char>)
    ensures
        forall|i: int|
            0 < i < 15 ==> (#[trigger] filter_chain(v4_set, v6_set)[i]).len() > 0 && filter_chain(
                v4_set,
                v6_set,
            )[i][0] != '\n',
{
    let f = filter_chain(v4_set, v6_set);
    assert(f[1].len() > 0 && f[1][0] == ' ') by {
        reveal_strlit("    oifname \"lo\" accept");
    }
    assert(f[2].len() > 0 && f[2][0] == ' ') by {
        reveal_strlit("    ct state established,related accept");
    }
    assert(f[3].len() > 0 && f[3][0] == ' ') by {
        reveal_strlit("    meta l4proto ipv6-icmp accept");
    }
    assert(f[4].len() > 0 && f[4][0] == ' ') by {
        reveal_strlit("    ip daddr @dns_upstream_v4 th dport 53 accept");
    }
    assert(f[5].len() > 0 && f[5][0] == ' ') by {
        reveal_strlit("    ip6 daddr @dns_upstream_v6 th dport 53 accept");
    }
    assert(f[6].len() > 0 && f[6][0] == ' ') by {
        reveal_strlit("    ip daddr @");
    }
    assert(f[7].len() > 0 && f[7][0] == ' ') by {
        reveal_strlit("    ip6 daddr @");
    }
    assert(f[8].len() > 0 && f[8][0] == ' ') by {
        reveal_strlit(
            "    ip daddr @private_v4 limit rate 10/minute log prefix \"[ANTI-SSRF DROP-V4]: \"",
        );
    }
    assert(f[9].len() > 0 && f[9][0] == ' ') by {
        reveal_strlit("    ip daddr @private_v4 drop");
    }
    assert(f[10].len() > 0 && f[10][0] == ' ') by {
        reveal_strlit(
            "    ip6 daddr @private_v6 limit rate 10/minute log prefix \"[ANTI-SSRF DROP-V6]: \"",
        );
    }
    assert(f[11].len() > 0 && f[11][0] == ' ') by {
        reveal_strlit("    ip6 daddr @private_v6 drop");
    }
    assert(f[12].len() > 0 && f[12][0] == ' ') by {
        reveal_strlit("    accept");
    }
    assert(f[13].len() > 0 && f[13][0] == ' ') by {
        reveal_strlit("  }");
    }
    assert(f[14].len() > 0 && f[14][0] == '}') by {
        reveal_strlit("}");
    }
}

/// The text of a list between two others stands in the text of all three.
proof fn lemma_in_one_piece(a: Seq<Seq<char>>, m: Seq<Seq<char>>, b: Seq<Seq<char>>)
    ensures
        has_text(unlines(a + m + b), unlines(m)),
{
    lemma_unlines_concat(a + m, b);
    lemma_unlines_concat(a, m);
    lemma_text_between(unlines(a), unlines(m), unlines(b));
}

/// The chain for the queries of local processes stands in the ruleset in one
/// piece: its header, the rules of the servers that are given, and its end.
pub proof fn the_redirect_chain_is_in_one_piece(
    family: Seq<char>,
    table: Seq<char>,
    v4_set: Seq<char>,
    v6_set: Seq<char>,
    dns_v4: Option<Seq<char>>,
    dns_v6: Option<Seq<char>>,
)
    ensures
        has_text(
            unlines(base_parts(family, table, v4_set, v6_set, dns_v4, dns_v6)),
            nat_output_header() + "\n"@ + (if dns_v4 is Some {
                "    "@ + rule_v4(dns_v4->0) + "\n"@
            } else {
                Seq::empty()
            }) + (if dns_v6 is Some {
                "    "@ + rule_v6(dns_v6->0) + "\n"@
            } else {
                Seq::empty()
            }) + "  }\n"@,
        ),
{
    let parts = base_parts(family, table, v4_set, v6_set, dns_v4, dns_v6);
    let chain = redirect_chain(dns_v4, dns_v6);
    let before = declarations(family, table, v4_set, v6_set);
    let behind = seq![masquerade_chain()] + filter_chain(v4_set, v6_set) + upstream_elements(
        family,
        table,
        dns_v4,
        dns_v6,
    );
    assert(parts =~= before + chain + behind);
    lemma_in_one_piece(before, chain, behind);
    let none = Seq::<Seq<char>>::empty();
    let first = seq![nat_output_header()];
    let second = if dns_v4 is Some {
        seq!["    "@ + rule_v4(dns_v4->0)]
    } else {
        none
    };
    let third = if dns_v6 is Some {
        seq!["    "@ + rule_v6(dns_v6->0)]
    } else {
        none
    };
    let last = seq!["  }"@];
    assert(chain =~= first + second + third + last);
    lemma_unlines_concat(first + second + third, last);
    lemma_unlines_concat(first + second, third);
    lemma_unlines_concat(first, second);
    lemma_unlines_single(nat_output_header());
    lemma_unlines_single("  }"@);
    if let Some(v4) = dns_v4 {
        lemma_unlines_single("    "@ + rule_v4(v4));
    }
    if let Some(v6) = dns_v6 {
        lemma_unlines_single("    "@ + rule_v6(v6));
    }
    assert("\n"@ =~= seq!['\n'] && "  }\n"@ =~= "  }"@ + seq!['\n']) by {
        reveal_strlit("\n");
        reveal_strlit("  }");
        reveal_strlit("  }\n");
    }
    assert(unlines(none) =~= Seq::empty());
    assert(unlines(chain) =~= nat_output_header() + "\n"@ + unlines(second) + unlines(third)
        + "  }\n"@);
}

/// The declaration of a set of addresses.
pub open spec fn declares(name: Seq<char>, kind: Seq<char>) -> Seq<char> {
    "  set "@ + name + " {\n    type "@ + kind + "\n    flags interval\n  }"@
}

/// A declaration by its pieces.
proof fn lemma_declares(v4_set: Seq<char>, v6_set: Seq<char>)
    ensures
        declares(v4_set, "ipv4_addr"@) == "  set "@ + v4_set
            + " {\n    type ipv4_addr\n    flags interval\n  }"@,
        declares(v6_set, "ipv6_addr"@) == "  set "@ + v6_set
            + " {\n    type ipv6_addr\n    flags interval\n  }"@,
{
    reveal_strlit(" {\n    type ");
    reveal_strlit("\n    flags interval\n  }");
    reveal_strlit("ipv4_addr");
    reveal_strlit("ipv6_addr");
    reveal_strlit(" {\n    type ipv4_addr\n    flags interval\n  }");
    reveal_strlit(" {\n    type ipv6_addr\n    flags interval\n  }");
    let a = " {\n    type "@ + "ipv4_addr"@ + "\n    flags interval\n  }"@;
    let b = " {\n    type "@ + "ipv6_addr"@ + "\n    flags interval\n  }"@;
    assert(a =~= " {\n    type ipv4_addr\n    flags interval\n  }"@);
    assert(b =~= " {\n    type ipv6_addr\n    flags interval\n  }"@);
    assert(declares(v4_set, "ipv4_addr"@) =~= "  set "@ + v4_set + a);
    assert(declares(v6_set, "ipv6_addr"@) =~= "  set "@ + v6_set + b);
}

/// The declarations of the upstream sets by their pieces.
proof fn lemma_declares_upstream()
    ensures
        declares("dns_upstream_v4"@, "ipv4_addr"@)
            == "  set dns_upstream_v4 {\n    type ipv4_addr\n    flags interval\n  }"@,
        declares("dns_upstream_v6"@, "ipv6_addr"@)
            == "  set dns_upstream_v6 {\n    type ipv6_addr\n    flags interval\n  }"@,
{
    lemma_declares("dns_upstream_v4"@, "dns_upstream_v6"@);
    reveal_strlit("  set ");
    reveal_strlit("dns_upstream_v4");
    reveal_strlit("dns_upstream_v6");
    reveal_strlit(" {\n    type ipv4_addr\n    flags interval\n  }");
    reveal_strlit(" {\n    type ipv6_addr\n    flags interval\n  }");
    reveal_strlit("  set dns_upstream_v4 {\n    type ipv4_addr\n    flags interval\n  }");
    reveal_strlit("  set dns_upstream_v6 {\n    type ipv6_addr\n    flags interval\n  }");
    assert(declares("dns_upstream_v4"@, "ipv4_addr"@)
        =~= "  set dns_upstream_v4 {\n    type ipv4_addr\n    flags interval\n  }"@);
    assert(declares("dns_upstream_v6"@, "ipv6_addr"@)
        =~= "  set dns_upstream_v6 {\n    type ipv6_addr\n    flags interval\n  }"@);
}

/// The ruleset first clears what was there and opens the table of the given
/// family and name; in it come the whitelist sets and the upstream sets, each
/// of the addresses of its family, then the chains. The servers are put into
/// the upstream sets only behind the end of the table.
pub proof fn sets_are_declared_before_they_are_used(
    family: Seq<char>,
    table: Seq<char>,
    v4_set: Seq<char>,
    v6_set: Seq<char>,
    dns_v4: Option<Seq<char>>,
    dns_v6: Option<Seq<char>>,
)
    ensures
        ({
            let parts = base_parts(family, table, v4_set, v6_set, dns_v4, dns_v6);
            let n = parts.len() as int;
            let servers: int = (if dns_v4 is Some { 1int } else { 0 }) + (if dns_v6 is Some {
                1int
            } else {
                0
            });
            &&& parts[0] == "flush ruleset\n"@
            &&& parts[1] == "table "@ + family + " "@ + table + " {"@
            &&& parts[2] == declares(v4_set, "ipv4_addr"@)
            &&& parts[3] == declares(v6_set, "ipv6_addr"@)
            &&& parts[4] == declares("dns_upstream_v4"@, "ipv4_addr"@)
            &&& parts[5] == declares("dns_upstream_v6"@, "ipv6_addr"@)
            &&& parts[n - 1 - servers] == "}"@
            &&& dns_v4 matches Some(v4) ==> parts[n - servers] == trusts(
                family,
                table,
                "dns_upstream_v4"@,
                v4,
            )
            &&& dns_v6 matches Some(v6) ==> parts[n - 1] == trusts(
                family,
                table,
                "dns_upstream_v6"@,
                v6,
            )
        }),
{
    lemma_declares(v4_set, v6_set);
    lemma_declares_upstream();
}

/// The private ranges that the ruleset blocks are those of the private
/// networks, link-local addresses, carrier-grade translation and loopback.
pub proof fn private_ranges_are_declared(
    family: Seq<char>,
    table: Seq<char>,
    v4_set: Seq<char>,
    v6_set: Seq<char>,
    dns_v4: Option<Seq<char>>,
    dns_v6: Option<Seq<char>>,
)
    ensures
        ({
            let parts = base_parts(family, table, v4_set, v6_set, dns_v4, dns_v6);
            &&& text_at(parts[6], "  set private_v4 {\n    type ipv4_addr\n"@, 0)
            &&& has_text(parts[6], " 10.0.0.0/8,"@)
            &&& has_text(parts[6], " 172.16.0.0/12,"@)
            &&& has_text(parts[6], " 192.168.0.0/16,"@)
            &&& has_text(parts[6], " 169.254.0.0/16,"@)
            &&& has_text(parts[6], " 100.64.0.0/10,"@)
            &&& has_text(parts[6], " 127.0.0.0/8 "@)
            &&& text_at(parts[7], "  set private_v6 {\n    type ipv6_addr\n"@, 0)
            &&& has_text(parts[7], " ::1/128,"@)
            &&& has_text(parts[7], " fc00::/7,"@)
            &&& has_text(parts[7], " fe80::/10\n"@)
        }),
{
    lemma_private_v4();
    lemma_private_v6();
}

/// The private IPv4 ranges.
proof fn lemma_private_v4()
    ensures
        ({
            let set =
                "  set private_v4 {\n    type ipv4_addr\n    flags interval\n    elements = { \n      10.0.0.0/8, \n      172.16.0.0/12, \n      192.168.0.0/16, \n      169.254.0.0/16,\n      100.64.0.0/10,\n      127.0.0.0/8 \n    }\n  }"@;
            &&& text_at(set, "  set private_v4 {\n    type ipv4_addr\n"@, 0)
            &&& has_text(set, " 10.0.0.0/8,"@)
            &&& has_text(set, " 172.16.0.0/12,"@)
            &&& has_text(set, " 192.168.0.0/16,"@)
            &&& has_text(set, " 169.254.0.0/16,"@)
            &&& has_text(set, " 100.64.0.0/10,"@)
            &&& has_text(set, " 127.0.0.0/8 "@)
        }),
{
    let set =
        "  set private_v4 {\n    type ipv4_addr\n    flags interval\n    elements = { \n      10.0.0.0/8, \n      172.16.0.0/12, \n      192.168.0.0/16, \n      169.254.0.0/16,\n      100.64.0.0/10,\n      127.0.0.0/8 \n    }\n  }"@;
    reveal_strlit(
        "  set private_v4 {\n    type ipv4_addr\n    flags interval\n    elements = { \n      10.0.0.0/8, \n      172.16.0.0/12, \n      192.168.0.0/16, \n      169.254.0.0/16,\n      100.64.0.0/10,\n      127.0.0.0/8 \n    }\n  }",
    );
    reveal_strlit("  set private_v4 {\n    type ipv4_addr\n");
    reveal_strlit(" 10.0.0.0/8,");
    reveal_strlit(" 172.16.0.0/12,");
    reveal_strlit(" 192.168.0.0/16,");
    reveal_strlit(" 169.254.0.0/16,");
    reveal_strlit(" 100.64.0.0/10,");
    reveal_strlit(" 127.0.0.0/8 ");
    assert(set.subrange(0, 38) =~= "  set private_v4 {\n    type ipv4_addr\n"@);
    assert(set.subrange(80, 92) =~= " 10.0.0.0/8,"@);
    assert(text_at(set, " 10.0.0.0/8,"@, 80));
    assert(set.subrange(99, 114) =~= " 172.16.0.0/12,"@);
    assert(text_at(set, " 172.16.0.0/12,"@, 99));
    assert(set.subrange(121, 137) =~= " 192.168.0.0/16,"@);
    assert(text_at(set, " 192.168.0.0/16,"@, 121));
    assert(set.subrange(144, 160) =~= " 169.254.0.0/16,"@);
    assert(text_at(set, " 169.254.0.0/16,"@, 144));
    assert(set.subrange(166, 181) =~= " 100.64.0.0/10,"@);
    assert(text_at(set, " 100.64.0.0/10,"@, 166));
    assert(set.subrange(187, 200) =~= " 127.0.0.0/8 "@);
    assert(text_at(set, " 127.0.0.0/8 "@, 187));
}

/// The private IPv6 ranges.
proof fn lemma_private_v6()
    ensures
        ({
            let set =
                "  set private_v6 {\n    type ipv6_addr\n    flags interval\n    elements = { \n      ::1/128,\n      fc00::/7,\n      fe80::/10\n    }\n  }"@;
            &&& text_at(set, "  set private_v6 {\n    type ipv6_addr\n"@, 0)
            &&& has_text(set, " ::1/128,"@)
            &&& has_text(set, " fc00::/7,"@)
            &&& has_text(set, " fe80::/10\n"@)
        }),
{
    let set =
        "  set private_v6 {\n    type ipv6_addr\n    flags interval\n    elements = { \n      ::1/128,\n      fc00::/7,\n      fe80::/10\n    }\n  }"@;
    reveal_strlit(
        "  set private_v6 {\n    type ipv6_addr\n    flags interval\n    elements = { \n      ::1/128,\n      fc00::/7,\n      fe80::/10\n    }\n  }",
    );
    reveal_strlit("  set private_v6 {\n    type ipv6_addr\n");
    reveal_strlit(" ::1/128,");
    reveal_strlit(" fc00::/7,");
    reveal_strlit(" fe80::/10\n");
    assert(set.subrange(0, 38) =~= "  set private_v6 {\n    type ipv6_addr\n"@);
    assert(set.subrange(80, 89) =~= " ::1/128,"@);
    assert(text_at(set, " ::1/128,"@, 80));
    assert(set.subrange(95, 105) =~= " fc00::/7,"@);
    assert(text_at(set, " fc00::/7,"@, 95));
    assert(set.subrange(111, 122) =~= " fe80::/10\n"@);
    assert(text_at(set, " fe80::/10\n"@, 111));
}

/// What leaves by another interface than loopback takes the address of that
/// interface.
pub proof fn outgoing_packets_are_masqueraded(
    family: Seq<char>,
    table: Seq<char>,
    v4_set: Seq<char>,
    v6_set: Seq<char>,
    dns_v4: Option<Seq<char>>,
    dns_v6: Option<Seq<char>>,
)
    ensures
        has_text(
            unlines(base_parts(family, table, v4_set, v6_set, dns_v4, dns_v6)),
            "\n  chain nat_postrouting {\n    type nat hook postrouting priority srcnat; policy accept;\n    oifname != \"lo\" masquerade\n  }"@,
        ),
{
    let parts = base_parts(family, table, v4_set, v6_set, dns_v4, dns_v6);
    let n = redirect_chain(dns_v4, dns_v6).len() as int;
    assert(parts[8 + n] == masquerade_chain());
    lemma_listed(parts, 8 + n);
}

/// The filter drops what no rule decides, and its rules are these in this
/// order: what stays on the host, belongs to a connection or finds neighbours
/// is accepted, then what goes to a trusted DNS server or the whitelist; then
/// what goes to a private range is told of and dropped; the rest is accepted.
pub proof fn the_filter_decides_in_this_order(
    family: Seq<char>,
    table: Seq<char>,
    v4_set: Seq<char>,
    v6_set: Seq<char>,
    dns_v4: Option<Seq<char>>,
    dns_v6: Option<Seq<char>>,
)
    ensures
        ({
            let parts = base_parts(family, table, v4_set, v6_set, dns_v4, dns_v6);
            let rules = seq![
                output_header(),
                "    oifname \"lo\" accept"@,
                "    ct state established,related accept"@,
                "    meta l4proto ipv6-icmp accept"@,
                "    ip daddr @dns_upstream_v4 th dport 53 accept"@,
                "    ip6 daddr @dns_upstream_v6 th dport 53 accept"@,
                "    ip daddr @"@ + v4_set + " accept"@,
                "    ip6 daddr @"@ + v6_set + " accept"@,
                "    ip daddr @private_v4 limit rate 10/minute log prefix \"[ANTI-SSRF DROP-V4]: \""@,
                "    ip daddr @private_v4 drop"@,
                "    ip6 daddr @private_v6 limit rate 10/minute log prefix \"[ANTI-SSRF DROP-V6]: \""@,
                "    ip6 daddr @private_v6 drop"@,
                "    accept"@,
                "  }"@,
                "}"@,
            ];
            has_text(unlines(parts), unlines(rules))
        }),
{
    let parts = base_parts(family, table, v4_set, v6_set, dns_v4, dns_v6);
    let before = declarations(family, table, v4_set, v6_set) + redirect_chain(dns_v4, dns_v6) + seq![
        masquerade_chain(),
    ];
    let rules = filter_chain(v4_set, v6_set);
    let behind = upstream_elements(family, table, dns_v4, dns_v6);
    assert(parts =~= before + rules + behind);
    lemma_in_one_piece(before, rules, behind);
}

// ---------------------------------------------------------------------------
// The start
// ---------------------------------------------------------------------------

/// When no ruleset file was loaded, a ruleset is applied that redirects to
/// each server that is given and puts it into the upstream set of its family,
/// in the table and with the whitelist sets of the settings. On a loaded
/// ruleset, the same redirection is added if there is a server, and nothing is
/// done if there is none.
pub proof fn the_start_redirects_to_each_server(
    config: ConfigView,
    dns_v4: Option<Seq<char>>,
    dns_v6: Option<Seq<char>>,
    rules_loaded: bool,
)
    ensures
        ({
            let action = startup_action(config, dns_v4, dns_v6, rules_loaded);
            let family = config.table_family;
            let table = config.table_name;
            let text = match action {
                StartupView::Base(text) => text,
                StartupView::Redirect(text) => text,
                StartupView::Keep => Seq::empty(),
            };
            &&& action is Base <==> !rules_loaded
            &&& action is Redirect <==> rules_loaded && (dns_v4 is Some || dns_v6 is Some)
            &&& dns_v4 matches Some(v4) ==> has_text(text, rule_v4(v4)) && has_text(
                text,
                trusts(family, table, "dns_upstream_v4"@, v4),
            )
            &&& dns_v6 matches Some(v6) ==> has_text(text, rule_v6(v6)) && has_text(
                text,
                trusts(family, table, "dns_upstream_v6"@, v6),
            )
            &&& !rules_loaded ==> {
                &&& has_text(text, "table "@ + family + " "@ + table + " {"@)
                &&& has_text(text, declares(config.v4_set, "ipv4_addr"@))
                &&& has_text(text, declares(config.v6_set, "ipv6_addr"@))
                &&& has_text(text, "    ip daddr @"@ + config.v4_set + " accept"@)
                &&& has_text(text, "    ip6 daddr @"@ + config.v6_set + " accept"@)
                &&& has_text(text, "    ip daddr @private_v4 drop"@)
                &&& has_text(text, "    ip6 daddr @private_v6 drop"@)
            }
            &&& rules_loaded && action is Redirect ==> has_text(
                text,
                "flush chain "@ + family + " "@ + table + " nat_output"@,
            )
        }),
{
    let family = config.table_family;
    let table = config.table_name;
    if !rules_loaded {
        the_ruleset_redirects_to_the_servers(
            family,
            table,
            config.v4_set,
            config.v6_set,
            dns_v4,
            dns_v6,
        );
        lemma_base_holds(config, dns_v4, dns_v6);
    } else {
        a_server_is_redirected_to(family, table, dns_v4, dns_v6);
        lemma_redirect_holds(family, table, dns_v4, dns_v6);
    }
}

/// The items of the generated ruleset are in its text.
proof fn lemma_base_holds(config: ConfigView, dns_v4: Option<Seq<char>>, dns_v6: Option<Seq<char>>)
    ensures
        ({
            let text = unlines(
                base_parts(
                    config.table_family,
                    config.table_name,
                    config.v4_set,
                    config.v6_set,
                    dns_v4,
                    dns_v6,
                ),
            );
            &&& has_text(text, "table "@ + config.table_family + " "@ + config.table_name + " {"@)
            &&& has_text(text, declares(config.v4_set, "ipv4_addr"@))
            &&& has_text(text, declares(config.v6_set, "ipv6_addr"@))
            &&& has_text(text, "    ip daddr @"@ + config.v4_set + " accept"@)
            &&& has_text(text, "    ip6 daddr @"@ + config.v6_set + " accept"@)
            &&& has_text(text, "    ip daddr @private_v4 drop"@)
            &&& has_text(text, "    ip6 daddr @private_v6 drop"@)
        }),
{
    let parts = base_parts(
        config.table_family,
        config.table_name,
        config.v4_set,
        config.v6_set,
        dns_v4,
        dns_v6,
    );
    let filter = filter_chain(config.v4_set, config.v6_set);
    let n = redirect_chain(dns_v4, dns_v6).len() as int + 9;
    lemma_declares(config.v4_set, config.v6_set);
    lemma_listed(parts, 1);
    lemma_listed(parts, 2);
    lemma_listed(parts, 3);
    assert(parts[n + 6] == filter[6] && parts[n + 7] == filter[7]);
    assert(parts[n + 9] == filter[9] && parts[n + 11] == filter[11]);
    lemma_listed(parts, n + 6);
    lemma_listed(parts, n + 7);
    lemma_listed(parts, n + 9);
    lemma_listed(parts, n + 11);
}

/// The commands of a redirection are in its text.
proof fn lemma_redirect_holds(
    family: Seq<char>,
    table: Seq<char>,
    dns_v4: Option<Seq<char>>,
    dns_v6: Option<Seq<char>>,
)
    ensures
        ({
            let text = unlines(redirect_commands(family, table, dns_v4, dns_v6));
            &&& dns_v4 matches Some(v4) ==> has_text(
                text,
                trusts(family, table, "dns_upstream_v4"@, v4),
            )
            &&& dns_v6 matches Some(v6) ==> has_text(
                text,
                trusts(family, table, "dns_upstream_v6"@, v6),
            )
        }),
{
    let parts = redirect_commands(family, table, dns_v4, dns_v6);
    if let Some(v4) = dns_v4 {
        assert(parts[4] == trusts(family, table, "dns_upstream_v4"@, v4));
        lemma_listed(parts, 4);
    }
    if let Some(v6) = dns_v6 {
        let k = parts.len() as int - 1;
        assert(parts[k] == trusts(family, table, "dns_upstream_v6"@, v6));
        lemma_listed(parts, k);
    }
}

/// The path of the settings is tried before that of the environment, and no
/// other; what stands there is loaded if it hooks into what leaves the host,
/// and the next one is tried otherwise.
pub proof fn ruleset_files_are_tried_in_order(
    configured: Seq<char>,
    environment: Seq<char>,
    front: Seq<char>,
    back: Seq<char>,
    i: usize,
    count: nat,
)
    ensures
        candidates(None, None) == Seq::<Seq<char>>::empty(),
        candidates(Some(configured), None) == seq![configured],
        candidates(None, Some(environment)) == seq![environment],
        candidates(Some(configured), Some(environment)) == seq![configured, environment],
        is_loadable(Some(front + "hook output"@ + back)),
        !is_loadable(None),
        i < count ==> try_candidate(i as int, count) == SearchStep::Read(i),
        i >= count ==> try_candidate(i as int, count) == SearchStep::Exhausted,
{
    lemma_text_between(front, "hook output"@, back);
    assert(candidates(None, None) =~= Seq::<Seq<char>>::empty());
    assert(candidates(Some(configured), None) =~= seq![configured]);
    assert(candidates(None, Some(environment)) =~= seq![environment]);
    assert(candidates(Some(configured), Some(environment)) =~= seq![configured, environment]);
}

/// What is loaded holds the hook into what leaves the host at some place.
pub proof fn a_loadable_ruleset_hooks_into_output(content: Seq<char>)
    requires
        is_loadable(Some(content)),
    ensures
        exists|k: int|
            0 <= k && k + 11 <= content.len() && #[trigger] content.subrange(k, k + 11)
                == "hook output"@,
{
    reveal_strlit("hook output");
    let k = choose|k: int| #[trigger] text_at(content, "hook output"@, k);
    assert(content.subrange(k, k + 11) == "hook output"@);
}

// ---------------------------------------------------------------------------
// Runs of the command
// ---------------------------------------------------------------------------

/// A run succeeds if and only if the command ended and said so; then its line
/// goes to standard output. A command that ended without success gives what it
/// wrote to standard error, trimmed, and a line with that there. Where the
/// command could not be started, fed or waited for, the error names which.
pub proof fn a_run_succeeds_if_the_command_does(
    run: NftRun,
    write_prefix: Seq<char>,
    success_line: Seq<char>,
    failure_prefix: Seq<char>,
)
    ensures
        ({
            let outcome = run_outcome(run, write_prefix, success_line, failure_prefix);
            &&& outcome.result is Ok <==> (run matches NftRun::Finished { success, .. } && success)
            &&& outcome.result is Ok ==> outcome.log == Some(LogText::Stdout(success_line))
            &&& outcome.log is Some <==> run is Finished
            &&& match run {
                NftRun::SpawnFailed(e) => outcome.result == Err::<(), _>(
                    "Failed to spawn 'nft': "@ + e@,
                ),
                NftRun::WriteFailed(e) => outcome.result == Err::<(), _>(write_prefix + e@),
                NftRun::WaitFailed(e) => outcome.result == Err::<(), _>(
                    "Failed to wait for nft: "@ + e@,
                ),
                NftRun::Finished { success, stderr } => !success ==> outcome.result == Err::<
                    (),
                    _,
                >(trim(stderr@)) && outcome.log == Some(
                    LogText::Stderr(failure_prefix + trim(stderr@)),
                ),
            }
        }),
{
}

/// What is told of a whitelist that was applied: the entries of each family,
/// with commas between them, or that there are none.
pub proof fn an_applied_whitelist_is_listed(v4: Seq<Seq<char>>, v6: Seq<Seq<char>>, run: NftRun)
    ensures
        ({
            let first = if v4.len() == 0 {
                "none"@
            } else {
                join(v4, ","@)
            };
            let second = if v6.len() == 0 {
                "none"@
            } else {
                join(v6, ","@)
            };
            &&& batch_outcome(v4, v6, run).result is Ok ==> batch_outcome(v4, v6, run).log == Some(
                LogText::Stdout(
                    "[Gateway] Whitelist synced: "@ + "[IPv4: "@ + first + "] [IPv6: "@ + second
                        + "]"@,
                ),
            )
            &&& batch_outcome(v4, v6, run).result is Ok <==> (run matches NftRun::Finished {
                success,
                ..
            } && success)
            &&& (run matches NftRun::WriteFailed(e) ==> batch_outcome(v4, v6, run).result == Err::<
                (),
                _,
            >("Failed to write to nft stdin: "@ + e@))
            &&& (run matches NftRun::Finished { success, stderr } ==> (!success ==> batch_outcome(
                v4,
                v6,
                run,
            ).log == Some(
                LogText::Stderr("[Gateway] Error applying nftables batch: "@ + trim(stderr@)),
            )))
        }),
{
}

/// The line about both families names the IPv4 server first, and `none` where
/// there is no server.
pub proof fn both_families_are_named(prefix: Seq<char>, a: Seq<char>, b: Seq<char>)
    ensures
        both_families(prefix, a, b) == prefix + "[IPv4: "@ + a + "] [IPv6: "@ + b + "]"@,
        text_or_none(Some(a)) == a,
        text_or_none(None) == "none"@,
{
}

} // verus!
