//! What holds of every script for `nft`.

use crate::nft::{
    accept_set, add_elements, base_parts, batch_script, dnat_v4, dnat_v6,
    filter_chain, flush_set, redirect_chain, redirect_commands, replace_set,
    upstream_elements,
};
use crate::text::{
    has_text, join, lemma_join_has, lemma_offsets_grow, lemma_text_between, lemma_text_within,
    lemma_unlines_at, lemma_unlines_concat, lemma_unlines_single, offset, text_at, unlines,
};
use vstd::prelude::*;

verus! {

/// Whether both texts occur in `s`, `a` wholly before `b`.
pub open spec fn in_order(s: Seq<char>, a: Seq<char>, b: Seq<char>) -> bool {
    exists|i: int, j: int|
        #[trigger] text_at(s, a, i) && #[trigger] text_at(s, b, j) && i + a.len() < j
}

/// Two items of a list stand in the text in the order of the list.
pub proof fn lemma_in_order(parts: Seq<Seq<char>>, i: int, j: int)
    requires
        0 <= i < j < parts.len(),
    ensures
        in_order(unlines(parts), parts[i], parts[j]),
{
    lemma_unlines_at(parts, i);
    lemma_unlines_at(parts, j);
    lemma_offsets_grow(parts, i, j);
    assert(text_at(unlines(parts), parts[i], offset(parts, i)));
    assert(text_at(unlines(parts), parts[j], offset(parts, j)));
}

/// An item of a list occurs in the text.
pub proof fn lemma_listed(parts: Seq<Seq<char>>, i: int)
    requires
        0 <= i < parts.len(),
    ensures
        has_text(unlines(parts), parts[i]),
{
    lemma_unlines_at(parts, i);
}

// ---------------------------------------------------------------------------
// Whitelist sets
// ---------------------------------------------------------------------------

/// Every entry is in the script, and each set is emptied before it is filled:
/// what the whitelist no longer holds goes.
pub proof fn the_sets_are_replaced(
    family: Seq<char>,
    table: Seq<char>,
    v4_set: Seq<char>,
    v6_set: Seq<char>,
    v4: Seq<Seq<char>>,
    v6: Seq<Seq<char>>,
)
    ensures
        ({
            let script = batch_script(family, table, v4_set, v6_set, v4, v6);
            &&& has_text(script, flush_set(family, table, v4_set))
            &&& has_text(script, flush_set(family, table, v6_set))
            &&& v4.len() > 0 ==> in_order(
                script,
                flush_set(family, table, v4_set),
                add_elements(family, table, v4_set, join(v4, ", "@)),
            )
            &&& v6.len() > 0 ==> in_order(
                script,
                flush_set(family, table, v6_set),
                add_elements(family, table, v6_set, join(v6, ", "@)),
            )
            &&& forall|i: int| 0 <= i < v4.len() ==> has_text(script, #[trigger] v4[i])
            &&& forall|i: int| 0 <= i < v6.len() ==> has_text(script, #[trigger] v6[i])
        }),
{
    let first = replace_set(family, table, v4_set, v4);
    let second = replace_set(family, table, v6_set, v6);
    let parts = first + second;
    let n = first.len() as int;
    lemma_listed(parts, 0);
    assert(parts[n] == second[0]);
    lemma_listed(parts, n);
    if v4.len() > 0 {
        lemma_in_order(parts, 0, 1);
        lemma_listed(parts, 1);
        assert forall|i: int| 0 <= i < v4.len() implies has_text(
            unlines(parts),
            #[trigger] v4[i],
        ) by {
            lemma_element(family, table, v4_set, v4, i);
            lemma_text_within(unlines(parts), parts[1], v4[i]);
        }
    }
    if v6.len() > 0 {
        assert(parts[n + 1] == second[1]);
        lemma_in_order(parts, n, n + 1);
        lemma_listed(parts, n + 1);
        assert forall|i: int| 0 <= i < v6.len() implies has_text(
            unlines(parts),
            #[trigger] v6[i],
        ) by {
            lemma_element(family, table, v6_set, v6, i);
            lemma_text_within(unlines(parts), parts[n + 1], v6[i]);
        }
    }
}

/// Each element is in the command that adds them.
proof fn lemma_element(
    family: Seq<char>,
    table: Seq<char>,
    set: Seq<char>,
    elements: Seq<Seq<char>>,
    i: int,
)
    requires
        0 <= i < elements.len(),
    ensures
        has_text(add_elements(family, table, set, join(elements, ", "@)), elements[i]),
{
    let list = join(elements, ", "@);
    let command = add_elements(family, table, set, list);
    lemma_join_has(elements, ", "@, i);
    lemma_text_between(
        "add element "@ + family + " "@ + table + " "@ + set + " { "@,
        list,
        " }"@,
    );
    lemma_text_within(command, list, elements[i]);
}

/// Without entries the script empties the sets and does nothing else.
pub proof fn an_empty_whitelist_empties_the_sets(
    family: Seq<char>,
    table: Seq<char>,
    v4_set: Seq<char>,
    v6_set: Seq<char>,
)
    ensures
        batch_script(family, table, v4_set, v6_set, Seq::empty(), Seq::empty()) == flush_set(
            family,
            table,
            v4_set,
        ) + seq!['\n'] + flush_set(family, table, v6_set) + seq!['\n'],
{
    let a = flush_set(family, table, v4_set);
    let b = flush_set(family, table, v6_set);
    let parts = seq![a] + seq![b];
    lemma_unlines_concat(seq![a], seq![b]);
    lemma_unlines_single(a);
    lemma_unlines_single(b);
    assert(unlines(parts) =~= a + seq!['\n'] + b + seq!['\n']);
}

// ---------------------------------------------------------------------------
// DNS redirection
// ---------------------------------------------------------------------------

/// A family with a server gets a rule that redirects to it, and the server
/// joins the set of trusted ones; what was there before goes first.
pub proof fn a_server_is_redirected_to(
    family: Seq<char>,
    table: Seq<char>,
    dns_v4: Option<Seq<char>>,
    dns_v6: Option<Seq<char>>,
)
    ensures
        ({
            let script = unlines(redirect_commands(family, table, dns_v4, dns_v6));
            let flush = "flush chain "@ + family + " "@ + table + " nat_output"@;
            &&& has_text(script, flush)
            &&& has_text(script, flush_set(family, table, "dns_upstream_v4"@))
            &&& has_text(script, flush_set(family, table, "dns_upstream_v6"@))
            &&& dns_v4 matches Some(v4) ==> {
                &&& has_text(script, dnat_v4(v4))
                &&& in_order(
                    script,
                    flush_set(family, table, "dns_upstream_v4"@),
                    add_elements(family, table, "dns_upstream_v4"@, v4),
                )
            }
            &&& dns_v6 matches Some(v6) ==> {
                &&& has_text(script, dnat_v6(v6))
                &&& in_order(
                    script,
                    flush_set(family, table, "dns_upstream_v6"@),
                    add_elements(family, table, "dns_upstream_v6"@, v6),
                )
            }
        }),
{
    let parts = redirect_commands(family, table, dns_v4, dns_v6);
    let none = Seq::<char>::empty();
    let head = "add rule "@ + family + " "@ + table + " nat_output "@;
    lemma_listed(parts, 0);
    lemma_listed(parts, 1);
    lemma_listed(parts, 2);
    let n: int = if dns_v4 is Some {
        5
    } else {
        3
    };
    if let Some(v4) = dns_v4 {
        lemma_listed(parts, 3);
        lemma_in_order(parts, 1, 4);
        lemma_text_between(head, dnat_v4(v4), none);
        assert(parts[3] =~= head + dnat_v4(v4) + none);
        lemma_text_within(unlines(parts), parts[3], dnat_v4(v4));
    }
    if let Some(v6) = dns_v6 {
        lemma_listed(parts, n);
        lemma_in_order(parts, 2, n + 1);
        lemma_text_between(head, dnat_v6(v6), none);
        assert(parts[n] =~= head + dnat_v6(v6) + none);
        lemma_text_within(unlines(parts), parts[n], dnat_v6(v6));
    }
}

/// The commands for one family do not depend on the other: those for both are
/// those for IPv4 alone and then what those for IPv6 alone add.
pub proof fn the_families_are_redirected_apart(
    family: Seq<char>,
    table: Seq<char>,
    dns_v4: Option<Seq<char>>,
    dns_v6: Option<Seq<char>>,
)
    ensures
        redirect_commands(family, table, dns_v4, dns_v6) == redirect_commands(
            family,
            table,
            dns_v4,
            None,
        ) + redirect_commands(family, table, None, dns_v6).skip(3),
        redirect_commands(family, table, None, None).len() == 3,
{
    assert(redirect_commands(family, table, dns_v4, dns_v6) =~= redirect_commands(
        family,
        table,
        dns_v4,
        None,
    ) + redirect_commands(family, table, None, dns_v6).skip(3));
}

// ---------------------------------------------------------------------------
// Base ruleset
// ---------------------------------------------------------------------------

/// Rule `i` of the filter chain is where the parts before the chain end.
proof fn lemma_filter_rule(
    family: Seq<char>,
    table: Seq<char>,
    v4_set: Seq<char>,
    v6_set: Seq<char>,
    dns_v4: Option<Seq<char>>,
    dns_v6: Option<Seq<char>>,
    i: int,
)
    requires
        0 <= i < 15,
    ensures
        ({
            let parts = base_parts(family, table, v4_set, v6_set, dns_v4, dns_v6);
            let n = redirect_chain(dns_v4, dns_v6).len() as int + 9;
            &&& n + 15 <= parts.len()
            &&& parts[n + i] == filter_chain(v4_set, v6_set)[i]
        }),
{
}

/// The filter accepts what goes to a trusted DNS server or to the whitelist
/// before it drops what goes to a private address, and accepts what is left
/// only after that.
pub proof fn the_whitelist_comes_before_the_private_ranges(
    family: Seq<char>,
    table: Seq<char>,
    v4_set: Seq<char>,
    v6_set: Seq<char>,
    dns_v4: Option<Seq<char>>,
    dns_v6: Option<Seq<char>>,
)
    ensures
        ({
            let ruleset = unlines(base_parts(family, table, v4_set, v6_set, dns_v4, dns_v6));
            let dns_accept_v4 = "    ip daddr @dns_upstream_v4 th dport 53 accept"@;
            let dns_accept_v6 = "    ip6 daddr @dns_upstream_v6 th dport 53 accept"@;
            let accept_v4 = accept_set("    ip daddr @"@, v4_set);
            let accept_v6 = accept_set("    ip6 daddr @"@, v6_set);
            let drop_v4 = "    ip daddr @private_v4 drop"@;
            let drop_v6 = "    ip6 daddr @private_v6 drop"@;
            let chain = "\n  chain output {\n    type filter hook output priority 0; policy drop;"@;
            &&& in_order(ruleset, chain, dns_accept_v4)
            &&& in_order(ruleset, dns_accept_v4, drop_v4)
            &&& in_order(ruleset, dns_accept_v6, drop_v6)
            &&& in_order(ruleset, accept_v4, drop_v4)
            &&& in_order(ruleset, accept_v6, drop_v6)
            &&& in_order(ruleset, drop_v4, "    accept"@)
            &&& in_order(ruleset, drop_v6, "    accept"@)
        }),
{
    let parts = base_parts(family, table, v4_set, v6_set, dns_v4, dns_v6);
    let n = redirect_chain(dns_v4, dns_v6).len() as int + 9;
    lemma_filter_rule(family, table, v4_set, v6_set, dns_v4, dns_v6, 0);
    lemma_filter_rule(family, table, v4_set, v6_set, dns_v4, dns_v6, 4);
    lemma_filter_rule(family, table, v4_set, v6_set, dns_v4, dns_v6, 5);
    lemma_filter_rule(family, table, v4_set, v6_set, dns_v4, dns_v6, 6);
    lemma_filter_rule(family, table, v4_set, v6_set, dns_v4, dns_v6, 7);
    lemma_filter_rule(family, table, v4_set, v6_set, dns_v4, dns_v6, 9);
    lemma_filter_rule(family, table, v4_set, v6_set, dns_v4, dns_v6, 11);
    lemma_filter_rule(family, table, v4_set, v6_set, dns_v4, dns_v6, 12);
    lemma_in_order(parts, n, n + 4);
    lemma_in_order(parts, n + 4, n + 9);
    lemma_in_order(parts, n + 5, n + 11);
    lemma_in_order(parts, n + 6, n + 9);
    lemma_in_order(parts, n + 7, n + 11);
    lemma_in_order(parts, n + 9, n + 12);
    lemma_in_order(parts, n + 11, n + 12);
}

/// A server that is given is redirected to by the ruleset, and is a trusted one.
pub proof fn the_ruleset_redirects_to_the_servers(
    family: Seq<char>,
    table: Seq<char>,
    v4_set: Seq<char>,
    v6_set: Seq<char>,
    dns_v4: Option<Seq<char>>,
    dns_v6: Option<Seq<char>>,
)
    ensures
        ({
            let ruleset = unlines(base_parts(family, table, v4_set, v6_set, dns_v4, dns_v6));
            &&& dns_v4 matches Some(v4) ==> has_text(ruleset, dnat_v4(v4)) && has_text(
                ruleset,
                add_elements(family, table, "dns_upstream_v4"@, v4),
            )
            &&& dns_v6 matches Some(v6) ==> has_text(ruleset, dnat_v6(v6)) && has_text(
                ruleset,
                add_elements(family, table, "dns_upstream_v6"@, v6),
            )
        }),
{
    let parts = base_parts(family, table, v4_set, v6_set, dns_v4, dns_v6);
    let chain = redirect_chain(dns_v4, dns_v6);
    let elements = upstream_elements(family, table, dns_v4, dns_v6);
    let none = Seq::<char>::empty();
    let behind = chain.len() as int + 24;
    let second: int = if dns_v4 is Some {
        1
    } else {
        0
    };
    if let Some(v4) = dns_v4 {
        assert(parts[9] == chain[1]);
        lemma_listed(parts, 9);
        lemma_text_between("    "@, dnat_v4(v4), none);
        assert(chain[1] =~= "    "@ + dnat_v4(v4) + none);
        lemma_text_within(unlines(parts), parts[9], dnat_v4(v4));
        assert(parts[behind] == elements[0]);
        lemma_listed(parts, behind);
    }
    if let Some(v6) = dns_v6 {
        assert(parts[9 + second] == chain[1 + second]);
        lemma_listed(parts, 9 + second);
        lemma_text_between("    "@, dnat_v6(v6), none);
        assert(chain[1 + second] =~= "    "@ + dnat_v6(v6) + none);
        lemma_text_within(unlines(parts), parts[9 + second], dnat_v6(v6));
        assert(parts[behind + second] == elements[second]);
        lemma_listed(parts, behind + second);
    }
}

/// The generated ruleset is one that the gateway would accept from a file: it
/// filters what leaves the host.
pub proof fn the_ruleset_filters_output(
    family: Seq<char>,
    table: Seq<char>,
    v4_set: Seq<char>,
    v6_set: Seq<char>,
    dns_v4: Option<Seq<char>>,
    dns_v6: Option<Seq<char>>,
)
    ensures
        has_text(
            unlines(base_parts(family, table, v4_set, v6_set, dns_v4, dns_v6)),
            "hook output"@,
        ),
{
    let parts = base_parts(family, table, v4_set, v6_set, dns_v4, dns_v6);
    let chain = "\n  chain nat_output {\n    type nat hook output priority dstnat; policy accept;"@;
    assert(parts[8] == chain);
    lemma_listed(parts, 8);
    reveal_strlit(
        "\n  chain nat_output {\n    type nat hook output priority dstnat; policy accept;",
    );
    reveal_strlit("hook output");
    assert(chain.subrange(35, 46) =~= "hook output"@);
    assert(text_at(chain, "hook output"@, 35));
    lemma_text_within(unlines(parts), chain, "hook output"@);
}

} // verus!
