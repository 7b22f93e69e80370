//! Which texts are IPv6 addresses.

use crate::address_laws::{
    are_groups, is_group, lemma_group, lemma_group_list, lemma_join_of_split, lemma_tidy_gap,
    v4_texts_are_unique,
};
use crate::ipv4::{v4_in, v4_text_reads_back, Ipv4Addr};
use crate::ipv6::{
    all_hex, find_gap, groups_of_v4, hex_group, hex_values, lemma_find_gap, lemma_hex_field,
    mixed_groups, plain_groups, tidy, v6_in,
};
use crate::line_laws::lemma_gap_at;
use crate::numbers::{is_digit, numeral};
use crate::text::{join, lemma_split_nonempty, lemma_split_of_join, split};
use vstd::prelude::*;

verus! {

/// The two last groups of an address that ends in an IPv4 address.
pub open spec fn last_groups(ip: Ipv4Addr) -> Seq<Seq<char>> {
    seq![numeral(ip.bits as nat / 0x1_0000, 16), numeral(ip.bits as nat % 0x1_0000, 16)]
}

/// The groups in a list that ends in an IPv4 address.
proof fn lemma_mixed(t: Seq<Seq<char>>, ip: Ipv4Addr)
    requires
        are_groups(t),
    ensures
        tidy(join(t.push(ip.text()), seq![':'])),
        are_groups(t + last_groups(ip)),
        mixed_groups(join(t.push(ip.text()), seq![':'])) == Some(hex_values(t + last_groups(ip))),
{
    let colon = seq![':'];
    let v4 = ip.text();
    let f = t.push(v4);
    let s = join(f, colon);
    v4_text_reads_back(ip);
    assert(!v4.contains(':'));
    assert(f.drop_last() =~= t);
    assert(f.last() == v4);
    assert forall|i: int| 0 <= i < f.len() implies !(#[trigger] f[i]).contains(':') by {
        if i < t.len() {
            assert(is_group(t[i]));
            lemma_group(t[i]);
        }
    }
    lemma_split_of_join(f, ':');
    // The last field is no group.
    let dot = choose|i: int| 0 <= i < v4.len() && v4[i] == '.';
    assert(!is_digit(v4[dot], 16));
    assert(hex_group(v4) is None);
    assert(hex_group(f[f.len() - 1]) is None);
    assert(!all_hex(f));
    assert forall|i: int| 0 <= i < t.len() implies hex_group(#[trigger] t[i]) is Some by {
        assert(is_group(t[i]));
        lemma_group(t[i]);
    }
    if t.len() == 0 {
        assert(s == v4);
    } else {
        lemma_group_list(t);
        let front = join(t, colon);
        let n = front.len() as int;
        assert(s == front + colon + v4);
        assert forall|i: int| 0 <= i < s.len() && #[trigger] s[i] == ':' implies i + 1 < s.len() && s[i
            + 1] != ':' by {
            if i < n {
                assert(front[i] == ':');
                assert(s[i + 1] == front[i + 1]);
            } else if i > n {
                assert(s[i] == v4[i - n - 1]);
            } else {
                assert(s[i + 1] == v4[0]);
            }
        }
    }
    assert(s.len() > 0);
    // The two last groups.
    let (hi, lo) = ((ip.bits / 0x1_0000) as u16, (ip.bits % 0x1_0000) as u16);
    lemma_hex_field(hi);
    lemma_hex_field(lo);
    lemma_field_is_group(numeral(hi as nat, 16));
    lemma_field_is_group(numeral(lo as nat, 16));
    let g = t + last_groups(ip);
    assert forall|i: int| 0 <= i < g.len() implies is_group(#[trigger] g[i]) by {
        if i < t.len() {
            assert(is_group(t[i]));
        }
    }
    assert(hex_values(g) =~= hex_values(t) + groups_of_v4(ip));
}

/// What denotes a group is a group.
proof fn lemma_field_is_group(s: Seq<char>)
    requires
        hex_group(s) is Some,
    ensures
        is_group(s),
{
    assert forall|i: int| 0 <= i < s.len() implies '0' <= #[trigger] s[i] <= '9' || 'a' <= s[i]
        <= 'f' || 'A' <= s[i] <= 'F' by {
        assert(is_digit(s[i], 16));
    }
}

/// An IPv4 address at the end of the text stands for the two groups of its
/// bits, with or without `::` before it.
pub proof fn an_embedded_v4_address_is_two_groups(
    h: Seq<Seq<char>>,
    t: Seq<Seq<char>>,
    ip: Ipv4Addr,
)
    requires
        are_groups(h),
        are_groups(t),
    ensures
        are_groups(t + last_groups(ip)),
        v6_in(join(t.push(ip.text()), ":"@)) == v6_in(join(t + last_groups(ip), ":"@)),
        v6_in(join(h, ":"@) + "::"@ + join(t.push(ip.text()), ":"@)) == v6_in(
            join(h, ":"@) + "::"@ + join(t + last_groups(ip), ":"@),
        ),
{
    reveal_strlit(":");
    reveal_strlit("::");
    assert(":"@ =~= seq![':']);
    let colon = seq![':'];
    let none = Seq::<char>::empty();
    lemma_mixed(t, ip);
    let a = join(t.push(ip.text()), colon);
    let b = join(t + last_groups(ip), colon);
    lemma_group_list(t + last_groups(ip));
    lemma_tidy_gap(a, none);
    lemma_tidy_gap(b, none);
    assert(mixed_groups(b) == Some(hex_values(t + last_groups(ip))));
    lemma_group_list(h);
    lemma_tidy_gap(join(h, colon), a);
    lemma_tidy_gap(join(h, colon), b);
}

/// Whether the text is a list of groups between colons, of which an IPv4
/// address may be the last, counting for two.
pub open spec fn is_list(s: Seq<char>, t: Seq<Seq<char>>, last: Option<Ipv4Addr>) -> bool {
    &&& are_groups(t)
    &&& match last {
        Some(ip) => s == join(t.push(ip.text()), ":"@),
        None => s == join(t, ":"@),
    }
}

/// How many groups a list has.
pub open spec fn count(t: Seq<Seq<char>>, last: Option<Ipv4Addr>) -> nat {
    if last is Some {
        t.len() + 2
    } else {
        t.len()
    }
}

/// Whether the text is the groups, two colons, and the list.
pub open spec fn has_gap(
    s: Seq<char>,
    h: Seq<Seq<char>>,
    t: Seq<Seq<char>>,
    last: Option<Ipv4Addr>,
) -> bool {
    exists|back: Seq<char>|
        #[trigger] is_list(back, t, last) && are_groups(h) && s == join(h, ":"@) + "::"@ + back
}

/// Every text that is an IPv6 address is a list of eight groups, or two lists
/// of seven groups at most with two colons between them; the last two groups
/// may be an IPv4 address. Anything else is refused.
pub proof fn v6_texts_have_a_form(s: Seq<char>)
    requires
        v6_in(s) is Some,
    ensures
        ({
            ||| exists|t: Seq<Seq<char>>, last: Option<Ipv4Addr>|
                #[trigger] is_list(s, t, last) && count(t, last) == 8
            ||| exists|h: Seq<Seq<char>>, t: Seq<Seq<char>>, last: Option<Ipv4Addr>|
                #[trigger] has_gap(s, h, t, last) && h.len() + count(t, last) <= 7
        }),
{
    reveal_strlit(":");
    reveal_strlit("::");
    assert(":"@ =~= seq![':']);
    lemma_find_gap(s);
    let k = find_gap(s);
    if k < s.len() {
        lemma_gap_at(s);
        let front = s.take(k);
        let back = s.skip(k + 2);
        let h = lemma_plain_form(front);
        let (t, last) = lemma_mixed_form(back);
        assert(s =~= front + "::"@ + back);
        assert(is_list(back, t, last));
        assert(has_gap(s, h, t, last));
        assert(h.len() + count(t, last) <= 7);
    } else {
        let (t, last) = lemma_mixed_form(s);
        assert(is_list(s, t, last) && count(t, last) == 8);
    }
}

/// What denotes plain groups is a list of them.
proof fn lemma_plain_form(s: Seq<char>) -> (f: Seq<Seq<char>>)
    requires
        plain_groups(s) is Some,
    ensures
        are_groups(f),
        s == join(f, ":"@),
        plain_groups(s)->0.len() == f.len(),
{
    reveal_strlit(":");
    assert(":"@ =~= seq![':']);
    if s.len() == 0 {
        let f = Seq::<Seq<char>>::empty();
        assert(s =~= join(f, ":"@));
        f
    } else {
        let f = split(s, ':');
        lemma_join_of_split(s, ':');
        assert forall|i: int| 0 <= i < f.len() implies is_group(#[trigger] f[i]) by {
            lemma_field_is_group(f[i]);
        }
        f
    }
}

/// What denotes groups is a list of them, perhaps with an IPv4 address at the end.
proof fn lemma_mixed_form(s: Seq<char>) -> (r: (Seq<Seq<char>>, Option<Ipv4Addr>))
    requires
        mixed_groups(s) is Some,
    ensures
        is_list(s, r.0, r.1),
        count(r.0, r.1) == mixed_groups(s)->0.len(),
{
    reveal_strlit(":");
    assert(":"@ =~= seq![':']);
    if plain_groups(s) is Some {
        let f = lemma_plain_form(s);
        (f, None)
    } else {
        let f = split(s, ':');
        let t = f.drop_last();
        let ip = v4_in(f.last())->0;
        lemma_split_nonempty(s, ':');
        lemma_join_of_split(s, ':');
        v4_texts_are_unique(f.last());
        assert(t.push(ip.text()) =~= f);
        assert forall|i: int| 0 <= i < t.len() implies is_group(#[trigger] t[i]) by {
            lemma_field_is_group(t[i]);
        }
        (t, Some(ip))
    }
}

} // verus!
