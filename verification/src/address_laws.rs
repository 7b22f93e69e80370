//! What numerals and the texts of addresses mean.

use crate::ipv4::{octet, v4_in, v4_text_reads_back, Ipv4Addr};
use crate::ipv6::{
    find_gap, hex_group, hex_list, hex_numerals, hex_values, is_mapped, lemma_find_gap_is,
    lemma_groups, lemma_longest_run_unique, longest_run, mixed_groups, of_groups, plain_groups,
    tidy, v6_in, zero_run, zeros, Ipv6Addr,
};
use crate::numbers::{
    all_digits, decimal, digit_char, digit_value, is_digit, lemma_powers, lemma_value_bound,
    numeral, power, unsigned, value,
};
use crate::text::{is_white, join, lemma_split_of_join, split};
use vstd::prelude::*;

verus! {

/// White space is what Unicode calls so.
pub proof fn white_space_is_unicodes(c: char)
    ensures
        is_white(c) <==> {
            let n = c as u32;
            ||| 9 <= n <= 13
            ||| n == 0x20
            ||| n == 0x85
            ||| n == 0xa0
            ||| n == 0x1680
            ||| 0x2000 <= n <= 0x200a
            ||| n == 0x2028
            ||| n == 0x2029
            ||| n == 0x202f
            ||| n == 0x205f
            ||| n == 0x3000
        },
{
}

// ---------------------------------------------------------------------------
// Numerals
// ---------------------------------------------------------------------------

/// A numeral is that of its number without the last digit, and then that
/// digit; the numeral of a single digit is its character.
pub proof fn numerals_are_positional(n: nat, d: nat)
    ensures
        d < 10 ==> decimal(d) == seq![(48 + d) as char],
        d < 10 && n > 0 ==> decimal(n * 10 + d) == decimal(n).push((48 + d) as char),
        d < 10 ==> numeral(d, 16) == seq![(48 + d) as char],
        10 <= d < 16 ==> numeral(d, 16) == seq![(87 + d) as char],
        d < 10 && n > 0 ==> numeral(n * 16 + d, 16) == numeral(n, 16).push((48 + d) as char),
        10 <= d < 16 && n > 0 ==> numeral(n * 16 + d, 16) == numeral(n, 16).push((87 + d) as char),
{
    if d < 10 && n > 0 {
        assert((n * 10 + d) / 10 == n && (n * 10 + d) % 10 == d);
    }
    if d < 16 && n > 0 {
        assert((n * 16 + d) / 16 == n && (n * 16 + d) % 16 == d);
    }
}

/// Digits are read by position, and a number beyond the bound is none.
pub proof fn numbers_are_read_by_position(s: Seq<char>, c: char, n: nat, max: nat)
    requires
        '0' <= c <= '9',
        unsigned(s, n) == Some(n),
        s[0] != '+',
    ensures
        ({
            let d = (c as u32 - 48) as nat;
            &&& unsigned(seq![c], max) == (if d <= max {
                Some(d)
            } else {
                None
            })
            &&& unsigned(s.push(c), max) == (if n * 10 + d <= max {
                Some((n * 10 + d) as nat)
            } else {
                None
            })
        }),
{
    let t = s.push(c);
    let one = seq![c];
    assert(one.drop_last() =~= Seq::<char>::empty());
    reveal_with_fuel(value, 2);
    assert(is_digit(one[0], 10));
    assert(all_digits(one, 10));
    assert(t.drop_last() =~= s);
    assert(t[0] == s[0]);
    assert forall|i: int| 0 <= i < t.len() implies is_digit(#[trigger] t[i], 10) by {
        if i < s.len() {
            assert(is_digit(s[i], 10));
        }
    }
}

/// A plus sign may stand before the digits, and nothing else may stand there.
pub proof fn numbers_are_digits_only(s: Seq<char>, max: nat)
    ensures
        s.len() == 0 ==> unsigned(s, max) is None,
        s.len() > 0 && s[0] != '+' ==> unsigned("+"@ + s, max) == unsigned(s, max),
        unsigned("+"@, max) is None,
        unsigned(s, max) is Some ==> forall|i: int|
            0 <= i < s.len() ==> '0' <= #[trigger] s[i] <= '9' || (i == 0 && s[i] == '+'),
        unsigned(s, max) matches Some(n) ==> n <= max,
{
    reveal_strlit("+");
    let plus = "+"@ + s;
    assert(plus.skip(1) =~= s);
    assert(plus[0] == '+');
    if unsigned(s, max) is Some {
        let digits = if s[0] == '+' {
            s.skip(1)
        } else {
            s
        };
        assert forall|i: int| 0 <= i < s.len() implies '0' <= #[trigger] s[i] <= '9' || (i == 0
            && s[i] == '+') by {
            if s[0] == '+' && i > 0 {
                assert(is_digit(digits[i - 1], 10));
            } else if s[0] != '+' {
                assert(is_digit(digits[i], 10));
            }
        }
    }
}

/// Hexadecimal digits are read by position, in either case.
pub proof fn hexadecimal_is_read_by_position(s: Seq<char>, c: char)
    ensures
        value(Seq::empty(), 16) == 0,
        '0' <= c <= '9' ==> value(s.push(c), 16) == value(s, 16) * 16 + (c as u32 - 48),
        'a' <= c <= 'f' ==> value(s.push(c), 16) == value(s, 16) * 16 + (c as u32 - 87),
        'A' <= c <= 'F' ==> value(s.push(c), 16) == value(s, 16) * 16 + (c as u32 - 55),
{
    assert(s.push(c).drop_last() =~= s);
}

// ---------------------------------------------------------------------------
// IPv4
// ---------------------------------------------------------------------------

/// The dotted text of four octets is the address that they make, most
/// significant first, and is how that address is written.
pub proof fn dotted_texts_are_octets(a: u8, b: u8, c: u8, d: u8)
    ensures
        ({
            let text = decimal(a as nat) + "."@ + decimal(b as nat) + "."@ + decimal(c as nat)
                + "."@ + decimal(d as nat);
            let ip = Ipv4Addr { bits: (a * 16777216 + b * 65536 + c * 256 + d) as u32 };
            &&& v4_in(text) == Some(ip)
            &&& ip.text() == text
        }),
{
    let bits: u32 = (a * 16777216 + b * 65536 + c * 256 + d) as u32;
    let ip = Ipv4Addr { bits };
    assert(bits / 0x100_0000 == a && bits / 0x1_0000 % 0x100 == b && bits / 0x100 % 0x100 == c
        && bits % 0x100 == d) by (bit_vector)
        requires
            bits == a as u32 * 16777216 + b as u32 * 65536 + c as u32 * 256 + d as u32,
    ;
    v4_text_reads_back(ip);
}

/// The value of digits with a digit other than zero before them is not zero.
proof fn lemma_value_positive(s: Seq<char>)
    requires
        s.len() > 0,
        all_digits(s, 10),
        s[0] != '0',
    ensures
        value(s, 10) > 0,
    decreases s.len(),
{
    assert(is_digit(s[0], 10));
    if s.len() > 1 {
        assert forall|i: int| 0 <= i < s.len() - 1 implies is_digit(
            #[trigger] s.drop_last()[i],
            10,
        ) by {
            assert(is_digit(s[i], 10));
        }
        lemma_value_positive(s.drop_last());
    }
}

/// Digits without a zero before them are the numeral of their value.
proof fn lemma_numeral_of_value(s: Seq<char>)
    requires
        s.len() > 0,
        all_digits(s, 10),
        s.len() > 1 ==> s[0] != '0',
    ensures
        decimal(value(s, 10)) == s,
    decreases s.len(),
{
    let front = s.drop_last();
    let d = digit_value(s.last());
    assert(is_digit(s[s.len() - 1], 10));
    assert(digit_char(d) == s.last());
    if s.len() == 1 {
        assert(front =~= Seq::<char>::empty());
        assert(value(front, 10) == 0);
        assert(decimal(d) =~= s);
    } else {
        assert forall|i: int| 0 <= i < front.len() implies is_digit(#[trigger] front[i], 10) by {
            assert(is_digit(s[i], 10));
        }
        lemma_value_positive(front);
        lemma_numeral_of_value(front);
        numerals_are_positional(value(front, 10), d);
        assert(decimal(value(s, 10)) =~= s);
    }
}

/// There is one text for each IPv4 address: what reads as the address is how
/// it is written. Signs, leading zeros, blanks and missing octets are refused.
pub proof fn v4_texts_are_unique(s: Seq<char>)
    ensures
        v4_in(s) matches Some(ip) ==> ip.text() == s,
{
    if let Some(ip) = v4_in(s) {
        let f = split(s, '.');
        let (a, b, c, d) = (octet(f[0])->0, octet(f[1])->0, octet(f[2])->0, octet(f[3])->0);
        lemma_numeral_of_value(f[0]);
        lemma_numeral_of_value(f[1]);
        lemma_numeral_of_value(f[2]);
        lemma_numeral_of_value(f[3]);
        dotted_texts_are_octets(a, b, c, d);
        let text = decimal(a as nat) + "."@ + decimal(b as nat) + "."@ + decimal(c as nat) + "."@
            + decimal(d as nat);
        lemma_join_of_split(s, '.');
        reveal_strlit(".");
        assert("."@ =~= seq!['.']);
        reveal_with_fuel(join, 4);
        assert(f.drop_last().drop_last().drop_last() =~= seq![f[0]]);
        assert(join(f, seq!['.']) =~= text);
    }
}

/// Joining undoes splitting.
pub proof fn lemma_join_of_split(s: Seq<char>, c: char)
    ensures
        join(split(s, c), seq![c]) == s,
    decreases s.len(),
{
    crate::text::lemma_find(s, c);
    let k = crate::text::find(s, c);
    let f = split(s, c);
    if k < s.len() {
        let rest = s.skip(k + 1);
        lemma_join_of_split(rest, c);
        crate::text::lemma_split_nonempty(rest, c);
        crate::text::lemma_join_first(f, seq![c]);
        assert(f.skip(1) =~= split(rest, c));
        assert(s =~= s.take(k) + seq![c] + rest);
    }
}

// ---------------------------------------------------------------------------
// IPv6
// ---------------------------------------------------------------------------

/// Whether the text is a group: one to four hexadecimal digits, in either case.
pub open spec fn is_group(s: Seq<char>) -> bool {
    &&& 1 <= s.len() <= 4
    &&& forall|i: int|
        0 <= i < s.len() ==> '0' <= #[trigger] s[i] <= '9' || 'a' <= s[i] <= 'f' || 'A' <= s[i]
            <= 'F'
}

/// Whether all the texts are groups.
pub open spec fn are_groups(f: Seq<Seq<char>>) -> bool {
    forall|i: int| 0 <= i < f.len() ==> is_group(#[trigger] f[i])
}

/// A group reads as its value.
pub proof fn lemma_group(s: Seq<char>)
    requires
        is_group(s),
    ensures
        hex_group(s) == Some(value(s, 16) as u16),
        value(s, 16) < 0x1_0000,
        !s.contains(':'),
{
    assert forall|i: int| 0 <= i < s.len() implies is_digit(#[trigger] s[i], 16) by {}
    lemma_value_bound(s, 16);
    lemma_powers();
    reveal_with_fuel(power, 5);
    assert(!s.contains(':'));
}

/// What a list of groups looks like.
pub proof fn lemma_group_list(f: Seq<Seq<char>>)
    requires
        are_groups(f),
    ensures
        tidy(join(f, seq![':'])),
        (f.len() == 0) == (join(f, seq![':']).len() == 0),
        f.len() > 0 ==> join(f, seq![':'])[0] != ':' && join(f, seq![':']).last() != ':',
        plain_groups(join(f, seq![':'])) == Some(hex_values(f)),
    decreases f.len(),
{
    let colon = seq![':'];
    let s = join(f, colon);
    if f.len() > 0 {
        let last = f.last();
        assert(is_group(f[f.len() - 1]));
        lemma_group(last);
        if f.len() > 1 {
            let front = join(f.drop_last(), colon);
            assert forall|i: int| 0 <= i < f.drop_last().len() implies is_group(
                #[trigger] f.drop_last()[i],
            ) by {
                assert(is_group(f[i]));
            }
            lemma_group_list(f.drop_last());
            let n = front.len() as int;
            assert(s == front + colon + last);
            assert forall|i: int| 0 <= i < s.len() && #[trigger] s[i] == ':' implies i + 1 < s.len()
                && s[i + 1] != ':' by {
                if i < n {
                    assert(front[i] == ':');
                    assert(s[i + 1] == front[i + 1]);
                } else if i > n {
                    assert(s[i] == last[i - n - 1]);
                    assert(last.contains(':'));
                } else {
                    assert(s[i + 1] == last[0]);
                    assert(last.contains(last[0]));
                }
            }
            assert(s[0] == front[0]);
            assert(s.last() == last.last());
        } else {
            assert(s == last);
            assert forall|i: int| 0 <= i < s.len() implies #[trigger] s[i] != ':' by {
                assert(last.contains(s[i]));
            }
        }
        assert(last.contains(last.last()));
        assert forall|i: int| 0 <= i < f.len() implies !(#[trigger] f[i]).contains(':') && hex_group(
            f[i],
        ) is Some by {
            assert(is_group(f[i]));
            lemma_group(f[i]);
        }
        lemma_split_of_join(f, ':');
    } else {
        assert(hex_values(f) =~= Seq::<u16>::empty());
    }
}

/// Tidy text has no gap, and puts none before what follows `::` either.
pub proof fn lemma_tidy_gap(h: Seq<char>, t: Seq<char>)
    requires
        tidy(h),
    ensures
        find_gap(h) == h.len(),
        find_gap(h + "::"@ + t) == h.len(),
        (h + "::"@ + t).take(h.len() as int) == h,
        (h + "::"@ + t).skip(h.len() as int + 2) == t,
{
    reveal_strlit("::");
    let s = h + "::"@ + t;
    let k = h.len() as int;
    lemma_find_gap_is(h, k);
    assert forall|i: int| 0 <= i < k && i + 1 < s.len() implies !(#[trigger] s[i] == ':' && s[i + 1]
        == ':') by {
        assert(s[i] == h[i]);
        if s[i] == ':' {
            assert(s[i + 1] == h[i + 1]);
        }
    }
    lemma_find_gap_is(s, k);
    assert(s.take(k) =~= h);
    assert(s.skip(k + 2) =~= t);
}

/// Eight groups between colons are the address that they make, most
/// significant first.
pub proof fn eight_groups_are_an_address(f: Seq<Seq<char>>)
    requires
        f.len() == 8,
        are_groups(f),
    ensures
        v6_in(join(f, ":"@)) == Some(
            Ipv6Addr {
                bits: (value(f[0], 16) * 0x1_0000_0000_0000_0000_0000_0000_0000 + value(f[1], 16)
                    * 0x1_0000_0000_0000_0000_0000_0000 + value(f[2], 16)
                    * 0x1_0000_0000_0000_0000_0000 + value(f[3], 16) * 0x1_0000_0000_0000_0000
                    + value(f[4], 16) * 0x1_0000_0000_0000 + value(f[5], 16) * 0x1_0000_0000
                    + value(f[6], 16) * 0x1_0000 + value(f[7], 16)) as u128,
            },
        ),
{
    reveal_strlit(":");
    assert(":"@ =~= seq![':']);
    let s = join(f, seq![':']);
    let none = Seq::<char>::empty();
    lemma_group_list(f);
    lemma_tidy_gap(s, none);
    let g = hex_values(f);
    assert(mixed_groups(s) == Some(g));
    lemma_of_eight(g);
    assert forall|i: int| 0 <= i < 8 implies #[trigger] g[i] == value(f[i], 16) by {
        assert(is_group(f[i]));
        lemma_group(f[i]);
    }
    assert(g[0] == value(f[0], 16) && g[1] == value(f[1], 16) && g[2] == value(f[2], 16) && g[3]
        == value(f[3], 16) && g[4] == value(f[4], 16) && g[5] == value(f[5], 16) && g[6] == value(
        f[6],
        16,
    ) && g[7] == value(f[7], 16));
}

/// The number that eight groups make.
proof fn lemma_of_eight(g: Seq<u16>)
    requires
        g.len() == 8,
    ensures
        of_groups(g) == g[0] * 0x1_0000_0000_0000_0000_0000_0000_0000 + g[1]
            * 0x1_0000_0000_0000_0000_0000_0000 + g[2] * 0x1_0000_0000_0000_0000_0000 + g[3]
            * 0x1_0000_0000_0000_0000 + g[4] * 0x1_0000_0000_0000 + g[5] * 0x1_0000_0000 + g[6]
            * 0x1_0000 + g[7],
{
    reveal_with_fuel(of_groups, 9);
    let a = g.drop_last();
    let b = a.drop_last();
    let c = b.drop_last();
    let d = c.drop_last();
    let e = d.drop_last();
    let h = e.drop_last();
    let i = h.drop_last();
    assert(i.drop_last() =~= Seq::<u16>::empty());
    assert(of_groups(i) == g[0]);
    assert(of_groups(h) == of_groups(i) * 0x1_0000 + g[1]);
    assert(of_groups(e) == of_groups(h) * 0x1_0000 + g[2]);
    assert(of_groups(d) == of_groups(e) * 0x1_0000 + g[3]);
    assert(of_groups(c) == of_groups(d) * 0x1_0000 + g[4]);
    assert(of_groups(b) == of_groups(c) * 0x1_0000 + g[5]);
    assert(of_groups(a) == of_groups(b) * 0x1_0000 + g[6]);
}

/// Two colons in a row stand for as many zero groups as are missing, at least
/// one; where none is missing the text is no address.
pub proof fn two_colons_stand_for_zeros(h: Seq<Seq<char>>, t: Seq<Seq<char>>)
    requires
        are_groups(h),
        are_groups(t),
    ensures
        h.len() + t.len() <= 7 ==> v6_in(join(h, ":"@) + "::"@ + join(t, ":"@)) == v6_in(
            join(h + Seq::new((8 - h.len() - t.len()) as nat, |i: int| "0"@) + t, ":"@),
        ),
        h.len() + t.len() > 7 ==> v6_in(join(h, ":"@) + "::"@ + join(t, ":"@)) is None,
{
    reveal_strlit(":");
    assert(":"@ =~= seq![':']);
    let x = join(h, seq![':']);
    let y = join(t, seq![':']);
    lemma_group_list(h);
    lemma_group_list(t);
    lemma_tidy_gap(x, y);
    reveal_strlit("::");
    let s = x + "::"@ + y;
    assert(find_gap(s) < s.len());
    if h.len() + t.len() <= 7 {
        let n = 8 - h.len() - t.len();
        let zero = Seq::new(n as nat, |i: int| "0"@);
        let f = h + zero + t;
        let none = Seq::<char>::empty();
        lemma_zero_field();
        assert forall|i: int| 0 <= i < f.len() implies is_group(#[trigger] f[i]) by {
            if i < h.len() {
                assert(is_group(h[i]));
            } else if i >= h.len() + n {
                assert(is_group(t[i - h.len() - n]));
            }
        }
        lemma_group_list(f);
        lemma_tidy_gap(join(f, seq![':']), none);
        assert(hex_values(f) =~= hex_values(h) + zeros(n) + hex_values(t));
    }
}

/// The group `0` is zero.
proof fn lemma_zero_field()
    ensures
        is_group("0"@),
        hex_group("0"@) == Some(0u16),
{
    reveal_strlit("0");
    let s = "0"@;
    assert(is_digit(s[0], 16));
    reveal_with_fuel(value, 2);
    assert(s.drop_last() =~= Seq::<char>::empty());
}

/// Groups in hexadecimal without leading zeros, with colons between them.
pub open spec fn in_hex(part: Seq<u16>) -> Seq<char> {
    join(Seq::new(part.len(), |i: int| numeral(part[i] as nat, 16)), ":"@)
}

/// Whether the groups from `s` to `e` are zero.
pub open spec fn are_zero(g: Seq<u16>, s: int, e: int) -> bool {
    forall|i: int| s <= i < e ==> #[trigger] g[i] == 0
}

/// How an IPv6 address is written, given its groups: an IPv4-mapped one with
/// its last 32 bits as an IPv4 address; else in hexadecimal without leading
/// zeros, with `::` for the longest run of two or more zero groups, the first
/// one if there are several.
pub proof fn v6_texts_follow_the_recommendation(ip: Ipv6Addr, g: Seq<u16>, s: int, e: int)
    requires
        g.len() == 8,
        ip.bits == g[0] * 0x1_0000_0000_0000_0000_0000_0000_0000 + g[1]
            * 0x1_0000_0000_0000_0000_0000_0000 + g[2] * 0x1_0000_0000_0000_0000_0000 + g[3]
            * 0x1_0000_0000_0000_0000 + g[4] * 0x1_0000_0000_0000 + g[5] * 0x1_0000_0000 + g[6]
            * 0x1_0000 + g[7],
    ensures
        are_zero(g, 0, 5) && g[5] == 0xffff ==> ip.text() == "::ffff:"@ + (Ipv4Addr {
            bits: (g[6] * 0x1_0000 + g[7]) as u32,
        }).text(),
        !(are_zero(g, 0, 5) && g[5] == 0xffff) && (forall|i: int|
            0 <= i && i + 2 <= 8 ==> !#[trigger] are_zero(g, i, i + 2)) ==> ip.text() == in_hex(g),
        !(are_zero(g, 0, 5) && g[5] == 0xffff) && 0 <= s && s + 2 <= e <= 8 && are_zero(g, s, e)
            && (forall|a: int, b: int|
            0 <= a <= b <= 8 && #[trigger] are_zero(g, a, b) ==> b - a < e - s || (b - a == e - s
                && s <= a)) ==> ip.text() == in_hex(g.take(s)) + "::"@ + in_hex(g.skip(e)),
{
    assert forall|part: Seq<u16>| #[trigger] in_hex(part) == hex_list(part) by {
        assert(hex_numerals(part) =~= Seq::new(
            part.len(),
            |i: int| numeral(part[i] as nat, 16),
        ));
    }
    lemma_of_eight(g);
    lemma_groups(g);
    assert(ip.groups() == g);
    assert(is_mapped(g) <==> are_zero(g, 0, 5) && g[5] == 0xffff);
    if !is_mapped(g) {
        crate::ipv6::lemma_longest_run_exists(g, 8);
        let (a, n) = choose|a: int, n: int| longest_run(g, a, n);
        if forall|i: int| 0 <= i && i + 2 <= 8 ==> !#[trigger] are_zero(g, i, i + 2) {
            if n > 1 {
                assert(zero_run(g, a, n));
                assert(!are_zero(g, a, a + 2));
                assert(are_zero(g, a, a + 2));
            }
        }
        if 0 <= s && s + 2 <= e <= 8 && are_zero(g, s, e) && (forall|a: int, b: int|
            0 <= a <= b <= 8 && #[trigger] are_zero(g, a, b) ==> b - a < e - s || (b - a == e - s
                && s <= a)) {
            let l = e - s;
            assert(zero_run(g, s, l));
            assert forall|a: int, n: int| #[trigger] zero_run(g, a, n) implies n < l || (n == l && s
                <= a) by {
                assert(are_zero(g, a, a + n));
            }
            assert(longest_run(g, s, l));
            lemma_longest_run_unique(g, s, l, a, n);
        }
    }
}

} // verus!
