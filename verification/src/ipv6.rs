//! IPv6 addresses and their textual form.

use crate::ipv4::{v4_in, v4_text_reads_back, Ipv4Addr};
use crate::numbers::{
    all_digits, lemma_numeral, lemma_numeral_length, lemma_powers, lemma_value_bound, numeral,
    power, read_digits, value, write_numeral,
};
use crate::text::{join, slices, split, split_chars};
use vstd::prelude::*;
use vstd::slice::slice_subrange;

verus! {

/// An IPv6 address as a 128-bit number, the first group being the most significant.
#[derive(Clone, Copy, Debug, PartialEq, Eq, Structural)]
pub struct Ipv6Addr {
    pub bits: u128,
}

// ---------------------------------------------------------------------------
// Groups
// ---------------------------------------------------------------------------

/// The number with the given 16-bit groups, most significant first.
pub open spec fn of_groups(g: Seq<u16>) -> nat
    decreases g.len(),
{
    if g.len() == 0 {
        0
    } else {
        of_groups(g.drop_last()) * 0x1_0000 + g.last() as nat
    }
}

/// The lowest `k` 16-bit groups of `n`, most significant first.
pub open spec fn groups_of(n: nat, k: nat) -> Seq<u16>
    decreases k,
{
    if k == 0 {
        Seq::empty()
    } else {
        groups_of(n / 0x1_0000, (k - 1) as nat).push((n % 0x1_0000) as u16)
    }
}

/// `k` groups that are zero.
pub open spec fn zeros(k: int) -> Seq<u16> {
    Seq::new(k as nat, |i: int| 0u16)
}

/// The groups of a number make the number, and the other way round.
pub proof fn lemma_groups(g: Seq<u16>)
    ensures
        groups_of(of_groups(g), g.len()) == g,
        of_groups(g) < power(0x1_0000, g.len()),
    decreases g.len(),
{
    if g.len() > 0 {
        lemma_groups(g.drop_last());
        let n = of_groups(g.drop_last());
        let p = power(0x1_0000, (g.len() - 1) as nat);
        assert((n * 0x1_0000 + g.last()) / 0x1_0000 == n);
        assert(of_groups(g) % 0x1_0000 == g.last());
        assert(groups_of(of_groups(g), g.len()) =~= g.drop_last().push(g.last()));
        assert(p * 0x1_0000 == power(0x1_0000, g.len()));
    } else {
        assert(groups_of(0, 0) =~= g);
    }
}

/// A number below the `k`-th power of the group size is made of its `k` groups.
pub proof fn lemma_groups_of(n: nat, k: nat)
    requires
        n < power(0x1_0000, k),
    ensures
        groups_of(n, k).len() == k,
        of_groups(groups_of(n, k)) == n,
    decreases k,
{
    if k > 0 {
        let p = power(0x1_0000, (k - 1) as nat);
        assert(p * 0x1_0000 == power(0x1_0000, k));
        assert(n / 0x1_0000 < p);
        lemma_groups_of(n / 0x1_0000, (k - 1) as nat);
        assert(groups_of(n, k).drop_last() =~= groups_of(n / 0x1_0000, (k - 1) as nat));
    }
}

/// Eight groups are 128 bits.
pub proof fn lemma_eight_groups()
    ensures
        power(0x1_0000, 8) == 0x1_0000_0000_0000_0000_0000_0000_0000_0000,
{
    reveal_with_fuel(power, 9);
    assert(power(0x1_0000, 8) == 0x1_0000_0000_0000_0000_0000_0000_0000_0000);
}

// ---------------------------------------------------------------------------
// Reading
// ---------------------------------------------------------------------------

/// The group that a field denotes: one to four hexadecimal digits.
pub open spec fn hex_group(s: Seq<char>) -> Option<u16> {
    if 1 <= s.len() <= 4 && all_digits(s, 16) {
        Some(value(s, 16) as u16)
    } else {
        None
    }
}

/// Whether every field denotes a group.
pub open spec fn all_hex(f: Seq<Seq<char>>) -> bool {
    forall|i: int| 0 <= i < f.len() ==> hex_group(#[trigger] f[i]) is Some
}

/// The groups that the fields denote.
pub open spec fn hex_values(f: Seq<Seq<char>>) -> Seq<u16> {
    Seq::new(f.len(), |i: int| hex_group(f[i])->0)
}

/// The groups in a list separated by colons, none in the empty text.
pub open spec fn plain_groups(s: Seq<char>) -> Option<Seq<u16>> {
    let f = split(s, ':');
    if s.len() == 0 {
        Some(Seq::empty())
    } else if all_hex(f) {
        Some(hex_values(f))
    } else {
        None
    }
}

/// The two groups that an IPv4 address makes.
pub open spec fn groups_of_v4(v4: Ipv4Addr) -> Seq<u16> {
    seq![(v4.bits / 0x1_0000) as u16, (v4.bits % 0x1_0000) as u16]
}

/// The groups in a list separated by colons, whose last field may be a dotted
/// IPv4 address in place of two groups.
pub open spec fn mixed_groups(s: Seq<char>) -> Option<Seq<u16>> {
    let f = split(s, ':');
    match plain_groups(s) {
        Some(g) => Some(g),
        None => match v4_in(f.last()) {
            Some(v4) => if all_hex(f.drop_last()) {
                Some(hex_values(f.drop_last()) + groups_of_v4(v4))
            } else {
                None
            },
            None => None,
        },
    }
}

/// The index of the first `::`, or the length of `s` without one.
pub open spec fn find_gap(s: Seq<char>) -> int
    decreases s.len(),
{
    if s.len() == 0 || (s.len() > 1 && s[0] == ':' && s[1] == ':') {
        0
    } else {
        1 + find_gap(s.skip(1))
    }
}

/// The eight groups that the text denotes. A `::` stands for one zero group or more.
pub open spec fn v6_groups(s: Seq<char>) -> Option<Seq<u16>> {
    let k = find_gap(s);
    if k < s.len() {
        match (plain_groups(s.take(k)), mixed_groups(s.skip(k + 2))) {
            (Some(h), Some(t)) => if h.len() + t.len() <= 7 {
                Some(h + zeros(8 - h.len() - t.len()) + t)
            } else {
                None
            },
            _ => None,
        }
    } else {
        match mixed_groups(s) {
            Some(g) => if g.len() == 8 {
                Some(g)
            } else {
                None
            },
            None => None,
        }
    }
}

/// The IPv6 address that the text denotes.
pub open spec fn v6_in(s: Seq<char>) -> Option<Ipv6Addr> {
    match v6_groups(s) {
        Some(g) => Some(Ipv6Addr { bits: of_groups(g) as u128 }),
        None => None,
    }
}

/// `find_gap` gives the first index of two colons in a row.
pub proof fn lemma_find_gap(s: Seq<char>)
    ensures
        0 <= find_gap(s) <= s.len(),
        find_gap(s) < s.len() ==> find_gap(s) + 2 <= s.len(),
    decreases s.len(),
{
    if s.len() > 0 && !(s.len() > 1 && s[0] == ':' && s[1] == ':') {
        lemma_find_gap(s.skip(1));
    }
}

/// The first index of two colons in a row is what `find_gap` gives.
pub proof fn lemma_find_gap_is(s: Seq<char>, k: int)
    requires
        0 <= k <= s.len(),
        forall|i: int| 0 <= i < k && i + 1 < s.len() ==> !(#[trigger] s[i] == ':' && s[i + 1] == ':'),
        k < s.len() ==> k + 1 < s.len() && s[k] == ':' && s[k + 1] == ':',
    ensures
        find_gap(s) == k,
    decreases s.len(),
{
    if k > 0 {
        let t = s.skip(1);
        assert(!(s.len() > 1 && s[0] == ':' && s[1] == ':'));
        assert forall|i: int| 0 <= i < k - 1 && i + 1 < t.len() implies !(#[trigger] t[i] == ':' && t[i
            + 1] == ':') by {
            assert(t[i] == s[i + 1] && t[i + 1] == s[i + 2]);
        }
        lemma_find_gap_is(t, k - 1);
    }
}

/// The index of the first `::`, or the length without one.
fn find_gap_chars(s: &[char]) -> (r: usize)
    ensures
        r == find_gap(s@),
{
    let mut i: usize = 0;
    while i < s.len()
        invariant
            i <= s.len(),
            forall|j: int| 0 <= j < i && j + 1 < s@.len() ==> !(#[trigger] s@[j] == ':' && s@[j + 1] == ':'),
        decreases s.len() - i,
    {
        if s.len() - i > 1 && s[i] == ':' && s[i + 1] == ':' {
            proof {
                lemma_find_gap_is(s@, i as int);
            }
            return i;
        }
        i = i + 1;
    }
    proof {
        lemma_find_gap_is(s@, i as int);
    }
    i
}

/// The group that a field denotes.
fn read_hex_group(s: &[char]) -> (r: Option<u16>)
    ensures
        r == hex_group(s@),
{
    if s.len() < 1 || s.len() > 4 {
        return None;
    }
    proof {
        lemma_powers();
        reveal_with_fuel(power, 5);
        if all_digits(s@, 16) {
            lemma_value_bound(s@, 16);
        }
    }
    match read_digits(s, 16, 0xffff) {
        Some(n) => Some(n as u16),
        None => None,
    }
}

/// The groups that the first `n` fields denote.
fn read_hex_groups(f: &Vec<&[char]>, n: usize) -> (r: Option<Vec<u16>>)
    requires
        n <= f.len(),
    ensures
        match r {
            Some(g) => all_hex(slices(f@).take(n as int)) && g@ == hex_values(slices(f@).take(n as int)),
            None => !all_hex(slices(f@).take(n as int)),
        },
{
    let ghost fields = slices(f@).take(n as int);
    let mut g: Vec<u16> = Vec::new();
    for i in 0..n
        invariant
            n <= f.len(),
            fields == slices(f@).take(n as int),
            g@.len() == i,
            forall|j: int| 0 <= j < i ==> hex_group(#[trigger] fields[j]) == Some(g@[j]),
    {
        assert(fields[i as int] == f@[i as int]@);
        match read_hex_group(f[i]) {
            Some(x) => {
                g.push(x);
            },
            None => {
                return None;
            },
        }
    }
    assert(g@ =~= hex_values(fields));
    Some(g)
}

/// The groups in a list separated by colons.
fn read_plain_groups(s: &[char]) -> (r: Option<Vec<u16>>)
    ensures
        match r {
            Some(g) => plain_groups(s@) == Some(g@),
            None => plain_groups(s@) is None,
        },
{
    if s.len() == 0 {
        let g: Vec<u16> = Vec::new();
        assert(g@ =~= Seq::<u16>::empty());
        return Some(g);
    }
    let f = split_chars(s, ':');
    assert(slices(f@).take(f@.len() as int) =~= slices(f@));
    read_hex_groups(&f, f.len())
}

/// The groups in a list separated by colons, perhaps with an IPv4 address at the end.
fn read_mixed_groups(s: &[char]) -> (r: Option<Vec<u16>>)
    ensures
        match r {
            Some(g) => mixed_groups(s@) == Some(g@),
            None => mixed_groups(s@) is None,
        },
{
    match read_plain_groups(s) {
        Some(g) => Some(g),
        None => {
            let f = split_chars(s, ':');
            proof {
                crate::text::lemma_split_nonempty(s@, ':');
            }
            let last = f.len() - 1;
            assert(slices(f@).last() == f@[last as int]@);
            assert(slices(f@).take(last as int) =~= slices(f@).drop_last());
            match (Ipv4Addr::read(f[last]), read_hex_groups(&f, last)) {
                (Some(v4), Some(mut g)) => {
                    let ghost front = g@;
                    g.push((v4.bits / 0x1_0000) as u16);
                    g.push((v4.bits % 0x1_0000) as u16);
                    assert(g@ =~= front + groups_of_v4(v4));
                    Some(g)
                },
                _ => None,
            }
        },
    }
}

impl Ipv6Addr {
    /// The eight groups of the address.
    pub open spec fn groups(self) -> Seq<u16> {
        groups_of(self.bits as nat, 8)
    }

    /// The address with the given eight groups.
    pub(crate) fn of(g: &Vec<u16>) -> (r: Ipv6Addr)
        requires
            g@.len() == 8,
        ensures
            r.groups() == g@,
            r.bits == of_groups(g@),
    {
        let mut bits: u128 = 0;
        for i in 0..8
            invariant
                g@.len() == 8,
                bits == of_groups(g@.take(i as int)),
        {
            assert(g@.take(i + 1).drop_last() =~= g@.take(i as int));
            proof {
                lemma_groups(g@.take(i + 1));
                lemma_power_grows(i + 1, 8);
                lemma_eight_groups();
            }
            bits = bits * 0x1_0000 + g[i] as u128;
        }
        assert(g@.take(8) =~= g@);
        proof {
            lemma_groups(g@);
        }
        Ipv6Addr { bits }
    }

    /// Reads an IPv6 address.
    pub fn read(s: &[char]) -> (r: Option<Ipv6Addr>)
        ensures
            r == v6_in(s@),
    {
        let k = find_gap_chars(s);
        proof {
            lemma_find_gap(s@);
        }
        if k < s.len() {
            match (
                read_plain_groups(slice_subrange(s, 0, k)),
                read_mixed_groups(slice_subrange(s, k + 2, s.len())),
            ) {
                (Some(mut g), Some(mut t)) => {
                    let ghost h = g@;
                    let ghost tail = t@;
                    if g.len() > 7 || t.len() > 7 - g.len() {
                        return None;
                    }
                    let gap = 8 - g.len() - t.len();
                    for i in 0..gap
                        invariant
                            g@ == h + zeros(i as int),
                    {
                        g.push(0);
                        assert(h + zeros(i as int + 1) =~= (h + zeros(i as int)).push(0));
                    }
                    g.append(&mut t);
                    assert(g@ =~= h + zeros(gap as int) + tail);
                    Some(Ipv6Addr::of(&g))
                },
                _ => None,
            }
        } else {
            match read_mixed_groups(s) {
                Some(g) => if g.len() == 8 {
                    Some(Ipv6Addr::of(&g))
                } else {
                    None
                },
                None => None,
            }
        }
    }

    /// Whether the address is `::1`.
    pub fn is_loopback(&self) -> (r: bool)
        ensures
            r == (self.bits == 1),
    {
        self.bits == 1
    }
}

// ---------------------------------------------------------------------------
// Writing
// ---------------------------------------------------------------------------

/// Whether the `len` groups from index `start` on are zero.
pub open spec fn zero_run(g: Seq<u16>, start: int, len: int) -> bool {
    &&& 0 <= start
    &&& 0 <= len
    &&& start + len <= g.len()
    &&& forall|i: int| start <= i < start + len ==> g[i] == 0
}

/// Whether this is the longest run of zero groups, and the first of that length.
pub open spec fn longest_run(g: Seq<u16>, start: int, len: int) -> bool {
    &&& zero_run(g, start, len)
    &&& forall|s: int, l: int| #[trigger] zero_run(g, s, l) ==> l < len || (l == len && start <= s)
}

/// The hexadecimal numerals of the groups.
pub open spec fn hex_numerals(g: Seq<u16>) -> Seq<Seq<char>> {
    Seq::new(g.len(), |i: int| numeral(g[i] as nat, 16))
}

/// The groups in hexadecimal, separated by colons.
pub open spec fn hex_list(g: Seq<u16>) -> Seq<char> {
    join(hex_numerals(g), ":"@)
}

/// Whether the groups are those of an IPv4-mapped address, `::ffff:0:0/96`.
pub open spec fn is_mapped(g: Seq<u16>) -> bool {
    g[0] == 0 && g[1] == 0 && g[2] == 0 && g[3] == 0 && g[4] == 0 && g[5] == 0xffff
}

/// The text of eight groups: an IPv4-mapped address ends in dotted notation;
/// else the first of the longest runs of two or more zero groups becomes `::`.
pub open spec fn groups_text(g: Seq<u16>) -> Seq<char> {
    if is_mapped(g) {
        "::ffff:"@ + Ipv4Addr { bits: (g[6] * 0x1_0000 + g[7]) as u32 }.text()
    } else {
        let (start, len) = choose|start: int, len: int| longest_run(g, start, len);
        if len > 1 {
            hex_list(g.take(start)) + "::"@ + hex_list(g.skip(start + len))
        } else {
            hex_list(g)
        }
    }
}

/// There is only one first longest run.
pub proof fn lemma_longest_run_unique(g: Seq<u16>, s1: int, l1: int, s2: int, l2: int)
    requires
        longest_run(g, s1, l1),
        longest_run(g, s2, l2),
    ensures
        s1 == s2,
        l1 == l2,
{
    assert(zero_run(g, s1, l1) && zero_run(g, s2, l2));
}

/// The first longest run of zero groups.
fn find_longest_run(g: &Vec<u16>) -> (r: (usize, usize))
    ensures
        longest_run(g@, r.0 as int, r.1 as int),
{
    let mut start: usize = 0;
    let mut len: usize = 0;
    assert(zero_run(g@, 0, 0));
    for i in 0..g.len()
        invariant
            zero_run(g@, start as int, len as int),
            forall|s: int, l: int|
                #[trigger] zero_run(g@, s, l) && s < i ==> l < len || (l == len && start <= s),
            start <= i,
            len == 0 ==> start == 0,
    {
        let mut n: usize = 0;
        while n < g.len() - i && g[i + n] == 0
            invariant
                i <= g.len(),
                n <= g.len() - i,
                forall|j: int| i <= j < i + n ==> g@[j] == 0,
            decreases g.len() - i - n,
        {
            n = n + 1;
        }
        assert forall|l: int| #[trigger] zero_run(g@, i as int, l) implies l <= n by {
            if l > n {
                assert(g@[i + n] == 0);
            }
        }
        if n > len {
            start = i;
            len = n;
        }
    }
    assert forall|s: int, l: int| #[trigger] zero_run(g@, s, l) implies l < len || (l == len && start
        <= s) by {
        if s >= g@.len() {
            assert(l == 0);
            if len == 0 {
                assert(g@.len() > 0 ==> zero_run(g@, 0, 0));
            }
        }
    }
    (start, len)
}

/// The groups in hexadecimal, separated by colons.
fn write_hex_list(g: &[u16]) -> (r: String)
    ensures
        r@ == hex_list(g@),
{
    let ghost all = hex_numerals(g@);
    let mut r = String::new();
    for i in 0..g.len()
        invariant
            all == hex_numerals(g@),
            r@ == join(all.take(i as int), ":"@),
    {
        if i > 0 {
            r.append(":");
        }
        r.append(write_numeral(g[i] as u64, 16).as_str());
        proof {
            assert(all.take(i + 1).drop_last() =~= all.take(i as int));
            if i == 0 {
                assert(r@ =~= all[0]);
            }
        }
    }
    assert(all.take(g@.len() as int) =~= all);
    r
}

impl Ipv6Addr {
    /// The address in the notation that RFC 5952 recommends.
    pub open spec fn text(self) -> Seq<char> {
        groups_text(self.groups())
    }

    /// The eight groups of the address.
    pub fn to_groups(&self) -> (r: Vec<u16>)
        ensures
            r@ == self.groups(),
            r@.len() == 8,
    {
        let mut r: Vec<u16> = vec![0, 0, 0, 0, 0, 0, 0, 0];
        let mut rest: u128 = self.bits;
        let mut i: usize = 8;
        proof {
            lemma_eight_groups();
            lemma_groups_of(self.bits as nat, 8);
            assert(groups_of(rest as nat, 8) + r@.skip(8) =~= self.groups());
        }
        while i > 0
            invariant
                i <= 8,
                r@.len() == 8,
                groups_of(rest as nat, i as nat) + r@.skip(i as int) == self.groups(),
            decreases i,
        {
            let ghost old_r = r@;
            let ghost old_rest = rest as nat;
            i = i - 1;
            r.set(i, (rest % 0x1_0000) as u16);
            rest = rest / 0x1_0000;
            assert(groups_of(rest as nat, i as nat) + r@.skip(i as int) =~= groups_of(
                old_rest,
                (i + 1) as nat,
            ) + old_r.skip(i + 1));
        }
        assert(groups_of(rest as nat, 0) + r@.skip(0) =~= r@);
        r
    }

    /// The address in the notation that RFC 5952 recommends.
    pub fn to_text(&self) -> (r: String)
        ensures
            r@ == self.text(),
    {
        let g = self.to_groups();
        if g[0] == 0 && g[1] == 0 && g[2] == 0 && g[3] == 0 && g[4] == 0 && g[5] == 0xffff {
            let v4 = Ipv4Addr { bits: g[6] as u32 * 0x1_0000 + g[7] as u32 };
            let mut r = "::ffff:".to_owned();
            r.append(v4.to_text().as_str());
            r
        } else {
            let (start, len) = find_longest_run(&g);
            proof {
                let (s, l) = choose|s: int, l: int| longest_run(g@, s, l);
                lemma_longest_run_unique(g@, start as int, len as int, s, l);
            }
            if len > 1 {
                let mut r = write_hex_list(slice_subrange(g.as_slice(), 0, start));
                r.append("::");
                r.append(write_hex_list(slice_subrange(g.as_slice(), start + len, 8)).as_str());
                r
            } else {
                write_hex_list(g.as_slice())
            }
        }
    }
}

// ---------------------------------------------------------------------------
// Reading back what was written
// ---------------------------------------------------------------------------

/// A digit as numerals write it.
pub open spec fn is_hex_char(c: char) -> bool {
    '0' <= c <= '9' || 'a' <= c <= 'f'
}

/// Whether every colon of `s` has a character other than a colon behind it.
pub open spec fn tidy(s: Seq<char>) -> bool {
    forall|i: int| 0 <= i < s.len() && #[trigger] s[i] == ':' ==> i + 1 < s.len() && s[i + 1] != ':'
}

/// The numeral of a group reads as that group.
pub proof fn lemma_hex_field(n: u16)
    ensures
        hex_group(numeral(n as nat, 16)) == Some(n),
        numeral(n as nat, 16).len() > 0,
        forall|i: int|
            0 <= i < numeral(n as nat, 16).len() ==> is_hex_char(#[trigger] numeral(n as nat, 16)[i]),
        !numeral(n as nat, 16).contains(':'),
{
    lemma_numeral(n as nat, 16);
    lemma_powers();
    lemma_numeral_length(n as nat, 16, 4);
}

/// What a list of groups looks like.
proof fn lemma_hex_list_shape(g: Seq<u16>)
    ensures
        tidy(hex_list(g)),
        (g.len() == 0) == (hex_list(g).len() == 0),
        g.len() > 0 ==> is_hex_char(hex_list(g)[0]) && is_hex_char(hex_list(g).last()),
        forall|i: int|
            0 <= i < hex_list(g).len() ==> is_hex_char(#[trigger] hex_list(g)[i]) || hex_list(g)[i]
                == ':',
        g.len() > 1 ==> hex_list(g).contains(':'),
    decreases g.len(),
{
    reveal_strlit(":");
    if g.len() > 0 {
        lemma_hex_field(g.last());
        let last = numeral(g.last() as nat, 16);
        let f = hex_numerals(g);
        let front = hex_list(g.drop_last());
        assert(f.drop_last() =~= hex_numerals(g.drop_last()));
        let s = hex_list(g);
        if g.len() == 1 {
            assert(s == last);
        } else {
            lemma_hex_list_shape(g.drop_last());
            assert(s == front + ":"@ + last);
            let n = front.len() as int;
            assert(s[n] == ':');
            assert forall|i: int| 0 <= i < s.len() implies is_hex_char(#[trigger] s[i]) || s[i] == ':' by {
                if i < n {
                    assert(s[i] == front[i]);
                } else if i > n {
                    assert(s[i] == last[i - n - 1]);
                }
            }
            assert forall|i: int| 0 <= i < s.len() && #[trigger] s[i] == ':' implies i + 1 < s.len() && s[i
                + 1] != ':' by {
                if i < n {
                    assert(front[i] == ':');
                    assert(s[i + 1] == front[i + 1]);
                } else if i > n {
                    assert(s[i] == last[i - n - 1]);
                    assert(last.contains(':'));
                } else {
                    assert(s[i + 1] == last[0]);
                }
            }
            assert(s[0] == front[0]);
            assert(s.last() == last.last());
        }
    }
}

/// A list of groups reads as those groups.
proof fn lemma_hex_list_reads_back(g: Seq<u16>)
    ensures
        plain_groups(hex_list(g)) == Some(g),
{
    let f = hex_numerals(g);
    lemma_hex_list_shape(g);
    reveal_strlit(":");
    assert(":"@ =~= seq![':']);
    if g.len() == 0 {
        assert(g =~= Seq::<u16>::empty());
    } else {
        assert forall|i: int| 0 <= i < f.len() implies !(#[trigger] f[i]).contains(':') && hex_group(f[i])
            == Some(g[i]) by {
            lemma_hex_field(g[i]);
        }
        crate::text::lemma_split_of_join(f, ':');
        assert(hex_values(f) =~= g);
    }
}

/// A run of zero groups that is longest and first exists.
pub proof fn lemma_longest_run_exists(g: Seq<u16>, l: int)
    requires
        0 <= l,
        forall|s: int, m: int| #[trigger] zero_run(g, s, m) ==> m <= l,
    ensures
        exists|s: int, m: int| longest_run(g, s, m),
    decreases l,
{
    if exists|s: int| zero_run(g, s, l) {
        let s = choose|s: int| zero_run(g, s, l);
        lemma_first_run(g, s, l);
    } else {
        assert(zero_run(g, 0, 0));
        lemma_longest_run_exists(g, l - 1);
    }
}

/// Among runs of the greatest length there is a first.
proof fn lemma_first_run(g: Seq<u16>, s: int, l: int)
    requires
        zero_run(g, s, l),
        forall|t: int, m: int| #[trigger] zero_run(g, t, m) ==> m <= l,
    ensures
        exists|t: int, m: int| longest_run(g, t, m),
    decreases s,
{
    if exists|t: int| zero_run(g, t, l) && t < s {
        let t = choose|t: int| zero_run(g, t, l) && t < s;
        lemma_first_run(g, t, l);
    } else {
        assert(longest_run(g, s, l));
    }
}

/// Text with a colon is no IPv4 address.
pub proof fn lemma_colon_is_not_v4(s: Seq<char>)
    requires
        s.contains(':'),
    ensures
        v4_in(s) is None,
{
    if v4_in(s) is Some {
        crate::text::lemma_split_covers(s, '.', ':');
        let f = split(s, '.');
        let i = choose|i: int| 0 <= i < f.len() && (#[trigger] f[i]).contains(':');
        let j = choose|j: int| 0 <= j < f[i].len() && f[i][j] == ':';
        assert(crate::ipv4::octet(f[i]) is Some);
        assert(crate::numbers::is_digit(f[i][j], 10));
    }
}

/// The field `ffff` denotes the greatest group.
proof fn lemma_ffff()
    ensures
        hex_group(seq!['f', 'f', 'f', 'f']) == Some(0xffffu16),
{
    let s = seq!['f', 'f', 'f', 'f'];
    reveal_with_fuel(value, 5);
    assert(s.drop_last() =~= seq!['f', 'f', 'f']);
    assert(s.drop_last().drop_last() =~= seq!['f', 'f']);
    assert(s.drop_last().drop_last().drop_last() =~= seq!['f']);
    assert(s.drop_last().drop_last().drop_last().drop_last() =~= Seq::<char>::empty());
}

/// An IPv4 address behind `ffff:` is read as the groups behind the greatest one.
proof fn lemma_mapped_tail(v4: Ipv4Addr)
    ensures
        mixed_groups(seq!['f', 'f', 'f', 'f'] + seq![':'] + v4.text()) == Some(
            seq![0xffffu16] + groups_of_v4(v4),
        ),
{
    let ffff = seq!['f', 'f', 'f', 'f'];
    let t = v4.text();
    let tail = ffff + seq![':'] + t;
    v4_text_reads_back(v4);
    lemma_ffff();
    crate::text::lemma_split_first(ffff, ':', t);
    assert(!t.contains(':'));
    crate::text::lemma_split_single(t, ':');
    let f = split(tail, ':');
    assert(f =~= seq![ffff, t]);
    let dot = choose|i: int| 0 <= i < t.len() && t[i] == '.';
    assert(!crate::numbers::is_digit(t[dot], 16));
    assert(hex_group(f[1]) is None);
    assert(!all_hex(f));
    assert(f.drop_last() =~= seq![ffff]);
    assert(all_hex(f.drop_last()));
    assert(hex_values(f.drop_last()) =~= seq![0xffffu16]);
}

/// The text of a mapped address reads as its groups.
proof fn lemma_mapped_reads_back(g: Seq<u16>)
    requires
        g.len() == 8,
        is_mapped(g),
    ensures
        v6_groups(groups_text(g)) == Some(g),
{
    let v4 = Ipv4Addr { bits: (g[6] * 0x1_0000 + g[7]) as u32 };
    let s = groups_text(g);
    reveal_strlit("::ffff:");
    lemma_find_gap_is(s, 0);
    let tail = s.skip(2);
    assert(tail =~= seq!['f', 'f', 'f', 'f'] + seq![':'] + v4.text());
    lemma_mapped_tail(v4);
    assert(s.take(0) =~= Seq::<char>::empty());
    assert(groups_of_v4(v4) =~= seq![g[6], g[7]]);
    let t = seq![0xffffu16] + seq![g[6], g[7]];
    assert(t.len() == 3);
    assert(Seq::<u16>::empty() + zeros(5) + t =~= g);
}

/// The text of eight groups reads as those groups.
proof fn lemma_groups_read_back(g: Seq<u16>)
    requires
        g.len() == 8,
    ensures
        v6_groups(groups_text(g)) == Some(g),
{
    let s = groups_text(g);
    if is_mapped(g) {
        lemma_mapped_reads_back(g);
    } else {
        lemma_longest_run_exists(g, 8);
        let (start, len) = choose|start: int, len: int| longest_run(g, start, len);
        if len > 1 {
            let h = g.take(start);
            let t = g.skip(start + len);
            let k = hex_list(h).len() as int;
            reveal_strlit("::");
            lemma_hex_list_shape(h);
            lemma_hex_list_reads_back(h);
            lemma_hex_list_reads_back(t);
            assert forall|i: int| 0 <= i < k && i + 1 < s.len() implies !(#[trigger] s[i] == ':' && s[i
                + 1] == ':') by {
                assert(s[i] == hex_list(h)[i]);
                if s[i] == ':' {
                    assert(s[i + 1] == hex_list(h)[i + 1]);
                }
            }
            lemma_find_gap_is(s, k);
            assert(s.take(k) =~= hex_list(h));
            assert(s.skip(k + 2) =~= hex_list(t));
            assert(h + zeros(len) + t =~= g);
        } else {
            lemma_hex_list_shape(g);
            lemma_hex_list_reads_back(g);
            lemma_find_gap_is(s, s.len() as int);
        }
    }
}

/// Reading the text of an IPv6 address gives the address back, and the text is
/// no IPv4 address.
pub proof fn v6_text_reads_back(ip: Ipv6Addr)
    ensures
        v6_in(ip.text()) == Some(ip),
        v4_in(ip.text()) is None,
{
    lemma_eight_groups();
    lemma_groups_of(ip.bits as nat, 8);
    lemma_groups_read_back(ip.groups());
    lemma_v6_text_shape(ip);
    lemma_colon_is_not_v4(ip.text());
}

/// The text of an IPv6 address is of hexadecimal digits, colons and dots, with
/// a colon among them.
pub proof fn lemma_v6_text_shape(ip: Ipv6Addr)
    ensures
        ip.text().contains(':'),
        forall|i: int|
            0 <= i < ip.text().len() ==> is_hex_char(#[trigger] ip.text()[i]) || ip.text()[i] == ':'
                || ip.text()[i] == '.',
{
    lemma_eight_groups();
    lemma_groups_of(ip.bits as nat, 8);
    let g = ip.groups();
    let s = ip.text();
    if is_mapped(g) {
        let v4 = Ipv4Addr { bits: (g[6] * 0x1_0000 + g[7]) as u32 };
        v4_text_reads_back(v4);
        reveal_strlit("::ffff:");
        assert(s[0] == ':');
        assert forall|i: int| 0 <= i < s.len() implies is_hex_char(#[trigger] s[i]) || s[i] == ':' || s[i]
            == '.' by {
            if i >= 7 {
                assert(s[i] == v4.text()[i - 7]);
            }
        }
    } else {
        lemma_longest_run_exists(g, 8);
        let (start, len) = choose|start: int, len: int| longest_run(g, start, len);
        if len > 1 {
            let h = hex_list(g.take(start));
            let t = hex_list(g.skip(start + len));
            reveal_strlit("::");
            lemma_hex_list_shape(g.take(start));
            lemma_hex_list_shape(g.skip(start + len));
            assert(s[h.len() as int] == ':');
            assert forall|i: int| 0 <= i < s.len() implies is_hex_char(#[trigger] s[i]) || s[i] == ':'
                || s[i] == '.' by {
                if i < h.len() {
                    assert(s[i] == h[i]);
                } else if i >= h.len() + 2 {
                    assert(s[i] == t[i - h.len() - 2]);
                }
            }
        } else {
            lemma_hex_list_shape(g);
        }
    }
}

/// Powers of the group size grow with the exponent.
proof fn lemma_power_grows(a: int, b: int)
    requires
        0 <= a <= b,
    ensures
        power(0x1_0000, a as nat) <= power(0x1_0000, b as nat),
    decreases b - a,
{
    if a < b {
        lemma_power_grows(a, b - 1);
    }
}

} // verus!
