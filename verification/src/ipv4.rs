//! IPv4 addresses and their textual form.

use crate::numbers::{
    all_digits, decimal, lemma_numeral, lemma_numeral_length, lemma_powers, read_digits,
    value, write_numeral,
};
use crate::text::{lemma_split_first, lemma_split_single, slices, split, split_chars};
use vstd::prelude::*;

verus! {

/// An IPv4 address as a 32-bit number, the first octet being the most significant.
#[derive(Clone, Copy, Debug, PartialEq, Eq, Structural)]
pub struct Ipv4Addr {
    pub bits: u32,
}

/// The address with the given octets.
pub open spec fn v4_of_octets(a: u8, b: u8, c: u8, d: u8) -> Ipv4Addr {
    Ipv4Addr { bits: (a * 0x100_0000 + b * 0x1_0000 + c * 0x100 + d) as u32 }
}

/// The octet that a field of a dotted address denotes: one to three decimal
/// digits, without a leading zero, of value up to 255.
pub open spec fn octet(s: Seq<char>) -> Option<u8> {
    if 1 <= s.len() <= 3 && all_digits(s, 10) && (s.len() > 1 ==> s[0] != '0') && value(s, 10)
        <= 255 {
        Some(value(s, 10) as u8)
    } else {
        None
    }
}

/// The IPv4 address that the text denotes: four octets separated by dots.
pub open spec fn v4_in(s: Seq<char>) -> Option<Ipv4Addr> {
    let f = split(s, '.');
    if f.len() == 4 && octet(f[0]) is Some && octet(f[1]) is Some && octet(f[2]) is Some && octet(
        f[3],
    ) is Some {
        Some(v4_of_octets(octet(f[0])->0, octet(f[1])->0, octet(f[2])->0, octet(f[3])->0))
    } else {
        None
    }
}

impl Ipv4Addr {
    /// The octets, most significant first.
    pub open spec fn octet_at(self, i: int) -> u8 {
        if i == 0 {
            (self.bits / 0x100_0000) as u8
        } else if i == 1 {
            (self.bits / 0x1_0000 % 0x100) as u8
        } else if i == 2 {
            (self.bits / 0x100 % 0x100) as u8
        } else {
            (self.bits % 0x100) as u8
        }
    }

    /// The address in dotted decimal notation.
    pub open spec fn text(self) -> Seq<char> {
        decimal(self.octet_at(0) as nat) + "."@ + decimal(self.octet_at(1) as nat) + "."@ + decimal(
            self.octet_at(2) as nat,
        ) + "."@ + decimal(self.octet_at(3) as nat)
    }

    /// The address `a.b.c.d`.
    pub fn new(a: u8, b: u8, c: u8, d: u8) -> (r: Ipv4Addr)
        ensures
            r == v4_of_octets(a, b, c, d),
            r.octet_at(0) == a,
            r.octet_at(1) == b,
            r.octet_at(2) == c,
            r.octet_at(3) == d,
    {
        let bits: u32 = a as u32 * 0x100_0000 + b as u32 * 0x1_0000 + c as u32 * 0x100 + d as u32;
        assert(bits / 0x100_0000 == a && bits / 0x1_0000 % 0x100 == b && bits / 0x100 % 0x100 == c
            && bits % 0x100 == d) by (bit_vector)
            requires
                bits == a as u32 * 0x100_0000 + b as u32 * 0x1_0000 + c as u32 * 0x100 + d as u32,
        ;
        Ipv4Addr { bits }
    }

    /// Reads dotted decimal notation.
    pub fn read(s: &[char]) -> (r: Option<Ipv4Addr>)
        ensures
            r == v4_in(s@),
    {
        let f = split_chars(s, '.');
        let ghost fields = slices(f@);
        if f.len() != 4 {
            return None;
        }
        assert(fields[0] == f@[0]@ && fields[1] == f@[1]@ && fields[2] == f@[2]@ && fields[3]
            == f@[3]@);
        match (read_octet(f[0]), read_octet(f[1]), read_octet(f[2]), read_octet(f[3])) {
            (Some(a), Some(b), Some(c), Some(d)) => Some(Ipv4Addr::new(a, b, c, d)),
            _ => None,
        }
    }

    /// The address in dotted decimal notation.
    pub fn to_text(&self) -> (r: String)
        ensures
            r@ == self.text(),
    {
        let mut r = write_numeral((self.bits / 0x100_0000) as u64, 10);
        r.append(".");
        r.append(write_numeral((self.bits / 0x1_0000 % 0x100) as u64, 10).as_str());
        r.append(".");
        r.append(write_numeral((self.bits / 0x100 % 0x100) as u64, 10).as_str());
        r.append(".");
        r.append(write_numeral((self.bits % 0x100) as u64, 10).as_str());
        r
    }

    /// Whether the address is in `127.0.0.0/8`.
    pub fn is_loopback(&self) -> (r: bool)
        ensures
            r == (self.octet_at(0) == 127),
    {
        self.bits / 0x100_0000 == 127
    }
}

/// The octet that a field denotes.
fn read_octet(s: &[char]) -> (r: Option<u8>)
    ensures
        r == octet(s@),
{
    if s.len() < 1 || s.len() > 3 || (s.len() > 1 && s[0] == '0') {
        return None;
    }
    match read_digits(s, 10, 255) {
        Some(n) => Some(n as u8),
        None => None,
    }
}

/// The decimal numeral of an octet reads as that octet.
proof fn lemma_octet_of_decimal(n: u8)
    ensures
        octet(decimal(n as nat)) == Some(n),
        !decimal(n as nat).contains('.'),
        forall|i: int|
            0 <= i < decimal(n as nat).len() ==> '0' <= #[trigger] decimal(n as nat)[i] <= '9',
{
    let s = decimal(n as nat);
    lemma_numeral(n as nat, 10);
    lemma_powers();
    lemma_numeral_length(n as nat, 10, 3);
    assert forall|i: int| 0 <= i < s.len() implies '0' <= #[trigger] s[i] <= '9' by {}
}

/// An address is made of its octets.
proof fn lemma_octets(ip: Ipv4Addr)
    ensures
        v4_of_octets(ip.octet_at(0), ip.octet_at(1), ip.octet_at(2), ip.octet_at(3)) == ip,
{
    let n = ip.bits;
    assert(n / 0x100_0000 * 0x100_0000 + n / 0x1_0000 % 0x100 * 0x1_0000 + n / 0x100 % 0x100 * 0x100
        + n % 0x100 == n) by (bit_vector);
}

/// Reading the text of an IPv4 address gives the address back. The text is of
/// digits and dots, and starts and ends with a digit.
pub proof fn v4_text_reads_back(ip: Ipv4Addr)
    ensures
        v4_in(ip.text()) == Some(ip),
        ip.text().len() > 0,
        '0' <= ip.text()[0] <= '9',
        '0' <= ip.text().last() <= '9',
        forall|i: int|
            0 <= i < ip.text().len() ==> '0' <= #[trigger] ip.text()[i] <= '9' || ip.text()[i] == '.',
        ip.text().contains('.'),
{
    let a = decimal(ip.octet_at(0) as nat);
    let b = decimal(ip.octet_at(1) as nat);
    let c = decimal(ip.octet_at(2) as nat);
    let d = decimal(ip.octet_at(3) as nat);
    let s = ip.text();
    reveal_strlit(".");
    lemma_octet_of_decimal(ip.octet_at(0));
    lemma_octet_of_decimal(ip.octet_at(1));
    lemma_octet_of_decimal(ip.octet_at(2));
    lemma_octet_of_decimal(ip.octet_at(3));
    lemma_octets(ip);
    assert("."@ =~= seq!['.']);
    let tail3 = d;
    let tail2 = c + seq!['.'] + tail3;
    let tail1 = b + seq!['.'] + tail2;
    assert(s =~= a + seq!['.'] + tail1);
    lemma_split_first(a, '.', tail1);
    lemma_split_first(b, '.', tail2);
    lemma_split_first(c, '.', tail3);
    lemma_split_single(d, '.');
    let f = split(s, '.');
    assert(f =~= seq![a, b, c, d]);
    assert(s[a.len() as int] == '.');
    assert(s[0] == a[0]);
    assert(s.last() == d.last());
    assert forall|i: int| 0 <= i < s.len() implies '0' <= #[trigger] s[i] <= '9' || s[i] == '.' by {
        let i1 = i - a.len() - 1;
        let i2 = i1 - b.len() - 1;
        let i3 = i2 - c.len() - 1;
        if i < a.len() {
            assert(s[i] == a[i]);
        } else if 0 <= i1 < b.len() {
            assert(s[i] == b[i1]);
        } else if 0 <= i2 < c.len() {
            assert(s[i] == c[i2]);
        } else if 0 <= i3 {
            assert(s[i] == d[i3]);
        }
    }
}

} // verus!
