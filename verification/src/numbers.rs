//! Numerals: reading and writing unsigned numbers in base ten and sixteen.

use crate::text::to_text;
use vstd::prelude::*;
use vstd::slice::slice_subrange;

verus! {

// ---------------------------------------------------------------------------
// Specifications
// ---------------------------------------------------------------------------

/// The bases that numerals are written in here.
pub open spec fn is_base(radix: nat) -> bool {
    radix == 10 || radix == 16
}

/// What `c` counts as a digit, letters of either case being the digits from ten on.
pub open spec fn digit_value(c: char) -> nat {
    if '0' <= c <= '9' {
        (c as u32 - '0' as u32) as nat
    } else if 'a' <= c <= 'z' {
        (c as u32 - 'a' as u32 + 10) as nat
    } else if 'A' <= c <= 'Z' {
        (c as u32 - 'A' as u32 + 10) as nat
    } else {
        1000
    }
}

/// Whether `c` is a digit in base `radix`.
pub open spec fn is_digit(c: char, radix: nat) -> bool {
    digit_value(c) < radix
}

/// Whether `s` holds digits only.
pub open spec fn all_digits(s: Seq<char>, radix: nat) -> bool {
    forall|i: int| 0 <= i < s.len() ==> is_digit(#[trigger] s[i], radix)
}

/// The number that the digits of `s` denote in base `radix`.
pub open spec fn value(s: Seq<char>, radix: nat) -> nat
    decreases s.len(),
{
    if s.len() == 0 {
        0
    } else {
        value(s.drop_last(), radix) * radix + digit_value(s.last())
    }
}

/// The character for a single digit.
pub open spec fn digit_char(d: nat) -> char {
    if d < 10 {
        (('0' as u32 + d) as u32) as char
    } else {
        (('a' as u32 + d - 10) as u32) as char
    }
}

/// The shortest numeral of `n` in base `radix`, in small letters.
pub open spec fn numeral(n: nat, radix: nat) -> Seq<char>
    decreases n,
    when is_base(radix)
{
    if n < radix {
        seq![digit_char(n)]
    } else {
        numeral(n / radix, radix).push(digit_char(n % radix))
    }
}

/// The decimal numeral of `n`.
pub open spec fn decimal(n: nat) -> Seq<char> {
    numeral(n, 10)
}

/// The number in `s`: decimal digits, with one optional leading `+`, of value up to `max`.
pub open spec fn unsigned(s: Seq<char>, max: nat) -> Option<nat> {
    let digits = if s.len() > 0 && s[0] == '+' {
        s.skip(1)
    } else {
        s
    };
    if digits.len() > 0 && all_digits(digits, 10) && value(digits, 10) <= max {
        Some(value(digits, 10))
    } else {
        None
    }
}

/// `radix` to the power `n`.
pub open spec fn power(radix: nat, n: nat) -> nat
    decreases n,
{
    if n == 0 {
        1
    } else {
        power(radix, (n - 1) as nat) * radix
    }
}

// ---------------------------------------------------------------------------
// Facts
// ---------------------------------------------------------------------------

/// A number of `n` digits is below the `n`-th power of the base.
pub proof fn lemma_value_bound(s: Seq<char>, radix: nat)
    requires
        is_base(radix),
        all_digits(s, radix),
    ensures
        value(s, radix) < power(radix, s.len()),
    decreases s.len(),
{
    if s.len() > 0 {
        lemma_value_bound(s.drop_last(), radix);
        let v = value(s.drop_last(), radix);
        let p = power(radix, (s.len() - 1) as nat);
        assert(is_digit(s[s.len() - 1], radix));
        assert(v * radix + digit_value(s.last()) < p * radix) by (nonlinear_arith)
            requires
                v + 1 <= p,
                digit_value(s.last()) < radix,
        ;
    }
}

/// The leading digits of a numeral denote no more than the whole.
pub proof fn lemma_value_of_prefix(s: Seq<char>, radix: nat, k: int)
    requires
        is_base(radix),
        0 <= k <= s.len(),
    ensures
        value(s.take(k), radix) <= value(s, radix),
    decreases s.len(),
{
    if k == s.len() {
        assert(s.take(k) =~= s);
    } else {
        lemma_value_of_prefix(s.drop_last(), radix, k);
        assert(s.drop_last().take(k) =~= s.take(k));
        let v = value(s.drop_last(), radix);
        assert(v <= v * radix) by (nonlinear_arith)
            requires
                radix >= 1,
        ;
    }
}

/// A digit character is a digit, of the value that it stands for.
pub proof fn lemma_digit_char(d: nat)
    requires
        d < 16,
    ensures
        digit_value(digit_char(d)) == d,
        '0' <= digit_char(d) <= '9' || 'a' <= digit_char(d) <= 'f',
        d < 10 ==> '0' <= digit_char(d) <= '9',
        d > 0 ==> digit_char(d) != '0',
{
}

/// What a numeral looks like, and that reading it gives the number back.
pub proof fn lemma_numeral(n: nat, radix: nat)
    requires
        is_base(radix),
    ensures
        numeral(n, radix).len() > 0,
        all_digits(numeral(n, radix), radix),
        value(numeral(n, radix), radix) == n,
        numeral(n, radix).len() > 1 ==> numeral(n, radix)[0] != '0',
        n > 0 ==> numeral(n, radix)[0] != '0',
        forall|i: int|
            0 <= i < numeral(n, radix).len() ==> {
                let c = #[trigger] numeral(n, radix)[i];
                ||| '0' <= c <= '9'
                ||| radix == 16 && 'a' <= c <= 'f'
            },
    decreases n,
{
    let s = numeral(n, radix);
    if n < radix {
        lemma_digit_char(n);
        assert(s.drop_last() =~= Seq::<char>::empty());
        assert(value(s.drop_last(), radix) == 0);
        assert(0 * radix == 0) by (nonlinear_arith);
    } else {
        let q = n / radix;
        let r = n % radix;
        assert(q < n && q >= 1 && q * radix + r == n && r < radix) by (nonlinear_arith)
            requires
                is_base(radix),
                n >= radix,
                q == n / radix,
                r == n % radix,
        ;
        lemma_numeral(q, radix);
        lemma_digit_char(r);
        assert(s.drop_last() =~= numeral(q, radix));
        assert forall|i: int| 0 <= i < s.len() implies {
            let c = #[trigger] s[i];
            ||| '0' <= c <= '9'
            ||| radix == 16 && 'a' <= c <= 'f'
        } by {
            if i < s.len() - 1 {
                assert(s[i] == numeral(q, radix)[i]);
            }
        }
        assert forall|i: int| 0 <= i < s.len() implies is_digit(#[trigger] s[i], radix) by {
            if i < s.len() - 1 {
                assert(s[i] == numeral(q, radix)[i]);
            }
        }
    }
}

/// A number below the `k`-th power of the base has at most `k` digits.
pub proof fn lemma_numeral_length(n: nat, radix: nat, k: nat)
    requires
        is_base(radix),
        k >= 1,
        n < power(radix, k),
    ensures
        numeral(n, radix).len() <= k,
    decreases k,
{
    if n >= radix {
        if k == 1 {
            assert(power(radix, 0) == 1);
            assert(1 * radix == radix) by (nonlinear_arith);
        } else {
            let p = power(radix, (k - 1) as nat);
            assert(n / radix < p) by (nonlinear_arith)
                requires
                    is_base(radix),
                    n < p * radix,
            ;
            lemma_numeral_length(n / radix, radix, (k - 1) as nat);
        }
    }
}

/// The powers that bound octets and address groups.
pub proof fn lemma_powers()
    ensures
        power(10, 3) == 1000,
        power(16, 4) == 65536,
{
    reveal_with_fuel(power, 5);
}

/// Reading the decimal numeral of a number gives the number.
pub proof fn lemma_unsigned_of_decimal(n: nat, max: nat)
    requires
        n <= max,
    ensures
        unsigned(decimal(n), max) == Some(n),
{
    lemma_numeral(n, 10);
    assert(is_digit(decimal(n)[0], 10));
}

// ---------------------------------------------------------------------------
// Computations
// ---------------------------------------------------------------------------

/// What `c` counts as a digit.
fn digit_number(c: char) -> (r: u32)
    ensures
        r == digit_value(c),
{
    if '0' <= c && c <= '9' {
        c as u32 - '0' as u32
    } else if 'a' <= c && c <= 'z' {
        c as u32 - 'a' as u32 + 10
    } else if 'A' <= c && c <= 'Z' {
        c as u32 - 'A' as u32 + 10
    } else {
        1000
    }
}

/// The number that the digits denote, if all are digits and it is at most `max`.
pub(crate) fn read_digits(s: &[char], radix: u32, max: u64) -> (r: Option<u64>)
    requires
        is_base(radix as nat),
    ensures
        r == (if all_digits(s@, radix as nat) && value(s@, radix as nat) <= max {
            Some(value(s@, radix as nat) as u64)
        } else {
            None
        }),
{
    let mut acc: u64 = 0;
    for i in 0..s.len()
        invariant
            is_base(radix as nat),
            all_digits(s@.take(i as int), radix as nat),
            acc == value(s@.take(i as int), radix as nat),
            acc <= max,
    {
        let d = digit_number(s[i]);
        if d >= radix {
            assert(!is_digit(s@[i as int], radix as nat));
            return None;
        }
        let ghost prefix = s@.take(i as int);
        let ghost longer = s@.take(i + 1);
        proof {
            assert(longer.drop_last() =~= prefix);
            assert(longer.last() == s@[i as int]);
            lemma_value_of_prefix(s@, radix as nat, i + 1);
            assert(acc * radix <= 0xffff_ffff_ffff_ffff * 16) by (nonlinear_arith)
                requires
                    acc <= 0xffff_ffff_ffff_ffff,
                    radix <= 16,
            ;
            assert forall|j: int| 0 <= j < longer.len() implies is_digit(
                #[trigger] longer[j],
                radix as nat,
            ) by {
                if j < i {
                    assert(longer[j] == prefix[j]);
                }
            }
        }
        let next: u128 = acc as u128 * radix as u128 + d as u128;
        if next > max as u128 {
            return None;
        }
        acc = next as u64;
    }
    assert(s@.take(s@.len() as int) =~= s@);
    Some(acc)
}

/// The number in the text, an optional `+` and decimal digits, if it is at most `max`.
pub fn read_unsigned(s: &[char], max: u64) -> (r: Option<u64>)
    ensures
        match r {
            Some(n) => unsigned(s@, max as nat) == Some(n as nat),
            None => unsigned(s@, max as nat) is None,
        },
{
    let digits = if s.len() > 0 && s[0] == '+' {
        slice_subrange(s, 1, s.len())
    } else {
        s
    };
    if digits.len() == 0 {
        return None;
    }
    read_digits(digits, 10, max)
}

/// The numeral of `n` as characters.
fn numeral_chars(n: u64, radix: u64) -> (r: Vec<char>)
    requires
        is_base(radix as nat),
    ensures
        r@ == numeral(n as nat, radix as nat),
    decreases n,
{
    if n < radix {
        let mut r: Vec<char> = Vec::new();
        r.push(char_of_digit(n));
        assert(r@ =~= seq![digit_char(n as nat)]);
        r
    } else {
        proof {
            assert(n / radix < n) by (nonlinear_arith)
                requires
                    n >= radix,
                    radix >= 2,
            ;
        }
        let mut r = numeral_chars(n / radix, radix);
        r.push(char_of_digit(n % radix));
        r
    }
}

/// The character for a single digit.
fn char_of_digit(d: u64) -> (r: char)
    requires
        d < 16,
    ensures
        r == digit_char(d as nat),
{
    if d < 10 {
        ('0' as u8 + d as u8) as char
    } else {
        ('a' as u8 + (d as u8 - 10)) as char
    }
}

/// The numeral of `n` in base `radix`.
pub(crate) fn write_numeral(n: u64, radix: u64) -> (r: String)
    requires
        is_base(radix as nat),
    ensures
        r@ == numeral(n as nat, radix as nat),
{
    let chars = numeral_chars(n, radix);
    to_text(chars.as_slice())
}

} // verus!
