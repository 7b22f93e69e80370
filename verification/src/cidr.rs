//! Network prefixes: clearing the host bits of an address.

use crate::ipv4::Ipv4Addr;
use crate::ipv6::Ipv6Addr;
use vstd::arithmetic::power2::{lemma_pow2_pos, lemma_pow2_unfold, pow2};
use vstd::prelude::*;

verus! {

/// How many bits of a `width`-bit address a prefix length leaves to the host.
pub open spec fn host_bits(prefix: u8, width: nat) -> nat {
    if prefix >= width {
        0
    } else {
        (width - prefix) as nat
    }
}

/// `n` with its lowest `k` bits cleared.
pub open spec fn clear_low(n: nat, k: nat) -> nat {
    (n - n % pow2(k)) as nat
}

/// The network address of `ip` under an IPv4 prefix length.
pub open spec fn network_v4(ip: Ipv4Addr, prefix: u8) -> Ipv4Addr {
    Ipv4Addr { bits: clear_low(ip.bits as nat, host_bits(prefix, 32)) as u32 }
}

/// The network address of `ip` under an IPv6 prefix length.
pub open spec fn network_v6(ip: Ipv6Addr, prefix: u8) -> Ipv6Addr {
    Ipv6Addr { bits: clear_low(ip.bits as nat, host_bits(prefix, 128)) as u128 }
}

/// Shifting bits out and back in clears them.
#[verifier::rlimit(40)]
proof fn lemma_shift_back(x: u128, h: u128, k: u128)
    requires
        k <= h < 128,
    ensures
        ((x >> h) << k) == (x >> h) * pow2(k as nat),
    decreases k,
{
    if k == 0 {
        assert((x >> h) << 0u128 == x >> h) by (bit_vector);
        assert(pow2(0) == 1) by {
            vstd::arithmetic::power2::lemma2_to64();
        }
    } else {
        let j = (k - 1) as u128;
        lemma_shift_back(x, h, j);
        assert(((x >> h) << k) == 2 * ((x >> h) << j)) by (bit_vector)
            requires
                k <= h,
                h < 128,
                k == j + 1,
        ;
        lemma_pow2_unfold(k as nat);
        let y = (x >> h) as int;
        let p = pow2(j as nat) as int;
        assert(2 * (y * p) == y * (2 * p)) by (nonlinear_arith);
    }
}

/// Masking the low bits away clears them.
#[verifier::rlimit(40)]
proof fn lemma_mask(x: u128, h: u128)
    requires
        h < 128,
    ensures
        (x & !(((1u128 << h) - 1) as u128)) == clear_low(x as nat, h as nat),
{
    assert((x & !(((1u128 << h) - 1) as u128)) == ((x >> h) << h)) by (bit_vector)
        requires
            h < 128,
    ;
    lemma_shift_back(x, h, h);
    vstd::bits::lemma_u128_shr_is_div(x, h);
    lemma_pow2_pos(h as nat);
    vstd::arithmetic::div_mod::lemma_fundamental_div_mod(x as int, pow2(h as nat) as int);
    let q = x as int / pow2(h as nat) as int;
    let p = pow2(h as nat) as int;
    assert(p * q == q * p) by (nonlinear_arith);
}

/// A number below a power of two has no bits beyond it.
proof fn lemma_clear_all(n: nat, k: nat)
    requires
        n < pow2(k),
    ensures
        clear_low(n, k) == 0,
{
    vstd::arithmetic::div_mod::lemma_small_mod(n, pow2(k));
}

/// The sizes of the address spaces.
proof fn lemma_address_spaces()
    ensures
        pow2(32) == 0x1_0000_0000,
        pow2(128) == 0x1_0000_0000_0000_0000_0000_0000_0000_0000,
        pow2(0) == 1,
{
    vstd::arithmetic::power2::lemma2_to64();
    vstd::arithmetic::power2::lemma_pow2_adds(64, 64);
}

/// Zero out host bits for an IPv4 CIDR prefix.
#[must_use]
pub fn canonicalize_v4(ip: Ipv4Addr, prefix: u8) -> (r: Ipv4Addr)
    ensures
        r == network_v4(ip, prefix),
{
    proof {
        lemma_address_spaces();
        lemma_clear_all(ip.bits as nat, 32);
    }
    if prefix == 0 {
        return Ipv4Addr { bits: 0 };
    }
    if prefix >= 32 {
        return ip;
    }
    let h: u32 = 32 - prefix as u32;
    let x = ip.bits;
    assert(1u32 << h >= 1 && (1u128 << (h as u128)) >= 1) by (bit_vector)
        requires
            0 < h < 32,
    ;
    let mask: u32 = !((1u32 << h) - 1);
    proof {
        lemma_mask(x as u128, h as u128);
        let wide = h as u128;
        assert((x & !(((1u32 << h) - 1) as u32)) as u128 == (x as u128) & !(((1u128 << wide)
            - 1) as u128)) by (bit_vector)
            requires
                0 < h < 32,
                wide == h as u128,
        ;
    }
    Ipv4Addr { bits: x & mask }
}

/// Zero out host bits for an IPv6 CIDR prefix.
#[must_use]
pub fn canonicalize_v6(ip: Ipv6Addr, prefix: u8) -> (r: Ipv6Addr)
    ensures
        r == network_v6(ip, prefix),
{
    proof {
        lemma_address_spaces();
        lemma_clear_all(ip.bits as nat, 128);
    }
    if prefix == 0 {
        return Ipv6Addr { bits: 0 };
    }
    if prefix >= 128 {
        return ip;
    }
    let h: u128 = 128 - prefix as u128;
    assert(1u128 << h >= 1) by (bit_vector)
        requires
            0 < h < 128,
    ;
    let mask: u128 = !((1u128 << h) - 1);
    proof {
        lemma_mask(ip.bits, h);
    }
    Ipv6Addr { bits: ip.bits & mask }
}

/// Clearing bits that are clear changes nothing.
proof fn lemma_clear_twice(n: nat, k: nat)
    ensures
        clear_low(clear_low(n, k), k) == clear_low(n, k),
        clear_low(n, k) <= n,
        clear_low(n, k) % pow2(k) == 0,
{
    lemma_pow2_pos(k);
    let p = pow2(k) as int;
    vstd::arithmetic::div_mod::lemma_fundamental_div_mod(n as int, p);
    let q = n as int / p;
    assert(clear_low(n, k) == p * q);
    vstd::arithmetic::div_mod::lemma_mod_multiples_basic(q, p);
    assert(p * q == q * p) by (nonlinear_arith);
    assert((p * q) % p == 0);
}

/// A network address is its own network address: canonicalization is idempotent.
pub proof fn canonicalization_is_idempotent(v4: Ipv4Addr, v6: Ipv6Addr, prefix: u8)
    ensures
        network_v4(network_v4(v4, prefix), prefix) == network_v4(v4, prefix),
        network_v6(network_v6(v6, prefix), prefix) == network_v6(v6, prefix),
{
    lemma_clear_twice(v4.bits as nat, host_bits(prefix, 32));
    lemma_clear_twice(v6.bits as nat, host_bits(prefix, 128));
}

/// A network address has no host bits set, and the address that it was made
/// from is in the network: it lies less than one network size above.
pub proof fn network_holds_its_members(v4: Ipv4Addr, v6: Ipv6Addr, prefix: u8)
    ensures
        network_v4(v4, prefix).bits as nat % pow2(host_bits(prefix, 32)) == 0,
        network_v4(v4, prefix).bits <= v4.bits < network_v4(v4, prefix).bits + pow2(
            host_bits(prefix, 32),
        ),
        network_v6(v6, prefix).bits as nat % pow2(host_bits(prefix, 128)) == 0,
        network_v6(v6, prefix).bits <= v6.bits < network_v6(v6, prefix).bits + pow2(
            host_bits(prefix, 128),
        ),
{
    lemma_clear_twice(v4.bits as nat, host_bits(prefix, 32));
    lemma_clear_twice(v6.bits as nat, host_bits(prefix, 128));
    lemma_pow2_pos(host_bits(prefix, 32));
    lemma_pow2_pos(host_bits(prefix, 128));
}

/// Clearing low bits twice clears as many as the greater count.
proof fn lemma_clear_both(n: nat, a: nat, b: nat)
    ensures
        a <= b ==> clear_low(clear_low(n, a), b) == clear_low(n, b),
        a >= b ==> clear_low(clear_low(n, a), b) == clear_low(n, a),
{
    let x = n as int;
    let m = clear_low(n, a) as int;
    lemma_pow2_pos(a);
    lemma_pow2_pos(b);
    lemma_clear_twice(n, a);
    vstd::arithmetic::div_mod::lemma_mod_decreases(n, pow2(a));
    vstd::arithmetic::div_mod::lemma_mod_decreases(n, pow2(b));
    assert(m == x - x % (pow2(a) as int));
    if a <= b {
        let p = pow2(a) as int;
        let c = pow2((b - a) as nat) as int;
        let d = pow2(b) as int;
        lemma_pow2_pos((b - a) as nat);
        vstd::arithmetic::power2::lemma_pow2_adds(a, (b - a) as nat);
        assert(d == p * c);
        let q = x / d;
        let r = x % d;
        vstd::arithmetic::div_mod::lemma_mod_mod(x, p, c);
        vstd::arithmetic::div_mod::lemma_fundamental_div_mod(x, d);
        vstd::arithmetic::div_mod::lemma_mod_bound(x, d);
        vstd::arithmetic::div_mod::lemma_mod_decreases(r as nat, p as nat);
        let rest = r - r % p;
        assert(d * q == q * d) by (nonlinear_arith);
        vstd::arithmetic::div_mod::lemma_fundamental_div_mod_converse(m, d, q, rest);
        assert(m - m % d == x - x % d);
    } else {
        let p = pow2(b) as int;
        let c = pow2((a - b) as nat) as int;
        lemma_pow2_pos((a - b) as nat);
        vstd::arithmetic::power2::lemma_pow2_adds(b, (a - b) as nat);
        assert(pow2(a) as int == p * c);
        vstd::arithmetic::div_mod::lemma_mod_mod(m, p, c);
        vstd::arithmetic::div_mod::lemma_small_mod(0, p as nat);
        assert(m % (pow2(a) as int) == 0);
        assert(m % p == 0);
    }
}

/// Two prefix lengths in turn act as the smaller one.
pub proof fn the_shorter_prefix_prevails(v4: Ipv4Addr, v6: Ipv6Addr, first: u8, second: u8)
    ensures
        network_v4(network_v4(v4, first), second) == network_v4(
            v4,
            if first <= second {
                first
            } else {
                second
            },
        ),
        network_v6(network_v6(v6, first), second) == network_v6(
            v6,
            if first <= second {
                first
            } else {
                second
            },
        ),
{
    lemma_clear_twice(v4.bits as nat, host_bits(first, 32));
    lemma_clear_twice(v6.bits as nat, host_bits(first, 128));
    lemma_clear_both(v4.bits as nat, host_bits(first, 32), host_bits(second, 32));
    lemma_clear_both(v6.bits as nat, host_bits(first, 128), host_bits(second, 128));
}

} // verus!
