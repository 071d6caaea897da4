//! Network addresses as plain values: a 32- or 128-bit IP and a port,
//! their ASCII text forms, and the deterministic client-affinity hash.

use vstd::prelude::*;

verus! {

/// An IP address: the 32-bit value of an IPv4 address or the 128-bit value
/// of an IPv6 address, in network order read as a big-endian integer.
#[derive(Debug, Clone, Copy, PartialEq, Eq, Structural)]
pub enum IpAddress {
    V4(u32),
    V6(u128),
}

/// A socket address: IP and port.
#[derive(Debug, Clone, Copy, PartialEq, Eq, Structural)]
pub struct SockAddr {
    pub ip: IpAddress,
    pub port: u16,
}

impl SockAddr {
    /// True when both addresses belong to the same IP family.
    pub open spec fn same_family_spec(self, other: SockAddr) -> bool {
        (self.ip is V4 <==> other.ip is V4)
    }

    /// True when both addresses belong to the same IP family.
    pub fn same_family(&self, other: &SockAddr) -> (r: bool)
        ensures
            r == self.same_family_spec(*other),
    {
        match (&self.ip, &other.ip) {
            (IpAddress::V4(_), IpAddress::V4(_)) => true,
            (IpAddress::V6(_), IpAddress::V6(_)) => true,
            _ => false,
        }
    }
}

/// Decimal digit facts for a non-negative value.
proof fn lemma_div10(n: int)
    requires
        n >= 0,
    ensures
        n == 10 * (n / 10) + n % 10,
        0 <= n % 10 < 10,
        n / 10 >= 0,
        n >= 10 ==> n / 10 < n,
        n < 10 ==> n / 10 == 0,
{
    vstd::arithmetic::div_mod::lemma_fundamental_div_mod(n, 10);
    vstd::arithmetic::div_mod::lemma_mod_bound(n, 10);
    vstd::arithmetic::div_mod::lemma_div_pos_is_pos(n, 10);
    if n >= 10 {
        vstd::arithmetic::div_mod::lemma_div_decreases(n, 10);
    }
    if n < 10 {
        vstd::arithmetic::div_mod::lemma_basic_div(n, 10);
    }
}

proof fn lemma_div16(n: int)
    requires
        n >= 0,
    ensures
        n == 16 * (n / 16) + n % 16,
        0 <= n % 16 < 16,
        n / 16 >= 0,
        n >= 16 ==> n / 16 < n,
        n < 16 ==> n / 16 == 0,
{
    vstd::arithmetic::div_mod::lemma_fundamental_div_mod(n, 16);
    vstd::arithmetic::div_mod::lemma_mod_bound(n, 16);
    vstd::arithmetic::div_mod::lemma_div_pos_is_pos(n, 16);
    if n >= 16 {
        vstd::arithmetic::div_mod::lemma_div_decreases(n, 16);
    }
    if n < 16 {
        vstd::arithmetic::div_mod::lemma_basic_div(n, 16);
    }
}

/// ASCII decimal digits of `n`, most significant first, no leading zeros.
pub open spec fn dec_digits(n: int) -> Seq<u8>
    decreases n,
{
    if n < 10 {
        seq![(48 + (if n >= 0 { n } else { 0 })) as u8]
    } else {
        dec_digits(n / 10) + seq![(48 + n % 10) as u8]
    }
}

/// ASCII lower-case hex digits of `n`, most significant first, no leading
/// zeros.
pub open spec fn hex_digits(n: int) -> Seq<u8>
    decreases n,
{
    if n < 16 {
        seq![crate::packets::hex_digit(if n >= 0 { n } else { 0 })]
    } else {
        hex_digits(n / 16) + seq![crate::packets::hex_digit(n % 16)]
    }
}

/// Appends the decimal digits of `n` to `out`.
pub fn push_dec(out: &mut Vec<u8>, n: u64)
    ensures
        final(out)@ == old(out)@ + dec_digits(n as int),
    decreases n,
{
    proof {
        lemma_div10(n as int);
    }
    if n < 10 {
        out.push(48 + n as u8);
    } else {
        push_dec(out, n / 10);
        out.push(48 + (n % 10) as u8);
        proof {
            assert(out@ =~= old(out)@ + (dec_digits(n as int / 10) + seq![(48 + n as int
                % 10) as u8]));
        }
    }
}

/// Appends the hex digits of `n` to `out`.
pub fn push_hex(out: &mut Vec<u8>, n: u64)
    ensures
        final(out)@ == old(out)@ + hex_digits(n as int),
    decreases n,
{
    proof {
        lemma_div16(n as int);
    }
    if n < 16 {
        out.push(crate::packets::hex_digit_e(n as u8));
    } else {
        push_hex(out, n / 16);
        out.push(crate::packets::hex_digit_e((n % 16) as u8));
        proof {
            assert(out@ =~= old(out)@ + (hex_digits(n as int / 16)
                + seq![crate::packets::hex_digit(n as int % 16)]));
        }
    }
}

/// The four dotted-quad components of an IPv4 value.
pub open spec fn v4_octet(ip: u32, i: int) -> int {
    if i == 0 {
        ip as int / 0x1000000
    } else if i == 1 {
        ip as int / 0x10000 % 256
    } else if i == 2 {
        ip as int / 256 % 256
    } else {
        ip as int % 256
    }
}

/// Dotted-quad ASCII text of an IPv4 value.
pub open spec fn ipv4_text(ip: u32) -> Seq<u8> {
    dec_digits(v4_octet(ip, 0)) + seq![46u8] + dec_digits(v4_octet(ip, 1)) + seq![46u8]
        + dec_digits(v4_octet(ip, 2)) + seq![46u8] + dec_digits(v4_octet(ip, 3))
}

/// The eight 16-bit groups of an IPv6 value, most significant first.
pub open spec fn v6_group(ip: u128, i: int) -> int
    decreases 7 - i,
{
    if i >= 7 {
        ip as int % 0x10000
    } else {
        v6_group(ip / 0x10000, i + 1)
    }
}

/// Number of consecutive zero groups starting at group `i`.
pub open spec fn run_len_at(ip: u128, i: int) -> int
    decreases 8 - i,
{
    if i >= 8 || v6_group(ip, i) != 0 {
        0
    } else {
        1 + run_len_at(ip, i + 1)
    }
}

/// Start of the leftmost longest zero run at or after group `i`; 8 when no
/// group from `i` on is zero.
pub open spec fn best_zero_run_from(ip: u128, i: int) -> int
    decreases 8 - i,
{
    if i >= 8 {
        8
    } else {
        let rest = best_zero_run_from(ip, i + 1);
        if run_len_at(ip, i) >= run_len_at(ip, rest) {
            i
        } else {
            rest
        }
    }
}

/// Hex text of groups `a` to `b` (exclusive), separated by colons.
pub open spec fn groups_text(ip: u128, a: int, b: int) -> Seq<u8>
    decreases b - a,
{
    if a >= b {
        Seq::empty()
    } else if a + 1 >= b {
        hex_digits(v6_group(ip, a))
    } else {
        hex_digits(v6_group(ip, a)) + seq![58u8] + groups_text(ip, a + 1, b)
    }
}

/// True for an IPv4-mapped address: the first five groups zero and the
/// sixth 0xffff.
pub open spec fn is_v4_mapped(ip: u128) -> bool {
    &&& v6_group(ip, 0) == 0
    &&& v6_group(ip, 1) == 0
    &&& v6_group(ip, 2) == 0
    &&& v6_group(ip, 3) == 0
    &&& v6_group(ip, 4) == 0
    &&& v6_group(ip, 5) == 0xffff
}

/// ASCII text of an IPv6 value in its canonical compressed form: lowercase
/// hex groups without leading zeros, the leftmost longest run of two or
/// more zero groups shortened to `::`, and an IPv4-mapped address shown
/// with its dotted tail as `::ffff:a.b.c.d`.
pub open spec fn ipv6_text(ip: u128) -> Seq<u8> {
    if is_v4_mapped(ip) {
        seq![58u8, 58u8, 102u8, 102u8, 102u8, 102u8, 58u8] + ipv4_text(
            (ip % 0x1_0000_0000) as u32,
        )
    } else {
        let bs = best_zero_run_from(ip, 0);
        let bl = run_len_at(ip, bs);
        if bl >= 2 {
            groups_text(ip, 0, bs) + seq![58u8, 58u8] + groups_text(ip, bs + bl, 8)
        } else {
            groups_text(ip, 0, 8)
        }
    }
}

/// ASCII text of an IP address.
pub open spec fn ip_text(ip: IpAddress) -> Seq<u8> {
    match ip {
        IpAddress::V4(v) => ipv4_text(v),
        IpAddress::V6(v) => ipv6_text(v),
    }
}

/// ASCII text of a socket address: `a.b.c.d:port` or `[groups]:port`.
pub open spec fn sockaddr_text(a: SockAddr) -> Seq<u8> {
    match a.ip {
        IpAddress::V4(v) => ipv4_text(v) + seq![58u8] + dec_digits(a.port as int),
        IpAddress::V6(v) => seq![91u8] + ipv6_text(v) + seq![93u8] + seq![58u8] + dec_digits(
            a.port as int,
        ),
    }
}

/// Appends the dotted-quad text of an IPv4 value to `out`.
pub fn push_ipv4_text(out: &mut Vec<u8>, ip: u32)
    ensures
        final(out)@ == old(out)@ + ipv4_text(ip),
{
    let a = ip / 0x1000000;
    let b = ip / 0x10000 % 256;
    let c = ip / 256 % 256;
    let d = ip % 256;
    push_dec(out, a as u64);
    out.push(46);
    push_dec(out, b as u64);
    out.push(46);
    push_dec(out, c as u64);
    out.push(46);
    push_dec(out, d as u64);
    proof {
        assert(out@ =~= old(out)@ + ipv4_text(ip));
    }
}

/// The `i`-th group of an IPv6 value, computed as the encoding defines it.
fn v6_group_e(ip: u128, i: usize) -> (r: u64)
    requires
        i <= 7,
    ensures
        r == v6_group(ip, i as int),
    decreases 7 - i,
{
    if i >= 7 {
        proof {
            vstd::arithmetic::div_mod::lemma_mod_bound(ip as int, 0x10000);
        }
        (ip % 0x10000) as u64
    } else {
        v6_group_e(ip / 0x10000, i + 1)
    }
}

/// Number of consecutive zero groups starting at group `i`.
fn run_len_at_e(ip: u128, i: usize) -> (r: usize)
    requires
        i <= 8,
    ensures
        r == run_len_at(ip, i as int),
        r <= 8 - i,
    decreases 8 - i,
{
    if i >= 8 {
        0
    } else if v6_group_e(ip, i) != 0 {
        0
    } else {
        1 + run_len_at_e(ip, i + 1)
    }
}

/// Start of the leftmost longest zero run at or after group `i`.
fn best_zero_run_from_e(ip: u128, i: usize) -> (r: usize)
    requires
        i <= 8,
    ensures
        r == best_zero_run_from(ip, i as int),
        i <= r <= 8,
    decreases 8 - i,
{
    if i >= 8 {
        8
    } else {
        let rest = best_zero_run_from_e(ip, i + 1);
        if run_len_at_e(ip, i) >= run_len_at_e(ip, rest) {
            i
        } else {
            rest
        }
    }
}

/// Appends the hex text of groups `a` to `b` (exclusive) to `out`.
fn push_groups_text(out: &mut Vec<u8>, ip: u128, a: usize, b: usize)
    requires
        a <= b <= 8,
    ensures
        final(out)@ == old(out)@ + groups_text(ip, a as int, b as int),
    decreases b - a,
{
    if a >= b {
        proof {
            assert(out@ + Seq::<u8>::empty() =~= out@);
        }
    } else if a + 1 >= b {
        push_hex(out, v6_group_e(ip, a));
    } else {
        push_hex(out, v6_group_e(ip, a));
        out.push(58);
        push_groups_text(out, ip, a + 1, b);
        proof {
            assert(out@ =~= old(out)@ + (hex_digits(v6_group(ip, a as int)) + seq![58u8]
                + groups_text(ip, a + 1, b as int)));
        }
    }
}

/// Appends the canonical compressed text of an IPv6 value to `out`.
pub fn push_ipv6_text(out: &mut Vec<u8>, ip: u128)
    ensures
        final(out)@ == old(out)@ + ipv6_text(ip),
{
    let mapped = v6_group_e(ip, 0) == 0 && v6_group_e(ip, 1) == 0 && v6_group_e(ip, 2) == 0
        && v6_group_e(ip, 3) == 0 && v6_group_e(ip, 4) == 0 && v6_group_e(ip, 5) == 0xffff;
    if mapped {
        out.push(58);
        out.push(58);
        out.push(102);
        out.push(102);
        out.push(102);
        out.push(102);
        out.push(58);
        proof {
            vstd::arithmetic::div_mod::lemma_mod_bound(ip as int, 0x1_0000_0000);
        }
        push_ipv4_text(out, (ip % 0x1_0000_0000) as u32);
        proof {
            assert(out@ =~= old(out)@ + ipv6_text(ip));
        }
        return ;
    }
    let bs = best_zero_run_from_e(ip, 0);
    let bl = run_len_at_e(ip, bs);
    if bl >= 2 {
        push_groups_text(out, ip, 0, bs);
        out.push(58);
        out.push(58);
        push_groups_text(out, ip, bs + bl, 8);
        proof {
            assert(out@ =~= old(out)@ + ipv6_text(ip));
        }
    } else {
        push_groups_text(out, ip, 0, 8);
    }
}

/// Appends the text of an IP address to `out`.
pub fn push_ip_text(out: &mut Vec<u8>, ip: &IpAddress)
    ensures
        final(out)@ == old(out)@ + ip_text(*ip),
{
    match ip {
        IpAddress::V4(v) => push_ipv4_text(out, *v),
        IpAddress::V6(v) => push_ipv6_text(out, *v),
    }
}

/// Appends the text of a socket address to `out`.
pub fn push_sockaddr_text(out: &mut Vec<u8>, a: &SockAddr)
    ensures
        final(out)@ == old(out)@ + sockaddr_text(*a),
{
    match &a.ip {
        IpAddress::V4(v) => {
            push_ipv4_text(out, *v);
            out.push(58);
            push_dec(out, a.port as u64);
            proof {
                assert(out@ =~= old(out)@ + sockaddr_text(*a));
            }
        },
        IpAddress::V6(v) => {
            out.push(91);
            push_ipv6_text(out, *v);
            out.push(93);
            out.push(58);
            push_dec(out, a.port as u64);
            proof {
                assert(out@ =~= old(out)@ + sockaddr_text(*a));
            }
        },
    }
}

/// Ten to the power `n`.
pub open spec fn pow10(n: int) -> int
    decreases n,
{
    if n <= 0 {
        1
    } else {
        10 * pow10(n - 1)
    }
}

proof fn lemma_pow10_pos(n: int)
    ensures
        pow10(n) >= 1,
    decreases n,
{
    if n > 0 {
        lemma_pow10_pos(n - 1);
    }
}

/// A value below `pow10(k)` prints in at most `k` decimal digits.
pub proof fn lemma_dec_digits_len(n: int, k: int)
    requires
        0 <= n,
        1 <= k,
        n < pow10(k),
    ensures
        1 <= dec_digits(n).len() <= k,
    decreases k,
{
    lemma_div10(n);
    if n >= 10 {
        assert(pow10(k) == 10 * pow10(k - 1));
        lemma_pow10_pos(k - 1);
        assert(n / 10 < pow10(k - 1));
        lemma_dec_digits_len(n / 10, k - 1);
    }
}

/// Sixteen to the power `n`.
pub open spec fn pow16(n: int) -> int
    decreases n,
{
    if n <= 0 {
        1
    } else {
        16 * pow16(n - 1)
    }
}

proof fn lemma_pow16_pos(n: int)
    ensures
        pow16(n) >= 1,
    decreases n,
{
    if n > 0 {
        lemma_pow16_pos(n - 1);
    }
}

/// A value below `pow16(k)` prints in at most `k` hex digits.
pub proof fn lemma_hex_digits_len(n: int, k: int)
    requires
        0 <= n,
        1 <= k,
        n < pow16(k),
    ensures
        1 <= hex_digits(n).len() <= k,
    decreases k,
{
    lemma_div16(n);
    if n >= 16 {
        assert(pow16(k) == 16 * pow16(k - 1));
        lemma_pow16_pos(k - 1);
        assert(n / 16 < pow16(k - 1));
        lemma_hex_digits_len(n / 16, k - 1);
    }
}

proof fn lemma_v6_group_bound(ip: u128, i: int)
    requires
        i <= 7,
    ensures
        0 <= v6_group(ip, i) < 0x10000,
    decreases 7 - i,
{
    if i >= 7 {
        vstd::arithmetic::div_mod::lemma_mod_bound(ip as int, 0x10000);
    } else {
        lemma_v6_group_bound(ip / 0x10000, i + 1);
    }
}

/// A dotted-quad text is between 1 and 15 bytes.
proof fn lemma_ipv4_text_len(v: u32)
    ensures
        1 <= ipv4_text(v).len() <= 15,
{
    assert(pow10(0) == 1);
    assert(pow10(1) == 10);
    assert(pow10(2) == 100);
    assert(pow10(3) == 1000);
    vstd::arithmetic::div_mod::lemma_mod_bound(v as int / 0x10000, 256);
    vstd::arithmetic::div_mod::lemma_mod_bound(v as int / 256, 256);
    vstd::arithmetic::div_mod::lemma_mod_bound(v as int, 256);
    vstd::arithmetic::div_mod::lemma_div_pos_is_pos(v as int, 0x1000000);
    vstd::arithmetic::div_mod::lemma_div_pos_is_pos(v as int, 0x10000);
    vstd::arithmetic::div_mod::lemma_div_pos_is_pos(v as int, 256);
    vstd::arithmetic::div_mod::lemma_fundamental_div_mod(v as int, 0x1000000);
    assert(v as int / 0x1000000 < 256);
    lemma_dec_digits_len(v4_octet(v, 0), 3);
    lemma_dec_digits_len(v4_octet(v, 1), 3);
    lemma_dec_digits_len(v4_octet(v, 2), 3);
    lemma_dec_digits_len(v4_octet(v, 3), 3);
}

/// A group range prints in at most 5 bytes per group.
proof fn lemma_groups_text_len(ip: u128, a: int, b: int)
    requires
        0 <= a <= b <= 8,
    ensures
        groups_text(ip, a, b).len() <= 5 * (b - a),
    decreases b - a,
{
    if a < b {
        assert(pow16(0) == 1);
        assert(pow16(1) == 16);
        assert(pow16(2) == 256);
        assert(pow16(3) == 0x1000);
        assert(pow16(4) == 0x10000);
        lemma_v6_group_bound(ip, a);
        lemma_hex_digits_len(v6_group(ip, a), 4);
        if a + 1 < b {
            lemma_groups_text_len(ip, a + 1, b);
        }
    }
}

/// A zero run fits inside the eight groups.
proof fn lemma_run_len_bound(ip: u128, i: int)
    requires
        0 <= i <= 8,
    ensures
        0 <= run_len_at(ip, i) <= 8 - i,
    decreases 8 - i,
{
    if i < 8 && v6_group(ip, i) == 0 {
        lemma_run_len_bound(ip, i + 1);
    }
}

/// A best run start lies between its lower bound and 8.
proof fn lemma_best_run_range(ip: u128, i: int)
    requires
        0 <= i <= 8,
    ensures
        i <= best_zero_run_from(ip, i) <= 8,
    decreases 8 - i,
{
    if i < 8 {
        lemma_best_run_range(ip, i + 1);
    }
}

/// The text of an IP address is at most 45 bytes; of a socket address, at
/// most 53.
pub proof fn lemma_addr_text_len(a: SockAddr)
    ensures
        ip_text(a.ip).len() <= 45,
        1 <= sockaddr_text(a).len() <= 53,
{
    match a.ip {
        IpAddress::V4(v) => {
            lemma_ipv4_text_len(v);
        },
        IpAddress::V6(v) => {
            if is_v4_mapped(v) {
                vstd::arithmetic::div_mod::lemma_mod_bound(v as int, 0x1_0000_0000);
                lemma_ipv4_text_len((v % 0x1_0000_0000) as u32);
            } else {
                let bs = best_zero_run_from(v, 0);
                let bl = run_len_at(v, bs);
                lemma_best_run_range(v, 0);
                lemma_run_len_bound(v, bs);
                if bl >= 2 {
                    lemma_groups_text_len(v, 0, bs);
                    lemma_groups_text_len(v, bs + bl, 8);
                } else {
                    lemma_groups_text_len(v, 0, 8);
                }
            }
        },
    }
    assert(pow10(0) == 1);
    assert(pow10(1) == 10);
    assert(pow10(2) == 100);
    assert(pow10(3) == 1000);
    assert(pow10(4) == 10000);
    assert(pow10(5) == 100000);
    lemma_dec_digits_len(a.port as int, 5);
}

/// Bytes fed to the affinity hash for an address: a family tag, the IP as
/// big-endian bytes, the port.
pub open spec fn addr_hash_bytes(a: SockAddr) -> Seq<u8> {
    match a.ip {
        IpAddress::V4(v) => seq![
            4u8,
            (v as int / 0x1000000) as u8,
            (v as int / 0x10000 % 256) as u8,
            (v as int / 256 % 256) as u8,
            (v as int % 256) as u8,
            (a.port as int / 256) as u8,
            (a.port as int % 256) as u8,
        ],
        IpAddress::V6(v) => seq![6u8] + v6_be_bytes(v, 16) + seq![
            (a.port as int / 256) as u8,
            (a.port as int % 256) as u8,
        ],
    }
}

/// The low `n` bytes of a 128-bit value, big-endian.
pub open spec fn v6_be_bytes(v: u128, n: int) -> Seq<u8>
    decreases n,
{
    if n <= 0 {
        Seq::empty()
    } else {
        v6_be_bytes(v / 256, n - 1) + seq![(v as int % 256) as u8]
    }
}

/// The FNV-1a offset basis.
pub open spec fn fnv_basis() -> u64 {
    0xcbf29ce484222325
}

/// One FNV-1a step: xor the byte in, multiply by the prime modulo 2^64.
pub open spec fn fnv_step(h: u64, b: u8) -> u64 {
    (((h ^ (b as u64)) as u128 * 0x100000001b3u128) % 0x1_0000_0000_0000_0000) as u64
}

pub open spec fn fnv_acc(s: Seq<u8>, h: u64) -> u64
    decreases s.len(),
{
    if s.len() == 0 {
        h
    } else {
        fnv_acc(s.drop_first(), fnv_step(h, s[0]))
    }
}

/// The 64-bit FNV-1a hash of a byte sequence. A pure function of its
/// input: equal inputs hash equal on every run and every machine.
pub open spec fn fnv64(s: Seq<u8>) -> u64 {
    fnv_acc(s, fnv_basis())
}

/// Computes the FNV-1a hash of `bytes`.
pub fn fnv64_hash(bytes: &[u8]) -> (r: u64)
    ensures
        r == fnv64(bytes@),
{
    let mut h: u64 = 0xcbf29ce484222325;
    let mut i: usize = 0;
    proof {
        assert(bytes@.skip(0) == bytes@);
    }
    while i < bytes.len()
        invariant
            i <= bytes@.len(),
            fnv_acc(bytes@.skip(i as int), h) == fnv64(bytes@),
        decreases bytes@.len() - i,
    {
        let b = bytes[i];
        proof {
            assert(bytes@.skip(i as int)[0] == b);
            assert(bytes@.skip(i as int).drop_first() =~= bytes@.skip(i + 1));
        }
        let x: u64 = h ^ (b as u64);
        h = ((x as u128 * 0x100000001b3u128) % 0x1_0000_0000_0000_0000u128) as u64;
        i = i + 1;
    }
    proof {
        assert(bytes@.skip(bytes@.len() as int) =~= Seq::<u8>::empty());
    }
    h
}

/// Appends the hash bytes of an address to `out`.
pub fn push_addr_hash_bytes(out: &mut Vec<u8>, a: &SockAddr)
    ensures
        final(out)@ == old(out)@ + addr_hash_bytes(*a),
{
    match &a.ip {
        IpAddress::V4(v) => {
            let v = *v;
            out.push(4);
            out.push((v / 0x1000000) as u8);
            out.push((v / 0x10000 % 256) as u8);
            out.push((v / 256 % 256) as u8);
            out.push((v % 256) as u8);
            out.push((a.port / 256) as u8);
            out.push((a.port % 256) as u8);
            proof {
                assert(out@ =~= old(out)@ + addr_hash_bytes(*a));
            }
        },
        IpAddress::V6(v) => {
            out.push(6);
            push_v6_be(out, *v, 16);
            out.push((a.port / 256) as u8);
            out.push((a.port % 256) as u8);
            proof {
                assert(out@ =~= old(out)@ + addr_hash_bytes(*a));
            }
        },
    }
}

/// Appends the low `n` big-endian bytes of `v` to `out`.
fn push_v6_be(out: &mut Vec<u8>, v: u128, n: usize)
    requires
        n <= 16,
    ensures
        final(out)@ == old(out)@ + v6_be_bytes(v, n as int),
    decreases n,
{
    if n > 0 {
        push_v6_be(out, v / 256, n - 1);
        proof {
            vstd::arithmetic::div_mod::lemma_mod_bound(v as int, 256);
        }
        out.push((v % 256) as u8);
        proof {
            assert(out@ =~= old(out)@ + (v6_be_bytes(v as int as u128 / 256, n - 1)
                + seq![(v as int % 256) as u8]));
        }
    } else {
        proof {
            assert(v6_be_bytes(v, 0) == Seq::<u8>::empty());
            assert(out@ =~= old(out)@ + Seq::<u8>::empty());
        }
    }
}

} // verus!
