//! Minecraft varints: the MSB-continuation encoding of a 32-bit value,
//! at most 5 bytes long. Negative values always occupy 5 bytes.

use vstd::prelude::*;

use crate::error::ProtoError;

verus! {

/// A 32-bit value carried in varint form on the wire.
#[derive(Debug, Clone, Copy, PartialEq, Eq, Structural)]
pub struct VarInt(pub i32);

/// Bit-level helpers on encoded varint bytes.
pub trait VarIntOp: Sized {
    /// True when this byte ends a varint (its continuation bit is clear).
    fn has_stop(self) -> (r: bool)
        ensures
            r == (self.data_value() == self.raw_value()),
            r == (self.raw_value() < 128),
    ;

    /// The low 7 data bits.
    fn mask_data(self) -> (r: u8)
        ensures
            r == self.data_value(),
    ;

    /// This byte with the continuation bit set.
    fn add_continue(self) -> (r: u8)
        ensures
            r == self.data_value() + 128,
            r >= 128,
    ;

    /// The byte itself, as an integer.
    spec fn raw_value(self) -> u8;

    /// The low 7 data bits, as an integer.
    spec fn data_value(self) -> u8;
}

impl VarIntOp for u8 {
    fn has_stop(self) -> (r: bool) {
        proof {
            assert(self & 0x80 == 0 <==> self < 128) by (bit_vector);
            assert(self < 128 ==> self % 128 == self) by (bit_vector);
            assert(self >= 128 ==> self % 128 != self) by (bit_vector);
            assert(self.data_value() == (self % 128) as u8);
            assert(self.raw_value() == self);
        }
        self & 0x80 == 0
    }

    fn mask_data(self) -> (r: u8) {
        proof {
            assert(self & 0x7F == self % 128) by (bit_vector);
            assert((self % 128) as u8 == self.data_value());
        }
        self & 0x7F
    }

    fn add_continue(self) -> (r: u8) {
        proof {
            assert(self | 0x80 == self % 128 + 128) by (bit_vector);
            assert(self.data_value() == (self % 128) as u8);
        }
        self | 0x80
    }

    open spec fn raw_value(self) -> u8 {
        self
    }

    open spec fn data_value(self) -> u8 {
        (self % 128) as u8
    }
}

impl View for VarInt {
    type V = i32;

    open spec fn view(&self) -> i32 {
        self.0
    }
}

/// The unsigned 32-bit value that shares the bit pattern of `v`.
pub open spec fn to_unsigned(v: i32) -> u32 {
    if v >= 0 {
        v as u32
    } else {
        (v + 0x1_0000_0000) as u32
    }
}

/// The signed 32-bit value that shares the bit pattern of `u`.
pub open spec fn to_signed(u: u32) -> i32 {
    if u < 0x8000_0000 {
        u as i32
    } else {
        (u - 0x1_0000_0000) as i32
    }
}

/// Canonical varint encoding of an unsigned 32-bit value: groups of 7 bits,
/// least significant first, each byte but the last carrying the continuation bit.
pub open spec fn varint_enc_u32(u: u32) -> Seq<u8>
    decreases u,
{
    if u < 128 {
        seq![u as u8]
    } else {
        seq![(u % 128 + 128) as u8] + varint_enc_u32(u / 128)
    }
}

/// Canonical varint encoding of a 32-bit value.
pub open spec fn varint_enc(v: i32) -> Seq<u8> {
    varint_enc_u32(to_unsigned(v))
}

/// Division of a non-negative value by 128, spelled out for linear reasoning.
proof fn lemma_div128(u: int)
    requires
        u >= 0,
    ensures
        u == 128 * (u / 128) + u % 128,
        0 <= u % 128 < 128,
        u / 128 >= 0,
        u >= 128 ==> u / 128 < u,
        u < 128 ==> u / 128 == 0,
{
    vstd::arithmetic::div_mod::lemma_fundamental_div_mod(u, 128);
    vstd::arithmetic::div_mod::lemma_mod_bound(u, 128);
    vstd::arithmetic::div_mod::lemma_div_pos_is_pos(u, 128);
    if u >= 128 {
        vstd::arithmetic::div_mod::lemma_div_decreases(u, 128);
    }
    if u < 128 {
        vstd::arithmetic::div_mod::lemma_basic_div(u, 128);
    }
}

pub proof fn lemma_varint_enc_len(u: u32)
    ensures
        1 <= varint_enc_u32(u).len() <= 5,
        u < 128 ==> varint_enc_u32(u).len() == 1,
{
    if u >= 128 {
        let u1 = u / 128;
        let u2 = u1 / 128;
        let u3 = u2 / 128;
        let u4 = u3 / 128;
        lemma_div128(u as int);
        lemma_div128(u1 as int);
        lemma_div128(u2 as int);
        lemma_div128(u3 as int);
        assert(u1 < 0x2000000);
        assert(u2 < 0x40000);
        assert(u3 < 0x800);
        assert(u4 < 128);
        assert(varint_enc_u32(u).len() == 1 + varint_enc_u32(u1).len());
        if u1 >= 128 {
            assert(varint_enc_u32(u1).len() == 1 + varint_enc_u32(u2).len());
            if u2 >= 128 {
                assert(varint_enc_u32(u2).len() == 1 + varint_enc_u32(u3).len());
                if u3 >= 128 {
                    assert(varint_enc_u32(u3).len() == 1 + varint_enc_u32(u4).len());
                    assert(varint_enc_u32(u4).len() == 1);
                }
            }
        }
    }
}

/// Number of bytes of the varint starting at the head of `s`: the index of
/// the first byte without a continuation bit, plus one, when it comes within
/// the 5-byte limit and within `s`.
pub open spec fn varint_len_rec(s: Seq<u8>, fuel: int) -> Option<int>
    decreases fuel,
{
    if fuel <= 0 || s.len() == 0 {
        None
    } else if s[0] < 128 {
        Some(1)
    } else {
        match varint_len_rec(s.drop_first(), fuel - 1) {
            Some(l) => Some(l + 1),
            None => None,
        }
    }
}

pub open spec fn varint_len(s: Seq<u8>) -> Option<int> {
    varint_len_rec(s, 5)
}

/// A parsed varint occupies between 1 and `fuel` bytes, all within `s`.
pub proof fn lemma_varint_len_rec_range(s: Seq<u8>, fuel: int)
    ensures
        match varint_len_rec(s, fuel) {
            Some(n) => 1 <= n <= fuel && n <= s.len(),
            None => true,
        },
    decreases fuel,
{
    if fuel > 0 && s.len() > 0 && s[0] >= 128 {
        lemma_varint_len_rec_range(s.drop_first(), fuel - 1);
    }
}

/// Unbounded value of the first `n` bytes read as base-128 groups,
/// least significant first.
pub open spec fn varint_value(s: Seq<u8>, n: int) -> int
    decreases n,
{
    if n <= 0 {
        0
    } else {
        s[0] % 128 + 128 * varint_value(s.drop_first(), n - 1)
    }
}

/// Full parse of the varint at the head of `s`: the decoded 32-bit value
/// (extra high bits of a 5-byte varint are discarded) and its byte length.
pub open spec fn varint_parse(s: Seq<u8>) -> Option<(i32, int)> {
    match varint_len(s) {
        Some(n) => Some((to_signed((varint_value(s, n) % 0x1_0000_0000) as u32), n)),
        None => None,
    }
}

/// Appends the canonical varint encoding of `v` to `out` and returns the
/// number of bytes written.
pub fn write_varint(out: &mut Vec<u8>, v: VarInt) -> (n: usize)
    ensures
        final(out)@ == old(out)@ + varint_enc(v.0),
        n == varint_enc(v.0).len(),
        1 <= n <= 5,
{
    let mut u: u32 = if v.0 >= 0 {
        v.0 as u32
    } else {
        ((v.0 as i64) + 0x1_0000_0000i64) as u32
    };
    proof {
        lemma_varint_enc_len(to_unsigned(v.0));
    }
    let ghost total = varint_enc_u32(to_unsigned(v.0));
    let mut n: usize = 0;
    while u >= 128
        invariant
            out@ == old(out)@ + total.take(n as int),
            total == total.take(n as int) + varint_enc_u32(u),
            n + varint_enc_u32(u).len() == total.len(),
            1 <= total.len() <= 5,
            n < total.len(),
        decreases u,
    {
        let b = (u % 128) as u8;
        out.push(b.add_continue());
        proof {
            lemma_varint_enc_len(u / 128);
            assert(varint_enc_u32(u) == seq![(u % 128 + 128) as u8] + varint_enc_u32(u / 128));
            assert(total.take(n + 1) == total.take(n as int) + seq![(u % 128 + 128) as u8]);
            lemma_div128(u as int);
        }
        u = u / 128;
        n = n + 1;
    }
    out.push(u as u8);
    proof {
        assert(varint_enc_u32(u) == seq![u as u8]);
        assert(total.take(n + 1) == total.take(n as int) + seq![u as u8]);
        assert(total.take(total.len() as int) == total);
    }
    n + 1
}

/// Five bytes at the head of `s` all carry the continuation bit: such a
/// varint runs past its limit and is malformed.
pub open spec fn varint_overlong(s: Seq<u8>) -> bool {
    s.len() >= 5 && (forall|i: int| 0 <= i < 5 ==> s[i] >= 128)
}

/// `s` ends before a stop byte comes, within the 5-byte limit: more input
/// is needed.
pub open spec fn varint_incomplete(s: Seq<u8>) -> bool {
    s.len() < 5 && (forall|i: int| 0 <= i < s.len() ==> s[i] >= 128)
}

/// Reads the varint at `pos` in `buf`; the raw unbounded base-128 value and
/// the count of bytes consumed.
fn read_varint_raw(buf: &[u8], pos: usize, fuel: usize) -> (r: Result<(u64, usize), ProtoError>)
    requires
        pos <= buf@.len(),
        fuel <= 5,
    ensures
        match r {
            Ok((raw, n)) => {
                &&& varint_len_rec(buf@.skip(pos as int), fuel as int) == Some(n as int)
                &&& raw == varint_value(buf@.skip(pos as int), n as int)
                &&& 1 <= n <= fuel
                &&& pos + n <= buf@.len()
            },
            Err(e) => {
                &&& varint_len_rec(buf@.skip(pos as int), fuel as int) is None
                &&& (e == ProtoError::VarInt || e == ProtoError::Eof)
                &&& forall|i: int|
                    0 <= i < fuel && i < buf@.skip(pos as int).len() ==> buf@.skip(
                        pos as int,
                    )[i] >= 128
                &&& (e == ProtoError::VarInt <==> buf@.skip(pos as int).len() >= fuel)
                &&& (e == ProtoError::Eof <==> buf@.skip(pos as int).len() < fuel)
            },
        },
    decreases fuel,
{
    if fuel == 0 {
        return Err(ProtoError::VarInt);
    }
    if pos >= buf.len() {
        return Err(ProtoError::Eof);
    }
    let b = buf[pos];
    let data = b.mask_data();
    let ghost s = buf@.skip(pos as int);
    if b.has_stop() {
        proof {
            assert(s[0] == b);
            assert(varint_value(s.drop_first(), 0) == 0);
            assert(varint_value(s, 1) == b % 128);
            assert(varint_len_rec(s, fuel as int) == Some(1int));
        }
        Ok((data as u64, 1))
    } else {
        match read_varint_raw(buf, pos + 1, fuel - 1) {
            Ok((rest, n)) => {
                proof {
                    assert(s.drop_first() =~= buf@.skip(pos + 1));
                    assert(s[0] == b);
                    assert(varint_value(s, n + 1) == b % 128 + 128
                        * varint_value(buf@.skip(pos + 1), n as int));
                    assert(varint_len_rec(s, fuel as int) == Some(n + 1));
                    // 5 levels of 7 bits keep the sum far below u64::MAX
                    lemma_varint_value_bound(buf@.skip(pos + 1), n as int);
                    lemma_pow128_values();
                    lemma_pow128_mono(n as int, 4);
                }
                Ok((data as u64 + 128 * rest, n + 1))
            },
            Err(e) => {
                proof {
                    assert(s.drop_first() =~= buf@.skip(pos + 1));
                    assert(s[0] == b);
                    assert forall|i: int| 0 <= i < fuel && i < s.len() implies s[i] >= 128 by {
                        if i > 0 {
                            assert(s[i] == buf@.skip(pos + 1)[i - 1]);
                        }
                    }
                }
                Err(e)
            },
        }
    }
}

/// Reads the varint at `pos` in `buf`. Returns the decoded value and the
/// position just past it; `VarInt` exactly when 5 bytes in a row carry the
/// continuation bit, `Eof` exactly when the buffer ends before a stop byte.
pub fn read_varint(buf: &[u8], pos: usize) -> (r: Result<(VarInt, usize), ProtoError>)
    requires
        pos <= buf@.len(),
    ensures
        match r {
            Ok((v, newpos)) => {
                &&& varint_parse(buf@.skip(pos as int)) == Some((v.0, newpos - pos))
                &&& pos < newpos <= buf@.len()
                &&& newpos - pos <= 5
            },
            Err(e) => {
                &&& varint_parse(buf@.skip(pos as int)) is None
                &&& (e == ProtoError::VarInt || e == ProtoError::Eof)
                &&& (e == ProtoError::VarInt <==> varint_overlong(buf@.skip(pos as int)))
                &&& (e == ProtoError::Eof <==> varint_incomplete(buf@.skip(pos as int)))
            },
        },
{
    let blen = buf.len();
    match read_varint_raw(buf, pos, 5) {
        Ok((raw, n)) => {
            proof {
                assert(pos + n <= blen);
            }
            let m = raw % 0x1_0000_0000;
            let v: i32 = if m < 0x8000_0000 {
                m as i32
            } else {
                (m as i64 - 0x1_0000_0000i64) as i32
            };
            proof {
                assert(to_signed((varint_value(buf@.skip(pos as int), n as int)
                    % 0x1_0000_0000) as u32) == v);
            }
            Ok((VarInt(v), pos + n))
        },
        Err(e) => Err(e),
    }
}

/// 128 to the power `n`.
pub open spec fn pow128(n: int) -> int
    decreases n,
{
    if n <= 0 {
        1
    } else {
        128 * pow128(n - 1)
    }
}

pub proof fn lemma_pow128_pos(n: int)
    ensures
        pow128(n) >= 1,
    decreases n,
{
    if n > 0 {
        lemma_pow128_pos(n - 1);
    }
}

pub proof fn lemma_pow128_mono(a: int, b: int)
    requires
        a <= b,
    ensures
        pow128(a) <= pow128(b),
    decreases b - a,
{
    if a < b {
        lemma_pow128_mono(a, b - 1);
        lemma_pow128_pos(b - 1);
        if b > 0 {
            assert(pow128(b) == 128 * pow128(b - 1));
        }
    }
}

pub proof fn lemma_pow128_values()
    ensures
        pow128(0) == 1,
        pow128(1) == 128,
        pow128(2) == 0x4000,
        pow128(3) == 0x20_0000,
        pow128(4) == 0x1000_0000,
        pow128(5) == 0x8_0000_0000,
{
    assert(pow128(0) == 1);
    assert(pow128(1) == 128);
    assert(pow128(2) == 0x4000);
    assert(pow128(3) == 0x20_0000);
    assert(pow128(4) == 0x1000_0000);
    assert(pow128(5) == 0x8_0000_0000);
}

pub proof fn lemma_varint_value_bound(s: Seq<u8>, n: int)
    ensures
        0 <= varint_value(s, n) < pow128(n),
    decreases n,
{
    if n <= 0 {
        assert(pow128(n) == 1);
    } else {
        lemma_varint_value_bound(s.drop_first(), n - 1);
        let v = varint_value(s.drop_first(), n - 1);
        let p = pow128(n - 1);
        assert(s[0] % 128 + 128 * v < 128 * p) by (nonlinear_arith)
            requires
                0 <= v < p,
                0 <= s[0] % 128 < 128,
        ;
    }
}

/// The canonical encoding parses back to the value it was made from,
/// whatever bytes follow it.
pub proof fn lemma_varint_round_trip(v: i32, rest: Seq<u8>)
    ensures
        varint_parse(varint_enc(v) + rest)
            == Some((v, varint_enc(v).len() as int)),
{
    let u = to_unsigned(v);
    lemma_varint_enc_len(u);
    lemma_enc_parse_u32(u, rest, 5);
    let n = varint_enc_u32(u).len() as int;
    vstd::arithmetic::div_mod::lemma_small_mod(u as nat, 0x1_0000_0000nat);
    assert(varint_value(varint_enc_u32(u) + rest, n) % 0x1_0000_0000 == u);
}

proof fn lemma_enc_parse_u32(u: u32, rest: Seq<u8>, fuel: int)
    requires
        varint_enc_u32(u).len() <= fuel,
    ensures
        varint_len_rec(varint_enc_u32(u) + rest, fuel)
            == Some(varint_enc_u32(u).len() as int),
        varint_value(varint_enc_u32(u) + rest, varint_enc_u32(u).len() as int) == u,
    decreases u,
{
    let s = varint_enc_u32(u) + rest;
    if u < 128 {
        assert(s[0] == u as u8);
        vstd::arithmetic::div_mod::lemma_small_mod(u as nat, 128nat);
        assert(varint_value(s.drop_first(), 0) == 0);
        assert(varint_value(s, 1) == u);
    } else {
        let u1 = u / 128;
        lemma_div128(u as int);
        lemma_varint_enc_len(u1);
        lemma_enc_parse_u32(u1, rest, fuel - 1);
        assert(s[0] == (u % 128 + 128) as u8);
        assert(s.drop_first() =~= varint_enc_u32(u1) + rest);
        let n1 = varint_enc_u32(u1).len() as int;
        assert(varint_value(s, n1 + 1) == s[0] % 128 + 128 * varint_value(s.drop_first(), n1));
        vstd::arithmetic::div_mod::lemma_mod_bound(u % 128 + 128, 128);
        assert((u % 128 + 128) % 128 == u % 128) by {
            vstd::arithmetic::div_mod::lemma_mod_multiples_vanish(1, u as int % 128, 128);
        };
    }
}

} // verus!

