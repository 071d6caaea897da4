//! Payload encodings: big-endian `u16` and length-prefixed UTF-8 strings,
//! and the serialization traits shared by the packet types.

use vstd::prelude::*;

use crate::error::ProtoError;
use crate::varint::{
    lemma_varint_round_trip, read_varint, varint_enc, varint_parse, write_varint, VarInt,
};

verus! {

/// Largest byte length a string read off the wire may have: 32767
/// characters of at most 4 bytes each. Longer strings are rejected.
pub const MAX_STRING_BYTES: usize = 131068;

/// A packet's numeric id, written as a varint right after the frame length.
pub trait PacketId {
    /// The id of this packet type.
    spec fn spec_id() -> i32;

    /// The id of this packet type.
    fn packet_id() -> (r: i32)
        ensures
            r == Self::spec_id(),
    ;
}

/// Serialization of one field or of a whole packet payload.
pub trait Serialize: Sized {
    /// The byte encoding of this value.
    spec fn enc(&self) -> Seq<u8>;

    /// True when the value is within the size limits of its encoding.
    spec fn enc_ok(&self) -> bool;

    /// Appends the encoding of this value to `out`.
    fn serialize(&self, out: &mut Vec<u8>)
        requires
            self.enc_ok(),
        ensures
            final(out)@ == old(out)@ + self.enc(),
    ;
}

/// Deserialization of one field or of a whole packet payload.
pub trait Deserialize: Sized + View {
    /// Parse of the head of `s`: the value's model and the bytes consumed,
    /// or `None` when the head of `s` holds no valid value.
    spec fn parse(s: Seq<u8>) -> Option<(Self::V, int)>;

    /// Reads one value at `pos` in `buf`, returning it with the position
    /// just past its bytes. A failure is a parse failure, never an id
    /// mismatch: `UnexpectedPacket` belongs to the frame level alone.
    fn deserialize(buf: &[u8], pos: usize) -> (r: Result<(Self, usize), ProtoError>)
        requires
            pos <= buf@.len(),
        ensures
            match r {
                Ok((v, newpos)) => {
                    &&& Self::parse(buf@.skip(pos as int)) == Some((v@, newpos - pos))
                    &&& pos <= newpos <= buf@.len()
                },
                Err(e) => Self::parse(buf@.skip(pos as int)) is None && e
                    != ProtoError::UnexpectedPacket,
            },
    ;
}

impl Serialize for VarInt {
    open spec fn enc(&self) -> Seq<u8> {
        varint_enc(self.0)
    }

    open spec fn enc_ok(&self) -> bool {
        true
    }

    fn serialize(&self, out: &mut Vec<u8>) {
        write_varint(out, *self);
    }
}

impl Deserialize for VarInt {
    open spec fn parse(s: Seq<u8>) -> Option<(i32, int)> {
        varint_parse(s)
    }

    fn deserialize(buf: &[u8], pos: usize) -> (r: Result<(Self, usize), ProtoError>) {
        match read_varint(buf, pos) {
            Ok((v, newpos)) => {
                proof {
                    assert(<VarInt as Deserialize>::parse(buf@.skip(pos as int))
                        == Some((v.0, newpos - pos)));
                }
                Ok((v, newpos))
            },
            Err(e) => {
                proof {
                    assert(<VarInt as Deserialize>::parse(buf@.skip(pos as int)) is None);
                }
                Err(e)
            },
        }
    }
}

/// Big-endian encoding of a 16-bit value.
pub open spec fn u16_enc(v: u16) -> Seq<u8> {
    seq![(v / 256) as u8, (v % 256) as u8]
}

/// Parse of a big-endian 16-bit value at the head of `s`.
pub open spec fn u16_parse(s: Seq<u8>) -> Option<(u16, int)> {
    if s.len() < 2 {
        None
    } else {
        Some(((s[0] as int * 256 + s[1] as int) as u16, 2))
    }
}

pub proof fn lemma_u16_round_trip(v: u16, rest: Seq<u8>)
    ensures
        u16_parse(u16_enc(v) + rest) == Some((v, 2int)),
{
    let s = u16_enc(v) + rest;
    assert(s[0] == (v / 256) as u8 && s[1] == (v % 256) as u8);
    vstd::arithmetic::div_mod::lemma_fundamental_div_mod(v as int, 256);
    vstd::arithmetic::div_mod::lemma_mod_bound(v as int, 256);
    vstd::arithmetic::div_mod::lemma_div_pos_is_pos(v as int, 256);
}

impl Serialize for u16 {
    open spec fn enc(&self) -> Seq<u8> {
        u16_enc(*self)
    }

    open spec fn enc_ok(&self) -> bool {
        true
    }

    fn serialize(&self, out: &mut Vec<u8>) {
        proof {
            vstd::arithmetic::div_mod::lemma_mod_bound(*self as int, 256);
            vstd::arithmetic::div_mod::lemma_fundamental_div_mod(*self as int, 256);
            vstd::arithmetic::div_mod::lemma_div_pos_is_pos(*self as int, 256);
        }
        out.push((*self / 256) as u8);
        out.push((*self % 256) as u8);
        proof {
            assert(out@ =~= old(out)@ + u16_enc(*self));
        }
    }
}

impl Deserialize for u16 {
    open spec fn parse(s: Seq<u8>) -> Option<(u16, int)> {
        u16_parse(s)
    }

    fn deserialize(buf: &[u8], pos: usize) -> (r: Result<(Self, usize), ProtoError>) {
        if buf.len() - pos < 2 {
            proof {
                assert(<u16 as Deserialize>::parse(buf@.skip(pos as int)) is None);
            }
            return Err(ProtoError::Eof);
        }
        let hi = buf[pos];
        let lo = buf[pos + 1];
        let v: u16 = (hi as u16) * 256 + (lo as u16);
        proof {
            assert(buf@.skip(pos as int)[0] == hi && buf@.skip(pos as int)[1] == lo);
            assert(<u16 as Deserialize>::parse(buf@.skip(pos as int))
                == Some((v, 2int)));
        }
        Ok((v, pos + 2))
    }
}

/// Length-prefixed string encoding: a varint byte count, then the bytes.
pub open spec fn str_enc(b: Seq<u8>) -> Seq<u8> {
    varint_enc(b.len() as i32) + b
}

/// Parse of a length-prefixed string at the head of `s`. The byte count
/// must not exceed `MAX_STRING_BYTES` and the bytes must be valid UTF-8.
pub open spec fn str_parse(s: Seq<u8>) -> Option<(Seq<u8>, int)> {
    match varint_parse(s) {
        Some((n, ln)) => {
            if 0 <= n <= MAX_STRING_BYTES && s.len() >= ln + n {
                let b = s.subrange(ln, ln + n);
                if vstd::utf8::valid_utf8(b) {
                    Some((b, ln + n))
                } else {
                    None
                }
            } else {
                None
            }
        },
        None => None,
    }
}

/// Relies on `core::str::from_utf8`: it returns `Ok` exactly when its input
/// is valid UTF-8.
#[verifier::external_body]
fn check_utf8(b: &[u8]) -> (r: bool)
    ensures
        r == vstd::utf8::valid_utf8(b@),
{
    core::str::from_utf8(b).is_ok()
}

impl Serialize for Vec<u8> {
    open spec fn enc(&self) -> Seq<u8> {
        str_enc(self@)
    }

    open spec fn enc_ok(&self) -> bool {
        self@.len() <= i32::MAX
    }

    fn serialize(&self, out: &mut Vec<u8>) {
        write_varint(out, VarInt(self.len() as i32));
        let mut i: usize = 0;
        while i < self.len()
            invariant
                i <= self@.len(),
                out@ == old(out)@ + varint_enc(self@.len() as i32) + self@.take(i as int),
            decreases self@.len() - i,
        {
            out.push(self[i]);
            proof {
                assert(self@.take(i + 1) == self@.take(i as int) + seq![self@[i as int]]);
            }
            i = i + 1;
        }
        proof {
            assert(self@.take(self@.len() as int) == self@);
            assert(out@ == old(out)@ + (varint_enc(self@.len() as i32) + self@));
        }
    }
}

impl Deserialize for Vec<u8> {
    open spec fn parse(s: Seq<u8>) -> Option<(Seq<u8>, int)> {
        str_parse(s)
    }

    fn deserialize(buf: &[u8], pos: usize) -> (r: Result<(Self, usize), ProtoError>)
        ensures
            match r {
                Ok(_) => true,
                Err(e) => {
                    let s = buf@.skip(pos as int);
                    match varint_parse(s) {
                        None => e == ProtoError::VarInt || e == ProtoError::Eof,
                        Some((n, ln)) => {
                            &&& (!(0 <= n <= MAX_STRING_BYTES) ==> e == ProtoError::SizeLimit)
                            &&& (0 <= n <= MAX_STRING_BYTES && s.len() < ln + n ==> e
                                == ProtoError::Eof)
                            &&& (0 <= n <= MAX_STRING_BYTES && s.len() >= ln + n
                                && !vstd::utf8::valid_utf8(s.subrange(ln, ln + n)) ==> e
                                == ProtoError::Utf8)
                        },
                    }
                },
            },
    {
        let ghost s = buf@.skip(pos as int);
        let (v, lpos) = match read_varint(buf, pos) {
            Ok(ok) => ok,
            Err(e) => {
                proof {
                    assert(<Vec<u8> as Deserialize>::parse(s) is None);
                }
                return Err(e);
            },
        };
        let n = v.0;
        if n < 0 || n > MAX_STRING_BYTES as i32 {
            proof {
                assert(<Vec<u8> as Deserialize>::parse(s) is None);
            }
            return Err(ProtoError::SizeLimit);
        }
        let n = n as usize;
        if buf.len() - lpos < n {
            proof {
                assert(<Vec<u8> as Deserialize>::parse(s) is None);
            }
            return Err(ProtoError::Eof);
        }
        let bytes = vstd::slice::slice_subrange(buf, lpos, lpos + n);
        proof {
            let ln = lpos - pos;
            assert(s.subrange(ln, ln + n) =~= buf@.subrange(lpos as int, lpos + n));
        }
        if !check_utf8(bytes) {
            proof {
                assert(<Vec<u8> as Deserialize>::parse(s) is None);
            }
            return Err(ProtoError::Utf8);
        }
        let out = vstd::slice::slice_to_vec(bytes);
        proof {
            assert(<Vec<u8> as Deserialize>::parse(s) == Some((out@, lpos + n - pos)));
        }
        Ok((out, lpos + n))
    }
}

/// A string encoding parses back to the bytes it was made from, whatever
/// bytes follow it.
pub proof fn lemma_str_round_trip(b: Seq<u8>, rest: Seq<u8>)
    requires
        b.len() <= MAX_STRING_BYTES,
        vstd::utf8::valid_utf8(b),
    ensures
        str_parse(str_enc(b) + rest) == Some((b, str_enc(b).len() as int)),
{
    let n = b.len() as i32;
    let s = str_enc(b) + rest;
    assert(s =~= varint_enc(n) + (b + rest));
    lemma_varint_round_trip(n, b + rest);
    let ln = varint_enc(n).len() as int;
    assert(varint_parse(s) == Some((n, ln)));
    assert(s.subrange(ln, ln + n) =~= b);
}

} // verus!
