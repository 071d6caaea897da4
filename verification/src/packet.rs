//! Raw packet frames: a varint total length, a varint packet id, and the
//! remaining payload bytes.

use vstd::prelude::*;

use crate::encoding::{Deserialize, PacketId, Serialize};
use crate::error::ProtoError;
use crate::varint::{
    lemma_varint_enc_len, lemma_varint_round_trip, read_varint, varint_enc, varint_parse,
    write_varint, VarInt,
};
use crate::MAX_PACKET;

verus! {

/// One wire frame: the packet id and the undecoded payload.
#[derive(Debug)]
pub struct Packet {
    pub packet_id: VarInt,
    pub data: Vec<u8>,
}

/// Byte encoding of a frame: varint total length (id plus payload), varint
/// packet id, payload.
pub open spec fn frame_enc(id: i32, payload: Seq<u8>) -> Seq<u8> {
    varint_enc((varint_enc(id).len() + payload.len()) as i32) + varint_enc(id) + payload
}

/// Parse of the frame at the head of `s`: the packet id, the payload, and
/// the bytes consumed. The declared length must lie in `[1, MAX_PACKET]`,
/// cover the id, and be available in full.
pub open spec fn frame_parse(s: Seq<u8>) -> Option<((i32, Seq<u8>), int)> {
    match varint_parse(s) {
        Some((l, ln)) => {
            if 1 <= l <= MAX_PACKET {
                match varint_parse(s.skip(ln)) {
                    Some((id, idn)) => {
                        if idn <= l && s.len() >= ln + l {
                            Some(((id, s.subrange(ln + idn, ln + l)), ln + l))
                        } else {
                            None
                        }
                    },
                    None => None,
                }
            } else {
                None
            }
        },
        None => None,
    }
}

impl Packet {
    /// Encodes a typed packet into a raw frame.
    pub fn serialize<T: Serialize + PacketId>(packet: &T) -> (r: Result<Packet, ProtoError>)
        requires
            packet.enc_ok(),
        ensures
            match r {
                Ok(p) => p.packet_id.0 == T::spec_id() && p.data@ == packet.enc(),
                Err(_) => false,
            },
    {
        let mut data: Vec<u8> = Vec::new();
        packet.serialize(&mut data);
        Ok(Packet { packet_id: VarInt(T::packet_id()), data })
    }

    /// Decodes the typed packet carried by this frame. Fails with
    /// `UnexpectedPacket` exactly when the frame's id differs from `T`'s.
    pub fn deserialize_owned<T: Deserialize + PacketId>(&self) -> (r: Result<T, ProtoError>)
        ensures
            match r {
                Ok(v) => self.packet_id.0 == T::spec_id() && match T::parse(self.data@) {
                    Some((w, _)) => w == v@,
                    None => false,
                },
                Err(e) => {
                    &&& (e == ProtoError::UnexpectedPacket <==> self.packet_id.0
                        != T::spec_id())
                    &&& (self.packet_id.0 == T::spec_id() ==> T::parse(self.data@) is None)
                },
            },
    {
        if self.packet_id.0 != T::packet_id() {
            return Err(ProtoError::UnexpectedPacket);
        }
        proof {
            assert(self.data@.skip(0) =~= self.data@);
        }
        match T::deserialize(self.data.as_slice(), 0) {
            Ok((v, _)) => Ok(v),
            Err(e) => Err(e),
        }
    }

    /// Appends this frame's wire bytes to `out` and returns the count
    /// written.
    pub fn write_frame(&self, out: &mut Vec<u8>) -> (n: usize)
        requires
            self.data@.len() + 5 <= i32::MAX,
        ensures
            final(out)@ == old(out)@ + frame_enc(self.packet_id.0, self.data@),
            n == frame_enc(self.packet_id.0, self.data@).len(),
    {
        let mut body: Vec<u8> = Vec::new();
        write_varint(&mut body, self.packet_id);
        proof {
            lemma_varint_enc_len(crate::varint::to_unsigned(self.packet_id.0));
        }
        let mut i: usize = 0;
        while i < self.data.len()
            invariant
                i <= self.data@.len(),
                body@ == varint_enc(self.packet_id.0) + self.data@.take(i as int),
            decreases self.data@.len() - i,
        {
            body.push(self.data[i]);
            proof {
                assert(self.data@.take(i + 1) == self.data@.take(i as int)
                    + seq![self.data@[i as int]]);
            }
            i = i + 1;
        }
        proof {
            assert(self.data@.take(self.data@.len() as int) == self.data@);
        }
        let ln = write_varint(out, VarInt(body.len() as i32));
        let mut j: usize = 0;
        while j < body.len()
            invariant
                j <= body@.len(),
                out@ == old(out)@ + varint_enc(body@.len() as i32) + body@.take(j as int),
            decreases body@.len() - j,
        {
            out.push(body[j]);
            proof {
                assert(body@.take(j + 1) == body@.take(j as int) + seq![body@[j as int]]);
            }
            j = j + 1;
        }
        proof {
            assert(body@.take(body@.len() as int) == body@);
            assert(out@ == old(out)@ + (varint_enc(body@.len() as i32) + body@));
            assert(varint_enc(body@.len() as i32) + body@
                =~= frame_enc(self.packet_id.0, self.data@));
        }
        ln + body.len()
    }

    /// Reads one frame at `pos` in `buf`. `SizeLimit` rejects a declared
    /// length outside `[1, MAX_PACKET]` or one shorter than its packet id;
    /// `Eof` asks for more bytes.
    pub fn read_frame(buf: &[u8], pos: usize) -> (r: Result<(Packet, usize), ProtoError>)
        requires
            pos <= buf@.len(),
        ensures
            match r {
                Ok((p, newpos)) => {
                    &&& frame_parse(buf@.skip(pos as int))
                        == Some(((p.packet_id.0, p.data@), newpos - pos))
                    &&& pos < newpos <= buf@.len()
                },
                Err(e) => {
                    &&& frame_parse(buf@.skip(pos as int)) is None
                    &&& (e == ProtoError::VarInt || e == ProtoError::Eof
                        || e == ProtoError::SizeLimit)
                },
            },
    {
        let blen = buf.len();
        let (l, lpos) = match read_varint(buf, pos) {
            Ok(ok) => ok,
            Err(e) => {
                return Err(e);
            },
        };
        if l.0 < 1 || l.0 > MAX_PACKET as i32 {
            return Err(ProtoError::SizeLimit);
        }
        let l = l.0 as usize;
        let (id, idpos) = match read_varint(buf, lpos) {
            Ok(ok) => ok,
            Err(e) => {
                proof {
                    assert(buf@.skip(pos as int).skip(lpos - pos) =~= buf@.skip(lpos as int));
                }
                return Err(e);
            },
        };
        proof {
            assert(buf@.skip(pos as int).skip(lpos - pos) =~= buf@.skip(lpos as int));
        }
        let idn = idpos - lpos;
        if idn > l {
            return Err(ProtoError::SizeLimit);
        }
        let payload_len = l - idn;
        if blen - idpos < payload_len {
            return Err(ProtoError::Eof);
        }
        let bytes = vstd::slice::slice_subrange(buf, idpos, idpos + payload_len);
        let data = vstd::slice::slice_to_vec(bytes);
        proof {
            let s = buf@.skip(pos as int);
            let ln = lpos - pos;
            assert(s.subrange(ln + idn, ln + l) =~= buf@.subrange(idpos as int, idpos
                + payload_len));
        }
        Ok((Packet { packet_id: id, data }, idpos + payload_len))
    }
}

/// A frame encoding parses back to the id and payload it was made from,
/// whatever bytes follow it.
pub proof fn lemma_frame_round_trip(id: i32, payload: Seq<u8>, rest: Seq<u8>)
    requires
        varint_enc(id).len() + payload.len() <= MAX_PACKET,
    ensures
        frame_parse(frame_enc(id, payload) + rest)
            == Some(((id, payload), frame_enc(id, payload).len() as int)),
{
    lemma_varint_enc_len(crate::varint::to_unsigned(id));
    let idn = varint_enc(id).len() as int;
    let l = (idn + payload.len()) as i32;
    let s = frame_enc(id, payload) + rest;
    assert(s =~= varint_enc(l) + (varint_enc(id) + payload + rest));
    lemma_varint_round_trip(l, varint_enc(id) + payload + rest);
    let ln = varint_enc(l).len() as int;
    assert(varint_parse(s) == Some((l, ln)));
    assert(s.skip(ln) =~= varint_enc(id) + (payload + rest));
    lemma_varint_round_trip(id, payload + rest);
    assert(varint_parse(s.skip(ln)) == Some((id, idn)));
    assert(s.subrange(ln + idn, ln + l) =~= payload);
}

} // verus!
