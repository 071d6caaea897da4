//! The accepted client: its decoded handshake, its sanitized hostname, and
//! the state it asked for.

use vstd::prelude::*;

use crate::addr::{addr_hash_bytes, fnv64, push_addr_hash_bytes, SockAddr};
use crate::encoding::{Deserialize, PacketId};
use crate::error::{HopperError, ProtoError};
use crate::packet::Packet;
use crate::packets::{Handshake, LoginStart, State};

verus! {

/// The prefix of `s` before its first NUL or `'/'` byte.
pub open spec fn sanitize(s: Seq<u8>) -> Seq<u8>
    decreases s.len(),
{
    if s.len() == 0 {
        s
    } else if s[0] == 0 || s[0] == 47 {
        Seq::empty()
    } else {
        seq![s[0]] + sanitize(s.drop_first())
    }
}

pub proof fn lemma_sanitize_no_separator(s: Seq<u8>)
    ensures
        forall|i: int| 0 <= i < sanitize(s).len() ==> sanitize(s)[i] != 0 && sanitize(s)[i] != 47,
    decreases s.len(),
{
    if s.len() > 0 && s[0] != 0 && s[0] != 47 {
        lemma_sanitize_no_separator(s.drop_first());
        assert forall|i: int| 0 <= i < sanitize(s).len() implies sanitize(s)[i] != 0
            && sanitize(s)[i] != 47 by {
            if i > 0 {
                assert(sanitize(s)[i] == sanitize(s.drop_first())[i - 1]);
            }
        }
    }
}

pub proof fn lemma_sanitize_clean(s: Seq<u8>)
    requires
        forall|i: int| 0 <= i < s.len() ==> s[i] != 0 && s[i] != 47,
    ensures
        sanitize(s) == s,
    decreases s.len(),
{
    if s.len() > 0 {
        lemma_sanitize_clean(s.drop_first());
        assert(seq![s[0]] + s.drop_first() =~= s);
    }
}

/// Sanitization is idempotent: a hostname sanitized once sanitizes to
/// itself.
pub proof fn lemma_sanitize_idempotent(s: Seq<u8>)
    ensures
        sanitize(sanitize(s)) == sanitize(s),
{
    lemma_sanitize_no_separator(s);
    lemma_sanitize_clean(sanitize(s));
}

proof fn lemma_sanitize_take(s: Seq<u8>, i: int)
    requires
        0 <= i <= s.len(),
        forall|j: int| 0 <= j < i ==> s[j] != 0 && s[j] != 47,
        i < s.len() ==> (s[i] == 0 || s[i] == 47),
    ensures
        sanitize(s) == s.take(i),
    decreases i,
{
    if s.len() == 0 {
        assert(s.take(0) =~= s);
    } else if i == 0 {
        if s.len() > 0 {
            assert(s[0] == 0 || s[0] == 47);
        }
        assert(s.take(0) =~= Seq::<u8>::empty());
    } else {
        lemma_sanitize_take(s.drop_first(), i - 1);
        assert(seq![s[0]] + s.drop_first().take(i - 1) =~= s.take(i));
    }
}

/// The routing key of a connection: the sanitized, non-empty prefix of the
/// handshake's server address.
#[derive(Debug, Clone)]
pub struct Hostname {
    pub bytes: Vec<u8>,
}

impl View for Hostname {
    type V = Seq<u8>;

    open spec fn view(&self) -> Seq<u8> {
        self.bytes@
    }
}

impl Hostname {
    /// Splits `s` at the first NUL or `'/'` and keeps the prefix; an empty
    /// prefix yields `None`.
    pub fn from_str(s: &[u8]) -> (r: Option<Hostname>)
        ensures
            match r {
                Some(h) => h@ == sanitize(s@) && sanitize(s@).len() > 0,
                None => sanitize(s@).len() == 0,
            },
    {
        let mut i: usize = 0;
        while i < s.len() && s[i] != 0 && s[i] != 47
            invariant
                i <= s@.len(),
                forall|j: int| 0 <= j < i ==> s@[j] != 0 && s@[j] != 47,
            decreases s@.len() - i,
        {
            i = i + 1;
        }
        proof {
            lemma_sanitize_take(s@, i as int);
        }
        if i == 0 {
            return None;
        }
        let prefix = vstd::slice::slice_subrange(s, 0, i);
        proof {
            assert(s@.subrange(0, i as int) =~= s@.take(i as int));
        }
        Some(Hostname { bytes: vstd::slice::slice_to_vec(prefix) })
    }
}

/// True when two byte strings hold the same bytes.
pub fn bytes_eq(a: &[u8], b: &[u8]) -> (r: bool)
    ensures
        r == (a@ == b@),
{
    if a.len() != b.len() {
        proof {
            assert(a@ != b@);
        }
        return false;
    }
    let mut i: usize = 0;
    while i < a.len()
        invariant
            i <= a@.len(),
            a@.len() == b@.len(),
            forall|j: int| 0 <= j < i ==> a@[j] == b@[j],
        decreases a@.len() - i,
    {
        if a[i] != b[i] {
            proof {
                assert(a@[i as int] != b@[i as int]);
            }
            return false;
        }
        i = i + 1;
    }
    proof {
        assert(a@ =~= b@);
    }
    true
}

/// A frame together with its decoded form; the decoding took place, so no
/// access needs to re-parse.
#[derive(Debug)]
pub struct DecodedPacket<T> {
    pub packet: Packet,
    pub data: T,
}

impl<T: Deserialize + PacketId> DecodedPacket<T> {
    /// The decoded value agrees with the frame it came from.
    pub open spec fn wf(self) -> bool {
        &&& self.packet.packet_id.0 == T::spec_id()
        &&& match T::parse(self.packet.data@) {
            Some((w, _)) => w == self.data@,
            None => false,
        }
    }

    /// Decodes a frame, keeping its raw bytes beside the decoded value.
    pub fn try_from(packet: Packet) -> (r: Result<Self, ProtoError>)
        ensures
            match r {
                Ok(d) => d.wf() && d.packet.packet_id == packet.packet_id && d.packet.data@
                    == packet.data@,
                Err(e) => {
                    ||| (e == ProtoError::UnexpectedPacket && packet.packet_id.0 != T::spec_id())
                    ||| (packet.packet_id.0 == T::spec_id() && T::parse(packet.data@) is None)
                },
            },
    {
        let data = match packet.deserialize_owned::<T>() {
            Ok(d) => d,
            Err(e) => {
                return Err(e);
            },
        };
        Ok(DecodedPacket { packet, data })
    }

    /// The decoded value, dropping the raw frame.
    pub fn into_data(self) -> (r: T)
        ensures
            r == self.data,
    {
        self.data
    }

    /// The decoded value.
    pub fn data(&self) -> (r: &T)
        ensures
            r == &self.data,
    {
        &self.data
    }
}

/// A frame that may not have been decoded yet: the raw bytes are kept, the
/// decoded form is filled in on first access and then reused.
#[derive(Debug)]
pub struct LazyPacket<T> {
    pub packet: Packet,
    pub data: Option<T>,
}

impl<T: Deserialize + PacketId + Clone> LazyPacket<T> {
    /// Any cached value agrees with the frame.
    pub open spec fn wf(self) -> bool {
        &&& self.packet.packet_id.0 == T::spec_id()
        &&& match self.data {
            Some(d) => match T::parse(self.packet.data@) {
                Some((w, _)) => w == d@,
                None => false,
            },
            None => true,
        }
    }

    /// Wraps a frame after checking its id; nothing is decoded yet.
    pub fn try_from(packet: Packet) -> (r: Result<Self, ProtoError>)
        ensures
            match r {
                Ok(l) => {
                    &&& l.wf()
                    &&& l.packet.packet_id == packet.packet_id
                    &&& l.packet.data@ == packet.data@
                    &&& l.data is None
                },
                Err(e) => e == ProtoError::UnexpectedPacket && packet.packet_id.0
                    != T::spec_id(),
            },
    {
        if packet.packet_id.0 != T::packet_id() {
            return Err(ProtoError::UnexpectedPacket);
        }
        Ok(LazyPacket { packet, data: None })
    }

}

impl LazyPacket<LoginStart> {
    /// The decoded value, parsing the raw bytes on the first call and
    /// caching the result: decoding is idempotent and single-entry.
    pub fn data(&mut self) -> (r: Result<LoginStart, ProtoError>)
        requires
            old(self).wf(),
        ensures
            final(self).wf(),
            final(self).packet == old(self).packet,
            match r {
                Ok(v) => match <LoginStart as Deserialize>::parse(old(self).packet.data@) {
                    Some((w, _)) => w == v@ && final(self).data is Some,
                    None => false,
                },
                Err(_) => <LoginStart as Deserialize>::parse(old(self).packet.data@) is None
                    && final(self).data == old(self).data,
            },
    {
        if let Some(ref d) = self.data {
            return Ok(LoginStart { username: vstd::slice::slice_to_vec(d.username.as_slice()) });
        }
        match self.packet.deserialize_owned::<LoginStart>() {
            Ok(d) => {
                let copy = LoginStart { username: vstd::slice::slice_to_vec(
                    d.username.as_slice(),
                ) };
                self.data = Some(d);
                Ok(copy)
            },
            Err(e) => Err(e),
        }
    }
}

/// What follows the handshake: a status ping, or a login whose LoginStart
/// frame was read and kept.
#[derive(Debug)]
pub enum NextState {
    Login(LazyPacket<LoginStart>),
    Status,
}

/// A connection that finished its opening exchange: peer address, decoded
/// handshake, sanitized hostname, and the requested next state.
#[derive(Debug)]
pub struct IncomingClient {
    /// The peer's source address.
    pub address: SockAddr,
    pub handshake: DecodedPacket<Handshake>,
    pub next_state: NextState,
    /// Sanitized hostname; differs from `handshake.server_address`, which
    /// may still carry extra information after a separator.
    pub hostname: Hostname,
}

impl IncomingClient {
    /// All parts agree: the handshake is decoded from its frame, the
    /// hostname is its sanitized address, and the kept LoginStart frame is
    /// present exactly for a login.
    pub open spec fn wf(self) -> bool {
        &&& self.handshake.wf()
        &&& self.hostname@ == sanitize(self.handshake.data.server_address@)
        &&& self.hostname@.len() > 0
        &&& match self.next_state {
            NextState::Login(l) => l.wf() && self.handshake.data.next_state == State::Login,
            NextState::Status => self.handshake.data.next_state == State::Status,
        }
    }

    /// Hash used for load balancing: a deterministic function of the peer
    /// address and the hostname, and of nothing else.
    pub open spec fn hash_spec(self) -> u64 {
        fnv64(addr_hash_bytes(self.address) + self.hostname@)
    }

    /// A non-cryptographic hash for load balancing.
    pub fn hash(&self) -> (r: u64)
        ensures
            r == self.hash_spec(),
    {
        let mut bytes: Vec<u8> = Vec::new();
        push_addr_hash_bytes(&mut bytes, &self.address);
        let mut i: usize = 0;
        while i < self.hostname.bytes.len()
            invariant
                i <= self.hostname.bytes@.len(),
                bytes@ == addr_hash_bytes(self.address) + self.hostname.bytes@.take(i as int),
            decreases self.hostname.bytes@.len() - i,
        {
            bytes.push(self.hostname.bytes[i]);
            proof {
                assert(self.hostname.bytes@.take(i + 1) == self.hostname.bytes@.take(i as int)
                    + seq![self.hostname.bytes@[i as int]]);
            }
            i = i + 1;
        }
        proof {
            assert(self.hostname.bytes@.take(self.hostname.bytes@.len() as int)
                == self.hostname.bytes@);
        }
        crate::addr::fnv64_hash(bytes.as_slice())
    }

    /// Builds the client record from the frames the opening exchange
    /// produced: the handshake frame, and the LoginStart frame exactly when
    /// the handshake asks for login.
    pub fn from_packets(address: SockAddr, handshake_packet: Packet, login_packet: Option<
        Packet,
    >) -> (r: Result<IncomingClient, HopperError>)
        ensures
            match r {
                Ok(c) => {
                    &&& c.wf()
                    &&& c.address == address
                    &&& match crate::packets::handshake_parse(handshake_packet.data@) {
                        Some((m, _)) => c.handshake.data@ == m && c.hostname@ == sanitize(
                            m.server_address,
                        ),
                        None => false,
                    }
                    &&& handshake_packet.packet_id.0 == 0
                    &&& c.handshake.packet.data@ == handshake_packet.data@
                    &&& match c.next_state {
                        NextState::Login(l) => match login_packet {
                            Some(p) => l.packet.data@ == p.data@,
                            None => false,
                        },
                        NextState::Status => true,
                    }
                },
                Err(e) => {
                    ||| (handshake_packet.packet_id.0 != 0 && e == HopperError::Protocol(
                        ProtoError::UnexpectedPacket,
                    ))
                    ||| (handshake_packet.packet_id.0 == 0 && crate::packets::handshake_parse(
                        handshake_packet.data@,
                    ) is None && e is Protocol)
                    ||| (handshake_packet.packet_id.0 == 0 && match crate::packets::handshake_parse(
                        handshake_packet.data@,
                    ) {
                        Some((m, _)) => {
                            ||| (sanitize(m.server_address).len() == 0 && e
                                == HopperError::Invalid)
                            ||| (sanitize(m.server_address).len() > 0 && m.next_state
                                == State::Login && login_packet is None && e
                                == HopperError::Protocol(ProtoError::Eof))
                            ||| (sanitize(m.server_address).len() > 0 && m.next_state
                                == State::Login && match login_packet {
                                Some(p) => p.packet_id.0 != 0,
                                None => false,
                            } && e == HopperError::Protocol(ProtoError::UnexpectedPacket))
                        },
                        None => false,
                    })
                },
            },
    {
        let handshake: DecodedPacket<Handshake> = match DecodedPacket::try_from(
            handshake_packet,
        ) {
            Ok(d) => d,
            Err(e) => {
                return Err(HopperError::Protocol(e));
            },
        };
        let hostname = match Hostname::from_str(handshake.data.server_address.as_slice()) {
            Some(h) => h,
            None => {
                return Err(HopperError::Invalid);
            },
        };
        let next_state = match handshake.data.next_state {
            State::Status => NextState::Status,
            State::Login => {
                let packet = match login_packet {
                    Some(p) => p,
                    None => {
                        return Err(HopperError::Protocol(ProtoError::Eof));
                    },
                };
                match LazyPacket::try_from(packet) {
                    Ok(l) => NextState::Login(l),
                    Err(e) => {
                        return Err(HopperError::Protocol(e));
                    },
                }
            },
        };
        Ok(IncomingClient { address, handshake, next_state, hostname })
    }
}

} // verus!
