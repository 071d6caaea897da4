//! Connection primers: the bytes written to a freshly dialed backend to
//! convey the real client identity, under one of four forwarding
//! conventions.

use vstd::prelude::*;

use crate::addr::{
    ip_text, lemma_addr_text_len, push_ip_text, push_sockaddr_text, sockaddr_text, IpAddress,
    SockAddr,
};
use crate::client::DecodedPacket;
use crate::encoding::{u16_enc, Serialize};
use crate::error::HopperError;
use crate::packet::{frame_enc, Packet};
use crate::packets::{handshake_enc, Handshake, HandshakeModel};
use crate::uuid::{offline_uuid, uuid_text, PlayerUuid};
use crate::varint::VarInt;

verus! {

/// The convention used to tell the backend the real client identity.
#[derive(Debug, Default, Clone, Copy, PartialEq, Eq, Structural)]
pub enum ForwardStrategy {
    /// No forwarding: the handshake passes through verbatim.
    #[default]
    Passthrough,
    BungeeCord,
    RealIP,
    ProxyProtocol,
}

/// Index of the first occurrence of `b` in `s`, or `s.len()` when absent.
pub open spec fn first_index_of(s: Seq<u8>, b: u8) -> int
    decreases s.len(),
{
    if s.len() == 0 {
        0
    } else if s[0] == b {
        0
    } else {
        1 + first_index_of(s.drop_first(), b)
    }
}

/// True when `b` occurs in `s`.
pub open spec fn contains_byte(s: Seq<u8>, b: u8) -> bool {
    first_index_of(s, b) < s.len()
}

pub proof fn lemma_first_index_range(s: Seq<u8>, b: u8)
    ensures
        0 <= first_index_of(s, b) <= s.len(),
        first_index_of(s, b) < s.len() ==> s[first_index_of(s, b)] == b,
        forall|j: int| 0 <= j < first_index_of(s, b) ==> s[j] != b,
    decreases s.len(),
{
    if s.len() > 0 && s[0] != b {
        lemma_first_index_range(s.drop_first(), b);
        let f = first_index_of(s, b);
        assert(f == 1 + first_index_of(s.drop_first(), b));
        if f < s.len() {
            assert(s[f] == s.drop_first()[f - 1]);
        }
        assert forall|j: int| 0 <= j < f implies s[j] != b by {
            if j > 0 {
                assert(s[j] == s.drop_first()[j - 1]);
            }
        }
    }
}

proof fn lemma_first_index_at(s: Seq<u8>, b: u8, i: int)
    requires
        0 <= i <= s.len(),
        forall|j: int| 0 <= j < i ==> s[j] != b,
        i < s.len() ==> s[i] == b,
    ensures
        first_index_of(s, b) == i,
    decreases i,
{
    if s.len() > 0 {
        if i == 0 {
        } else {
            lemma_first_index_at(s.drop_first(), b, i - 1);
        }
    }
}

/// Finds the first occurrence of `b` in `s`.
pub fn find_byte(s: &[u8], b: u8) -> (r: Option<usize>)
    ensures
        match r {
            Some(i) => i == first_index_of(s@, b) && i < s@.len() && s@[i as int] == b,
            None => !contains_byte(s@, b),
        },
{
    let mut i: usize = 0;
    while i < s.len() && s[i] != b
        invariant
            i <= s@.len(),
            forall|j: int| 0 <= j < i ==> s@[j] != b,
        decreases s@.len() - i,
    {
        i = i + 1;
    }
    proof {
        lemma_first_index_at(s@, b, i as int);
    }
    if i < s.len() {
        Some(i)
    } else {
        None
    }
}

/// The handshake parse guarantees its address is short and valid UTF-8.
pub proof fn lemma_handshake_parse_wf(s: Seq<u8>)
    ensures
        match crate::packets::handshake_parse(s) {
            Some((m, _)) => crate::packets::handshake_wf(m),
            None => true,
        },
{
    if crate::packets::handshake_parse(s) is Some {
        let n1 = crate::varint::varint_parse(s)->Some_0.1;
        let s2 = s.skip(n1);
        let sp2 = crate::encoding::str_parse(s2);
        assert(sp2 is Some);
        let n = crate::varint::varint_parse(s2)->Some_0.0;
        let ln = crate::varint::varint_parse(s2)->Some_0.1;
        let b = s2.subrange(ln, ln + n);
        assert(crate::varint::varint_parse(s2) is Some);
        assert(0 <= n <= crate::encoding::MAX_STRING_BYTES && s2.len() >= ln + n);
        assert(vstd::utf8::valid_utf8(b));
        assert(sp2->Some_0.0 == b);
        assert(crate::packets::handshake_parse(s)->Some_0.0.server_address == b);
        crate::varint::lemma_varint_len_rec_range(s2, 5);
        assert(ln >= 1);
        assert(b.len() == n);
        assert(crate::packets::handshake_wf(crate::packets::handshake_parse(s)->Some_0.0));
    }
}

/// The encoded handshake payload is at most 17 bytes longer than its
/// address.
pub proof fn lemma_handshake_enc_len(m: HandshakeModel)
    ensures
        handshake_enc(m).len() <= 17 + m.server_address.len(),
{
    crate::varint::lemma_varint_enc_len(crate::varint::to_unsigned(m.protocol_version));
    crate::varint::lemma_varint_enc_len(
        crate::varint::to_unsigned(m.server_address.len() as i32),
    );
    crate::varint::lemma_varint_enc_len(crate::varint::to_unsigned(m.next_state.code_spec()));
}

/// The UUID text of 16 bytes is exactly 36 bytes long.
pub proof fn lemma_uuid_text_len(d: Seq<u8>)
    requires
        d.len() == 16,
    ensures
        uuid_text(d).len() == 36,
{
    lemma_hex_pairs_len(d.subrange(0, 4));
    lemma_hex_pairs_len(d.subrange(4, 6));
    lemma_hex_pairs_len(d.subrange(6, 8));
    lemma_hex_pairs_len(d.subrange(8, 10));
    lemma_hex_pairs_len(d.subrange(10, 16));
}

proof fn lemma_hex_pairs_len(s: Seq<u8>)
    ensures
        crate::uuid::hex_pairs(s).len() == 2 * s.len(),
    decreases s.len(),
{
    if s.len() > 0 {
        lemma_hex_pairs_len(s.drop_first());
    }
}

/// The rewritten address of the BungeeCord convention: the original, a NUL,
/// the client IP text, a NUL, the offline UUID text.
pub open spec fn bungee_address(addr: Seq<u8>, ip: IpAddress, uuid: Seq<u8>) -> Seq<u8> {
    addr + seq![0u8] + ip_text(ip) + seq![0u8] + uuid_text(uuid)
}

/// A handshake model with its address rewritten for BungeeCord.
pub open spec fn bungee_model(m: HandshakeModel, peer: SockAddr, uuid: Seq<u8>) -> HandshakeModel {
    HandshakeModel { server_address: bungee_address(m.server_address, peer.ip, uuid), ..m }
}

/// The BungeeCord primer: rewrites the handshake to carry the client's IP
/// and offline UUID.
#[derive(Debug)]
pub struct BungeeCord {
    pub player_addr: SockAddr,
    pub player_uuid: PlayerUuid,
}

impl BungeeCord {
    /// Builds the primer for a player: the offline UUID is computed from
    /// the username; online-mode servers simply ignore it.
    pub fn from_username(player_addr: SockAddr, player_name: &[u8]) -> (r: BungeeCord)
        ensures
            r.player_addr == player_addr,
            r.player_uuid@ == offline_uuid(player_name@),
            r.player_uuid@.len() == 16,
    {
        BungeeCord { player_addr, player_uuid: PlayerUuid::offline_player(player_name) }
    }

    /// The frame to write to the backend: the handshake with its address
    /// rewritten. An address that already carries a NUL is a hijack
    /// attempt and is rejected with `Invalid`; nothing is produced then.
    pub fn prime_connection(&self, og_handshake: &DecodedPacket<Handshake>) -> (r: Result<
        Vec<u8>,
        HopperError,
    >)
        requires
            og_handshake.wf(),
            self.player_uuid@.len() == 16,
        ensures
            match r {
                Ok(out) => !contains_byte(og_handshake.data.server_address@, 0) && out@
                    == frame_enc(
                    0,
                    handshake_enc(
                        bungee_model(og_handshake.data@, self.player_addr, self.player_uuid@),
                    ),
                ),
                Err(e) => e == HopperError::Invalid && contains_byte(
                    og_handshake.data.server_address@,
                    0,
                ),
            },
    {
        let handshake = &og_handshake.data;
        if find_byte(handshake.server_address.as_slice(), 0).is_some() {
            return Err(HopperError::Invalid);
        }
        let mut address = vstd::slice::slice_to_vec(handshake.server_address.as_slice());
        address.push(0);
        push_ip_text(&mut address, &self.player_addr.ip);
        address.push(0);
        let text = self.player_uuid.text();
        let mut k: usize = 0;
        while k < text.len()
            invariant
                k <= text@.len(),
                address@ == handshake.server_address@ + seq![0u8] + ip_text(
                    self.player_addr.ip,
                ) + seq![0u8] + text@.take(k as int),
            decreases text@.len() - k,
        {
            address.push(text[k]);
            proof {
                assert(text@.take(k + 1) == text@.take(k as int) + seq![text@[k as int]]);
            }
            k = k + 1;
        }
        proof {
            assert(text@.take(text@.len() as int) == text@);
            lemma_handshake_parse_wf(og_handshake.packet.data@);
            lemma_addr_text_len(self.player_addr);
            lemma_uuid_text_len(self.player_uuid@);
        }
        let rewritten = Handshake {
            protocol_version: handshake.protocol_version,
            server_address: address,
            server_port: handshake.server_port,
            next_state: handshake.next_state,
        };
        proof {
            assert(rewritten@ == bungee_model(
                og_handshake.data@,
                self.player_addr,
                self.player_uuid@,
            ));
            lemma_handshake_enc_len(rewritten@);
        }
        let packet = match Packet::serialize(&rewritten) {
            Ok(p) => p,
            Err(_) => {
                return Err(HopperError::Invalid);
            },
        };
        let mut out: Vec<u8> = Vec::new();
        packet.write_frame(&mut out);
        Ok(out)
    }
}

/// The insertion point of the RealIP payload: just before the first NUL
/// (one byte earlier, where an FML marker follows), or the end of the
/// address.
pub open spec fn realip_insert_index(addr: Seq<u8>) -> int {
    if contains_byte(addr, 0) {
        first_index_of(addr, 0) - 1
    } else {
        addr.len() as int
    }
}

/// The rewritten address of the RealIP convention: `///` and the client
/// socket address text, inserted at the computed index.
pub open spec fn realip_address(addr: Seq<u8>, peer: SockAddr) -> Seq<u8> {
    addr.take(realip_insert_index(addr)) + seq![47u8, 47u8, 47u8] + sockaddr_text(peer)
        + addr.skip(realip_insert_index(addr))
}

/// A handshake model with its address rewritten for RealIP.
pub open spec fn realip_model(m: HandshakeModel, peer: SockAddr) -> HandshakeModel {
    HandshakeModel { server_address: realip_address(m.server_address, peer), ..m }
}

/// The RealIP (v2.4) primer: injects the client address into the handshake
/// address at the FML boundary.
#[derive(Debug)]
pub struct RealIP {
    pub player_addr: SockAddr,
}

impl RealIP {
    pub fn new(player_addr: SockAddr) -> (r: RealIP)
        ensures
            r.player_addr == player_addr,
    {
        RealIP { player_addr }
    }

    /// The frame to write to the backend: the handshake with the client
    /// address injected. An address that already carries a `'/'` is a
    /// hijack attempt and is rejected with `Invalid`.
    pub fn prime_connection(&self, og_handshake: &DecodedPacket<Handshake>) -> (r: Result<
        Vec<u8>,
        HopperError,
    >)
        requires
            og_handshake.wf(),
            og_handshake.data.server_address@.len() > 0 ==> og_handshake.data.server_address@[0]
                != 0,
        ensures
            match r {
                Ok(out) => !contains_byte(og_handshake.data.server_address@, 47) && out@
                    == frame_enc(0, handshake_enc(realip_model(og_handshake.data@, self.player_addr))),
                Err(e) => e == HopperError::Invalid && contains_byte(
                    og_handshake.data.server_address@,
                    47,
                ),
            },
    {
        let handshake = &og_handshake.data;
        let src = handshake.server_address.as_slice();
        if find_byte(src, 47).is_some() {
            return Err(HopperError::Invalid);
        }
        let insert_index: usize = match find_byte(src, 0) {
            Some(i) => i - 1,
            None => handshake.server_address.len(),
        };
        proof {
            lemma_first_index_range(src@, 0);
        }
        let mut address: Vec<u8> = Vec::new();
        let head = vstd::slice::slice_subrange(src, 0, insert_index);
        let mut j: usize = 0;
        while j < head.len()
            invariant
                j <= head@.len(),
                address@ == head@.take(j as int),
            decreases head@.len() - j,
        {
            address.push(head[j]);
            proof {
                assert(head@.take(j + 1) == head@.take(j as int) + seq![head@[j as int]]);
            }
            j = j + 1;
        }
        proof {
            assert(head@.take(head@.len() as int) == head@);
            assert(head@ =~= src@.take(insert_index as int));
        }
        address.push(47);
        address.push(47);
        address.push(47);
        push_sockaddr_text(&mut address, &self.player_addr);
        let tail = vstd::slice::slice_subrange(src, insert_index, src.len());
        let mut j2: usize = 0;
        let ghost before_tail = address@;
        while j2 < tail.len()
            invariant
                j2 <= tail@.len(),
                address@ == before_tail + tail@.take(j2 as int),
            decreases tail@.len() - j2,
        {
            address.push(tail[j2]);
            proof {
                assert(tail@.take(j2 + 1) == tail@.take(j2 as int) + seq![tail@[j2 as int]]);
            }
            j2 = j2 + 1;
        }
        proof {
            assert(tail@.take(tail@.len() as int) == tail@);
            assert(tail@ =~= src@.skip(insert_index as int));
            assert(address@ =~= realip_address(handshake.server_address@, self.player_addr));
            lemma_handshake_parse_wf(og_handshake.packet.data@);
            lemma_addr_text_len(self.player_addr);
        }
        let rewritten = Handshake {
            protocol_version: handshake.protocol_version,
            server_address: address,
            server_port: handshake.server_port,
            next_state: handshake.next_state,
        };
        proof {
            assert(rewritten@ == realip_model(og_handshake.data@, self.player_addr));
            lemma_handshake_enc_len(rewritten@);
        }
        let packet = match Packet::serialize(&rewritten) {
            Ok(p) => p,
            Err(_) => {
                return Err(HopperError::Invalid);
            },
        };
        let mut out: Vec<u8> = Vec::new();
        packet.write_frame(&mut out);
        Ok(out)
    }
}

/// The 12-byte PROXY protocol v2 signature.
pub open spec fn pp_sig() -> Seq<u8> {
    seq![13u8, 10u8, 13u8, 10u8, 0u8, 13u8, 10u8, 81u8, 85u8, 73u8, 84u8, 10u8]
}

/// Big-endian bytes of a 32-bit value.
pub open spec fn be32(v: u32) -> Seq<u8> {
    seq![
        (v as int / 0x1000000) as u8,
        (v as int / 0x10000 % 256) as u8,
        (v as int / 256 % 256) as u8,
        (v as int % 256) as u8,
    ]
}

/// The PROXY v2 header for a STREAM PROXY pair of matching family:
/// signature, version and command byte, family and protocol byte, payload
/// length, then source and destination addresses and ports.
pub open spec fn pp_header(client: SockAddr, dest: SockAddr) -> Seq<u8> {
    match (client.ip, dest.ip) {
        (IpAddress::V4(s), IpAddress::V4(d)) => pp_sig() + seq![0x21u8, 0x11u8] + u16_enc(12)
            + be32(s) + be32(d) + u16_enc(client.port) + u16_enc(dest.port),
        (IpAddress::V6(s), IpAddress::V6(d)) => pp_sig() + seq![0x21u8, 0x21u8] + u16_enc(36)
            + crate::addr::v6_be_bytes(s, 16) + crate::addr::v6_be_bytes(d, 16) + u16_enc(
            client.port,
        ) + u16_enc(dest.port),
        _ => Seq::empty(),
    }
}

/// Relies on `proxy_protocol::encode` with a version 2 header: the layout
/// above for an IPv4/IPv4 STREAM PROXY pair; version 2 encoding never
/// fails.
#[verifier::external_body]
fn encode_proxy_v4(src_ip: u32, src_port: u16, dst_ip: u32, dst_port: u16) -> (r: Vec<u8>)
    ensures
        r@ == pp_header(
            SockAddr { ip: IpAddress::V4(src_ip), port: src_port },
            SockAddr { ip: IpAddress::V4(dst_ip), port: dst_port },
        ),
{
    let src = core::net::SocketAddrV4::new(core::net::Ipv4Addr::from(src_ip), src_port);
    let dst = core::net::SocketAddrV4::new(core::net::Ipv4Addr::from(dst_ip), dst_port);
    let header = proxy_protocol::ProxyHeader::Version2 {
        command: proxy_protocol::version2::ProxyCommand::Proxy,
        transport_protocol: proxy_protocol::version2::ProxyTransportProtocol::Stream,
        addresses: proxy_protocol::version2::ProxyAddresses::Ipv4 { source: src, destination: dst },
    };
    proxy_protocol::encode(header).unwrap().to_vec()
}

/// Relies on `proxy_protocol::encode` with a version 2 header: the layout
/// above for an IPv6/IPv6 STREAM PROXY pair; version 2 encoding never
/// fails.
#[verifier::external_body]
fn encode_proxy_v6(src_ip: u128, src_port: u16, dst_ip: u128, dst_port: u16) -> (r: Vec<u8>)
    ensures
        r@ == pp_header(
            SockAddr { ip: IpAddress::V6(src_ip), port: src_port },
            SockAddr { ip: IpAddress::V6(dst_ip), port: dst_port },
        ),
{
    let src = core::net::SocketAddrV6::new(core::net::Ipv6Addr::from(src_ip), src_port, 0, 0);
    let dst = core::net::SocketAddrV6::new(core::net::Ipv6Addr::from(dst_ip), dst_port, 0, 0);
    let header = proxy_protocol::ProxyHeader::Version2 {
        command: proxy_protocol::version2::ProxyCommand::Proxy,
        transport_protocol: proxy_protocol::version2::ProxyTransportProtocol::Stream,
        addresses: proxy_protocol::version2::ProxyAddresses::Ipv6 { source: src, destination: dst },
    };
    proxy_protocol::encode(header).unwrap().to_vec()
}

/// The HAProxy PROXY v2 primer: prepends a binary header describing the
/// client and a destination placeholder, then the verbatim handshake.
#[derive(Debug)]
pub struct ProxyProtocol {
    pub client_addr: SockAddr,
    pub dest_addr: SockAddr,
}

impl ProxyProtocol {
    /// Builds the primer with a zero destination of the client's family.
    pub fn new(client_addr: SockAddr) -> (r: ProxyProtocol)
        ensures
            r.client_addr == client_addr,
            r.client_addr.same_family_spec(r.dest_addr),
            r.dest_addr == match client_addr.ip {
                IpAddress::V4(_) => SockAddr { ip: IpAddress::V4(0), port: 0 },
                IpAddress::V6(_) => SockAddr { ip: IpAddress::V6(0), port: 0 },
            },
    {
        let dest_addr = match client_addr.ip {
            IpAddress::V4(_) => SockAddr { ip: IpAddress::V4(0), port: 0 },
            IpAddress::V6(_) => SockAddr { ip: IpAddress::V6(0), port: 0 },
        };
        ProxyProtocol { client_addr, dest_addr }
    }

    /// The bytes to write to the backend: the PROXY v2 header, then the
    /// original handshake frame unchanged. Mismatched address families are
    /// rejected with `Invalid`.
    pub fn prime_connection(&self, og_handshake: &DecodedPacket<Handshake>) -> (r: Result<
        Vec<u8>,
        HopperError,
    >)
        requires
            og_handshake.packet.data@.len() <= crate::MAX_PACKET,
        ensures
            match r {
                Ok(out) => self.client_addr.same_family_spec(self.dest_addr) && out@
                    == pp_header(self.client_addr, self.dest_addr) + frame_enc(
                    og_handshake.packet.packet_id.0,
                    og_handshake.packet.data@,
                ),
                Err(e) => e == HopperError::Invalid && !self.client_addr.same_family_spec(
                    self.dest_addr,
                ),
            },
    {
        let mut out: Vec<u8> = match (&self.client_addr.ip, &self.dest_addr.ip) {
            (IpAddress::V4(s), IpAddress::V4(d)) => encode_proxy_v4(
                *s,
                self.client_addr.port,
                *d,
                self.dest_addr.port,
            ),
            (IpAddress::V6(s), IpAddress::V6(d)) => encode_proxy_v6(
                *s,
                self.client_addr.port,
                *d,
                self.dest_addr.port,
            ),
            _ => {
                return Err(HopperError::Invalid);
            },
        };
        proof {
            assert(out@ == pp_header(self.client_addr, self.dest_addr));
        }
        og_handshake.packet.write_frame(&mut out);
        Ok(out)
    }
}

/// The passthrough primer: the original handshake frame, unchanged.
#[derive(Debug)]
pub struct Passthrough;

impl Passthrough {
    /// The bytes to write to the backend: the verbatim handshake frame.
    pub fn prime_connection(&self, og_handshake: &DecodedPacket<Handshake>) -> (r: Vec<u8>)
        requires
            og_handshake.packet.data@.len() <= crate::MAX_PACKET,
        ensures
            r@ == frame_enc(og_handshake.packet.packet_id.0, og_handshake.packet.data@),
    {
        let mut out: Vec<u8> = Vec::new();
        og_handshake.packet.write_frame(&mut out);
        out
    }
}

} // verus!
