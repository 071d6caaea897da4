use hopper::addr::{IpAddress, SockAddr};
use hopper::client::DecodedPacket;
use hopper::error::HopperError;
use hopper::forwarding::{BungeeCord, Passthrough, ProxyProtocol, RealIP};
use hopper::packet::Packet;
use hopper::packets::{Handshake, State};
use hopper::uuid::PlayerUuid;
use hopper::varint::VarInt;

fn login_handshake(address: &[u8]) -> DecodedPacket<Handshake> {
    let handshake = Handshake {
        protocol_version: VarInt(763),
        server_address: address.to_vec(),
        server_port: 25565,
        next_state: State::Login,
    };
    DecodedPacket::try_from(Packet::serialize(&handshake).unwrap()).unwrap()
}

fn peer() -> SockAddr {
    // 10.0.0.5:54321
    SockAddr { ip: IpAddress::V4(0x0a000005), port: 54321 }
}

#[test]
fn offline_uuid_alice() {
    let uuid = PlayerUuid::offline_player(b"Alice");
    assert_eq!(
        &uuid.text()[..],
        b"10920508-d5d8-3eed-93d2-92f193afe7d7",
    );
}

#[test]
fn bungeecord_rewrite() {
    let og = login_handshake(b"mc.example.com");
    let primer = BungeeCord::from_username(peer(), b"Alice");
    let out = primer.prime_connection(&og).unwrap();

    let expected_addr: &[u8] =
        b"mc.example.com\x0010.0.0.5\x0010920508-d5d8-3eed-93d2-92f193afe7d7";
    let (packet, consumed) = Packet::read_frame(&out, 0).unwrap();
    assert_eq!(consumed, out.len());
    let rewritten: Handshake = packet.deserialize_owned().unwrap();
    assert_eq!(&rewritten.server_address[..], expected_addr);
    assert_eq!(rewritten.protocol_version, VarInt(763));
    assert_eq!(rewritten.server_port, 25565);
    assert!(matches!(rewritten.next_state, State::Login));
}

#[test]
fn bungeecord_rejects_spoof() {
    // an address already carrying a NUL is a hijack attempt
    let og = login_handshake(b"mc.example.com\x00fakeip\x00fakeuuid");
    let primer = BungeeCord::from_username(peer(), b"Alice");
    let r = primer.prime_connection(&og);
    assert!(matches!(r, Err(HopperError::Invalid)));
}

#[test]
fn realip_rewrite() {
    let og = login_handshake(b"mc.example.com");
    let primer = RealIP::new(peer());
    let out = primer.prime_connection(&og).unwrap();

    let (packet, _) = Packet::read_frame(&out, 0).unwrap();
    let rewritten: Handshake = packet.deserialize_owned().unwrap();
    assert_eq!(&rewritten.server_address[..], &b"mc.example.com///10.0.0.5:54321"[..]);
}

#[test]
fn realip_rewrite_fml_boundary() {
    // the payload lands one byte before the first NUL
    let og = login_handshake(b"host\x00FML\x00");
    let primer = RealIP::new(peer());
    let out = primer.prime_connection(&og).unwrap();

    let (packet, _) = Packet::read_frame(&out, 0).unwrap();
    let rewritten: Handshake = packet.deserialize_owned().unwrap();
    assert_eq!(&rewritten.server_address[..], &b"hos///10.0.0.5:54321t\x00FML\x00"[..]);
}

#[test]
fn realip_rejects_slash() {
    let og = login_handshake(b"mc.example.com/extra");
    let primer = RealIP::new(peer());
    let r = primer.prime_connection(&og);
    assert!(matches!(r, Err(HopperError::Invalid)));
}

#[test]
fn proxy_protocol_header() {
    let og = login_handshake(b"mc.example.com");
    let primer = ProxyProtocol::new(peer());
    let out = primer.prime_connection(&og).unwrap();

    let mut expected: Vec<u8> = vec![
        0x0D, 0x0A, 0x0D, 0x0A, 0x00, 0x0D, 0x0A, 0x51, 0x55, 0x49, 0x54, 0x0A, // signature
        0x21, // version 2, command PROXY
        0x11, // family INET, protocol STREAM
        0x00, 0x0C, // 12 bytes of addresses
        10, 0, 0, 5, // source
        0, 0, 0, 0, // destination
        0xD4, 0x31, // source port 54321
        0x00, 0x00, // destination port
    ];
    let mut frame: Vec<u8> = Vec::new();
    og.packet.write_frame(&mut frame);
    expected.extend_from_slice(&frame);
    assert_eq!(out, expected);
}

#[test]
fn proxy_protocol_rejects_family_mismatch() {
    let og = login_handshake(b"mc.example.com");
    let primer = ProxyProtocol {
        client_addr: peer(),
        dest_addr: SockAddr { ip: IpAddress::V6(0), port: 0 },
    };
    let r = primer.prime_connection(&og);
    assert!(matches!(r, Err(HopperError::Invalid)));
}

#[test]
fn proxy_protocol_v6_header() {
    let client = SockAddr { ip: IpAddress::V6(1), port: 4 };
    let primer = ProxyProtocol::new(client);
    let og = login_handshake(b"mc.example.com");
    let out = primer.prime_connection(&og).unwrap();
    assert_eq!(out[12], 0x21);
    assert_eq!(out[13], 0x21); // family INET6, protocol STREAM
    assert_eq!(&out[14..16], &[0x00, 0x24]); // 36 bytes of addresses
    let mut v6 = [0u8; 16];
    v6[15] = 1;
    assert_eq!(&out[16..32], &v6);
    assert_eq!(&out[32..48], &[0u8; 16]);
    assert_eq!(&out[48..50], &[0x00, 0x04]);
    assert_eq!(&out[50..52], &[0x00, 0x00]);
}

#[test]
fn passthrough_verbatim() {
    let og = login_handshake(b"mc.example.com");
    let out = Passthrough.prime_connection(&og);
    let mut expected: Vec<u8> = Vec::new();
    og.packet.write_frame(&mut expected);
    assert_eq!(out, expected);
}
