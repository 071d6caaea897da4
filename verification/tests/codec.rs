use hopper::error::ProtoError;
use hopper::packet::Packet;
use hopper::packets::{Disconnect, Handshake, JsonChat, LoginStart, State};
use hopper::varint::VarInt;
use hopper::MAX_PACKET;

// The status ping opening bytes: Handshake{protocol 767, "localhost",
// 25565, Status}.
const STATUS_PING: [u8; 17] = [
    0x10, 0x00, 0xff, 0x05, 0x09, b'l', b'o', b'c', b'a', b'l', b'h', b'o', b's', b't', 0x63,
    0xdd, 0x01,
];

#[test]
fn read_status_ping_frame() {
    let (packet, consumed) = Packet::read_frame(&STATUS_PING, 0).unwrap();
    assert_eq!(consumed, STATUS_PING.len());
    assert_eq!(packet.packet_id, VarInt(0));

    let handshake: Handshake = packet.deserialize_owned().unwrap();
    assert_eq!(handshake.protocol_version, VarInt(767));
    assert_eq!(&handshake.server_address[..], b"localhost");
    assert_eq!(handshake.server_port, 25565);
    assert!(matches!(handshake.next_state, State::Status));
}

#[test]
fn handshake_round_trip() {
    let handshake = Handshake {
        protocol_version: VarInt(767),
        server_address: b"localhost".to_vec(),
        server_port: 25565,
        next_state: State::Status,
    };
    let packet = Packet::serialize(&handshake).unwrap();
    let mut wire: Vec<u8> = Vec::new();
    packet.write_frame(&mut wire);
    assert_eq!(&wire[..], &STATUS_PING[..]);

    let (back, consumed) = Packet::read_frame(&wire, 0).unwrap();
    assert_eq!(consumed, wire.len());
    let decoded: Handshake = back.deserialize_owned().unwrap();
    assert_eq!(decoded.protocol_version, VarInt(767));
    assert_eq!(decoded.server_address, handshake.server_address);
    assert_eq!(decoded.server_port, 25565);
    assert!(matches!(decoded.next_state, State::Status));
}

#[test]
fn login_round_trip() {
    let handshake = Handshake {
        protocol_version: VarInt(763),
        server_address: b"mc.example.com".to_vec(),
        server_port: 25565,
        next_state: State::Login,
    };
    let packet = Packet::serialize(&handshake).unwrap();
    let decoded: Handshake = packet.deserialize_owned().unwrap();
    assert!(matches!(decoded.next_state, State::Login));
    assert_eq!(decoded.server_address, handshake.server_address);

    let login = LoginStart { username: b"Alice".to_vec() };
    let packet = Packet::serialize(&login).unwrap();
    assert_eq!(&packet.data[..], b"\x05Alice");
    let decoded: LoginStart = packet.deserialize_owned().unwrap();
    assert_eq!(&decoded.username[..], b"Alice");
}

#[test]
fn oversized_frame_rejected() {
    // a frame declaring 2 MiB + 1 bytes is a protocol error
    let mut wire: Vec<u8> = Vec::new();
    hopper::varint::write_varint(&mut wire, VarInt((MAX_PACKET + 1) as i32));
    wire.push(0x00);
    match Packet::read_frame(&wire, 0) {
        Err(ProtoError::SizeLimit) => {},
        other => panic!("expected SizeLimit, got {:?}", other.map(|(p, n)| (p.packet_id, n))),
    }
}

#[test]
fn zero_length_frame_rejected() {
    let wire = [0x00u8, 0x00];
    match Packet::read_frame(&wire, 0) {
        Err(ProtoError::SizeLimit) => {},
        other => panic!("expected SizeLimit, got {:?}", other.map(|(p, n)| (p.packet_id, n))),
    }
}

#[test]
fn wrong_packet_id_rejected() {
    let packet = Packet { packet_id: VarInt(5), data: vec![0x01] };
    let r: Result<Handshake, ProtoError> = packet.deserialize_owned();
    assert!(matches!(r, Err(ProtoError::UnexpectedPacket)));
}

#[test]
fn bad_next_state_rejected() {
    // state 3 is no variant
    let data = vec![0x00, 0x01, b'a', 0x63, 0xdd, 0x03];
    let packet = Packet { packet_id: VarInt(0), data };
    let r: Result<Handshake, ProtoError> = packet.deserialize_owned();
    assert!(matches!(r, Err(ProtoError::InvalidVariant)));
}

#[test]
fn bad_utf8_rejected() {
    let data = vec![0x00, 0x02, 0xff, 0xfe, 0x63, 0xdd, 0x01];
    let packet = Packet { packet_id: VarInt(0), data };
    let r: Result<Handshake, ProtoError> = packet.deserialize_owned();
    assert!(matches!(r, Err(ProtoError::Utf8)));
}

#[test]
fn oversized_string_rejected() {
    // a string declaring more than 32767 * 4 bytes
    let mut data: Vec<u8> = Vec::new();
    hopper::varint::write_varint(&mut data, VarInt(763));
    hopper::varint::write_varint(&mut data, VarInt(131069));
    let packet = Packet { packet_id: VarInt(0), data };
    let r: Result<Handshake, ProtoError> = packet.deserialize_owned();
    assert!(matches!(r, Err(ProtoError::SizeLimit)));
}

#[test]
fn longest_string_accepted() {
    // exactly 32767 * 4 bytes pass the length check
    let handshake = Handshake {
        protocol_version: VarInt(763),
        server_address: vec![b'a'; 131068],
        server_port: 25565,
        next_state: State::Status,
    };
    let packet = Packet::serialize(&handshake).unwrap();
    let decoded: Handshake = packet.deserialize_owned().unwrap();
    assert_eq!(decoded.server_address.len(), 131068);
    assert_eq!(decoded.server_address, handshake.server_address);
}

#[test]
fn disconnect_chat_json() {
    let chat = JsonChat::new("no server");
    assert_eq!(&chat.json[..], br#"{"text":"no server"}"#);

    let chat = JsonChat::new("a \"quoted\"\nline\\");
    assert_eq!(&chat.json[..], br#"{"text":"a \"quoted\"\nline\\"}"#);

    let chat = JsonChat::new("ctl:\u{1}");
    assert_eq!(&chat.json[..], br#"{"text":"ctl:\u0001"}"#);

    let disconnect = Disconnect::from_chat(&chat);
    let packet = Packet::serialize(&disconnect).unwrap();
    assert_eq!(packet.packet_id, VarInt(0));
    let mut expected = vec![chat.json.len() as u8];
    expected.extend_from_slice(&chat.json);
    assert_eq!(packet.data, expected);

    let direct = Disconnect::new("ctl:\u{1}");
    assert_eq!(direct.chat, chat.json);
}
