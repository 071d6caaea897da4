use hopper::addr::{fnv64_hash, push_addr_hash_bytes, push_sockaddr_text, IpAddress, SockAddr};
use hopper::client::IncomingClient;
use hopper::error::{HopperError, RouterError};
use hopper::forwarding::ForwardStrategy;
use hopper::metrics::{Counters, Event, EventType, HostnameCounter};
use hopper::packet::Packet;
use hopper::packets::{Handshake, LoginStart, State};
use hopper::piping::{run_pipe, PipeEvent, PipeTally};
use hopper::router::{RouteInfo, RouteType, RouterConfig};
use hopper::server::{supervisor_step, Backend, SupervisorEvent, SupervisorState};
use hopper::varint::VarInt;

fn handshake_packet(address: &[u8], next_state: State) -> Packet {
    let handshake = Handshake {
        protocol_version: VarInt(763),
        server_address: address.to_vec(),
        server_port: 25565,
        next_state,
    };
    Packet::serialize(&handshake).unwrap()
}

fn login_packet(username: &[u8]) -> Packet {
    Packet::serialize(&LoginStart { username: username.to_vec() }).unwrap()
}

fn peer() -> SockAddr {
    SockAddr { ip: IpAddress::V4(0x0a000005), port: 54321 }
}

fn client(address: &[u8], next_state: State) -> IncomingClient {
    let login = match next_state {
        State::Login => Some(login_packet(b"Alice")),
        State::Status => None,
    };
    IncomingClient::from_packets(peer(), handshake_packet(address, next_state), login).unwrap()
}

fn simple(port: u16) -> SockAddr {
    SockAddr { ip: IpAddress::V4(0x7f000001), port }
}

#[test]
fn empty_hostname_rejected() {
    let r = IncomingClient::from_packets(peer(), handshake_packet(b"\x00extra", State::Login), None);
    assert!(matches!(r, Err(HopperError::Invalid)));
}

#[test]
fn missing_login_packet_rejected() {
    let r = IncomingClient::from_packets(peer(), handshake_packet(b"host", State::Login), None);
    assert!(matches!(r, Err(HopperError::Protocol(_))));
}

#[test]
fn routing_by_hostname() {
    let config = RouterConfig {
        default: Some(RouteInfo {
            ip_forwarding: ForwardStrategy::Passthrough,
            ip: RouteType::Simple(simple(1000)),
        }),
        routes: vec![(
            b"localhost".to_vec(),
            RouteInfo {
                ip_forwarding: ForwardStrategy::BungeeCord,
                ip: RouteType::Simple(simple(40000)),
            },
        )],
    };
    let c = client(b"localhost", State::Status);
    let d = config.route(&c).unwrap();
    assert_eq!(d.address(), simple(40000));
    assert!(matches!(d.strategy(), ForwardStrategy::BungeeCord));

    let c = client(b"elsewhere", State::Status);
    let d = config.route(&c).unwrap();
    assert_eq!(d.address(), simple(1000));

    let bare = RouterConfig { default: None, routes: Vec::new() };
    assert_eq!(bare.route(&c), Err(RouterError::NoServer));
}

#[test]
fn balanced_routing_affinity() {
    let list = vec![simple(1), simple(2), simple(3)];
    let config = RouterConfig {
        default: None,
        routes: vec![(
            b"svc".to_vec(),
            RouteInfo {
                ip_forwarding: ForwardStrategy::Passthrough,
                ip: RouteType::Balanced(list.clone()),
            },
        )],
    };
    let c1 = client(b"svc", State::Status);
    let c2 = client(b"svc", State::Status);
    let d1 = config.route(&c1).unwrap();
    let d2 = config.route(&c2).unwrap();
    // identical (peer, hostname) sticks to the same backend
    assert_eq!(d1.address(), d2.address());

    // the pick is the affinity hash modulo the list length
    let mut bytes: Vec<u8> = Vec::new();
    push_addr_hash_bytes(&mut bytes, &peer());
    bytes.extend_from_slice(b"svc");
    let expected = list[(fnv64_hash(&bytes) % 3) as usize];
    assert_eq!(d1.address(), expected);
    assert_eq!(expected, simple(2));
}

#[test]
fn balanced_routing_spread() {
    // three peers whose affinity hashes fall on 0, 1 and 2 modulo the list
    // length land on the three backends in order
    let list = vec![simple(1), simple(2), simple(3)];
    let config = RouterConfig {
        default: None,
        routes: vec![(
            b"svc".to_vec(),
            RouteInfo {
                ip_forwarding: ForwardStrategy::Passthrough,
                ip: RouteType::Balanced(list.clone()),
            },
        )],
    };
    let mut seen = Vec::new();
    for port in [50005u16, 50000, 50001] {
        let peer = SockAddr { ip: IpAddress::V4(0x0a000005), port };
        let packet = Packet::serialize(&Handshake {
            protocol_version: VarInt(763),
            server_address: b"svc".to_vec(),
            server_port: 25565,
            next_state: State::Status,
        })
        .unwrap();
        let c = IncomingClient::from_packets(peer, packet, None).unwrap();
        seen.push(config.route(&c).unwrap().address());
    }
    assert_eq!(seen, list);
}

#[test]
fn sockaddr_text_forms() {
    let mut out: Vec<u8> = Vec::new();
    push_sockaddr_text(&mut out, &peer());
    assert_eq!(&out[..], b"10.0.0.5:54321");

    let mut out: Vec<u8> = Vec::new();
    let v6 = SockAddr { ip: IpAddress::V6(0x20010db8000000000000000000000001), port: 80 };
    push_sockaddr_text(&mut out, &v6);
    assert_eq!(&out[..], b"[2001:db8::1]:80");
}

#[test]
fn ipv6_text_compression() {
    let text = |ip: u128| {
        let mut out: Vec<u8> = Vec::new();
        push_sockaddr_text(&mut out, &SockAddr { ip: IpAddress::V6(ip), port: 9 });
        out
    };
    // unspecified and loopback
    assert_eq!(text(0), b"[::]:9");
    assert_eq!(text(1), b"[::1]:9");
    // the leftmost of two equal zero runs is compressed
    assert_eq!(
        text(0x0001_0000_0000_0002_0000_0000_0003_0004),
        b"[1::2:0:0:3:4]:9",
    );
    // a single zero group stays as it is
    assert_eq!(
        text(0x0001_0000_0002_0003_0004_0005_0006_0007),
        b"[1:0:2:3:4:5:6:7]:9",
    );
    // a trailing run compresses to a trailing `::`
    assert_eq!(text(0x0001_0000_0000_0000_0000_0000_0000_0000), b"[1::]:9");
    // an IPv4-mapped address keeps its dotted tail
    assert_eq!(text(0x0000_0000_0000_0000_0000_ffff_0a00_0005), b"[::ffff:10.0.0.5]:9");
}

#[test]
fn backend_priming_passthrough_with_login() {
    let mut c = client(b"host", State::Login);
    let backend = Backend::new();
    let primed = backend.prime(&mut c, ForwardStrategy::Passthrough).unwrap();
    let queue = primed.into_inner();

    let mut expected: Vec<u8> = Vec::new();
    c.handshake.packet.write_frame(&mut expected);
    login_packet(b"Alice").write_frame(&mut expected);
    assert_eq!(queue, expected);
}

#[test]
fn backend_priming_spoof_rejected() {
    // the hostname sanitizes to "mc.example.com" but the primer sees the NUL
    let packet = handshake_packet(b"mc.example.com\x00fakeip\x00fakeuuid", State::Login);
    let mut c = IncomingClient::from_packets(peer(), packet, Some(login_packet(b"Alice")))
        .unwrap();
    assert_eq!(&c.hostname.bytes[..], b"mc.example.com");
    let backend = Backend::new();
    let r = backend.prime(&mut c, ForwardStrategy::BungeeCord);
    assert!(matches!(r, Err(HopperError::Invalid)));
}

#[test]
fn pipe_tally_counts_before_write_failure() {
    let events = vec![
        PipeEvent::Chunk(2048),
        PipeEvent::Chunk(100),
        PipeEvent::WriteError,
        PipeEvent::Chunk(7),
    ];
    let tally = run_pipe(&events);
    // the chunk read before the failing write is still credited; nothing
    // after the stop is
    assert_eq!(tally.transferred, 2148);
    assert!(tally.done);

    let tally = run_pipe(&vec![PipeEvent::Chunk(5), PipeEvent::Eof]);
    assert_eq!(tally.transferred, 5);

    let mut manual = PipeTally::new();
    assert!(manual.apply(&PipeEvent::Chunk(3)));
    assert!(!manual.apply(&PipeEvent::ReadError));
    assert_eq!(manual.transferred, 3);
}

#[test]
fn supervisor_lifecycle_events() {
    // a connection that reaches the splice emits Connect, then Disconnect,
    // then its bandwidth report, exactly once each
    let mut st = SupervisorState::Handshaking;
    let mut emitted: Vec<EventType> = Vec::new();
    let script = [
        SupervisorEvent::HandshakeOk,
        SupervisorEvent::RouteOk,
        SupervisorEvent::DialOk,
        SupervisorEvent::PrimeOk,
        SupervisorEvent::SpliceDone { serverbound: 10, clientbound: 20 },
    ];
    for ev in script {
        let (next, emit, chat) = supervisor_step(st, ev);
        assert!(!chat);
        emitted.extend(emit);
        st = next;
    }
    assert!(matches!(st, SupervisorState::Closed));
    assert_eq!(
        emitted,
        vec![
            EventType::Connect,
            EventType::Disconnect,
            EventType::BandwidthReport { serverbound: 10, clientbound: 20 },
        ],
    );
}

#[test]
fn supervisor_failure_asks_for_chat() {
    let (st, emit, chat) = supervisor_step(SupervisorState::Handshaking, SupervisorEvent::HandshakeOk);
    assert!(matches!(st, SupervisorState::Routing));
    assert!(emit.is_empty() && !chat);
    let (st, emit, chat) = supervisor_step(st, SupervisorEvent::RouteFailed);
    assert!(matches!(st, SupervisorState::Closed));
    assert!(emit.is_empty());
    assert!(chat);
}

#[test]
fn metrics_aggregation() {
    let c = client(b"host", State::Login);
    let mk = |event_type| Event { hostname: c.hostname.clone(), state: State::Login, event_type };

    let mut counters = Counters::new();
    counters.apply_event(&mk(EventType::Connect));
    counters.apply_event(&mk(EventType::Disconnect));
    counters.apply_event(&mk(EventType::BandwidthReport { serverbound: 10, clientbound: 20 }));
    counters.apply_event(&mk(EventType::Connect));

    assert_eq!(counters.entries.len(), 1);
    let counter = counters.entries[0].1;
    assert_eq!(counter.total_game, 2);
    assert_eq!(counter.total_pings, 0);
    assert_eq!(counter.open_connections, 1);
    assert_eq!(counter.serverbound_traffic, 10);
    assert_eq!(counter.clientbound_traffic, 20);

    let mut ping = HostnameCounter::default();
    ping.apply_event(&Event {
        hostname: c.hostname.clone(),
        state: State::Status,
        event_type: EventType::Connect,
    });
    assert_eq!(ping.total_pings, 1);
    assert_eq!(ping.total_game, 0);

    // traffic counters wrap
    let mut full = HostnameCounter::default();
    full.serverbound_traffic = u64::MAX;
    full.apply_event(&Event {
        hostname: c.hostname.clone(),
        state: State::Status,
        event_type: EventType::BandwidthReport { serverbound: 2, clientbound: 0 },
    });
    assert_eq!(full.serverbound_traffic, 1);
}
