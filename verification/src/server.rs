//! The per-connection engine: the primed backend typestate and the
//! supervisor state machine that drives one connection from accept to
//! close.

use vstd::prelude::*;

use crate::addr::{IpAddress, SockAddr};
use crate::client::{IncomingClient, NextState};
use crate::encoding::Deserialize;
use crate::error::HopperError;
use crate::forwarding::{
    bungee_model, contains_byte, pp_header, realip_model, BungeeCord, ForwardStrategy,
    Passthrough, ProxyProtocol, RealIP,
};
use crate::metrics::EventType;
use crate::packet::frame_enc;
use crate::packets::{handshake_enc, LoginStart};
use crate::uuid::offline_uuid;

verus! {

/// The two states a backend handle passes through.
pub trait BackendState {
}

/// A backend that was dialed but not yet primed.
pub struct Connected;

impl BackendState for Connected {
}

/// A backend that was primed: its prologue bytes are queued and nothing
/// else may be sent before them.
pub struct Primed;

impl BackendState for Primed {
}

/// A backend handle: the bytes queued for the backend so far. The type
/// parameter makes writing raw bytes to an unprimed backend
/// unrepresentable.
pub struct Backend<S: BackendState> {
    queue: Vec<u8>,
    _state: core::marker::PhantomData<S>,
}

/// The username carried by a kept LoginStart frame.
pub open spec fn login_username(l: crate::client::LazyPacket<LoginStart>) -> Seq<u8> {
    <LoginStart as Deserialize>::parse(l.packet.data@)->Some_0.0
}

/// The zero destination placeholder of the client's family.
pub open spec fn pp_zero_dest(a: SockAddr) -> SockAddr {
    match a.ip {
        IpAddress::V4(_) => SockAddr { ip: IpAddress::V4(0), port: 0 },
        IpAddress::V6(_) => SockAddr { ip: IpAddress::V6(0), port: 0 },
    }
}

/// The bytes a strategy writes to the backend for this client, before any
/// login frame: the verbatim handshake frame, or its rewritten form, or a
/// PROXY v2 header followed by the verbatim frame.
pub open spec fn primer_output(c: IncomingClient, fw: ForwardStrategy) -> Seq<u8> {
    match fw {
        ForwardStrategy::Passthrough => frame_enc(
            c.handshake.packet.packet_id.0,
            c.handshake.packet.data@,
        ),
        ForwardStrategy::ProxyProtocol => pp_header(c.address, pp_zero_dest(c.address))
            + frame_enc(c.handshake.packet.packet_id.0, c.handshake.packet.data@),
        ForwardStrategy::RealIP => frame_enc(
            0,
            handshake_enc(realip_model(c.handshake.data@, c.address)),
        ),
        ForwardStrategy::BungeeCord => match c.next_state {
            NextState::Status => frame_enc(
                c.handshake.packet.packet_id.0,
                c.handshake.packet.data@,
            ),
            NextState::Login(l) => frame_enc(
                0,
                handshake_enc(
                    bungee_model(c.handshake.data@, c.address, offline_uuid(login_username(l))),
                ),
            ),
        },
    }
}

/// The login frame forwarded verbatim after the primer, when the client
/// logs in.
pub open spec fn login_suffix(c: IncomingClient) -> Seq<u8> {
    match c.next_state {
        NextState::Login(l) => frame_enc(l.packet.packet_id.0, l.packet.data@),
        NextState::Status => Seq::empty(),
    }
}

impl Backend<Connected> {
    /// A freshly dialed backend: nothing queued.
    pub fn new() -> (r: Backend<Connected>)
        ensures
            r.queue_spec() == Seq::<u8>::empty(),
    {
        Backend { queue: Vec::new(), _state: core::marker::PhantomData }
    }

    /// The queued bytes.
    pub closed spec fn queue_spec(&self) -> Seq<u8> {
        self.queue@
    }

    /// Primes the backend under the client's forwarding strategy: on
    /// success the primed backend queues exactly the strategy's prologue,
    /// then the verbatim login frame when the client logs in. A BungeeCord
    /// login whose address carries a NUL, and a RealIP handshake whose
    /// address carries a `'/'`, are rejected with `Invalid`; a login frame
    /// that does not decode is a protocol error.
    pub fn prime(self, client: &mut IncomingClient, forwarding: ForwardStrategy) -> (r: Result<
        Backend<Primed>,
        HopperError,
    >)
        requires
            self.queue_spec() == Seq::<u8>::empty(),
            old(client).wf(),
            old(client).handshake.packet.data@.len() <= crate::MAX_PACKET,
            match old(client).next_state {
                NextState::Login(l) => l.packet.data@.len() <= crate::MAX_PACKET,
                NextState::Status => true,
            },
        ensures
            final(client).wf(),
            final(client).address == old(client).address,
            final(client).hostname@ == old(client).hostname@,
            final(client).handshake == old(client).handshake,
            match (final(client).next_state, old(client).next_state) {
                (NextState::Login(l2), NextState::Login(l1)) => l2.packet == l1.packet,
                (NextState::Status, NextState::Status) => true,
                _ => false,
            },
            match r {
                Ok(b) => b.queue_spec() == primer_output(*old(client), forwarding)
                    + login_suffix(*old(client)),
                Err(e) => {
                    ||| (forwarding == ForwardStrategy::BungeeCord && old(
                        client,
                    ).next_state is Login && match old(client).next_state {
                        NextState::Login(l) => <LoginStart as Deserialize>::parse(
                            l.packet.data@,
                        ) is None && e is Protocol,
                        NextState::Status => false,
                    })
                    ||| (forwarding == ForwardStrategy::BungeeCord && old(
                        client,
                    ).next_state is Login && contains_byte(
                        old(client).handshake.data.server_address@,
                        0,
                    ) && e == HopperError::Invalid)
                    ||| (forwarding == ForwardStrategy::RealIP && contains_byte(
                        old(client).handshake.data.server_address@,
                        47,
                    ) && e == HopperError::Invalid)
                },
            },
    {
        proof {
            lemma_sanitize_head(old(client).handshake.data.server_address@);
        }
        let mut queue: Vec<u8> = match (&mut client.next_state, forwarding) {
            (NextState::Login(login), ForwardStrategy::BungeeCord) => {
                // BungeeCord forwarding needs the username for the UUID
                let login_start = match login.data() {
                    Ok(d) => d,
                    Err(e) => {
                        return Err(HopperError::Protocol(e));
                    },
                };
                let primer = BungeeCord::from_username(
                    client.address,
                    login_start.username.as_slice(),
                );
                match primer.prime_connection(&client.handshake) {
                    Ok(bytes) => bytes,
                    Err(e) => {
                        return Err(e);
                    },
                }
            },
            (_, ForwardStrategy::RealIP) => {
                let primer = RealIP::new(client.address);
                match primer.prime_connection(&client.handshake) {
                    Ok(bytes) => bytes,
                    Err(e) => {
                        return Err(e);
                    },
                }
            },
            (_, ForwardStrategy::ProxyProtocol) => {
                let primer = ProxyProtocol::new(client.address);
                match primer.prime_connection(&client.handshake) {
                    Ok(bytes) => bytes,
                    Err(e) => {
                        return Err(e);
                    },
                }
            },
            _ => {
                let primer = Passthrough;
                primer.prime_connection(&client.handshake)
            },
        };
        let ghost primer_bytes = queue@;
        proof {
            assert(primer_bytes == primer_output(*old(client), forwarding));
        }
        if let NextState::Login(login) = &client.next_state {
            login.packet.write_frame(&mut queue);
        }
        proof {
            assert(queue@ =~= primer_output(*old(client), forwarding) + login_suffix(
                *old(client),
            ));
        }
        Ok(Backend { queue, _state: core::marker::PhantomData })
    }
}

impl Backend<Primed> {
    /// The queued bytes.
    pub closed spec fn queue_spec(&self) -> Seq<u8> {
        self.queue@
    }

    /// Hands the queued prologue out, to be flushed before splicing.
    pub fn into_inner(self) -> (r: Vec<u8>)
        ensures
            r@ == self.queue_spec(),
    {
        self.queue
    }
}

/// A non-empty sanitized hostname pins the first address byte away from
/// the separators.
proof fn lemma_sanitize_head(s: Seq<u8>)
    ensures
        crate::client::sanitize(s).len() > 0 ==> s.len() > 0 && s[0] != 0 && s[0] != 47,
{
}

/// The supervisor's view of one connection, from accept to close.
#[derive(Debug, Clone, Copy, PartialEq, Eq, Structural)]
pub enum SupervisorState {
    Handshaking,
    Routing,
    Dialing,
    Priming,
    Splicing,
    Closed,
}

/// What the supervisor hears back from the phase it is in.
#[derive(Debug, Clone, Copy, PartialEq, Eq, Structural)]
pub enum SupervisorEvent {
    HandshakeOk,
    HandshakeFailed,
    RouteOk,
    RouteFailed,
    DialOk,
    DialFailed,
    PrimeOk,
    PrimeFailed,
    SpliceDone { serverbound: u64, clientbound: u64 },
}

/// The events a state can hear.
pub open spec fn event_fits(st: SupervisorState, ev: SupervisorEvent) -> bool {
    match st {
        SupervisorState::Handshaking => ev is HandshakeOk || ev is HandshakeFailed,
        SupervisorState::Routing => ev is RouteOk || ev is RouteFailed,
        SupervisorState::Dialing => ev is DialOk || ev is DialFailed,
        SupervisorState::Priming => ev is PrimeOk || ev is PrimeFailed,
        SupervisorState::Splicing => ev is SpliceDone,
        SupervisorState::Closed => false,
    }
}

/// One supervisor transition: the next state, the metric events emitted on
/// it, and whether a disconnect chat should be offered to a login client.
/// `Connect` is emitted exactly on entering the splice; `Disconnect` and
/// the bandwidth report exactly on leaving it.
pub open spec fn step_spec(st: SupervisorState, ev: SupervisorEvent) -> (
    SupervisorState,
    Seq<EventType>,
    bool,
) {
    match (st, ev) {
        (SupervisorState::Handshaking, SupervisorEvent::HandshakeOk) => (
            SupervisorState::Routing,
            Seq::empty(),
            false,
        ),
        (SupervisorState::Handshaking, SupervisorEvent::HandshakeFailed) => (
            SupervisorState::Closed,
            Seq::empty(),
            false,
        ),
        (SupervisorState::Routing, SupervisorEvent::RouteOk) => (
            SupervisorState::Dialing,
            Seq::empty(),
            false,
        ),
        (SupervisorState::Routing, SupervisorEvent::RouteFailed) => (
            SupervisorState::Closed,
            Seq::empty(),
            true,
        ),
        (SupervisorState::Dialing, SupervisorEvent::DialOk) => (
            SupervisorState::Priming,
            Seq::empty(),
            false,
        ),
        (SupervisorState::Dialing, SupervisorEvent::DialFailed) => (
            SupervisorState::Closed,
            Seq::empty(),
            true,
        ),
        (SupervisorState::Priming, SupervisorEvent::PrimeOk) => (
            SupervisorState::Splicing,
            seq![EventType::Connect],
            false,
        ),
        (SupervisorState::Priming, SupervisorEvent::PrimeFailed) => (
            SupervisorState::Closed,
            Seq::empty(),
            true,
        ),
        (SupervisorState::Splicing, SupervisorEvent::SpliceDone { serverbound, clientbound }) => (
            SupervisorState::Closed,
            seq![
                EventType::Disconnect,
                EventType::BandwidthReport { serverbound, clientbound },
            ],
            false,
        ),
        _ => (st, Seq::empty(), false),
    }
}

/// Performs one supervisor transition.
pub fn supervisor_step(st: SupervisorState, ev: SupervisorEvent) -> (r: (
    SupervisorState,
    Vec<EventType>,
    bool,
))
    requires
        event_fits(st, ev),
    ensures
        r.0 == step_spec(st, ev).0,
        r.1@ == step_spec(st, ev).1,
        r.2 == step_spec(st, ev).2,
{
    let mut emit: Vec<EventType> = Vec::new();
    match (st, ev) {
        (SupervisorState::Handshaking, SupervisorEvent::HandshakeOk) => (
            SupervisorState::Routing,
            emit,
            false,
        ),
        (SupervisorState::Handshaking, SupervisorEvent::HandshakeFailed) => (
            SupervisorState::Closed,
            emit,
            false,
        ),
        (SupervisorState::Routing, SupervisorEvent::RouteOk) => (
            SupervisorState::Dialing,
            emit,
            false,
        ),
        (SupervisorState::Routing, SupervisorEvent::RouteFailed) => (
            SupervisorState::Closed,
            emit,
            true,
        ),
        (SupervisorState::Dialing, SupervisorEvent::DialOk) => (
            SupervisorState::Priming,
            emit,
            false,
        ),
        (SupervisorState::Dialing, SupervisorEvent::DialFailed) => (
            SupervisorState::Closed,
            emit,
            true,
        ),
        (SupervisorState::Priming, SupervisorEvent::PrimeOk) => {
            emit.push(EventType::Connect);
            proof {
                assert(emit@ =~= seq![EventType::Connect]);
            }
            (SupervisorState::Splicing, emit, false)
        },
        (SupervisorState::Priming, SupervisorEvent::PrimeFailed) => (
            SupervisorState::Closed,
            emit,
            true,
        ),
        (SupervisorState::Splicing, SupervisorEvent::SpliceDone { serverbound, clientbound }) => {
            emit.push(EventType::Disconnect);
            emit.push(EventType::BandwidthReport { serverbound, clientbound });
            proof {
                assert(emit@ =~= seq![
                    EventType::Disconnect,
                    EventType::BandwidthReport { serverbound, clientbound },
                ]);
            }
            (SupervisorState::Closed, emit, false)
        },
        _ => (st, emit, false),
    }
}

/// The state and emissions after a whole sequence of events.
pub open spec fn run_from(st: SupervisorState, events: Seq<SupervisorEvent>) -> (
    SupervisorState,
    Seq<EventType>,
)
    decreases events.len(),
{
    if events.len() == 0 {
        (st, Seq::empty())
    } else {
        let (s2, em, _) = step_spec(st, events[0]);
        let (sf, emf) = run_from(s2, events.drop_first());
        (sf, em + emf)
    }
}

/// Every event of the sequence fits the state it meets.
pub open spec fn trace_fits(st: SupervisorState, events: Seq<SupervisorEvent>) -> bool
    decreases events.len(),
{
    if events.len() == 0 {
        true
    } else {
        event_fits(st, events[0]) && trace_fits(step_spec(st, events[0]).0, events.drop_first())
    }
}

/// A state before the splice phase.
pub open spec fn is_pre_splice(st: SupervisorState) -> bool {
    st is Handshaking || st is Routing || st is Dialing || st is Priming
}

proof fn lemma_run_shape(st: SupervisorState, events: Seq<SupervisorEvent>)
    requires
        trace_fits(st, events),
    ensures
        is_pre_splice(st) ==> {
            let (sf, em) = run_from(st, events);
            ||| em == Seq::<EventType>::empty()
            ||| (em == seq![EventType::Connect] && sf is Splicing)
            ||| (exists|sb: u64, cb: u64|
                em == seq![
                    EventType::Connect,
                    EventType::Disconnect,
                    EventType::BandwidthReport { serverbound: sb, clientbound: cb },
                ] && sf is Closed)
        },
        st is Splicing ==> {
            let (sf, em) = run_from(st, events);
            ||| (em == Seq::<EventType>::empty() && sf is Splicing)
            ||| (exists|sb: u64, cb: u64|
                em == seq![
                    EventType::Disconnect,
                    EventType::BandwidthReport { serverbound: sb, clientbound: cb },
                ] && sf is Closed)
        },
        st is Closed ==> run_from(st, events) == (SupervisorState::Closed, Seq::<EventType>::empty()),
    decreases events.len(),
{
    if events.len() > 0 {
        let ev = events[0];
        let (s2, em0, _) = step_spec(st, ev);
        lemma_run_shape(s2, events.drop_first());
        let (sf, emf) = run_from(s2, events.drop_first());
        if is_pre_splice(st) {
            if st is Priming && ev is PrimeOk {
                if emf == Seq::<EventType>::empty() {
                    assert(em0 + emf =~= seq![EventType::Connect]);
                } else {
                    let (sb, cb): (u64, u64) = choose|sb: u64, cb: u64|
                        emf == seq![
                            EventType::Disconnect,
                            EventType::BandwidthReport { serverbound: sb, clientbound: cb },
                        ] && sf is Closed;
                    assert(em0 + emf =~= seq![
                        EventType::Connect,
                        EventType::Disconnect,
                        EventType::BandwidthReport { serverbound: sb, clientbound: cb },
                    ]);
                }
            } else {
                assert(em0 == Seq::<EventType>::empty());
                assert(em0 + emf =~= emf);
            }
        } else if st is Splicing {
            let (sb, cb) = match ev {
                SupervisorEvent::SpliceDone { serverbound, clientbound } => (
                    serverbound,
                    clientbound,
                ),
                _ => (0u64, 0u64),
            };
            assert(emf == Seq::<EventType>::empty());
            assert(em0 + emf =~= seq![
                EventType::Disconnect,
                EventType::BandwidthReport { serverbound: sb, clientbound: cb },
            ]);
        }
    }
}

/// The lifecycle law: over any complete run of one connection, either the
/// connection never reached the splice and no metric event was emitted, or
/// it reached the splice and exactly one `Connect`, then exactly one
/// `Disconnect`, then one bandwidth report were emitted, in that order.
pub proof fn lemma_connection_lifecycle(events: Seq<SupervisorEvent>)
    requires
        trace_fits(SupervisorState::Handshaking, events),
        run_from(SupervisorState::Handshaking, events).0 is Closed,
    ensures
        ({
            let em = run_from(SupervisorState::Handshaking, events).1;
            ||| em == Seq::<EventType>::empty()
            ||| (exists|sb: u64, cb: u64|
                em == seq![
                    EventType::Connect,
                    EventType::Disconnect,
                    EventType::BandwidthReport { serverbound: sb, clientbound: cb },
                ])
        }),
{
    lemma_run_shape(SupervisorState::Handshaking, events);
}

} // verus!
