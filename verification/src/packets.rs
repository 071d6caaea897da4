//! The typed packets the proxy reads and writes: Handshake, LoginStart and
//! the Disconnect chat, with the JSON chat body rendered by the library.

use vstd::prelude::*;

use crate::encoding::{
    str_enc, str_parse, u16_enc, u16_parse, Deserialize, PacketId, Serialize,
};
use crate::error::ProtoError;
use crate::varint::{
    lemma_varint_round_trip, read_varint, varint_enc, varint_parse, write_varint, VarInt,
};
use vstd::string::StringSliceAdditionalSpecFns;

verus! {

/// The state a client asks to enter after its handshake.
#[derive(Debug, Clone, Copy, PartialEq, Eq, Structural)]
pub enum State {
    Status,
    Login,
}

impl State {
    /// The wire code of each state.
    pub open spec fn code_spec(self) -> i32 {
        match self {
            State::Status => 1,
            State::Login => 2,
        }
    }

    /// The wire code of each state.
    pub fn code(self) -> (r: i32)
        ensures
            r == self.code_spec(),
    {
        match self {
            State::Status => 1,
            State::Login => 2,
        }
    }
}

impl View for State {
    type V = State;

    open spec fn view(&self) -> State {
        *self
    }
}

/// Encoding of a state: its code as a varint.
pub open spec fn state_enc(st: State) -> Seq<u8> {
    varint_enc(st.code_spec())
}

/// Parse of a state at the head of `s`: a varint that must be 1 or 2.
pub open spec fn state_parse(s: Seq<u8>) -> Option<(State, int)> {
    match varint_parse(s) {
        Some((c, n)) => {
            if c == 1 {
                Some((State::Status, n))
            } else if c == 2 {
                Some((State::Login, n))
            } else {
                None
            }
        },
        None => None,
    }
}

impl Serialize for State {
    open spec fn enc(&self) -> Seq<u8> {
        state_enc(*self)
    }

    open spec fn enc_ok(&self) -> bool {
        true
    }

    fn serialize(&self, out: &mut Vec<u8>) {
        write_varint(out, VarInt(self.code()));
    }
}

impl Deserialize for State {
    open spec fn parse(s: Seq<u8>) -> Option<(State, int)> {
        state_parse(s)
    }

    fn deserialize(buf: &[u8], pos: usize) -> (r: Result<(Self, usize), ProtoError>) {
        match read_varint(buf, pos) {
            Ok((v, newpos)) => {
                if v.0 == 1 {
                    let st = State::Status;
                    proof {
                        assert(<State as Deserialize>::parse(buf@.skip(pos as int))
                            == Some((State::Status, newpos - pos)));
                        assert(st@ == State::Status);
                    }
                    Ok((st, newpos))
                } else if v.0 == 2 {
                    let st = State::Login;
                    proof {
                        assert(<State as Deserialize>::parse(buf@.skip(pos as int))
                            == Some((State::Login, newpos - pos)));
                        assert(st@ == State::Login);
                    }
                    Ok((st, newpos))
                } else {
                    proof {
                        assert(<State as Deserialize>::parse(buf@.skip(pos as int)) is None);
                    }
                    Err(ProtoError::InvalidVariant)
                }
            },
            Err(e) => Err(e),
        }
    }
}

pub proof fn lemma_state_round_trip(st: State, rest: Seq<u8>)
    ensures
        state_parse(state_enc(st) + rest) == Some((st, state_enc(st).len() as int)),
{
    lemma_varint_round_trip(st.code_spec(), rest);
}

/// The fields of a Handshake, as mathematical values.
pub ghost struct HandshakeModel {
    pub protocol_version: i32,
    pub server_address: Seq<u8>,
    pub server_port: u16,
    pub next_state: State,
}

/// The first packet of a connection: protocol version, requested virtual
/// hostname (raw UTF-8 bytes), port, and the state to enter next.
#[derive(Debug, Clone)]
pub struct Handshake {
    pub protocol_version: VarInt,
    pub server_address: Vec<u8>,
    pub server_port: u16,
    pub next_state: State,
}

impl View for Handshake {
    type V = HandshakeModel;

    open spec fn view(&self) -> HandshakeModel {
        HandshakeModel {
            protocol_version: self.protocol_version.0,
            server_address: self.server_address@,
            server_port: self.server_port,
            next_state: self.next_state,
        }
    }
}

/// Encoding of a handshake payload, over its model.
pub open spec fn handshake_enc(m: HandshakeModel) -> Seq<u8> {
    varint_enc(m.protocol_version) + str_enc(m.server_address) + u16_enc(m.server_port)
        + state_enc(m.next_state)
}

/// Parse of a handshake payload at the head of `s`.
pub open spec fn handshake_parse(s: Seq<u8>) -> Option<(HandshakeModel, int)> {
    match varint_parse(s) {
        Some((pv, n1)) => match str_parse(s.skip(n1)) {
            Some((addr, n2)) => match u16_parse(s.skip(n1 + n2)) {
                Some((port, n3)) => match state_parse(s.skip(n1 + n2 + n3)) {
                    Some((st, n4)) => Some(
                        (
                            HandshakeModel {
                                protocol_version: pv,
                                server_address: addr,
                                server_port: port,
                                next_state: st,
                            },
                            n1 + n2 + n3 + n4,
                        ),
                    ),
                    None => None,
                },
                None => None,
            },
            None => None,
        },
        None => None,
    }
}

impl PacketId for Handshake {
    open spec fn spec_id() -> i32 {
        0
    }

    fn packet_id() -> (r: i32) {
        0
    }
}

impl Serialize for Handshake {
    open spec fn enc(&self) -> Seq<u8> {
        handshake_enc(self@)
    }

    open spec fn enc_ok(&self) -> bool {
        self.server_address@.len() <= i32::MAX
    }

    fn serialize(&self, out: &mut Vec<u8>) {
        self.protocol_version.serialize(out);
        self.server_address.serialize(out);
        self.server_port.serialize(out);
        self.next_state.serialize(out);
        proof {
            assert(out@ =~= old(out)@ + handshake_enc(self@));
        }
    }
}

impl Deserialize for Handshake {
    open spec fn parse(s: Seq<u8>) -> Option<(HandshakeModel, int)> {
        handshake_parse(s)
    }

    fn deserialize(buf: &[u8], pos: usize) -> (r: Result<(Self, usize), ProtoError>) {
        let ghost s = buf@.skip(pos as int);
        let (pv, p1) = match VarInt::deserialize(buf, pos) {
            Ok(ok) => ok,
            Err(e) => {
                proof {
                    assert(<Handshake as Deserialize>::parse(s) is None);
                }
                return Err(e);
            },
        };
        proof {
            assert(s.skip(p1 - pos) =~= buf@.skip(p1 as int));
        }
        let (addr, p2) = match <Vec<u8> as Deserialize>::deserialize(buf, p1) {
            Ok(ok) => ok,
            Err(e) => {
                proof {
                    assert(<Handshake as Deserialize>::parse(s) is None);
                }
                return Err(e);
            },
        };
        proof {
            assert(s.skip(p2 - pos) =~= buf@.skip(p2 as int));
        }
        let (port, p3) = match u16::deserialize(buf, p2) {
            Ok(ok) => ok,
            Err(e) => {
                proof {
                    assert(<Handshake as Deserialize>::parse(s) is None);
                }
                return Err(e);
            },
        };
        proof {
            assert(s.skip(p3 - pos) =~= buf@.skip(p3 as int));
        }
        let (st, p4) = match State::deserialize(buf, p3) {
            Ok(ok) => ok,
            Err(e) => {
                proof {
                    assert(<Handshake as Deserialize>::parse(s) is None);
                }
                return Err(e);
            },
        };
        let result = Handshake {
            protocol_version: pv,
            server_address: addr,
            server_port: port,
            next_state: st,
        };
        proof {
            assert(<Handshake as Deserialize>::parse(s) == Some((result@, p4 - pos)));
        }
        Ok((result, p4))
    }
}

/// A handshake small enough to re-encode and with a well-formed address.
pub open spec fn handshake_wf(m: HandshakeModel) -> bool {
    &&& m.server_address.len() <= crate::encoding::MAX_STRING_BYTES
    &&& vstd::utf8::valid_utf8(m.server_address)
}

/// A handshake encoding parses back to the model it was made from: the
/// serialized form reproduces every field bit for bit.
pub proof fn lemma_handshake_round_trip(m: HandshakeModel, rest: Seq<u8>)
    requires
        handshake_wf(m),
    ensures
        handshake_parse(handshake_enc(m) + rest)
            == Some((m, handshake_enc(m).len() as int)),
{
    let s = handshake_enc(m) + rest;
    let e1 = varint_enc(m.protocol_version);
    let e2 = str_enc(m.server_address);
    let e3 = u16_enc(m.server_port);
    let e4 = state_enc(m.next_state);
    assert(s =~= e1 + (e2 + (e3 + (e4 + rest))));
    lemma_varint_round_trip(m.protocol_version, e2 + (e3 + (e4 + rest)));
    let n1 = e1.len() as int;
    assert(s.skip(n1) =~= e2 + (e3 + (e4 + rest)));
    crate::encoding::lemma_str_round_trip(m.server_address, e3 + (e4 + rest));
    let n2 = e2.len() as int;
    assert(s.skip(n1 + n2) =~= e3 + (e4 + rest));
    crate::encoding::lemma_u16_round_trip(m.server_port, e4 + rest);
    let n3 = e3.len() as int;
    assert(s.skip(n1 + n2 + n3) =~= e4 + rest);
    lemma_state_round_trip(m.next_state, rest);
}

/// A handshake written as a whole frame parses back from the wire to the
/// same frame and the same fields, whatever bytes follow it: the
/// serialized form reproduces every field bit for bit.
pub proof fn lemma_handshake_wire_round_trip(m: HandshakeModel, rest: Seq<u8>)
    requires
        handshake_wf(m),
    ensures
        ({
            let wire = crate::packet::frame_enc(0, handshake_enc(m));
            match crate::packet::frame_parse(wire + rest) {
                Some(((id, payload), n)) => {
                    &&& id == 0
                    &&& payload == handshake_enc(m)
                    &&& n == wire.len()
                    &&& handshake_parse(payload) == Some((m, payload.len() as int))
                },
                None => false,
            }
        }),
{
    crate::forwarding::lemma_handshake_enc_len(m);
    crate::varint::lemma_varint_enc_len(crate::varint::to_unsigned(0));
    crate::packet::lemma_frame_round_trip(0, handshake_enc(m), rest);
    lemma_handshake_round_trip(m, Seq::empty());
    assert(handshake_enc(m) + Seq::<u8>::empty() =~= handshake_enc(m));
}

/// The second packet of a login: the player's username.
#[derive(Debug, Clone)]
pub struct LoginStart {
    pub username: Vec<u8>,
}

impl View for LoginStart {
    type V = Seq<u8>;

    open spec fn view(&self) -> Seq<u8> {
        self.username@
    }
}

impl PacketId for LoginStart {
    open spec fn spec_id() -> i32 {
        0
    }

    fn packet_id() -> (r: i32) {
        0
    }
}

impl Serialize for LoginStart {
    open spec fn enc(&self) -> Seq<u8> {
        str_enc(self.username@)
    }

    open spec fn enc_ok(&self) -> bool {
        self.username@.len() <= i32::MAX
    }

    fn serialize(&self, out: &mut Vec<u8>) {
        self.username.serialize(out);
    }
}

impl Deserialize for LoginStart {
    open spec fn parse(s: Seq<u8>) -> Option<(Seq<u8>, int)> {
        str_parse(s)
    }

    fn deserialize(buf: &[u8], pos: usize) -> (r: Result<(Self, usize), ProtoError>) {
        match <Vec<u8> as Deserialize>::deserialize(buf, pos) {
            Ok((username, newpos)) => {
                proof {
                    assert(<LoginStart as Deserialize>::parse(buf@.skip(pos as int))
                        == Some((username@, newpos - pos)));
                }
                Ok((LoginStart { username }, newpos))
            },
            Err(e) => {
                proof {
                    assert(<LoginStart as Deserialize>::parse(buf@.skip(pos as int)) is None);
                }
                Err(e)
            },
        }
    }
}

/// Lower-case hex digit of a nibble.
pub open spec fn hex_digit(n: int) -> u8 {
    if n < 10 {
        (48 + n) as u8
    } else {
        (87 + n) as u8
    }
}

/// JSON string escape of one byte: quote and backslash get a backslash,
/// common control characters their short form, the rest of the control
/// range a `\u00XX` escape; all other bytes pass through.
pub open spec fn esc_byte(b: u8) -> Seq<u8> {
    if b == 34 {
        seq![92u8, 34u8]
    } else if b == 92 {
        seq![92u8, 92u8]
    } else if b == 8 {
        seq![92u8, 98u8]
    } else if b == 9 {
        seq![92u8, 116u8]
    } else if b == 10 {
        seq![92u8, 110u8]
    } else if b == 12 {
        seq![92u8, 102u8]
    } else if b == 13 {
        seq![92u8, 114u8]
    } else if b < 32 {
        seq![92u8, 117u8, 48u8, 48u8, hex_digit(b as int / 16), hex_digit(b as int % 16)]
    } else {
        seq![b]
    }
}

/// JSON string escape of a byte sequence.
pub open spec fn json_escape(s: Seq<u8>) -> Seq<u8>
    decreases s.len(),
{
    if s.len() == 0 {
        Seq::empty()
    } else {
        esc_byte(s[0]) + json_escape(s.drop_first())
    }
}

/// The chat JSON carrying `msg`: `{"text":"<escaped msg>"}` as bytes.
pub open spec fn json_chat_enc(msg: Seq<u8>) -> Seq<u8> {
    seq![123u8, 34u8, 116u8, 101u8, 120u8, 116u8, 34u8, 58u8, 34u8] + json_escape(msg)
        + seq![34u8, 125u8]
}

pub proof fn lemma_json_escape_len(s: Seq<u8>)
    ensures
        json_escape(s).len() <= 6 * s.len(),
    decreases s.len(),
{
    if s.len() > 0 {
        lemma_json_escape_len(s.drop_first());
    }
}

pub fn hex_digit_e(n: u8) -> (r: u8)
    requires
        n < 16,
    ensures
        r == hex_digit(n as int),
{
    if n < 10 {
        48 + n
    } else {
        87 + n
    }
}

/// Appends the JSON string escape of `msg` to `out`.
fn write_json_escape(out: &mut Vec<u8>, msg: &[u8])
    ensures
        final(out)@ == old(out)@ + json_escape(msg@),
{
    let mut i: usize = 0;
    proof {
        assert(msg@.skip(0) == msg@);
    }
    while i < msg.len()
        invariant
            i <= msg@.len(),
            out@ + json_escape(msg@.skip(i as int)) == old(out)@ + json_escape(msg@),
        decreases msg@.len() - i,
    {
        let b = msg[i];
        let ghost prev = out@;
        proof {
            assert(msg@.skip(i as int)[0] == b);
            assert(msg@.skip(i as int).drop_first() =~= msg@.skip(i + 1));
            assert(json_escape(msg@.skip(i as int)) == esc_byte(b) + json_escape(
                msg@.skip(i + 1),
            ));
        }
        if b == 34 {
            out.push(92);
            out.push(34);
        } else if b == 92 {
            out.push(92);
            out.push(92);
        } else if b == 8 {
            out.push(92);
            out.push(98);
        } else if b == 9 {
            out.push(92);
            out.push(116);
        } else if b == 10 {
            out.push(92);
            out.push(110);
        } else if b == 12 {
            out.push(92);
            out.push(102);
        } else if b == 13 {
            out.push(92);
            out.push(114);
        } else if b < 32 {
            out.push(92);
            out.push(117);
            out.push(48);
            out.push(48);
            out.push(hex_digit_e(b / 16));
            out.push(hex_digit_e(b % 16));
        } else {
            out.push(b);
        }
        proof {
            assert(out@ =~= prev + esc_byte(b));
            assert(prev + esc_byte(b) + json_escape(msg@.skip(i + 1))
                =~= prev + json_escape(msg@.skip(i as int)));
        }
        i = i + 1;
    }
    proof {
        assert(msg@.skip(msg@.len() as int) =~= Seq::<u8>::empty());
        assert(json_escape(Seq::<u8>::empty()) == Seq::<u8>::empty());
        assert(out@ + Seq::<u8>::empty() =~= out@);
    }
}

/// Renders the chat JSON for `msg` into a fresh buffer.
fn render_json_chat(msg: &[u8]) -> (r: Vec<u8>)
    ensures
        r@ == json_chat_enc(msg@),
{
    let mut out: Vec<u8> = Vec::new();
    out.push(123);
    out.push(34);
    out.push(116);
    out.push(101);
    out.push(120);
    out.push(116);
    out.push(34);
    out.push(58);
    out.push(34);
    write_json_escape(&mut out, msg);
    out.push(34);
    out.push(125);
    proof {
        assert(out@ =~= json_chat_enc(msg@));
    }
    out
}

/// A chat message body; its encoding renders the message as chat JSON and
/// writes it as a length-prefixed string.
#[derive(Debug, Clone)]
pub struct Chat {
    pub message: Vec<u8>,
}

impl Serialize for Chat {
    open spec fn enc(&self) -> Seq<u8> {
        str_enc(json_chat_enc(self.message@))
    }

    open spec fn enc_ok(&self) -> bool {
        6 * self.message@.len() + 11 <= i32::MAX
    }

    fn serialize(&self, out: &mut Vec<u8>) {
        let json = render_json_chat(self.message.as_slice());
        proof {
            lemma_json_escape_len(self.message@);
        }
        json.serialize(out);
    }
}

/// A pre-rendered chat JSON body.
#[derive(Debug, Clone)]
pub struct JsonChat {
    pub json: Vec<u8>,
}

impl View for JsonChat {
    type V = Seq<u8>;

    open spec fn view(&self) -> Seq<u8> {
        self.json@
    }
}

impl JsonChat {
    /// Renders `{"text": message}` as JSON bytes.
    pub fn new(message: &str) -> (r: JsonChat)
        ensures
            r@ == json_chat_enc(message.spec_bytes()),
    {
        let bytes = message.as_bytes();
        JsonChat { json: render_json_chat(bytes) }
    }
}

/// The packet sent to a login client when the proxy gives up on it: a chat
/// JSON explaining the reason.
#[derive(Debug, Clone)]
pub struct Disconnect {
    pub chat: Vec<u8>,
}

impl Disconnect {
    /// A disconnect carrying an already rendered chat body.
    pub fn from_chat(chat: &JsonChat) -> (r: Disconnect)
        ensures
            r.chat@ == chat@,
    {
        Disconnect { chat: vstd::slice::slice_to_vec(chat.json.as_slice()) }
    }

    /// A disconnect whose chat body carries `reason`.
    pub fn new(reason: &str) -> (r: Disconnect)
        ensures
            r.chat@ == json_chat_enc(reason.spec_bytes()),
    {
        let chat = JsonChat::new(reason);
        Disconnect::from_chat(&chat)
    }
}

impl PacketId for Disconnect {
    open spec fn spec_id() -> i32 {
        0
    }

    fn packet_id() -> (r: i32) {
        0
    }
}

impl Serialize for Disconnect {
    open spec fn enc(&self) -> Seq<u8> {
        str_enc(self.chat@)
    }

    open spec fn enc_ok(&self) -> bool {
        self.chat@.len() <= i32::MAX
    }

    fn serialize(&self, out: &mut Vec<u8>) {
        self.chat.serialize(out);
    }
}

} // verus!
