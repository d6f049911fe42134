//! The SOCKS5 proxy of an agent: connections of local programs go out through the broker.
use vstd::prelude::*;
use vstd::string::*;
use vstd::utf8::*;

use crate::model::session::SessionId;
use crate::model::wire::{OutboundClientMsg, OutboundConnect, OutboundConnectAck, OutboundServerMsg};
use crate::text::{
    concat, decimal_round_trip, decimal_text, digit, number_text, pieces_are_taken_in_order,
    split_on, utf8_error, utf8_text,
};

verus! {

/// Where a SOCKS5 session stands. Each state but the last three waits for a given number of bytes
/// of the client.
pub enum SocksState {
    /// Two bytes: the version, and how many methods the client offers.
    Greeting,
    /// The methods.
    Methods { count: u8 },
    /// Four bytes: version, command, reserved and the type of the address.
    Request,
    /// Four bytes: an IPv4 address.
    AddressV4,
    /// One byte: the length of a host name.
    NameLength,
    /// A host name.
    Name { len: u8 },
    /// Sixteen bytes: an IPv6 address.
    AddressV6,
    /// The text of an IPv6 address.
    TextV6,
    /// Two bytes: the port.
    Port { host: String },
    /// Waiting for the acknowledgement of the broker.
    Connecting,
    /// Connected: bytes go both ways.
    Bridging,
    /// Over.
    Closed,
}

/// What happens in a SOCKS5 session.
pub enum SocksEvent {
    /// The bytes that were waited for came.
    Bytes(Vec<u8>),
    /// The text of an IPv6 address.
    Text(String),
    /// A message of the broker came; one without content has none.
    Message(Option<OutboundServerMsg>),
    /// The stream of the broker ended.
    Ended,
    /// Bytes were written to the client, or could not be.
    Written(bool),
}

/// What to do about a SOCKS5 session.
pub enum SocksAction {
    /// Write this to the client, then read exactly so many bytes of it.
    Exchange { write: Vec<u8>, read: usize },
    /// Write out an IPv6 address.
    FormatV6(Vec<u8>),
    /// Ask the broker for a connection and wait for its acknowledgement.
    Connect(OutboundClientMsg),
    /// Write this to the client, start to send what it says, and wait for the broker.
    Bridge(Vec<u8>),
    /// Write to the client and say whether it went.
    Write(Vec<u8>),
    /// Wait for the next message of the broker.
    Receive,
    /// Write this to the client if there is any, and stop with an error.
    Fail { write: Vec<u8>, reason: String },
    /// Stop.
    Stop,
}

/// The number of bytes that a state waits for.
pub open spec fn awaited(state: SocksState) -> nat {
    match state {
        SocksState::Greeting => 2,
        SocksState::Methods { count } => count as nat,
        SocksState::Request => 4,
        SocksState::AddressV4 => 4,
        SocksState::NameLength => 1,
        SocksState::Name { len } => len as nat,
        SocksState::AddressV6 => 16,
        SocksState::Port { host } => 2,
        _ => 0,
    }
}

/// The dotted text of an IPv4 address.
pub open spec fn dotted(ip: Seq<u8>) -> Seq<char> {
    decimal_text(ip[0] as nat) + "."@ + decimal_text(ip[1] as nat) + "."@ + decimal_text(
        ip[2] as nat,
    ) + "."@ + decimal_text(ip[3] as nat)
}

/// The reply of a SOCKS5 proxy: a code, and no address.
pub open spec fn socks_reply(code: u8) -> Seq<u8> {
    seq![5u8, code, 0, 1, 0, 0, 0, 0, 0, 0]
}

/// The session stops with an error, and the client is told `write`.
pub open spec fn fails(
    state: SocksState,
    action: SocksAction,
    write: Seq<u8>,
    reason: Seq<char>,
) -> bool {
    &&& state is Closed
    &&& action matches SocksAction::Fail { write: bytes, reason: text }
    &&& bytes@ == write
    &&& text@ == reason
}

/// The session goes on: the client is told `write`, and the bytes that the state waits for are
/// read.
pub open spec fn goes_on(state: SocksState, action: SocksAction, write: Seq<u8>) -> bool {
    &&& action matches SocksAction::Exchange { write: bytes, read }
    &&& bytes@ == write
    &&& read == awaited(state)
}

/// What bytes of the client do, if they are as many as were waited for.
pub open spec fn on_bytes(
    was: SocksState,
    bytes: Seq<u8>,
    session_id: Seq<char>,
    state: SocksState,
    action: SocksAction,
) -> bool {
    let none = Seq::<u8>::empty();
    match was {
        SocksState::Greeting => if bytes[0] == 5 {
            &&& state == (SocksState::Methods { count: bytes[1] })
            &&& goes_on(state, action, none)
        } else {
            fails(state, action, none, "not SOCKS5"@)
        },
        SocksState::Methods { count } => {
            &&& state is Request
            &&& goes_on(state, action, seq![5u8, 0])
        },
        SocksState::Request => if bytes[0] != 5 || bytes[1] != 1 {
            fails(state, action, none, "only SOCKS5 CONNECT supported"@)
        } else if bytes[3] == 1 {
            state is AddressV4 && goes_on(state, action, none)
        } else if bytes[3] == 3 {
            state is NameLength && goes_on(state, action, none)
        } else if bytes[3] == 4 {
            state is AddressV6 && goes_on(state, action, none)
        } else {
            fails(state, action, none, "unsupported ATYP"@)
        },
        SocksState::AddressV4 => {
            &&& state matches SocksState::Port { host }
            &&& host@ == dotted(bytes)
            &&& goes_on(state, action, none)
        },
        SocksState::NameLength => {
            &&& state == (SocksState::Name { len: bytes[0] })
            &&& goes_on(state, action, none)
        },
        SocksState::Name { len } => if valid_utf8(bytes) {
            &&& state matches SocksState::Port { host }
            &&& host@ == decode_utf8(bytes)
            &&& goes_on(state, action, none)
        } else {
            fails(state, action, none, utf8_error(bytes))
        },
        SocksState::AddressV6 => {
            &&& state is TextV6
            &&& action matches SocksAction::FormatV6(ip)
            &&& ip@ == bytes
        },
        SocksState::Port { host } => {
            &&& state is Connecting
            &&& action matches SocksAction::Connect(OutboundClientMsg::Connect(connect))
            &&& connect.session_id@ == session_id
            &&& connect.host == host
            &&& connect.port == bytes[0] * 256 + bytes[1]
        },
        _ => state is Closed && action is Stop,
    }
}

/// What a message of the broker does, or the end of its stream.
pub open spec fn on_broker(
    was: SocksState,
    message: Option<Option<OutboundServerMsg>>,
    state: SocksState,
    action: SocksAction,
) -> bool {
    let none = Seq::<u8>::empty();
    match (was, message) {
        (SocksState::Connecting, Some(Some(OutboundServerMsg::Ack(ack)))) => if ack.success {
            &&& state is Bridging
            &&& action matches SocksAction::Bridge(bytes)
            &&& bytes@ == socks_reply(0)
        } else {
            fails(state, action, socks_reply(5), "broker refused connection: "@ + ack.error@)
        },
        (SocksState::Connecting, Some(_)) => fails(
            state,
            action,
            none,
            "unexpected first message from broker"@,
        ),
        (SocksState::Connecting, None) => fails(
            state,
            action,
            none,
            "broker closed stream before ack"@,
        ),
        (SocksState::Bridging, Some(Some(OutboundServerMsg::Data(data)))) => state is Bridging
            && action == SocksAction::Write(data),
        (SocksState::Bridging, Some(Some(OutboundServerMsg::Ack(_)))) => state is Bridging
            && action is Receive,
        (SocksState::Bridging, Some(Some(OutboundServerMsg::Fin(false)))) => state is Bridging
            && action is Receive,
        _ => state is Closed && action is Stop,
    }
}

/// What an event does in a SOCKS5 session of the session `session_id`.
pub open spec fn on_socks(
    was: SocksState,
    event: SocksEvent,
    session_id: Seq<char>,
    state: SocksState,
    action: SocksAction,
) -> bool {
    match event {
        SocksEvent::Bytes(bytes) => if bytes@.len() == awaited(was) {
            on_bytes(was, bytes@, session_id, state, action)
        } else {
            state is Closed && action is Stop
        },
        SocksEvent::Text(text) => if was is TextV6 {
            &&& state == (SocksState::Port { host: text })
            &&& goes_on(state, action, Seq::empty())
        } else {
            state is Closed && action is Stop
        },
        SocksEvent::Message(message) => on_broker(was, Some(message), state, action),
        SocksEvent::Ended => on_broker(was, None, state, action),
        SocksEvent::Written(written) => if was is Bridging && written {
            state is Bridging && action is Receive
        } else {
            state is Closed && action is Stop
        },
    }
}

fn reply(code: u8) -> (r: Vec<u8>)
    ensures
        r@ == socks_reply(code),
{
    let r: Vec<u8> = vec![5, code, 0, 1, 0, 0, 0, 0, 0, 0];
    assert(r@ =~= socks_reply(code));
    r
}

fn fail(write: Vec<u8>, reason: String) -> (r: (SocksState, SocksAction))
    ensures
        fails(r.0, r.1, write@, reason@),
{
    (SocksState::Closed, SocksAction::Fail { write, reason })
}

fn go_on(state: SocksState, read: usize) -> (r: (SocksState, SocksAction))
    requires
        read == awaited(state),
    ensures
        r.0 == state,
        goes_on(r.0, r.1, Seq::empty()),
{
    (state, SocksAction::Exchange { write: Vec::new(), read })
}

/// Write out an IPv4 address.
pub fn dotted_text(ip: &[u8]) -> (r: String)
    requires
        ip@.len() == 4,
    ensures
        r@ == dotted(ip@),
{
    let a = concat(number_text(ip[0] as u64).as_str(), ".");
    let b = concat(concat(a.as_str(), number_text(ip[1] as u64).as_str()).as_str(), ".");
    let c = concat(concat(b.as_str(), number_text(ip[2] as u64).as_str()).as_str(), ".");
    concat(c.as_str(), number_text(ip[3] as u64).as_str())
}

fn take_bytes(state: SocksState, bytes: Vec<u8>, session_id: &SessionId) -> (r: (
    SocksState,
    SocksAction,
))
    requires
        bytes@.len() == awaited(state),
    ensures
        on_bytes(state, bytes@, session_id@, r.0, r.1),
{
    match state {
        SocksState::Greeting => {
            if bytes[0] == 5 {
                go_on(SocksState::Methods { count: bytes[1] }, bytes[1] as usize)
            } else {
                fail(Vec::new(), "not SOCKS5".to_string())
            }
        },
        SocksState::Methods { count: _ } => {
            let write: Vec<u8> = vec![5, 0];
            assert(write@ =~= seq![5u8, 0]);
            (SocksState::Request, SocksAction::Exchange { write, read: 4 })
        },
        SocksState::Request => {
            if bytes[0] != 5 || bytes[1] != 1 {
                fail(Vec::new(), "only SOCKS5 CONNECT supported".to_string())
            } else if bytes[3] == 1 {
                go_on(SocksState::AddressV4, 4)
            } else if bytes[3] == 3 {
                go_on(SocksState::NameLength, 1)
            } else if bytes[3] == 4 {
                go_on(SocksState::AddressV6, 16)
            } else {
                fail(Vec::new(), "unsupported ATYP".to_string())
            }
        },
        SocksState::AddressV4 => {
            go_on(SocksState::Port { host: dotted_text(bytes.as_slice()) }, 2)
        },
        SocksState::NameLength => {
            go_on(SocksState::Name { len: bytes[0] }, bytes[0] as usize)
        },
        SocksState::Name { len: _ } => match utf8_text(bytes.as_slice()) {
            Ok(host) => {
                proof {
                    encode_utf8_decode_utf8(host@);
                }
                go_on(SocksState::Port { host: host.to_string() }, 2)
            },
            Err(reason) => fail(Vec::new(), reason),
        },
        SocksState::AddressV6 => (SocksState::TextV6, SocksAction::FormatV6(bytes)),
        SocksState::Port { host } => {
            let connect = OutboundConnect {
                session_id: session_id.to_string(),
                host,
                port: (bytes[0] as u32) * 256 + bytes[1] as u32,
            };
            (SocksState::Connecting, SocksAction::Connect(OutboundClientMsg::Connect(connect)))
        },
        _ => (SocksState::Closed, SocksAction::Stop),
    }
}

fn take_message(state: SocksState, message: Option<Option<OutboundServerMsg>>) -> (r: (
    SocksState,
    SocksAction,
))
    ensures
        on_broker(state, message, r.0, r.1),
{
    match (state, message) {
        (SocksState::Connecting, Some(Some(OutboundServerMsg::Ack(ack)))) => {
            if ack.success {
                (SocksState::Bridging, SocksAction::Bridge(reply(0)))
            } else {
                fail(reply(5), concat("broker refused connection: ", ack.error.as_str()))
            }
        },
        (SocksState::Connecting, Some(_)) => fail(
            Vec::new(),
            "unexpected first message from broker".to_string(),
        ),
        (SocksState::Connecting, None) => fail(
            Vec::new(),
            "broker closed stream before ack".to_string(),
        ),
        (SocksState::Bridging, Some(Some(message))) => match message {
            OutboundServerMsg::Data(data) => (SocksState::Bridging, SocksAction::Write(data)),
            OutboundServerMsg::Fin(true) => (SocksState::Closed, SocksAction::Stop),
            _ => (SocksState::Bridging, SocksAction::Receive),
        },
        _ => (SocksState::Closed, SocksAction::Stop),
    }
}

/// Begin a SOCKS5 session.
pub fn socks_start() -> (r: (SocksState, SocksAction))
    ensures
        r.0 is Greeting,
        goes_on(r.0, r.1, Seq::empty()),
{
    go_on(SocksState::Greeting, 2)
}

/// Take the next step in a SOCKS5 session. An event that the state does not wait for ends it.
pub fn handle(state: SocksState, event: SocksEvent, session_id: &SessionId) -> (r: (
    SocksState,
    SocksAction,
))
    ensures
        on_socks(state, event, session_id@, r.0, r.1),
{
    match event {
        SocksEvent::Bytes(bytes) => {
            let read: usize = match &state {
                SocksState::Greeting => 2,
                SocksState::Methods { count } => *count as usize,
                SocksState::Request => 4,
                SocksState::AddressV4 => 4,
                SocksState::NameLength => 1,
                SocksState::Name { len } => *len as usize,
                SocksState::AddressV6 => 16,
                SocksState::Port { host: _ } => 2,
                _ => 0,
            };
            if bytes.len() != read {
                return (SocksState::Closed, SocksAction::Stop);
            }
            take_bytes(state, bytes, session_id)
        },
        SocksEvent::Text(text) => match state {
            SocksState::TextV6 => go_on(SocksState::Port { host: text }, 2),
            _ => (SocksState::Closed, SocksAction::Stop),
        },
        SocksEvent::Message(message) => take_message(state, Some(message)),
        SocksEvent::Ended => take_message(state, None),
        SocksEvent::Written(written) => match state {
            SocksState::Bridging if written => (SocksState::Bridging, SocksAction::Receive),
            _ => (SocksState::Closed, SocksAction::Stop),
        },
    }
}

/// What a read from the client makes for the broker, and whether it was the last: a read of
/// nothing, like one that failed, is.
pub fn socks_read(read: Option<Vec<u8>>) -> (r: (OutboundClientMsg, bool))
    ensures
        match read {
            Some(bytes) => if bytes@.len() == 0 {
                r == (OutboundClientMsg::Fin(true), true)
            } else {
                r == (OutboundClientMsg::Data(bytes), false)
            },
            None => r == (OutboundClientMsg::Fin(true), true),
        },
{
    match read {
        Some(bytes) => if bytes.len() == 0 {
            (OutboundClientMsg::Fin(true), true)
        } else {
            (OutboundClientMsg::Data(bytes), false)
        },
        None => (OutboundClientMsg::Fin(true), true),
    }
}

// ── Laws ──────────────────────────────────────────────────────────────────────

/// An IPv4 address is written as its four numbers, in order, with dots between them.
pub proof fn addresses_are_dotted(ip: Seq<u8>)
    requires
        ip.len() == 4,
    ensures
        split_on(dotted(ip), '.') == seq![
            decimal_text(ip[0] as nat),
            decimal_text(ip[1] as nat),
            decimal_text(ip[2] as nat),
            decimal_text(ip[3] as nat),
        ],
{
    reveal_strlit(".");
    let a = decimal_text(ip[0] as nat);
    let b = decimal_text(ip[1] as nat);
    let c = decimal_text(ip[2] as nat);
    let d = decimal_text(ip[3] as nat);
    lemma_no_dot(ip[0] as nat);
    lemma_no_dot(ip[1] as nat);
    lemma_no_dot(ip[2] as nat);
    lemma_no_dot(ip[3] as nat);
    let dot = seq!['.'];
    assert("."@ =~= dot);
    let cd = c + dot + d;
    let bcd = b + dot + cd;
    assert(dotted(ip) =~= a + dot + bcd);
    pieces_are_taken_in_order(a, bcd, '.');
    pieces_are_taken_in_order(b, cd, '.');
    pieces_are_taken_in_order(c, d, '.');
    pieces_are_taken_in_order(d, d, '.');
    assert(seq![a] + (seq![b] + (seq![c] + seq![d])) =~= seq![a, b, c, d]);
}

proof fn lemma_no_dot(n: nat)
    ensures
        !decimal_text(n).contains('.'),
{
    decimal_round_trip(n);
    let digits = decimal_text(n);
    if digits.contains('.') {
        let i = choose|i: int| 0 <= i < digits.len() && digits[i] == '.';
        assert(digit(digits[i]));
    }
}

/// A client is greeted and asked for its request: as many methods are read as it offers, none is
/// asked of it, and what is no request to connect is turned away.
pub proof fn clients_are_greeted(
    greeting: Seq<u8>,
    methods: Seq<u8>,
    request: Seq<u8>,
    count: u8,
    session_id: Seq<char>,
    s1: SocksState,
    a1: SocksAction,
    s2: SocksState,
    a2: SocksAction,
    s3: SocksState,
    a3: SocksAction,
)
    requires
        greeting.len() == 2,
        request.len() == 4,
        on_bytes(SocksState::Greeting, greeting, session_id, s1, a1),
        on_bytes(SocksState::Methods { count }, methods, session_id, s2, a2),
        on_bytes(SocksState::Request, request, session_id, s3, a3),
    ensures
        greeting[0] == 5 ==> awaited(s1) == greeting[1] && (a1 matches SocksAction::Exchange {
            write,
            read,
        } && write@.len() == 0 && read == greeting[1]),
        greeting[0] != 5 ==> s1 is Closed && a1 is Fail,
        awaited(s2) == 4 && (a2 matches SocksAction::Exchange { write, read } && write@.len() == 2
            && write@[0] == 5 && write@[1] == 0 && read == 4),
        request[0] != 5 || request[1] != 1 ==> s3 is Closed && a3 is Fail,
        request[0] == 5 && request[1] == 1 && request[3] == 1 ==> s3 is AddressV4 && awaited(s3) == 4,
        request[0] == 5 && request[1] == 1 && request[3] == 3 ==> s3 is NameLength && awaited(s3) == 1,
        request[0] == 5 && request[1] == 1 && request[3] == 4 ==> s3 is AddressV6 && awaited(s3) == 16,
        request[0] == 5 && request[1] == 1 && request[3] != 1 && request[3] != 3 && request[3] != 4
            ==> s3 is Closed && a3 is Fail,
{
}

/// The broker is asked for the host and the port that the client named: the first byte of the port
/// counts 256 times the second.
pub proof fn broker_is_asked_for_the_target(
    host: String,
    bytes: Seq<u8>,
    session_id: Seq<char>,
    state: SocksState,
    action: SocksAction,
)
    requires
        bytes.len() == 2,
        on_bytes(SocksState::Port { host }, bytes, session_id, state, action),
    ensures
        state is Connecting,
        action matches SocksAction::Connect(OutboundClientMsg::Connect(connect)) && connect.host@
            == host@ && connect.session_id@ == session_id && connect.port == 256 * bytes[0] + bytes[1],
{
}

/// Once the broker has connected, the client hears of it, and everything that the broker sends is
/// written to it as it came, until the broker ends the connection.
pub proof fn bytes_are_bridged(
    ack: OutboundConnectAck,
    data: Vec<u8>,
    s1: SocksState,
    a1: SocksAction,
    s2: SocksState,
    a2: SocksAction,
    s3: SocksState,
    a3: SocksAction,
    s4: SocksState,
    a4: SocksAction,
)
    requires
        on_broker(SocksState::Connecting, Some(Some(OutboundServerMsg::Ack(ack))), s1, a1),
        on_broker(
            SocksState::Bridging,
            Some(Some(OutboundServerMsg::Data(data))),
            s2,
            a2,
        ),
        on_broker(SocksState::Bridging, Some(Some(OutboundServerMsg::Fin(true))), s3, a3),
        on_broker(SocksState::Bridging, None, s4, a4),
    ensures
        ack.success ==> s1 is Bridging && (a1 matches SocksAction::Bridge(bytes) && bytes@.len() == 10
            && bytes@[0] == 5 && bytes@[1] == 0 && bytes@[3] == 1),
        !ack.success ==> s1 is Closed && (a1 matches SocksAction::Fail { write, reason }
            && write@.len() == 10 && write@[0] == 5 && write@[1] == 5 && reason@
            == "broker refused connection: "@ + ack.error@),
        s2 is Bridging && (a2 matches SocksAction::Write(bytes) && bytes@ == data@),
        s3 is Closed && a3 is Stop,
        s4 is Closed && a4 is Stop,
{
}

/// A name is read to the length that goes before it, and an IPv6 address is asked for by its text; a
/// broker that breaks off or answers with something else fails the client.
pub proof fn targets_are_read_whole(
    len: Seq<u8>,
    name: Seq<char>,
    count: u8,
    text: String,
    session_id: Seq<char>,
    s1: SocksState,
    a1: SocksAction,
    s2: SocksState,
    a2: SocksAction,
    s3: SocksState,
    a3: SocksAction,
    s4: SocksState,
    a4: SocksAction,
    s5: SocksState,
    a5: SocksAction,
)
    requires
        len.len() == 1,
        on_bytes(SocksState::NameLength, len, session_id, s1, a1),
        on_bytes(SocksState::Name { len: count }, encode_utf8(name), session_id, s2, a2),
        on_socks(SocksState::TextV6, SocksEvent::Text(text), session_id, s3, a3),
        on_broker(SocksState::Connecting, None, s4, a4),
        on_broker(SocksState::Connecting, Some(None), s5, a5),
    ensures
        awaited(s1) == len[0],
        s2 matches SocksState::Port { host } && host@ == name,
        s3 matches SocksState::Port { host } && host@ == text@,
        awaited(s3) == 2,
        s4 is Closed && a4 is Fail,
        s5 is Closed && a5 is Fail,
{
    encode_utf8_valid_utf8(name);
    encode_utf8_decode_utf8(name);
}

/// A client that takes what is written goes on, and one that does not is left.
pub proof fn lost_client_is_left(
    session_id: Seq<char>,
    s1: SocksState,
    a1: SocksAction,
    s2: SocksState,
    a2: SocksAction,
)
    requires
        on_socks(SocksState::Bridging, SocksEvent::Written(true), session_id, s1, a1),
        on_socks(SocksState::Bridging, SocksEvent::Written(false), session_id, s2, a2),
    ensures
        s1 is Bridging && a1 is Receive,
        s2 is Closed && a2 is Stop,
{
}

/// What is read of a client next is what is waited for, and nothing is written to it before the
/// broker answers but that no authentication is asked for.
pub proof fn client_is_read_as_awaited(
    was: SocksState,
    bytes: Seq<u8>,
    session_id: Seq<char>,
    state: SocksState,
    action: SocksAction,
)
    requires
        on_bytes(was, bytes, session_id, state, action),
    ensures
        action matches SocksAction::Exchange { write, read } ==> read == awaited(state) && (
        write@.len() == 0 || (was is Methods && write@ == seq![5u8, 0])),
        action matches SocksAction::Fail { write, reason } ==> write@.len() == 0,
        action is Fail ==> state is Closed,
{
}

} // verus!
