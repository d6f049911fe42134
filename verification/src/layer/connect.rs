//! What the layer does with connections: which ones go through the SOCKS5 proxy of the agent, and
//! what is said to the proxy.
use vstd::prelude::*;
use vstd::string::*;
use vstd::utf8::*;

use crate::agent::outbound::{
    awaited, dotted, dotted_text, on_bytes, on_socks, socks_reply, SocksAction, SocksEvent,
    SocksState,
};
use crate::layer::fake_ip::{
    after_assign, be_bytes, big_endian, consistent, fake_addresses_lead_back, fake_v6_prefix,
    host_behind_v4, host_behind_v6, number_of, v4_of, v6_of, FAKE_V4_COUNT, FakeIpTable, TableView,
};
use crate::layer::rules::{
    bypassed_host, bypassed_port, first_mapped, host_bypassed, port_bypassed, unix_socket_target,
};
use crate::model::wire::OutboundClientMsg;
use crate::text::{chars_of, opt_str, parse_decimal, parse_number, push_bytes, split_on};

verus! {

// ── Which connections are tunneled ────────────────────────────────────────────

/// The address of a connection.
pub enum Peer {
    V4 { ip: u32, port: u16 },
    /// With the address written out.
    V6 { octets: Vec<u8>, port: u16, text: String },
    /// With the path, if it is one.
    Unix { path: Option<String> },
    Other,
}

/// An IPv4 address of this machine: 127.0.0.0/8.
pub open spec fn loopback_v4(ip: u32) -> bool {
    ip / 0x100_0000 == 127
}

/// The IPv6 address of this machine: `::1`.
pub open spec fn loopback_v6(ip: Seq<u8>) -> bool {
    (forall|i: int| 0 <= i < 15 ==> #[trigger] ip[i] == 0) && ip[15] == 1
}

/// Where a connection is meant to go, by name: the host behind a made-up address, the address
/// itself, or what a socket path is mapped to. Nothing for what is left to the system.
pub open spec fn meant(peer: Peer, table: TableView, maps: Option<Seq<char>>) -> Option<
    (Seq<char>, u16),
> {
    match peer {
        Peer::V4 { ip, port } => if loopback_v4(ip) {
            None
        } else {
            match host_behind_v4(table, ip) {
                Some(host) => Some((host, port)),
                None => Some((dotted(big_endian(ip)), port)),
            }
        },
        Peer::V6 { octets, port, text } => if loopback_v6(octets@) {
            None
        } else {
            match host_behind_v6(table, octets@) {
                Some(host) => Some((host, port)),
                None => Some((text@, port)),
            }
        },
        Peer::Unix { path } => match (path, maps) {
            (Some(path), Some(list)) => first_mapped(split_on(list, ';'), path@),
            _ => None,
        },
        Peer::Other => None,
    }
}

/// The values of the environment variables that rule connections.
pub struct Rules<'a> {
    pub bypass_hosts: Option<&'a str>,
    pub bypass_ports: Option<&'a str>,
    pub unix_socket_maps: Option<&'a str>,
}

/// The target of a connection that goes through the proxy: a stream connection that is meant for
/// elsewhere and is not bypassed.
pub open spec fn tunnel_target(stream: bool, peer: Peer, table: TableView, rules: Rules) -> Option<
    (Seq<char>, u16),
> {
    match meant(peer, table, opt_str(rules.unix_socket_maps)) {
        Some((host, port)) => if stream && !port_bypassed(opt_str(rules.bypass_ports), port)
            && !host_bypassed(opt_str(rules.bypass_hosts), host) {
            Some((host, port))
        } else {
            None
        },
        None => None,
    }
}

fn is_loopback_v6(ip: &[u8]) -> (r: bool)
    requires
        ip@.len() == 16,
    ensures
        r == loopback_v6(ip@),
{
    let mut i: usize = 0;
    while i < 15
        invariant
            i <= 15,
            ip@.len() == 16,
            forall|k: int| 0 <= k < i ==> #[trigger] ip@[k] == 0,
        decreases 15 - i,
    {
        if ip[i] != 0 {
            return false;
        }
        i = i + 1;
    }
    ip[15] == 1
}

/// Decide whether a connection goes through the proxy, and where to. `stream` says that the socket
/// is a stream socket.
pub fn connect(stream: bool, peer: &Peer, table: &FakeIpTable, rules: &Rules) -> (r: Option<
    (String, u16),
>)
    requires
        peer matches Peer::V6 { octets, .. } ==> octets@.len() == 16,
    ensures
        match r {
            Some((host, port)) => tunnel_target(stream, *peer, table@, *rules) == Some(
                (host@, port),
            ),
            None => tunnel_target(stream, *peer, table@, *rules) is None,
        },
{
    if !stream {
        return None;
    }
    let (target, port): (String, u16) = match peer {
        Peer::V4 { ip, port } => {
            let ip: u32 = *ip;
            if ip / 0x100_0000 == 127 {
                return None;
            }
            match table.lookup_v4(ip) {
                Some(host) => (host, *port),
                None => (dotted_text(be_bytes(ip).as_slice()), *port),
            }
        },
        Peer::V6 { octets, port, text } => {
            if is_loopback_v6(octets.as_slice()) {
                return None;
            }
            match table.lookup_v6(octets.as_slice()) {
                Some(host) => (host, *port),
                None => (text.clone(), *port),
            }
        },
        Peer::Unix { path } => match path {
            None => {
                return None;
            },
            Some(path) => match unix_socket_target(path.as_str(), rules.unix_socket_maps) {
                None => {
                    return None;
                },
                Some(target) => target,
            },
        },
        Peer::Other => {
            return None;
        },
    };
    if bypassed_port(port, rules.bypass_ports) || bypassed_host(
        target.as_str(),
        rules.bypass_hosts,
    ) {
        return None;
    }
    Some((target, port))
}

/// A `connectx` call is a plain connect: nothing but a destination is given.
pub fn simple_connect(
    associd: u32,
    flags: u32,
    source_interface: u32,
    has_source: bool,
    destination_len: Option<u32>,
    vectors: u32,
) -> (r: bool)
    ensures
        r == (associd == 0 && flags == 0 && source_interface == 0 && !has_source
            && destination_len is Some && destination_len->0 > 0 && vectors == 0),
{
    match destination_len {
        None => false,
        Some(len) => associd == 0 && flags == 0 && source_interface == 0 && !has_source && len > 0
            && vectors == 0,
    }
}

// ── Speaking to the proxy ─────────────────────────────────────────────────────

/// The port of the proxy, unless the environment says otherwise.
pub const DEFAULT_SOCKS5_PORT: u16 = 1081;

/// The port of the proxy.
pub fn socks5_port(setting: Option<&str>) -> (r: u16)
    ensures
        r == match opt_str(setting) {
            Some(text) => match parse_decimal(text, u16::MAX as nat) {
                Some(port) => port as u16,
                None => DEFAULT_SOCKS5_PORT,
            },
            None => DEFAULT_SOCKS5_PORT,
        },
{
    match setting {
        Some(text) => match parse_number(chars_of(text).as_slice(), u16::MAX as u64) {
            Some(port) => port as u16,
            None => DEFAULT_SOCKS5_PORT,
        },
        None => DEFAULT_SOCKS5_PORT,
    }
}

/// How a host is named to the proxy.
pub enum SocksHost {
    /// By its IPv4 address.
    V4(Vec<u8>),
    /// By its IPv6 address.
    V6(Vec<u8>),
    /// By its name.
    Name(String),
}

/// The address part of a request: a type, and the address. Of the length of a name the lower eight
/// bits are sent.
pub open spec fn address_part(host: SocksHost) -> Seq<u8> {
    match host {
        SocksHost::V4(ip) => seq![1u8] + ip@,
        SocksHost::V6(ip) => seq![4u8] + ip@,
        SocksHost::Name(name) => seq![3u8, (encode_utf8(name@).len() % 256) as u8] + encode_utf8(
            name@,
        ),
    }
}

/// A port as two bytes, the most significant one first.
pub open spec fn port_bytes(port: u16) -> Seq<u8> {
    seq![(port / 256) as u8, (port % 256) as u8]
}

/// The request to connect to a host.
pub open spec fn connect_request(host: SocksHost, port: u16) -> Seq<u8> {
    seq![5u8, 1, 0] + address_part(host) + port_bytes(port)
}

/// Make the request to connect to a host.
pub fn socks5_request(host: &SocksHost, port: u16) -> (r: Vec<u8>)
    ensures
        r@ == connect_request(*host, port),
{
    let mut req: Vec<u8> = vec![5, 1, 0];
    assert(req@ =~= seq![5u8, 1, 0]);
    match host {
        SocksHost::V4(ip) => {
            req.push(1);
            push_bytes(&mut req, ip.as_slice());
        },
        SocksHost::V6(ip) => {
            req.push(4);
            push_bytes(&mut req, ip.as_slice());
        },
        SocksHost::Name(name) => {
            let bytes = name.as_str().as_bytes();
            req.push(3);
            req.push((bytes.len() % 256) as u8);
            push_bytes(&mut req, bytes);
        },
    }
    assert(req@ =~= seq![5u8, 1, 0] + address_part(*host));
    req.push((port / 256) as u8);
    req.push((port % 256) as u8);
    assert(req@ =~= connect_request(*host, port));
    req
}

/// Where the talk with the proxy stands. Each state but the last two waits for a given number of
/// bytes of the proxy.
pub enum ClientState {
    /// Two bytes: the answer to the greeting.
    Greeting,
    /// Four bytes: the start of the reply.
    Reply,
    /// One byte: the length of the host name in the reply.
    BoundNameLength,
    /// The rest of the reply.
    Bound { len: usize },
    /// Connected.
    Done,
    /// Refused.
    Refused,
}

/// What to do next in the talk with the proxy.
pub enum ClientAction {
    /// Write this to the proxy, then read exactly so many bytes of it.
    Exchange { write: Vec<u8>, read: usize },
    /// The connection stands.
    Connected,
    /// The proxy refused, for this reason.
    Refuse { reason: String },
}

/// The number of bytes that a state waits for.
pub open spec fn client_awaits(state: ClientState) -> nat {
    match state {
        ClientState::Greeting => 2,
        ClientState::Reply => 4,
        ClientState::BoundNameLength => 1,
        ClientState::Bound { len } => len as nat,
        _ => 0,
    }
}

/// The talk goes on: the proxy is told `write`, and the bytes that the state waits for are read.
pub open spec fn client_goes_on(state: ClientState, action: ClientAction, write: Seq<u8>) -> bool {
    &&& action matches ClientAction::Exchange { write: bytes, read }
    &&& bytes@ == write
    &&& read == client_awaits(state)
}

/// The proxy refused.
pub open spec fn client_refused(
    state: ClientState,
    action: ClientAction,
    reason: Seq<char>,
) -> bool {
    &&& state is Refused
    &&& action matches ClientAction::Refuse { reason: text }
    &&& text@ == reason
}

/// What bytes of the proxy do, if they are as many as were waited for.
pub open spec fn on_proxy_bytes(
    was: ClientState,
    bytes: Seq<u8>,
    host: SocksHost,
    port: u16,
    state: ClientState,
    action: ClientAction,
) -> bool {
    let none = Seq::<u8>::empty();
    match was {
        ClientState::Greeting => if bytes == seq![5u8, 0] {
            state is Reply && client_goes_on(state, action, connect_request(host, port))
        } else {
            client_refused(state, action, "SOCKS5 auth rejected"@)
        },
        ClientState::Reply => if bytes[1] != 0 {
            client_refused(state, action, "SOCKS5 CONNECT failed"@)
        } else if bytes[3] == 1 {
            state == (ClientState::Bound { len: 6 }) && client_goes_on(state, action, none)
        } else if bytes[3] == 3 {
            state is BoundNameLength && client_goes_on(state, action, none)
        } else if bytes[3] == 4 {
            state == (ClientState::Bound { len: 18 }) && client_goes_on(state, action, none)
        } else {
            state is Done && action is Connected
        },
        ClientState::BoundNameLength => state == (ClientState::Bound {
            len: (bytes[0] + 2) as usize,
        }) && client_goes_on(state, action, none),
        _ => state is Done && action is Connected,
    }
}

fn client_go_on(state: ClientState, write: Vec<u8>, read: usize) -> (r: (
    ClientState,
    ClientAction,
))
    requires
        read == client_awaits(state),
    ensures
        r.0 == state,
        client_goes_on(r.0, r.1, write@),
{
    (state, ClientAction::Exchange { write, read })
}

/// Begin to speak to the proxy: no authentication is offered.
pub fn socks5_start() -> (r: (ClientState, ClientAction))
    ensures
        r.0 is Greeting,
        client_goes_on(r.0, r.1, seq![5u8, 1, 0]),
{
    let write: Vec<u8> = vec![5, 1, 0];
    assert(write@ =~= seq![5u8, 1, 0]);
    client_go_on(ClientState::Greeting, write, 2)
}

/// Take the next step in the talk with the proxy.
pub fn socks5_connect(state: ClientState, bytes: &[u8], host: &SocksHost, port: u16) -> (r: (
    ClientState,
    ClientAction,
))
    requires
        bytes@.len() == client_awaits(state),
    ensures
        on_proxy_bytes(state, bytes@, *host, port, r.0, r.1),
{
    match state {
        ClientState::Greeting => {
            if bytes[0] == 5 && bytes[1] == 0 {
                assert(bytes@ =~= seq![5u8, 0]);
                client_go_on(ClientState::Reply, socks5_request(host, port), 4)
            } else {
                (
                    ClientState::Refused,
                    ClientAction::Refuse { reason: "SOCKS5 auth rejected".to_string() },
                )
            }
        },
        ClientState::Reply => {
            if bytes[1] != 0 {
                (
                    ClientState::Refused,
                    ClientAction::Refuse { reason: "SOCKS5 CONNECT failed".to_string() },
                )
            } else if bytes[3] == 1 {
                client_go_on(ClientState::Bound { len: 6 }, Vec::new(), 6)
            } else if bytes[3] == 3 {
                client_go_on(ClientState::BoundNameLength, Vec::new(), 1)
            } else if bytes[3] == 4 {
                client_go_on(ClientState::Bound { len: 18 }, Vec::new(), 18)
            } else {
                (ClientState::Done, ClientAction::Connected)
            }
        },
        ClientState::BoundNameLength => {
            let len: usize = bytes[0] as usize + 2;
            client_go_on(ClientState::Bound { len }, Vec::new(), len)
        },
        _ => (ClientState::Done, ClientAction::Connected),
    }
}

// ── Laws ──────────────────────────────────────────────────────────────────────

/// A connection to this machine is never tunneled.
pub proof fn loopback_is_left_alone(peer: Peer, table: TableView, rules: Rules)
    requires
        match peer {
            Peer::V4 { ip, .. } => loopback_v4(ip),
            Peer::V6 { octets, .. } => loopback_v6(octets@),
            _ => false,
        },
    ensures
        tunnel_target(true, peer, table, rules) is None,
{
}

/// Every other address is tunneled unless it is bypassed: a made-up one by the host behind it, and
/// any other by the address itself.
pub proof fn other_addresses_are_tunneled(peer: Peer, table: TableView, rules: Rules)
    requires
        match peer {
            Peer::V4 { ip, .. } => !loopback_v4(ip),
            Peer::V6 { octets, .. } => !loopback_v6(octets@),
            _ => false,
        },
    ensures
        ({
            let (host, port) = match peer {
                Peer::V4 { ip, port } => (
                    match host_behind_v4(table, ip) {
                        Some(host) => host,
                        None => dotted(big_endian(ip)),
                    },
                    port,
                ),
                Peer::V6 { octets, port, text } => (
                    match host_behind_v6(table, octets@) {
                        Some(host) => host,
                        None => text@,
                    },
                    port,
                ),
                _ => (Seq::empty(), 0),
            };
            tunnel_target(true, peer, table, rules) == if port_bypassed(
                opt_str(rules.bypass_ports),
                port,
            ) || host_bypassed(opt_str(rules.bypass_hosts), host) {
                None
            } else {
                Some((host, port))
            }
        }),
{
}

/// A connection to an address that a lookup was answered with is meant for the host that was
/// looked up: over IPv6 always, over IPv4 while the number of the host fits the range.
pub proof fn answered_lookup_leads_to_its_host(
    table: TableView,
    host: Seq<char>,
    peer: Peer,
    maps: Option<Seq<char>>,
)
    requires
        consistent(table),
        match peer {
            Peer::V4 { ip, .. } => number_of(table, host) < FAKE_V4_COUNT && ip == v4_of(
                number_of(table, host),
            ),
            Peer::V6 { octets, .. } => octets@ == v6_of(number_of(table, host)),
            _ => false,
        },
    ensures
        meant(peer, after_assign(table, host), maps) == Some(
            (
                host,
                match peer {
                    Peer::V4 { port, .. } => port,
                    Peer::V6 { port, .. } => port,
                    _ => 0,
                },
            ),
        ),
{
    fake_addresses_lead_back(table, host);
    if let Peer::V6 { octets, .. } = peer {
        assert(octets@[0] == fake_v6_prefix()[0]);
    }
}

/// What the layer asks for is what the agent reads: a host name of at most 255 bytes and its port
/// arrive as they were sent, byte by byte as the agent waits for them.
pub proof fn named_request_reads_back(
    name: String,
    port: u16,
    session_id: Seq<char>,
    s1: SocksState,
    a1: SocksAction,
    s2: SocksState,
    a2: SocksAction,
    s3: SocksState,
    a3: SocksAction,
    s4: SocksState,
    a4: SocksAction,
)
    requires
        encode_utf8(name@).len() < 256,
        ({
            let req = connect_request(SocksHost::Name(name), port);
            let n = encode_utf8(name@).len() as int;
            &&& on_bytes(SocksState::Request, req.subrange(0, 4), session_id, s1, a1)
            &&& on_bytes(s1, req.subrange(4, 5), session_id, s2, a2)
            &&& on_bytes(s2, req.subrange(5, 5 + n), session_id, s3, a3)
            &&& on_bytes(s3, req.subrange(5 + n, 7 + n), session_id, s4, a4)
        }),
    ensures
        awaited(SocksState::Request) == 4,
        awaited(s1) == 1,
        awaited(s2) == encode_utf8(name@).len(),
        awaited(s3) == 2,
        connect_request(SocksHost::Name(name), port).len() == 7 + encode_utf8(name@).len(),
        a4 matches SocksAction::Connect(OutboundClientMsg::Connect(connect)) && connect.host@
            == name@ && connect.port == port && connect.session_id@ == session_id,
{
    let req = connect_request(SocksHost::Name(name), port);
    let bytes = encode_utf8(name@);
    let n = bytes.len() as int;
    let part = address_part(SocksHost::Name(name));
    assert(part.len() == 2 + n);
    assert(req.subrange(0, 4)[3] == 3);
    assert(req.subrange(4, 5)[0] == n);
    assert(req.subrange(5, 5 + n) =~= bytes);
    encode_utf8_valid_utf8(name@);
    encode_utf8_decode_utf8(name@);
    assert(req.subrange(5 + n, 7 + n)[0] == port / 256);
    assert(req.subrange(5 + n, 7 + n)[1] == port % 256);
}

/// The same for a host that is asked for by its IPv4 address: the agent reads the dotted address.
pub proof fn v4_request_reads_back(
    ip: Vec<u8>,
    port: u16,
    session_id: Seq<char>,
    s1: SocksState,
    a1: SocksAction,
    s2: SocksState,
    a2: SocksAction,
    s3: SocksState,
    a3: SocksAction,
)
    requires
        ip@.len() == 4,
        ({
            let req = connect_request(SocksHost::V4(ip), port);
            &&& on_bytes(SocksState::Request, req.subrange(0, 4), session_id, s1, a1)
            &&& on_bytes(s1, req.subrange(4, 8), session_id, s2, a2)
            &&& on_bytes(s2, req.subrange(8, 10), session_id, s3, a3)
        }),
    ensures
        awaited(s1) == 4,
        awaited(s2) == 2,
        connect_request(SocksHost::V4(ip), port).len() == 10,
        a3 matches SocksAction::Connect(OutboundClientMsg::Connect(connect)) && connect.host@
            == dotted(ip@) && connect.port == port && connect.session_id@ == session_id,
{
    let req = connect_request(SocksHost::V4(ip), port);
    assert(req.subrange(0, 4)[3] == 1);
    assert(req.subrange(4, 8) =~= ip@);
    assert(req.subrange(8, 10)[0] == port / 256);
    assert(req.subrange(8, 10)[1] == port % 256);
}

/// The same for a host that is asked for by its IPv6 address: the agent has the address written
/// out, and asks for what is written.
pub proof fn v6_request_reads_back(
    ip: Vec<u8>,
    port: u16,
    text: String,
    session_id: Seq<char>,
    s1: SocksState,
    a1: SocksAction,
    s2: SocksState,
    a2: SocksAction,
    s3: SocksState,
    a3: SocksAction,
    s4: SocksState,
    a4: SocksAction,
)
    requires
        ip@.len() == 16,
        ({
            let req = connect_request(SocksHost::V6(ip), port);
            &&& on_bytes(SocksState::Request, req.subrange(0, 4), session_id, s1, a1)
            &&& on_bytes(s1, req.subrange(4, 20), session_id, s2, a2)
            &&& on_socks(s2, SocksEvent::Text(text), session_id, s3, a3)
            &&& on_bytes(s3, req.subrange(20, 22), session_id, s4, a4)
        }),
    ensures
        awaited(s1) == 16,
        a2 matches SocksAction::FormatV6(asked) && asked@ == ip@,
        awaited(s3) == 2,
        connect_request(SocksHost::V6(ip), port).len() == 22,
        a4 matches SocksAction::Connect(OutboundClientMsg::Connect(connect)) && connect.host
            == text && connect.port == port && connect.session_id@ == session_id,
{
    let req = connect_request(SocksHost::V6(ip), port);
    assert(req.subrange(0, 4)[3] == 4);
    assert(req.subrange(4, 20) =~= ip@);
    assert(req.subrange(20, 22)[0] == port / 256);
    assert(req.subrange(20, 22)[1] == port % 256);
}

/// What the agent replies is understood: its refusal refuses the connection, and its success is
/// the end of the talk once the address that follows has been read.
pub proof fn replies_are_understood(
    host: SocksHost,
    port: u16,
    s1: ClientState,
    a1: ClientAction,
    s2: ClientState,
    a2: ClientAction,
)
    ensures
        on_proxy_bytes(
            ClientState::Reply,
            socks_reply(5).subrange(0, 4),
            host,
            port,
            s1,
            a1,
        ) ==> s1 is Refused,
        on_proxy_bytes(
            ClientState::Reply,
            socks_reply(0).subrange(0, 4),
            host,
            port,
            s1,
            a1,
        ) && on_proxy_bytes(s1, socks_reply(0).subrange(4, 10), host, port, s2, a2) ==> client_awaits(
            s1,
        ) == 6 && s2 is Done && a2 is Connected,
{
    assert(socks_reply(5).subrange(0, 4)[1] == 5);
    assert(socks_reply(0).subrange(0, 4)[1] == 0);
    assert(socks_reply(0).subrange(0, 4)[3] == 1);
}

/// This machine is every IPv4 address that begins with 127, and the IPv6 address of fifteen zero
/// bytes and a one; no other address is.
pub proof fn this_machine_is_known(ip: u32, octets: Seq<u8>, i: int)
    requires
        octets.len() == 16,
        0 <= i < 15,
    ensures
        loopback_v4(ip) <==> 127 * 16777216 <= ip < 128 * 16777216,
        octets[i] != 0 ==> !loopback_v6(octets),
        octets[15] != 1 ==> !loopback_v6(octets),
        (forall|k: int| 0 <= k < 15 ==> #[trigger] octets[k] == 0) && octets[15] == 1 ==> loopback_v6(
            octets,
        ),
{
}

/// Only streams are tunneled, and what is tunneled is neither on a bypassed port nor to a bypassed
/// host.
pub proof fn bypassed_connections_are_left_alone(peer: Peer, table: TableView, rules: Rules)
    ensures
        tunnel_target(false, peer, table, rules) is None,
        tunnel_target(true, peer, table, rules) matches Some((host, port)) ==> !port_bypassed(
            opt_str(rules.bypass_ports),
            port,
        ) && !host_bypassed(opt_str(rules.bypass_hosts), host),
        peer is Other ==> tunnel_target(true, peer, table, rules) is None,
        (peer matches Peer::Unix { path: None }) ==> tunnel_target(true, peer, table, rules) is None,
{
}

/// A socket path is tunneled to where the first fitting mapping leads, unless that is bypassed.
pub proof fn mapped_sockets_are_tunneled(
    path: String,
    table: TableView,
    rules: Rules,
    maps: Seq<char>,
)
    requires
        opt_str(rules.unix_socket_maps) == Some(maps),
    ensures
        match first_mapped(split_on(maps, ';'), path@) {
            Some((host, port)) => tunnel_target(
                true,
                Peer::Unix { path: Some(path) },
                table,
                rules,
            ) == (if port_bypassed(opt_str(rules.bypass_ports), port) || host_bypassed(
                opt_str(rules.bypass_hosts),
                host,
            ) {
                None
            } else {
                Some((host, port))
            }),
            None => tunnel_target(true, Peer::Unix { path: Some(path) }, table, rules) is None,
        },
{
}

/// A request to the proxy is five, one and zero, then a type and the address, and last the port, its
/// first byte counting 256 times the second. Of a name the length goes before it.
pub proof fn request_has_its_parts(ip4: Vec<u8>, ip6: Vec<u8>, name: String, port: u16)
    requires
        ip4@.len() == 4,
        ip6@.len() == 16,
        encode_utf8(name@).len() < 256,
    ensures
        ({
            let bytes = connect_request(SocksHost::V4(ip4), port);
            &&& bytes.len() == 10
            &&& bytes[0] == 5 && bytes[1] == 1 && bytes[2] == 0 && bytes[3] == 1
            &&& bytes.subrange(4, 8) == ip4@
            &&& bytes[8] * 256 + bytes[9] == port
        }),
        ({
            let bytes = connect_request(SocksHost::V6(ip6), port);
            &&& bytes.len() == 22
            &&& bytes[0] == 5 && bytes[1] == 1 && bytes[2] == 0 && bytes[3] == 4
            &&& bytes.subrange(4, 20) == ip6@
            &&& bytes[20] * 256 + bytes[21] == port
        }),
        ({
            let bytes = connect_request(SocksHost::Name(name), port);
            let n = encode_utf8(name@).len() as int;
            &&& bytes.len() == 7 + n
            &&& bytes[0] == 5 && bytes[1] == 1 && bytes[2] == 0 && bytes[3] == 3 && bytes[4] == n
            &&& bytes.subrange(5, 5 + n) == encode_utf8(name@)
            &&& bytes[5 + n] * 256 + bytes[6 + n] == port
        }),
{
    let v4 = connect_request(SocksHost::V4(ip4), port);
    assert(v4.subrange(4, 8) =~= ip4@);
    let v6 = connect_request(SocksHost::V6(ip6), port);
    assert(v6.subrange(4, 20) =~= ip6@);
    let named = connect_request(SocksHost::Name(name), port);
    let n = encode_utf8(name@).len() as int;
    assert(address_part(SocksHost::Name(name)).len() == 2 + n);
    assert(named.subrange(5, 5 + n) =~= encode_utf8(name@));
}

/// The talk with a proxy: the request goes out once the proxy accepts no authentication; the reply
/// is read to its end, whichever kind of address it holds; anything but success refuses.
pub proof fn proxy_is_talked_to_in_order(
    host: SocksHost,
    port: u16,
    answer: Seq<u8>,
    reply: Seq<u8>,
    len: Seq<u8>,
    s1: ClientState,
    a1: ClientAction,
    s2: ClientState,
    a2: ClientAction,
    s3: ClientState,
    a3: ClientAction,
)
    requires
        answer.len() == 2,
        reply.len() == 4,
        len.len() == 1,
        on_proxy_bytes(ClientState::Greeting, answer, host, port, s1, a1),
        on_proxy_bytes(ClientState::Reply, reply, host, port, s2, a2),
        on_proxy_bytes(ClientState::BoundNameLength, len, host, port, s3, a3),
    ensures
        answer[0] == 5 && answer[1] == 0 ==> (s1 is Reply && (a1 matches ClientAction::Exchange {
            write,
            read,
        } && write@ == connect_request(host, port) && read == 4)),
        answer[0] != 5 || answer[1] != 0 ==> s1 is Refused && a1 is Refuse,
        reply[1] != 0 ==> s2 is Refused && a2 is Refuse,
        reply[1] == 0 && reply[3] == 1 ==> client_awaits(s2) == 4 + 2,
        reply[1] == 0 && reply[3] == 4 ==> client_awaits(s2) == 16 + 2,
        reply[1] == 0 && reply[3] == 3 ==> client_awaits(s2) == 1 && s2 is BoundNameLength,
        reply[1] == 0 ==> !(s2 is Refused),
        client_awaits(s3) == len[0] + 2,
{
    if answer[0] == 5 && answer[1] == 0 {
        assert(answer =~= seq![5u8, 0]);
    } else {
        assert(answer != seq![5u8, 0]) by {
            assert(seq![5u8, 0][0] == 5 && seq![5u8, 0][1] == 0);
        }
    }
}

/// The proxy is on port 1081 unless the environment says otherwise.
pub proof fn proxy_has_its_port()
    ensures
        DEFAULT_SOCKS5_PORT == 1081,
{
}

/// What is read of the proxy next is what is waited for, and nothing is written but the request.
pub proof fn proxy_is_read_as_awaited(
    was: ClientState,
    bytes: Seq<u8>,
    host: SocksHost,
    port: u16,
    state: ClientState,
    action: ClientAction,
)
    requires
        on_proxy_bytes(was, bytes, host, port, state, action),
    ensures
        action matches ClientAction::Exchange { write, read } ==> read == client_awaits(state) && (
        write@.len() == 0 || (was is Greeting && write@ == connect_request(host, port))),
        action is Refuse <==> state is Refused,
        action is Connected <==> state is Done,
{
}

} // verus!
