//! The messages that agents, brokers and sidecars exchange.
//!
//! Where a message has a view, it holds the texts and bytes of its fields.
use vstd::prelude::*;

verus! {

/// A header of a relayed request or response.
#[derive(Debug)]
pub struct Header {
    pub name: String,
    pub value: String,
}

/// A service that a session offers, and its local port.
#[derive(Debug)]
pub struct RouteEntry {
    pub service_name: String,
    pub local_port: u32,
}

/// An agent asks to register its session.
#[derive(Debug)]
pub struct RegisterSession {
    pub session_id: String,
    pub auth_mode: String,
    pub routes: Vec<RouteEntry>,
}

/// An agent says that its session is alive.
#[derive(Debug)]
pub struct Heartbeat {
    pub session_id: String,
}

/// A broker acknowledges a session for `ttl` seconds.
#[derive(Debug)]
pub struct SessionAck {
    pub session_id: String,
    pub ttl: u64,
}

/// A request, or a further part of its body, on its way to an agent.
#[derive(Debug)]
pub struct RelayRequest {
    pub request_id: String,
    pub method: String,
    pub path: String,
    pub headers: Vec<Header>,
    pub body_chunk: Vec<u8>,
    pub end_of_body: bool,
    pub service_name: String,
}

/// A response, or a further part of its body, from an agent.
#[derive(Debug)]
pub struct RelayResponse {
    pub request_id: String,
    pub status_code: u32,
    pub headers: Vec<Header>,
    pub body_chunk: Vec<u8>,
    pub end_of_body: bool,
}

/// A request, or a further part of its body, from a sidecar.
#[derive(Debug)]
pub struct RelayRequestMsg {
    pub session_id: String,
    pub service_name: String,
    pub method: String,
    pub path: String,
    pub headers: Vec<Header>,
    pub body_chunk: Vec<u8>,
    pub end_of_body: bool,
}

/// A response, or a further part of its body, on its way to a sidecar.
#[derive(Debug)]
pub struct RelayResponseMsg {
    pub request_id: String,
    pub status_code: u32,
    pub headers: Vec<Header>,
    pub body_chunk: Vec<u8>,
    pub end_of_body: bool,
}

/// Bytes of one raw connection. The opening frame names the session and the service; `is_eof`
/// closes one half of the connection.
#[derive(Debug)]
pub struct RawConnFrame {
    pub session_id: String,
    pub connection_id: String,
    pub payload: Vec<u8>,
    pub is_eof: bool,
    pub service_name: String,
}

/// What a [`RawConnFrame`] says.
pub struct RawConnFrameView {
    pub session_id: Seq<char>,
    pub connection_id: Seq<char>,
    pub payload: Seq<u8>,
    pub is_eof: bool,
    pub service_name: Seq<char>,
}

impl View for RawConnFrame {
    type V = RawConnFrameView;

    open spec fn view(&self) -> RawConnFrameView {
        RawConnFrameView {
            session_id: self.session_id@,
            connection_id: self.connection_id@,
            payload: self.payload@,
            is_eof: self.is_eof,
            service_name: self.service_name@,
        }
    }
}

/// A sidecar asks whether a session is registered.
#[derive(Debug)]
pub struct LookupRequest {
    pub session_id: String,
    pub service_name: String,
}

/// What a [`LookupRequest`] says.
pub struct LookupRequestView {
    pub session_id: Seq<char>,
    pub service_name: Seq<char>,
}

impl View for LookupRequest {
    type V = LookupRequestView;

    open spec fn view(&self) -> LookupRequestView {
        LookupRequestView {
            session_id: self.session_id@,
            service_name: self.service_name@,
        }
    }
}

/// A broker says whether a session is registered, and for which service.
#[derive(Debug)]
pub struct LookupResponse {
    pub found: bool,
    pub auth_mode: String,
    pub service_name: String,
}

/// What a [`LookupResponse`] says.
pub struct LookupResponseView {
    pub found: bool,
    pub auth_mode: Seq<char>,
    pub service_name: Seq<char>,
}

impl View for LookupResponse {
    type V = LookupResponseView;

    open spec fn view(&self) -> LookupResponseView {
        LookupResponseView {
            found: self.found,
            auth_mode: self.auth_mode@,
            service_name: self.service_name@,
        }
    }
}

/// An agent asks for a connection out of the cloud network.
#[derive(Debug)]
pub struct OutboundConnect {
    pub session_id: String,
    pub host: String,
    pub port: u32,
}

/// A broker says whether it could make the connection.
#[derive(Debug)]
pub struct OutboundConnectAck {
    pub success: bool,
    pub error: String,
}

/// What an agent sends on its tunnel.
#[derive(Debug)]
pub enum AgentMessage {
    Register(RegisterSession),
    Heartbeat(Heartbeat),
    Response(RelayResponse),
    Raw(RawConnFrame),
}

/// What a broker sends on the tunnel of an agent.
#[derive(Debug)]
pub enum BrokerMessage {
    Ack(SessionAck),
    Request(RelayRequest),
    Raw(RawConnFrame),
}

/// What an agent sends on an outbound connection.
#[derive(Debug)]
pub enum OutboundClientMsg {
    Connect(OutboundConnect),
    Data(Vec<u8>),
    Fin(bool),
}

/// What a broker sends on an outbound connection.
#[derive(Debug)]
pub enum OutboundServerMsg {
    Ack(OutboundConnectAck),
    Data(Vec<u8>),
    Fin(bool),
}

// ── Refusals ──────────────────────────────────────────────────────────────────

/// Why a call is refused.
#[derive(Debug, Clone, Copy, PartialEq, Eq, Structural)]
pub enum Code {
    InvalidArgument,
    DeadlineExceeded,
    NotFound,
    Internal,
    Unavailable,
    Unauthenticated,
}

/// The answer to a call that is refused.
#[derive(Debug)]
pub struct Status {
    pub code: Code,
    pub message: String,
}

impl Status {
    /// The refusal with this code and message.
    pub open spec fn says(&self, code: Code, message: Seq<char>) -> bool {
        self.code == code && self.message@ == message
    }

    /// A refusal.
    pub fn new(code: Code, message: String) -> (r: Self)
        ensures
            r.says(code, message@),
    {
        Status { code, message }
    }
}

} // verus!
