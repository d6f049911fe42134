//! The calls that a broker serves, each as decisions on what arrives.
//!
//! A call is driven from outside: an event goes in, the next state and the action to take come
//! out. `T`, `P` and `R` are the sending ends of the streams to agents, to the waiters of requests
//! and to the waiters of raw connections.
use vstd::prelude::*;
use vstd::string::*;

use crate::broker::auth::AuthService;
use crate::broker::connections::{
    after_push, forwarded, unstarted, ConnectionMap, Pending, PendingRequests, RawConnections,
};
use crate::broker::registry::{for_service, restrict_to_service};
use crate::model::config::{routes_view, ServiceRoute};
use crate::model::error::DetourError;
use crate::model::session::{
    fresh_uuid, opt_session, random_uuid_text, service_names, uuid_text, ServiceSession,
    ServiceSessionView, SessionId, SessionRecord,
};
use crate::model::wire::{
    AgentMessage, BrokerMessage, Code, Heartbeat, LookupRequest, LookupResponse, LookupResponseView,
    OutboundClientMsg, OutboundConnect, OutboundConnectAck, OutboundServerMsg, RawConnFrame,
    RegisterSession, RelayRequest, RelayRequestMsg, RelayResponse, RelayResponseMsg, RouteEntry,
    SessionAck, Status,
};
use crate::text::texts;

verus! {

/// How long a request waits for the first part of its response, in seconds.
pub const RELAY_TIMEOUT_SECS: u64 = 30;

/// What a broker serves calls with.
#[verifier::reject_recursive_types(T)]
#[verifier::reject_recursive_types(P)]
#[verifier::reject_recursive_types(R)]
pub struct RelayService<T, P, R> {
    pub connections: ConnectionMap<T>,
    pub pending_requests: PendingRequests<P>,
    pub raw_connections: RawConnections<R>,
    pub auth: AuthService,
    pub broker_id: String,
    pub ttl_secs: u64,
}

/// The message of a text that is no session identity.
pub open spec fn invalid_session(id: Seq<char>) -> Seq<char> {
    "invalid session ID: "@ + id
}

/// The refusal of an error.
fn refusal(code: Code, error: &DetourError) -> (r: Status)
    ensures
        r.says(code, error.message()),
{
    Status::new(code, error.to_string())
}

// ── The tunnel of an agent ────────────────────────────────────────────────────

/// Where the tunnel of an agent stands. `session` is the session that it registered.
pub enum TunnelState {
    /// Waiting for a message.
    Open { session: Option<SessionId> },
    /// Waiting for the verdict on a credential.
    Authorizing { session: Option<SessionId>, id: SessionId, routes: Vec<ServiceRoute> },
    /// Waiting for the registry.
    Registering { session: Option<SessionId>, id: SessionId },
    /// Over.
    Closed,
}

/// What happens on the tunnel of an agent.
pub enum TunnelEvent<T> {
    /// A message came; one without content says nothing.
    Message(Option<AgentMessage>),
    /// The credential was checked, at the time `now`.
    Authorized { result: Result<(), DetourError>, now: u64 },
    /// The registry was told. `tx` leads to the agent.
    Registered { result: Result<(), DetourError>, tx: T },
    /// A frame was handed to the waiter of a raw connection.
    Delivered { connection_id: String, is_eof: bool, sent: bool },
    /// The agent is gone.
    Ended,
}

/// What to do about the tunnel of an agent.
pub enum TunnelAction<P, R> {
    /// Read the next message.
    Read,
    /// Check the credential for these services.
    Authorize { id: SessionId, services: Vec<String> },
    /// Register a session.
    Store(SessionRecord),
    /// Send this to the agent and read on.
    Acknowledge(BrokerMessage),
    /// Note the heartbeat of a session and read on.
    Beat(SessionId),
    /// Send a part of a response to its waiter and read on.
    Respond { tx: P, message: RelayResponseMsg },
    /// Hand a frame to its waiter and say whether it arrived.
    Deliver { waiter: R, frame: RawConnFrame },
    /// Nobody waits for what came: read on.
    Dropped,
    /// Tell the agent why not, and stop.
    Refuse(Status),
    /// Drop the session from the registry, and stop.
    Expire(SessionId),
    /// Stop.
    Stop,
}

/// The routes that an agent offers. Of a port the lower 16 bits count.
pub open spec fn offered_routes(entries: Seq<RouteEntry>) -> Seq<(Seq<char>, u16)> {
    entries.map_values(|e: RouteEntry| (e.service_name@, (e.local_port % 65536) as u16))
}

fn take_routes(entries: Vec<RouteEntry>) -> (r: Vec<ServiceRoute>)
    ensures
        routes_view(r@) == offered_routes(entries@),
{
    let mut out: Vec<ServiceRoute> = Vec::new();
    let mut i: usize = 0;
    while i < entries.len()
        invariant
            i <= entries@.len(),
            routes_view(out@) == offered_routes(entries@).take(i as int),
        decreases entries@.len() - i,
    {
        let ghost before = out@;
        let route = ServiceRoute {
            service_name: entries[i].service_name.clone(),
            local_port: (entries[i].local_port % 65536) as u16,
        };
        out.push(route);
        assert(routes_view(out@) =~= routes_view(before).push(route@));
        assert(offered_routes(entries@).take(i + 1) =~= offered_routes(entries@).take(
            i as int,
        ).push(route@));
        i = i + 1;
    }
    assert(offered_routes(entries@).take(i as int) =~= offered_routes(entries@));
    out
}

/// Everything of a service but its tables.
pub open spec fn same_settings<T, P, R>(
    a: RelayService<T, P, R>,
    b: RelayService<T, P, R>,
) -> bool {
    &&& a.auth == b.auth
    &&& a.broker_id == b.broker_id
    &&& a.ttl_secs == b.ttl_secs
}

/// A service whose tables are those of another.
pub open spec fn same_service<T, P, R>(
    a: RelayService<T, P, R>,
    b: RelayService<T, P, R>,
) -> bool {
    &&& same_settings(a, b)
    &&& a.connections@ == b.connections@
    &&& a.pending_requests@ == b.pending_requests@
    &&& a.raw_connections@ == b.raw_connections@
}

/// What a message does on a tunnel that is open for `session`.
pub open spec fn on_message<T, P: Clone, R: Clone>(
    before: RelayService<T, P, R>,
    after: RelayService<T, P, R>,
    session: Option<SessionId>,
    message: Option<AgentMessage>,
    state: TunnelState,
    action: TunnelAction<P, R>,
) -> bool {
    match message {
        Some(AgentMessage::Register(register)) => {
            &&& same_service(before, after)
            &&& if uuid_text(register.session_id@) {
                &&& state matches TunnelState::Authorizing { session: kept, id, routes }
                &&& kept == session
                &&& id@ == register.session_id@
                &&& routes_view(routes@) == offered_routes(register.routes@)
                &&& action matches TunnelAction::Authorize { id: asked, services }
                &&& asked@ == register.session_id@
                &&& texts(services@) == offered_routes(register.routes@).map_values(
                    |r: (Seq<char>, u16)| r.0,
                )
            } else {
                &&& state is Closed
                &&& action matches TunnelAction::Refuse(status)
                &&& status.says(Code::InvalidArgument, invalid_session(register.session_id@))
            }
        },
        Some(AgentMessage::Heartbeat(beat)) => {
            &&& same_service(before, after)
            &&& state == (TunnelState::Open { session })
            &&& if uuid_text(beat.session_id@) {
                action matches TunnelAction::Beat(id) && id@ == beat.session_id@
            } else {
                action is Read
            }
        },
        Some(AgentMessage::Response(response)) => {
            &&& same_settings(before, after)
            &&& after.connections@ == before.connections@
            &&& after.raw_connections@ == before.raw_connections@
            &&& after.pending_requests@ == after_push(
                before.pending_requests@,
                response.request_id@,
                response.end_of_body,
            )
            &&& state == (TunnelState::Open { session })
            &&& if before.pending_requests@.contains_key(response.request_id@) {
                &&& action matches TunnelAction::Respond { tx, message }
                &&& cloned(before.pending_requests@[response.request_id@].tx, tx)
                &&& forwarded(response, message)
            } else {
                action is Dropped
            }
        },
        Some(AgentMessage::Raw(frame)) => {
            &&& same_service(before, after)
            &&& state == (TunnelState::Open { session })
            &&& if before.raw_connections@.contains_key(frame.connection_id@) {
                &&& action matches TunnelAction::Deliver { waiter, frame: passed }
                &&& cloned(before.raw_connections@[frame.connection_id@], waiter)
                &&& passed == frame
            } else {
                action is Dropped
            }
        },
        None => {
            &&& same_service(before, after)
            &&& state == (TunnelState::Open { session })
            &&& action is Read
        },
    }
}

/// What an event does on the tunnel of an agent.
pub open spec fn on_tunnel<T, P: Clone, R: Clone>(
    before: RelayService<T, P, R>,
    after: RelayService<T, P, R>,
    was: TunnelState,
    event: TunnelEvent<T>,
    state: TunnelState,
    action: TunnelAction<P, R>,
) -> bool {
    match (was, event) {
        (TunnelState::Open { session }, TunnelEvent::Message(message)) => on_message(
            before,
            after,
            session,
            message,
            state,
            action,
        ),
        (
            TunnelState::Authorizing { session, id, routes },
            TunnelEvent::Authorized { result, now },
        ) => {
            &&& same_service(before, after)
            &&& match result {
                Err(e) => {
                    &&& state is Closed
                    &&& action matches TunnelAction::Refuse(status)
                    &&& status.says(Code::Unauthenticated, e.message())
                },
                Ok(()) => {
                    &&& state == (TunnelState::Registering { session, id })
                    &&& action matches TunnelAction::Store(record)
                    &&& record.session_id == id
                    &&& random_uuid_text(record.connection_id@)
                    &&& record.broker_instance == before.broker_id
                    &&& record.auth_mode == before.auth@.mode
                    &&& record.registered_at == now
                    &&& record.last_heartbeat == now
                    &&& record.routes == routes
                },
            }
        },
        (TunnelState::Registering { session, id }, TunnelEvent::Registered { result, tx }) => {
            match result {
                Err(e) => {
                    &&& same_service(before, after)
                    &&& state is Closed
                    &&& action matches TunnelAction::Refuse(status)
                    &&& status.says(Code::Internal, e.message())
                },
                Ok(()) => {
                    &&& same_settings(before, after)
                    &&& after.connections@ == before.connections@.insert(id@, tx)
                    &&& after.pending_requests@ == before.pending_requests@
                    &&& after.raw_connections@ == before.raw_connections@
                    &&& state == (TunnelState::Open { session: Some(id) })
                    &&& action matches TunnelAction::Acknowledge(BrokerMessage::Ack(ack))
                    &&& ack.session_id@ == id@
                    &&& ack.ttl == before.ttl_secs
                },
            }
        },
        (
            TunnelState::Open { session },
            TunnelEvent::Delivered { connection_id, is_eof, sent },
        ) => {
            &&& same_settings(before, after)
            &&& after.connections@ == before.connections@
            &&& after.pending_requests@ == before.pending_requests@
            &&& after.raw_connections@ == if is_eof || !sent {
                before.raw_connections@.remove(connection_id@)
            } else {
                before.raw_connections@
            }
            &&& state == was
            &&& if sent {
                action is Read
            } else {
                action is Dropped
            }
        },
        (TunnelState::Open { session }, TunnelEvent::Ended) => {
            &&& state is Closed
            &&& match session {
                Some(id) => {
                    &&& same_settings(before, after)
                    &&& after.connections@ == before.connections@.remove(id@)
                    &&& after.pending_requests@ == before.pending_requests@
                    &&& after.raw_connections@ == before.raw_connections@
                    &&& action == TunnelAction::<P, R>::Expire(id)
                },
                None => same_service(before, after) && action is Stop,
            }
        },
        _ => same_service(before, after) && state is Closed && action is Stop,
    }
}

impl<T, P: Clone, R: Clone> RelayService<T, P, R> {
    /// Take the next step on the tunnel of an agent. An event that the state does not wait for
    /// ends the tunnel.
    pub fn open_tunnel(&mut self, state: TunnelState, event: TunnelEvent<T>) -> (r: (
        TunnelState,
        TunnelAction<P, R>,
    ))
        ensures
            on_tunnel(*old(self), *final(self), state, event, r.0, r.1),
    {
        match (state, event) {
            (TunnelState::Open { session }, TunnelEvent::Message(message)) => {
                self.tunnel_message(session, message)
            },
            (
                TunnelState::Authorizing { session, id, routes },
                TunnelEvent::Authorized { result, now },
            ) => match result {
                Err(e) => (
                    TunnelState::Closed,
                    TunnelAction::Refuse(refusal(Code::Unauthenticated, &e)),
                ),
                Ok(()) => {
                    let record = SessionRecord {
                        session_id: id.clone(),
                        connection_id: fresh_uuid(),
                        broker_instance: self.broker_id.clone(),
                        auth_mode: *self.auth.mode(),
                        registered_at: now,
                        last_heartbeat: now,
                        routes,
                    };
                    (TunnelState::Registering { session, id }, TunnelAction::Store(record))
                },
            },
            (TunnelState::Registering { session, id }, TunnelEvent::Registered { result, tx }) => {
                match result {
                    Err(e) => (
                        TunnelState::Closed,
                        TunnelAction::Refuse(refusal(Code::Internal, &e)),
                    ),
                    Ok(()) => {
                        self.connections.insert(&id, tx);
                        let ack = SessionAck { session_id: id.to_string(), ttl: self.ttl_secs };
                        (
                            TunnelState::Open { session: Some(id) },
                            TunnelAction::Acknowledge(BrokerMessage::Ack(ack)),
                        )
                    },
                }
            },
            (
                TunnelState::Open { session },
                TunnelEvent::Delivered { connection_id, is_eof, sent },
            ) => {
                if self.raw_connections.delivered(connection_id.as_str(), is_eof, sent) {
                    (TunnelState::Open { session }, TunnelAction::Read)
                } else {
                    (TunnelState::Open { session }, TunnelAction::Dropped)
                }
            },
            (TunnelState::Open { session }, TunnelEvent::Ended) => match session {
                Some(id) => {
                    self.connections.remove(&id);
                    (TunnelState::Closed, TunnelAction::Expire(id))
                },
                None => (TunnelState::Closed, TunnelAction::Stop),
            },
            _ => (TunnelState::Closed, TunnelAction::Stop),
        }
    }

    fn tunnel_message(&mut self, session: Option<SessionId>, message: Option<AgentMessage>) -> (r: (
        TunnelState,
        TunnelAction<P, R>,
    ))
        ensures
            on_message(*old(self), *final(self), session, message, r.0, r.1),
    {
        match message {
            Some(AgentMessage::Register(register)) => {
                match SessionId::from_string(register.session_id) {
                    Err(e) => (
                        TunnelState::Closed,
                        TunnelAction::Refuse(refusal(Code::InvalidArgument, &e)),
                    ),
                    Ok(id) => {
                        let routes = take_routes(register.routes);
                        let services = service_names(routes.as_slice());
                        proof {
                            assert(texts(services@) =~= routes_view(routes@).map_values(
                                |r: (Seq<char>, u16)| r.0,
                            ));
                        }
                        (
                            TunnelState::Authorizing { session, id: id.clone(), routes },
                            TunnelAction::Authorize { id, services },
                        )
                    },
                }
            },
            Some(AgentMessage::Heartbeat(beat)) => match SessionId::from_string(beat.session_id) {
                Ok(id) => (TunnelState::Open { session }, TunnelAction::Beat(id)),
                Err(_) => (TunnelState::Open { session }, TunnelAction::Read),
            },
            Some(AgentMessage::Response(response)) => {
                match self.pending_requests.push(response) {
                    Some((tx, message)) => (
                        TunnelState::Open { session },
                        TunnelAction::Respond { tx, message },
                    ),
                    None => (TunnelState::Open { session }, TunnelAction::Dropped),
                }
            },
            Some(AgentMessage::Raw(frame)) => match self.raw_connections.deliver(&frame) {
                Some(waiter) => (
                    TunnelState::Open { session },
                    TunnelAction::Deliver { waiter, frame },
                ),
                None => (TunnelState::Open { session }, TunnelAction::Dropped),
            },
            None => (TunnelState::Open { session }, TunnelAction::Read),
        }
    }
}

// ── Relayed requests ──────────────────────────────────────────────────────────

/// Where a relayed request stands. `agent` leads to the agent.
pub enum RequestState<T> {
    /// Waiting for the first part of the request.
    First,
    /// A part is on its way to the agent.
    Sending { request_id: String, service_name: String, agent: T },
    /// Waiting for the next part.
    Forwarding { request_id: String, service_name: String, agent: T },
    /// All parts are sent; waiting for the response to begin.
    Waiting { request_id: String },
    /// Over.
    Closed,
}

/// What happens to a relayed request.
pub enum RequestEvent<P> {
    /// The first part came. `waiter` leads to the sidecar.
    First { chunk: RelayRequestMsg, waiter: P },
    /// A further part came.
    Chunk(RelayRequestMsg),
    /// The stream of the sidecar broke.
    Failed(String),
    /// The stream of the sidecar ended.
    Ended,
    /// A part was handed to the agent, or could not be.
    Sent(bool),
    /// The time to wait is over.
    Elapsed,
}

/// What to do about a relayed request.
pub enum RequestAction<T, P> {
    /// Read the next part.
    Read,
    /// Send this to the agent and say whether it went.
    Send { agent: T, message: BrokerMessage },
    /// Tell the sidecar why not, and stop.
    Refuse(Status),
    /// Wait this many seconds.
    Sleep(u64),
    /// Tell the waiter that the time is up, and stop.
    TimeOut { waiter: P, status: Status },
    /// Stop.
    Stop,
}

/// The request for the agent that the first part makes.
pub open spec fn is_opening_request(
    request: RelayRequest,
    request_id: Seq<char>,
    chunk: RelayRequestMsg,
) -> bool {
    &&& request.request_id@ == request_id
    &&& request.method == chunk.method
    &&& request.path == chunk.path
    &&& request.headers == chunk.headers
    &&& request.body_chunk == chunk.body_chunk
    &&& request.end_of_body == chunk.end_of_body
    &&& request.service_name@ == chunk.service_name@
}

/// The request for the agent that a further part makes: only the body goes on.
pub open spec fn is_body_request(
    request: RelayRequest,
    request_id: Seq<char>,
    service_name: Seq<char>,
    chunk: RelayRequestMsg,
) -> bool {
    &&& request.request_id@ == request_id
    &&& request.method@ == Seq::<char>::empty()
    &&& request.path@ == Seq::<char>::empty()
    &&& request.headers@.len() == 0
    &&& request.body_chunk == chunk.body_chunk
    &&& request.end_of_body == chunk.end_of_body
    &&& request.service_name@ == service_name
}

/// A service of which only the requests in flight changed.
pub open spec fn with_pending<T, P, R>(
    before: RelayService<T, P, R>,
    after: RelayService<T, P, R>,
    pending: Map<Seq<char>, Pending<P>>,
) -> bool {
    &&& same_settings(before, after)
    &&& after.connections@ == before.connections@
    &&& after.raw_connections@ == before.raw_connections@
    &&& after.pending_requests@ == pending
}

/// What an event does to a relayed request.
pub open spec fn on_request<T: Clone, P: Clone, R>(
    before: RelayService<T, P, R>,
    after: RelayService<T, P, R>,
    was: RequestState<T>,
    event: RequestEvent<P>,
    state: RequestState<T>,
    action: RequestAction<T, P>,
) -> bool {
    match (was, event) {
        (RequestState::First, RequestEvent::First { chunk, waiter }) => {
            if !uuid_text(chunk.session_id@) {
                &&& same_service(before, after)
                &&& state is Closed
                &&& action matches RequestAction::Refuse(status)
                &&& status.says(Code::InvalidArgument, invalid_session(chunk.session_id@))
            } else if !before.connections@.contains_key(chunk.session_id@) {
                &&& same_service(before, after)
                &&& state is Closed
                &&& action matches RequestAction::Refuse(status)
                &&& status.says(Code::NotFound, "session not found"@)
            } else {
                &&& state matches RequestState::Sending { request_id, service_name, agent }
                &&& random_uuid_text(request_id@)
                &&& service_name@ == chunk.service_name@
                &&& cloned(before.connections@[chunk.session_id@], agent)
                &&& with_pending(
                    before,
                    after,
                    before.pending_requests@.insert(
                        request_id@,
                        Pending { tx: waiter, saw_first_response: false },
                    ),
                )
                &&& action matches RequestAction::Send {
                    agent: to,
                    message: BrokerMessage::Request(request),
                }
                &&& cloned(agent, to)
                &&& is_opening_request(request, request_id@, chunk)
            }
        },
        (RequestState::First, RequestEvent::Failed(message)) => {
            &&& same_service(before, after)
            &&& state is Closed
            &&& action matches RequestAction::Refuse(status)
            &&& status.says(Code::Internal, message@)
        },
        (
            RequestState::Sending { request_id, service_name, agent },
            RequestEvent::Sent(true),
        ) => {
            &&& same_service(before, after)
            &&& state == (RequestState::Forwarding { request_id, service_name, agent })
            &&& action is Read
        },
        (
            RequestState::Sending { request_id, service_name, agent },
            RequestEvent::Sent(false),
        ) => {
            &&& with_pending(before, after, before.pending_requests@.remove(request_id@))
            &&& state is Closed
            &&& action matches RequestAction::Refuse(status)
            &&& status.says(Code::Unavailable, "agent tunnel closed"@)
        },
        (
            RequestState::Forwarding { request_id, service_name, agent },
            RequestEvent::Chunk(chunk),
        ) => {
            &&& same_service(before, after)
            &&& state matches RequestState::Sending {
                request_id: id,
                service_name: name,
                agent: kept,
            }
            &&& id == request_id
            &&& name == service_name
            &&& kept == agent
            &&& action matches RequestAction::Send {
                agent: to,
                message: BrokerMessage::Request(request),
            }
            &&& cloned(agent, to)
            &&& is_body_request(request, request_id@, service_name@, chunk)
        },
        (
            RequestState::Forwarding { request_id, service_name, agent },
            RequestEvent::Failed(message),
        ) => {
            &&& with_pending(before, after, before.pending_requests@.remove(request_id@))
            &&& state is Closed
            &&& action matches RequestAction::Refuse(status)
            &&& status.says(Code::Internal, message@)
        },
        (RequestState::Forwarding { request_id, service_name, agent }, RequestEvent::Ended) => {
            &&& same_service(before, after)
            &&& state == (RequestState::<T>::Waiting { request_id })
            &&& action == RequestAction::<T, P>::Sleep(RELAY_TIMEOUT_SECS)
        },
        (RequestState::Waiting { request_id }, RequestEvent::Elapsed) => {
            &&& state is Closed
            &&& if unstarted(before.pending_requests@, request_id@) {
                &&& with_pending(before, after, before.pending_requests@.remove(request_id@))
                &&& action matches RequestAction::TimeOut { waiter, status }
                &&& cloned(before.pending_requests@[request_id@].tx, waiter)
                &&& status.says(Code::DeadlineExceeded, "agent relay timeout"@)
            } else {
                same_service(before, after) && action is Stop
            }
        },
        _ => same_service(before, after) && state is Closed && action is Stop,
    }
}

impl<T: Clone, P: Clone, R: Clone> RelayService<T, P, R> {
    /// Take the next step with a relayed request. An event that the state does not wait for ends
    /// the relay.
    pub fn relay_request(&mut self, state: RequestState<T>, event: RequestEvent<P>) -> (r: (
        RequestState<T>,
        RequestAction<T, P>,
    ))
        ensures
            on_request(*old(self), *final(self), state, event, r.0, r.1),
    {
        match (state, event) {
            (RequestState::First, RequestEvent::First { chunk, waiter }) => {
                self.first_chunk(chunk, waiter)
            },
            (RequestState::First, RequestEvent::Failed(message)) => (
                RequestState::Closed,
                RequestAction::Refuse(Status::new(Code::Internal, message)),
            ),
            (
                RequestState::Sending { request_id, service_name, agent },
                RequestEvent::Sent(sent),
            ) => {
                if sent {
                    (
                        RequestState::Forwarding { request_id, service_name, agent },
                        RequestAction::Read,
                    )
                } else {
                    self.pending_requests.remove(request_id.as_str());
                    (
                        RequestState::Closed,
                        RequestAction::Refuse(
                            Status::new(Code::Unavailable, "agent tunnel closed".to_string()),
                        ),
                    )
                }
            },
            (
                RequestState::Forwarding { request_id, service_name, agent },
                RequestEvent::Chunk(chunk),
            ) => {
                let request = RelayRequest {
                    request_id: request_id.clone(),
                    method: String::new(),
                    path: String::new(),
                    headers: Vec::new(),
                    body_chunk: chunk.body_chunk,
                    end_of_body: chunk.end_of_body,
                    service_name: service_name.clone(),
                };
                let to = agent.clone();
                (
                    RequestState::Sending { request_id, service_name, agent },
                    RequestAction::Send { agent: to, message: BrokerMessage::Request(request) },
                )
            },
            (
                RequestState::Forwarding { request_id, service_name, agent },
                RequestEvent::Failed(message),
            ) => {
                self.pending_requests.remove(request_id.as_str());
                (
                    RequestState::Closed,
                    RequestAction::Refuse(Status::new(Code::Internal, message)),
                )
            },
            (
                RequestState::Forwarding { request_id, service_name, agent },
                RequestEvent::Ended,
            ) => (RequestState::Waiting { request_id }, RequestAction::Sleep(RELAY_TIMEOUT_SECS)),
            (RequestState::Waiting { request_id }, RequestEvent::Elapsed) => {
                match self.pending_requests.timeout_unstarted(request_id.as_str()) {
                    Some((waiter, status)) => (
                        RequestState::Closed,
                        RequestAction::TimeOut { waiter, status },
                    ),
                    None => (RequestState::Closed, RequestAction::Stop),
                }
            },
            _ => (RequestState::Closed, RequestAction::Stop),
        }
    }

    fn first_chunk(&mut self, chunk: RelayRequestMsg, waiter: P) -> (r: (
        RequestState<T>,
        RequestAction<T, P>,
    ))
        ensures
            on_request(
                *old(self),
                *final(self),
                RequestState::First,
                RequestEvent::First { chunk, waiter },
                r.0,
                r.1,
            ),
    {
        let session_id = match SessionId::from_string(chunk.session_id) {
            Ok(id) => id,
            Err(e) => {
                return (
                    RequestState::Closed,
                    RequestAction::Refuse(refusal(Code::InvalidArgument, &e)),
                );
            },
        };
        let agent = match self.connections.get(&session_id) {
            Some(agent) => agent.clone(),
            None => {
                return (
                    RequestState::Closed,
                    RequestAction::Refuse(
                        Status::new(Code::NotFound, "session not found".to_string()),
                    ),
                );
            },
        };
        let request_id = self.pending_requests.register(waiter);
        let service_name = chunk.service_name;
        let request = RelayRequest {
            request_id: request_id.clone(),
            method: chunk.method,
            path: chunk.path,
            headers: chunk.headers,
            body_chunk: chunk.body_chunk,
            end_of_body: chunk.end_of_body,
            service_name: service_name.clone(),
        };
        let to = agent.clone();
        (
            RequestState::Sending { request_id, service_name, agent },
            RequestAction::Send { agent: to, message: BrokerMessage::Request(request) },
        )
    }
}

// ── Looking sessions up ───────────────────────────────────────────────────────

/// The session that a lookup asks for.
pub fn lookup_request(request: &LookupRequest) -> (r: Result<SessionId, Status>)
    ensures
        match r {
            Ok(id) => uuid_text(request.session_id@) && id@ == request.session_id@,
            Err(status) => !uuid_text(request.session_id@) && status.says(
                Code::InvalidArgument,
                invalid_session(request.session_id@),
            ),
        },
{
    match SessionId::from_string(request.session_id.clone()) {
        Ok(id) => Ok(id),
        Err(e) => Err(refusal(Code::InvalidArgument, &e)),
    }
}

/// The answer to a lookup for the service `asked`: a session counts only if it stands in for that
/// service.
pub open spec fn lookup_answer(
    found: Option<ServiceSessionView>,
    asked: Seq<char>,
) -> LookupResponseView {
    match for_service(found, asked) {
        Some(session) => LookupResponseView {
            found: true,
            auth_mode: session.auth_mode.name(),
            service_name: if asked.len() > 0 {
                asked
            } else {
                session.service_name
            },
        },
        None => LookupResponseView {
            found: false,
            auth_mode: Seq::empty(),
            service_name: Seq::empty(),
        },
    }
}

/// Answer a lookup with what the registry gave.
pub fn lookup_session(
    request: &LookupRequest,
    result: Result<Option<ServiceSession>, DetourError>,
) -> (r: Result<LookupResponse, Status>)
    ensures
        match result {
            Ok(found) => r matches Ok(answer) && answer@ == lookup_answer(
                opt_session(found),
                request.service_name@,
            ),
            Err(e) => r matches Err(status) && status.says(Code::Internal, e.message()),
        },
{
    match result {
        Err(e) => Err(refusal(Code::Internal, &e)),
        Ok(found) => match restrict_to_service(found, request.service_name.as_str()) {
            Some(session) => {
                let service_name = if request.service_name.as_str().is_empty() {
                    session.service_name
                } else {
                    request.service_name.clone()
                };
                Ok(
                    LookupResponse {
                        found: true,
                        auth_mode: session.auth_mode.to_string(),
                        service_name,
                    },
                )
            },
            None => Ok(
                LookupResponse {
                    found: false,
                    auth_mode: String::new(),
                    service_name: String::new(),
                },
            ),
        },
    }
}

// ── Outbound connections ──────────────────────────────────────────────────────

/// Where an outbound connection stands.
pub enum OutboundState {
    /// Waiting for the first message, which must ask for a connection.
    First,
    /// Waiting for the registry.
    LookingUp { host: String, port: u16 },
    /// Waiting for the connection to the target.
    Dialing,
    /// Connected: bytes go both ways.
    Bridging,
    /// Over.
    Closed,
}

/// What happens on an outbound connection.
pub enum OutboundEvent {
    /// A message came from the agent; one without content has none.
    Message(Option<OutboundClientMsg>),
    /// The stream of the agent ended or broke.
    Ended,
    /// The registry was asked.
    LookedUp(Result<Option<ServiceSession>, DetourError>),
    /// The target was dialed.
    Dialed(Result<(), String>),
    /// Bytes were written to the target, or could not be.
    Written(bool),
}

/// What to do about an outbound connection.
pub enum OutboundAction {
    /// Read the next message.
    Read,
    /// Look a session up.
    LookUp(SessionId),
    /// Connect to a target.
    Dial { host: String, port: u16 },
    /// Send this to the agent, start to send what the target says, and read on.
    Start(OutboundServerMsg),
    /// Send this to the agent, and stop.
    Decline(OutboundServerMsg),
    /// Write to the target and say whether it went.
    Write(Vec<u8>),
    /// Tell the agent why not, and stop.
    Refuse(Status),
    /// Stop.
    Stop,
}

/// The acknowledgement of a connection, or of the failure to make it.
pub open spec fn is_ack(message: OutboundServerMsg, success: bool, error: Seq<char>) -> bool {
    message matches OutboundServerMsg::Ack(ack) && ack.success == success && ack.error@ == error
}

fn acknowledge(success: bool, error: String) -> (r: OutboundServerMsg)
    ensures
        is_ack(r, success, error@),
{
    OutboundServerMsg::Ack(OutboundConnectAck { success, error })
}

/// What an event does on an outbound connection.
pub open spec fn on_outbound(
    was: OutboundState,
    event: OutboundEvent,
    state: OutboundState,
    action: OutboundAction,
) -> bool {
    match (was, event) {
        (
            OutboundState::First,
            OutboundEvent::Message(Some(OutboundClientMsg::Connect(connect))),
        ) => if uuid_text(connect.session_id@) {
            &&& state matches OutboundState::LookingUp { host, port }
            &&& host == connect.host
            &&& port == connect.port % 65536
            &&& action matches OutboundAction::LookUp(id)
            &&& id@ == connect.session_id@
        } else {
            &&& state is Closed
            &&& action matches OutboundAction::Refuse(status)
            &&& status.says(Code::InvalidArgument, invalid_session(connect.session_id@))
        },
        (OutboundState::First, OutboundEvent::Message(_)) => {
            &&& state is Closed
            &&& action matches OutboundAction::Refuse(status)
            &&& status.says(Code::InvalidArgument, "first message must be OutboundConnect"@)
        },
        (OutboundState::LookingUp { host, port }, OutboundEvent::LookedUp(result)) => {
            match result {
                Ok(Some(_)) => {
                    &&& state is Dialing
                    &&& action == (OutboundAction::Dial { host, port })
                },
                Ok(None) => {
                    &&& state is Closed
                    &&& action matches OutboundAction::Decline(message)
                    &&& is_ack(message, false, "session not found"@)
                },
                Err(e) => {
                    &&& state is Closed
                    &&& action matches OutboundAction::Refuse(status)
                    &&& status.says(Code::Internal, e.message())
                },
            }
        },
        (OutboundState::Dialing, OutboundEvent::Dialed(result)) => match result {
            Ok(()) => {
                &&& state is Bridging
                &&& action matches OutboundAction::Start(message)
                &&& is_ack(message, true, Seq::empty())
            },
            Err(error) => {
                &&& state is Closed
                &&& action matches OutboundAction::Decline(message)
                &&& is_ack(message, false, error@)
            },
        },
        (OutboundState::Bridging, OutboundEvent::Message(Some(OutboundClientMsg::Data(data)))) => {
            &&& state is Bridging
            &&& action == OutboundAction::Write(data)
        },
        (
            OutboundState::Bridging,
            OutboundEvent::Message(Some(OutboundClientMsg::Connect(_))),
        ) => state is Bridging && action is Read,
        (
            OutboundState::Bridging,
            OutboundEvent::Message(Some(OutboundClientMsg::Fin(false))),
        ) => state is Bridging && action is Read,
        (OutboundState::Bridging, OutboundEvent::Written(true)) => state is Bridging
            && action is Read,
        _ => state is Closed && action is Stop,
    }
}

/// Take the next step with an outbound connection. A connection that is bridged goes on until one
/// side ends it: the agent with its end of stream, an explicit end or an empty message, the target
/// by refusing what is written to it.
pub fn outbound_tunnel(state: OutboundState, event: OutboundEvent) -> (r: (
    OutboundState,
    OutboundAction,
))
    ensures
        on_outbound(state, event, r.0, r.1),
{
    match (state, event) {
        (OutboundState::First, OutboundEvent::Message(message)) => match message {
            Some(OutboundClientMsg::Connect(connect)) => first_connect(connect),
            _ => (
                OutboundState::Closed,
                OutboundAction::Refuse(
                    Status::new(
                        Code::InvalidArgument,
                        "first message must be OutboundConnect".to_string(),
                    ),
                ),
            ),
        },
        (OutboundState::LookingUp { host, port }, OutboundEvent::LookedUp(result)) => {
            match result {
                Ok(Some(_)) => (OutboundState::Dialing, OutboundAction::Dial { host, port }),
                Ok(None) => (
                    OutboundState::Closed,
                    OutboundAction::Decline(acknowledge(false, "session not found".to_string())),
                ),
                Err(e) => (
                    OutboundState::Closed,
                    OutboundAction::Refuse(refusal(Code::Internal, &e)),
                ),
            }
        },
        (OutboundState::Dialing, OutboundEvent::Dialed(result)) => match result {
            Ok(()) => (
                OutboundState::Bridging,
                OutboundAction::Start(acknowledge(true, String::new())),
            ),
            Err(error) => (
                OutboundState::Closed,
                OutboundAction::Decline(acknowledge(false, error)),
            ),
        },
        (OutboundState::Bridging, OutboundEvent::Message(Some(message))) => match message {
            OutboundClientMsg::Data(data) => (OutboundState::Bridging, OutboundAction::Write(data)),
            OutboundClientMsg::Fin(true) => (OutboundState::Closed, OutboundAction::Stop),
            _ => (OutboundState::Bridging, OutboundAction::Read),
        },
        (OutboundState::Bridging, OutboundEvent::Written(true)) => (
            OutboundState::Bridging,
            OutboundAction::Read,
        ),
        _ => (OutboundState::Closed, OutboundAction::Stop),
    }
}

fn first_connect(connect: OutboundConnect) -> (r: (OutboundState, OutboundAction))
    ensures
        on_outbound(
            OutboundState::First,
            OutboundEvent::Message(Some(OutboundClientMsg::Connect(connect))),
            r.0,
            r.1,
        ),
{
    match SessionId::from_string(connect.session_id) {
        Ok(id) => (
            OutboundState::LookingUp {
                host: connect.host,
                port: (connect.port % 65536) as u16,
            },
            OutboundAction::LookUp(id),
        ),
        Err(e) => (
            OutboundState::Closed,
            OutboundAction::Refuse(refusal(Code::InvalidArgument, &e)),
        ),
    }
}

/// What a read from the target makes for the agent, and whether it was the last: a read of
/// nothing, like one that failed, is.
pub fn outbound_read(read: Option<Vec<u8>>) -> (r: (OutboundServerMsg, bool))
    ensures
        match read {
            Some(bytes) => if bytes@.len() == 0 {
                r == (OutboundServerMsg::Fin(true), true)
            } else {
                r == (OutboundServerMsg::Data(bytes), false)
            },
            None => r == (OutboundServerMsg::Fin(true), true),
        },
{
    match read {
        Some(bytes) => if bytes.len() == 0 {
            (OutboundServerMsg::Fin(true), true)
        } else {
            (OutboundServerMsg::Data(bytes), false)
        },
        None => (OutboundServerMsg::Fin(true), true),
    }
}

/// Why no address of a target could be connected to: it had none, or the last one failed for this
/// reason.
pub open spec fn dial_error(errors: Seq<Seq<char>>) -> Seq<char> {
    if errors.len() == 0 {
        "target did not resolve to any address"@
    } else {
        errors.last()
    }
}

/// Which address of a target to try next.
pub enum DialStep {
    /// Try the address with this number.
    Try(usize),
    /// Give up, for this reason.
    GiveUp(String),
}

/// Decide what to do about a target with `addresses` addresses, of which the first ones failed
/// with these errors: try them in turn, and if all failed say why the last one did.
pub fn connect_outbound_target(addresses: usize, errors: &[String]) -> (r: DialStep)
    requires
        errors@.len() <= addresses,
    ensures
        if errors@.len() < addresses {
            r == DialStep::Try(errors@.len() as usize)
        } else {
            r matches DialStep::GiveUp(reason) && reason@ == dial_error(texts(errors@))
        },
{
    if errors.len() < addresses {
        return DialStep::Try(errors.len());
    }
    if errors.len() == 0 {
        DialStep::GiveUp("target did not resolve to any address".to_string())
    } else {
        assert(texts(errors@).last() == errors@.last()@);
        DialStep::GiveUp(errors[errors.len() - 1].clone())
    }
}

// ── Raw connections ───────────────────────────────────────────────────────────

/// Where a raw connection stands. `agent` leads to the agent.
pub enum RawState<T> {
    /// Waiting for the opening frame.
    First,
    /// A frame is on its way to the agent; `is_eof` says whether it ends the half of the sidecar.
    Sending { connection_id: String, agent: T, is_eof: bool },
    /// Waiting for the next frame.
    Pumping { connection_id: String, agent: T },
    /// Over.
    Closed,
}

/// What happens on a raw connection.
pub enum RawEvent<R> {
    /// The opening frame came. `waiter` leads to the sidecar.
    First { frame: RawConnFrame, waiter: R },
    /// A further frame came.
    Frame(RawConnFrame),
    /// The stream of the sidecar broke.
    Failed(String),
    /// The stream of the sidecar ended.
    Ended,
    /// A frame was handed to the agent, or could not be.
    Sent(bool),
}

/// What to do about a raw connection.
pub enum RawAction<T> {
    /// Read the next frame.
    Read,
    /// Send this to the agent and say whether it went.
    Send { agent: T, message: BrokerMessage },
    /// Tell the sidecar why not, and stop.
    Refuse(Status),
    /// Stop.
    Stop,
}

/// A service of which only the raw connections changed.
pub open spec fn with_raw<T, P, R>(
    before: RelayService<T, P, R>,
    after: RelayService<T, P, R>,
    raw: Map<Seq<char>, R>,
) -> bool {
    &&& same_settings(before, after)
    &&& after.connections@ == before.connections@
    &&& after.pending_requests@ == before.pending_requests@
    &&& after.raw_connections@ == raw
}

/// What an event does on a raw connection. Once the sidecar has closed its half, the connection is
/// kept for what the agent still sends.
pub open spec fn on_raw<T: Clone, P, R>(
    before: RelayService<T, P, R>,
    after: RelayService<T, P, R>,
    was: RawState<T>,
    event: RawEvent<R>,
    state: RawState<T>,
    action: RawAction<T>,
) -> bool {
    match (was, event) {
        (RawState::First, RawEvent::First { frame, waiter }) => {
            if !uuid_text(frame.session_id@) {
                &&& same_service(before, after)
                &&& state is Closed
                &&& action matches RawAction::Refuse(status)
                &&& status.says(Code::InvalidArgument, invalid_session(frame.session_id@))
            } else if frame.connection_id@.len() == 0 {
                &&& same_service(before, after)
                &&& state is Closed
                &&& action matches RawAction::Refuse(status)
                &&& status.says(Code::InvalidArgument, "connection_id required"@)
            } else if !before.connections@.contains_key(frame.session_id@) {
                &&& same_service(before, after)
                &&& state is Closed
                &&& action matches RawAction::Refuse(status)
                &&& status.says(Code::NotFound, "session not found"@)
            } else {
                &&& with_raw(
                    before,
                    after,
                    before.raw_connections@.insert(frame.connection_id@, waiter),
                )
                &&& state matches RawState::Sending { connection_id, agent, is_eof }
                &&& connection_id@ == frame.connection_id@
                &&& cloned(before.connections@[frame.session_id@], agent)
                &&& !is_eof
                &&& action matches RawAction::Send { agent: to, message }
                &&& cloned(agent, to)
                &&& message == BrokerMessage::Raw(frame)
            }
        },
        (RawState::First, RawEvent::Failed(message)) => {
            &&& same_service(before, after)
            &&& state is Closed
            &&& action matches RawAction::Refuse(status)
            &&& status.says(Code::Internal, message@)
        },
        (RawState::Sending { connection_id, agent, is_eof }, RawEvent::Sent(true)) => {
            &&& same_service(before, after)
            &&& if is_eof {
                state is Closed && action is Stop
            } else {
                state == (RawState::Pumping { connection_id, agent }) && action is Read
            }
        },
        (RawState::Sending { connection_id, agent, is_eof }, RawEvent::Sent(false)) => {
            &&& with_raw(before, after, before.raw_connections@.remove(connection_id@))
            &&& state is Closed
            &&& action matches RawAction::Refuse(status)
            &&& status.says(Code::Unavailable, "agent tunnel closed"@)
        },
        (RawState::Pumping { connection_id, agent }, RawEvent::Frame(frame)) => {
            &&& same_service(before, after)
            &&& state == (RawState::Sending { connection_id, agent, is_eof: frame.is_eof })
            &&& action matches RawAction::Send { agent: to, message }
            &&& cloned(agent, to)
            &&& message == BrokerMessage::Raw(frame)
        },
        (RawState::Pumping { connection_id, agent }, RawEvent::Failed(message)) => {
            &&& with_raw(before, after, before.raw_connections@.remove(connection_id@))
            &&& state is Closed
            &&& action matches RawAction::Refuse(status)
            &&& status.says(Code::Internal, message@)
        },
        (RawState::Pumping { connection_id, agent }, RawEvent::Ended) => {
            &&& with_raw(before, after, before.raw_connections@.remove(connection_id@))
            &&& state is Closed
            &&& action is Stop
        },
        _ => same_service(before, after) && state is Closed && action is Stop,
    }
}

impl<T: Clone, P: Clone, R: Clone> RelayService<T, P, R> {
    /// Take the next step with a raw connection. An event that the state does not wait for ends
    /// the relay.
    pub fn relay_connection(&mut self, state: RawState<T>, event: RawEvent<R>) -> (r: (
        RawState<T>,
        RawAction<T>,
    ))
        ensures
            on_raw(*old(self), *final(self), state, event, r.0, r.1),
    {
        match (state, event) {
            (RawState::First, RawEvent::First { frame, waiter }) => self.first_frame(frame, waiter),
            (RawState::First, RawEvent::Failed(message)) => (
                RawState::Closed,
                RawAction::Refuse(Status::new(Code::Internal, message)),
            ),
            (RawState::Sending { connection_id, agent, is_eof }, RawEvent::Sent(sent)) => {
                if !sent {
                    self.raw_connections.remove(connection_id.as_str());
                    return (
                        RawState::Closed,
                        RawAction::Refuse(
                            Status::new(Code::Unavailable, "agent tunnel closed".to_string()),
                        ),
                    );
                }
                if is_eof {
                    (RawState::Closed, RawAction::Stop)
                } else {
                    (RawState::Pumping { connection_id, agent }, RawAction::Read)
                }
            },
            (RawState::Pumping { connection_id, agent }, RawEvent::Frame(frame)) => {
                let is_eof = frame.is_eof;
                let to = agent.clone();
                (
                    RawState::Sending { connection_id, agent, is_eof },
                    RawAction::Send { agent: to, message: BrokerMessage::Raw(frame) },
                )
            },
            (RawState::Pumping { connection_id, agent }, RawEvent::Failed(message)) => {
                self.raw_connections.remove(connection_id.as_str());
                (RawState::Closed, RawAction::Refuse(Status::new(Code::Internal, message)))
            },
            (RawState::Pumping { connection_id, agent }, RawEvent::Ended) => {
                self.raw_connections.remove(connection_id.as_str());
                (RawState::Closed, RawAction::Stop)
            },
            _ => (RawState::Closed, RawAction::Stop),
        }
    }

    fn first_frame(&mut self, frame: RawConnFrame, waiter: R) -> (r: (RawState<T>, RawAction<T>))
        ensures
            on_raw(
                *old(self),
                *final(self),
                RawState::First,
                RawEvent::First { frame, waiter },
                r.0,
                r.1,
            ),
    {
        let session_id = match SessionId::from_string(frame.session_id.clone()) {
            Ok(id) => id,
            Err(e) => {
                return (
                    RawState::Closed,
                    RawAction::Refuse(refusal(Code::InvalidArgument, &e)),
                );
            },
        };
        let connection_id = frame.connection_id.clone();
        if connection_id.as_str().is_empty() {
            return (
                RawState::Closed,
                RawAction::Refuse(
                    Status::new(Code::InvalidArgument, "connection_id required".to_string()),
                ),
            );
        }
        let agent = match self.connections.get(&session_id) {
            Some(agent) => agent.clone(),
            None => {
                return (
                    RawState::Closed,
                    RawAction::Refuse(
                        Status::new(Code::NotFound, "session not found".to_string()),
                    ),
                );
            },
        };
        self.raw_connections.register(connection_id.as_str(), waiter);
        let to = agent.clone();
        (
            RawState::Sending { connection_id, agent, is_eof: false },
            RawAction::Send { agent: to, message: BrokerMessage::Raw(frame) },
        )
    }
}

// ── Laws ──────────────────────────────────────────────────────────────────────

/// A target is dialed only once the registry has confirmed the session that asks, and it is the
/// target that was asked for; bytes flow only once it was reached.
pub proof fn outbound_needs_a_session(
    was: OutboundState,
    event: OutboundEvent,
    state: OutboundState,
    action: OutboundAction,
)
    requires
        on_outbound(was, event, state, action),
    ensures
        action matches OutboundAction::Dial { host, port } ==> was == (OutboundState::LookingUp {
            host,
            port,
        }) && (event matches OutboundEvent::LookedUp(Ok(Some(_)))),
        state is LookingUp ==> action is LookUp && was is First,
        state is Dialing ==> action is Dial,
        action is Start ==> was is Dialing && (event matches OutboundEvent::Dialed(Ok(_))),
        state is Bridging ==> was is Bridging || action is Start,
        action is Write ==> was is Bridging,
{
}

/// A lookup for a service finds only sessions that were registered for it, and says so: a sidecar
/// is never sent to the session of another service.
pub proof fn lookup_never_crosses_services(found: Option<ServiceSessionView>, asked: Seq<char>)
    requires
        asked.len() > 0,
        lookup_answer(found, asked).found,
    ensures
        found matches Some(session) && session.allowed_services.contains(asked),
        lookup_answer(found, asked).service_name == asked,
{
}

/// A lookup that names no service finds every session.
pub proof fn lookup_without_service_finds_all(session: ServiceSessionView)
    ensures
        lookup_answer(Some(session), Seq::empty()).found,
        lookup_answer(Some(session), Seq::empty()).service_name == session.service_name,
{
}

/// An agent that is refused changes nothing: no tunnel is opened for it.
pub proof fn refused_agent_changes_nothing<T, P: Clone, R: Clone>(
    before: RelayService<T, P, R>,
    after: RelayService<T, P, R>,
    was: TunnelState,
    event: TunnelEvent<T>,
    state: TunnelState,
    action: TunnelAction<P, R>,
)
    requires
        on_tunnel(before, after, was, event, state, action),
        action is Refuse,
    ensures
        same_service(before, after),
        state is Closed,
{
}

/// Only a session whose registration succeeded gets a tunnel, and it is the tunnel of its agent.
pub proof fn tunnel_follows_registration<T, P: Clone, R: Clone>(
    before: RelayService<T, P, R>,
    after: RelayService<T, P, R>,
    was: TunnelState,
    event: TunnelEvent<T>,
    state: TunnelState,
    action: TunnelAction<P, R>,
    id: Seq<char>,
)
    requires
        on_tunnel(before, after, was, event, state, action),
        after.connections@.contains_key(id),
        !before.connections@.contains_key(id),
    ensures
        was matches TunnelState::Registering { session, id: registered } && registered@ == id,
        event matches TunnelEvent::Registered { result, tx } && result is Ok
            && after.connections@[id] == tx,
        action is Acknowledge,
{
}

/// Once an agent is gone, so is the tunnel of its session, and the session is dropped.
pub proof fn tunnel_ends_with_its_agent<T, P: Clone, R: Clone>(
    before: RelayService<T, P, R>,
    after: RelayService<T, P, R>,
    id: SessionId,
    state: TunnelState,
    action: TunnelAction<P, R>,
)
    requires
        on_tunnel(
            before,
            after,
            TunnelState::Open { session: Some(id) },
            TunnelEvent::Ended,
            state,
            action,
        ),
    ensures
        !after.connections@.contains_key(id@),
        action == TunnelAction::<P, R>::Expire(id),
{
}

/// A request that is refused leaves nobody waiting.
pub proof fn refused_request_leaves_no_waiter<T: Clone, P: Clone, R>(
    before: RelayService<T, P, R>,
    after: RelayService<T, P, R>,
    was: RequestState<T>,
    event: RequestEvent<P>,
    state: RequestState<T>,
    action: RequestAction<T, P>,
)
    requires
        on_request(before, after, was, event, state, action),
        action is Refuse,
    ensures
        was is First ==> same_service(before, after),
        was matches RequestState::Sending { request_id, .. }
            ==> !after.pending_requests@.contains_key(request_id@),
        was matches RequestState::Forwarding { request_id, .. }
            ==> !after.pending_requests@.contains_key(request_id@),
{
}

/// Every frame of a sidecar goes to the agent unchanged.
pub proof fn raw_frames_pass_unchanged<T: Clone, P, R>(
    before: RelayService<T, P, R>,
    after: RelayService<T, P, R>,
    was: RawState<T>,
    frame: RawConnFrame,
    state: RawState<T>,
    action: RawAction<T>,
)
    requires
        was is Pumping,
        on_raw(before, after, was, RawEvent::Frame(frame), state, action),
    ensures
        action matches RawAction::Send { agent, message } && message == BrokerMessage::Raw(frame),
{
}

/// A connection whose sidecar is gone without having closed its half is forgotten; one whose
/// sidecar closed its half is kept for the agent.
pub proof fn raw_connection_outlives_a_clean_end<T: Clone, P, R>(
    before: RelayService<T, P, R>,
    after: RelayService<T, P, R>,
    connection_id: String,
    agent: T,
    state: RawState<T>,
    action: RawAction<T>,
)
    ensures
        on_raw(
            before,
            after,
            RawState::Pumping { connection_id, agent },
            RawEvent::Ended,
            state,
            action,
        ) ==> !after.raw_connections@.contains_key(connection_id@),
        on_raw(
            before,
            after,
            RawState::Sending { connection_id, agent, is_eof: true },
            RawEvent::Sent(true),
            state,
            action,
        ) ==> after.raw_connections@ == before.raw_connections@ && action is Stop,
{
}

/// An agent that registers is asked for its credential for every service that it offers; once that
/// is accepted, its session is stored with every route in its order, under this broker and the time
/// of the verdict; and once it is stored, its tunnel is the one that requests for it go to.
pub proof fn registration_goes_through<T, P: Clone, R: Clone>(
    b0: RelayService<T, P, R>,
    b1: RelayService<T, P, R>,
    b2: RelayService<T, P, R>,
    b3: RelayService<T, P, R>,
    session: Option<SessionId>,
    register: RegisterSession,
    now: u64,
    tx: T,
    s1: TunnelState,
    a1: TunnelAction<P, R>,
    s2: TunnelState,
    a2: TunnelAction<P, R>,
    s3: TunnelState,
    a3: TunnelAction<P, R>,
    i: int,
)
    requires
        uuid_text(register.session_id@),
        0 <= i < register.routes@.len(),
        register.routes@[i].local_port < 65536,
        on_tunnel(
            b0,
            b1,
            TunnelState::Open { session },
            TunnelEvent::Message(Some(AgentMessage::Register(register))),
            s1,
            a1,
        ),
        on_tunnel(b1, b2, s1, TunnelEvent::Authorized { result: Ok(()), now }, s2, a2),
        on_tunnel(b2, b3, s2, TunnelEvent::Registered { result: Ok(()), tx }, s3, a3),
    ensures
        a1 matches TunnelAction::Authorize { id, services } && id@ == register.session_id@
            && services@.len() == register.routes@.len() && services@[i]@
            == register.routes@[i].service_name@,
        a2 matches TunnelAction::Store(record) && record.session_id@ == register.session_id@
            && record.routes@.len() == register.routes@.len() && record.routes@[i].service_name@
            == register.routes@[i].service_name@ && record.routes@[i].local_port
            == register.routes@[i].local_port && record.registered_at == now
            && record.last_heartbeat == now && record.broker_instance == b0.broker_id
            && record.auth_mode == b0.auth@.mode,
        a3 matches TunnelAction::Acknowledge(BrokerMessage::Ack(ack)) && ack.session_id@
            == register.session_id@ && ack.ttl == b0.ttl_secs,
        s3 matches TunnelState::Open { session: Some(id) } && id@ == register.session_id@,
        b3.connections@ == b0.connections@.insert(register.session_id@, tx),
        b3.pending_requests@ == b0.pending_requests@,
        b3.raw_connections@ == b0.raw_connections@,
{
    let offered = offered_routes(register.routes@);
    if let TunnelAction::Authorize { id, services } = a1 {
        assert(texts(services@).len() == services@.len());
        assert(texts(services@)[i] == services@[i]@);
        assert(offered.map_values(|r: (Seq<char>, u16)| r.0)[i] == offered[i].0);
    }
    if let TunnelState::Authorizing { session: kept, id, routes } = s1 {
        assert(routes_view(routes@).len() == routes@.len());
        assert(routes_view(routes@)[i] == routes@[i]@);
    }
}

/// An agent without a session identity, one whose credential is refused and one that cannot be
/// stored are told so, each with its own code, and get no tunnel.
pub proof fn failed_registration_is_answered<T, P: Clone, R: Clone>(
    before: RelayService<T, P, R>,
    after: RelayService<T, P, R>,
    session: Option<SessionId>,
    id: SessionId,
    routes: Vec<ServiceRoute>,
    register: RegisterSession,
    error: DetourError,
    now: u64,
    tx: T,
    state: TunnelState,
    action: TunnelAction<P, R>,
)
    requires
        !uuid_text(register.session_id@),
    ensures
        on_tunnel(
            before,
            after,
            TunnelState::Open { session },
            TunnelEvent::Message(Some(AgentMessage::Register(register))),
            state,
            action,
        ) ==> (action matches TunnelAction::Refuse(status) && status.code == Code::InvalidArgument
            && status.message@ == "invalid session ID: "@ + register.session_id@),
        on_tunnel(
            before,
            after,
            TunnelState::Authorizing { session, id, routes },
            TunnelEvent::Authorized { result: Err(error), now },
            state,
            action,
        ) ==> (action matches TunnelAction::Refuse(status) && status.code == Code::Unauthenticated
            && status.message@ == error.message()),
        on_tunnel(
            before,
            after,
            TunnelState::Registering { session, id },
            TunnelEvent::Registered { result: Err(error), tx },
            state,
            action,
        ) ==> (action matches TunnelAction::Refuse(status) && status.code == Code::Internal
            && status.message@ == error.message()),
{
}

/// What an agent sends goes to whoever waits for it, whole: a part of a response to the waiter of
/// its request, a frame to the waiter of its connection. A heartbeat is for the session that it
/// names. What nobody waits for is dropped.
pub proof fn agent_messages_reach_their_waiters<T, P: Clone, R: Clone>(
    before: RelayService<T, P, R>,
    after: RelayService<T, P, R>,
    session: Option<SessionId>,
    response: RelayResponse,
    frame: RawConnFrame,
    beat: Heartbeat,
    state: TunnelState,
    action: TunnelAction<P, R>,
)
    ensures
        on_message(before, after, session, Some(AgentMessage::Response(response)), state, action)
            ==> (if before.pending_requests@.contains_key(response.request_id@) {
            action matches TunnelAction::Respond { tx, message } && cloned(
                before.pending_requests@[response.request_id@].tx,
                tx,
            ) && message.request_id@ == response.request_id@ && message.status_code
                == response.status_code && message.headers@ == response.headers@
                && message.body_chunk@ == response.body_chunk@ && message.end_of_body
                == response.end_of_body
        } else {
            action is Dropped
        }),
        on_message(before, after, session, Some(AgentMessage::Raw(frame)), state, action) ==> (
        if before.raw_connections@.contains_key(frame.connection_id@) {
            action matches TunnelAction::Deliver { waiter, frame: passed } && cloned(
                before.raw_connections@[frame.connection_id@],
                waiter,
            ) && passed@ == frame@
        } else {
            action is Dropped
        }),
        on_message(before, after, session, Some(AgentMessage::Heartbeat(beat)), state, action)
            && uuid_text(beat.session_id@) ==> (action matches TunnelAction::Beat(id) && id@
            == beat.session_id@),
{
}

/// A request goes to the agent of its session, whole: its first part with method, path, headers and
/// body, each further part with the body alone, under one identity, and its waiter waits for that.
pub proof fn request_goes_to_its_agent<T: Clone, P: Clone, R>(
    b0: RelayService<T, P, R>,
    b1: RelayService<T, P, R>,
    b2: RelayService<T, P, R>,
    b3: RelayService<T, P, R>,
    first: RelayRequestMsg,
    waiter: P,
    second: RelayRequestMsg,
    s1: RequestState<T>,
    a1: RequestAction<T, P>,
    s2: RequestState<T>,
    a2: RequestAction<T, P>,
    s3: RequestState<T>,
    a3: RequestAction<T, P>,
)
    requires
        uuid_text(first.session_id@),
        b0.connections@.contains_key(first.session_id@),
        on_request(
            b0,
            b1,
            RequestState::First,
            RequestEvent::First { chunk: first, waiter },
            s1,
            a1,
        ),
        on_request(b1, b2, s1, RequestEvent::Sent(true), s2, a2),
        on_request(b2, b3, s2, RequestEvent::Chunk(second), s3, a3),
    ensures
        a1 matches RequestAction::Send { agent, message: BrokerMessage::Request(opening) } && (
        a3 matches RequestAction::Send { agent: same, message: BrokerMessage::Request(further) }
            && opening.method@ == first.method@ && opening.path@ == first.path@ && opening.headers@
            == first.headers@ && opening.body_chunk@ == first.body_chunk@ && opening.end_of_body
            == first.end_of_body && opening.service_name@ == first.service_name@
            && further.request_id@ == opening.request_id@ && further.body_chunk@
            == second.body_chunk@ && further.end_of_body == second.end_of_body
            && further.service_name@ == first.service_name@ && b3.pending_requests@.contains_key(
            opening.request_id@,
        ) && b3.pending_requests@[opening.request_id@].tx == waiter && unstarted(
            b3.pending_requests@,
            opening.request_id@,
        )),
        s1 matches RequestState::Sending { request_id, service_name, agent } && cloned(
            b0.connections@[first.session_id@],
            agent,
        ),
        a2 is Read,
        b3.connections@ == b0.connections@,
        b3.raw_connections@ == b0.raw_connections@,
{
}

/// A request whose parts are all sent waits half a minute for its response to begin, and is told if
/// it did not.
pub proof fn unanswered_request_times_out<T: Clone, P: Clone, R>(
    b0: RelayService<T, P, R>,
    b1: RelayService<T, P, R>,
    b2: RelayService<T, P, R>,
    b3: RelayService<T, P, R>,
    request_id: String,
    service_name: String,
    agent: T,
    s1: RequestState<T>,
    a1: RequestAction<T, P>,
    s2: RequestState<T>,
    a2: RequestAction<T, P>,
)
    requires
        on_request(
            b0,
            b1,
            RequestState::Forwarding { request_id, service_name, agent },
            RequestEvent::Ended,
            s1,
            a1,
        ),
        on_request(b2, b3, s1, RequestEvent::Elapsed, s2, a2),
    ensures
        a1 matches RequestAction::Sleep(secs) && secs == 30,
        unstarted(b2.pending_requests@, request_id@) ==> (a2 matches RequestAction::TimeOut {
            waiter,
            status,
        } && cloned(b2.pending_requests@[request_id@].tx, waiter) && status.code
            == Code::DeadlineExceeded) && !b3.pending_requests@.contains_key(request_id@),
        !unstarted(b2.pending_requests@, request_id@) ==> a2 is Stop && same_service(b2, b3),
{
}

/// A request for what is no session identity, or for a session without an agent, is refused, each
/// with its own code.
pub proof fn request_without_an_agent_is_refused<T: Clone, P: Clone, R>(
    before: RelayService<T, P, R>,
    after: RelayService<T, P, R>,
    chunk: RelayRequestMsg,
    waiter: P,
    state: RequestState<T>,
    action: RequestAction<T, P>,
)
    requires
        on_request(
            before,
            after,
            RequestState::First,
            RequestEvent::First { chunk, waiter },
            state,
            action,
        ),
    ensures
        !uuid_text(chunk.session_id@) ==> (action matches RequestAction::Refuse(status)
            && status.code == Code::InvalidArgument && status.message@ == "invalid session ID: "@
            + chunk.session_id@),
        uuid_text(chunk.session_id@) && !before.connections@.contains_key(chunk.session_id@) ==> (
        action matches RequestAction::Refuse(status) && status.code == Code::NotFound
            && status.message@ == "session not found"@),
        action is Refuse ==> state is Closed,
{
}

/// A lookup finds a session exactly if one was found and stands in for the service that was asked
/// for, and then tells the mode of the session and the service.
pub proof fn lookup_tells_of_the_session(session: ServiceSessionView, asked: Seq<char>)
    requires
        asked.len() > 0,
    ensures
        lookup_answer(Some(session), asked).found <==> exists|i: int|
            0 <= i < session.allowed_services.len() && #[trigger] session.allowed_services[i]
                == asked,
        lookup_answer(Some(session), asked).found ==> lookup_answer(Some(session), asked).auth_mode
            == session.auth_mode.name() && lookup_answer(Some(session), asked).service_name == asked,
        lookup_answer(Some(session), Seq::empty()).auth_mode == session.auth_mode.name(),
        !lookup_answer(None, asked).found,
        !lookup_answer(None, Seq::empty()).found,
        lookup_answer(None, asked).auth_mode.len() == 0,
        lookup_answer(None, asked).service_name.len() == 0,
{
    if session.allowed_services.contains(asked) {
        let i = choose|i: int|
            0 <= i < session.allowed_services.len() && session.allowed_services[i] == asked;
        assert(session.allowed_services[i] == asked);
    }
}

/// An outbound connection goes where it was asked to go: the target that was asked for is dialed
/// once the session was found, the agent hears of it, and what the agent sends is written as it came.
pub proof fn outbound_goes_to_its_target(
    connect: OutboundConnect,
    session: ServiceSession,
    data: Vec<u8>,
    s1: OutboundState,
    a1: OutboundAction,
    s2: OutboundState,
    a2: OutboundAction,
    s3: OutboundState,
    a3: OutboundAction,
    s4: OutboundState,
    a4: OutboundAction,
)
    requires
        uuid_text(connect.session_id@),
        connect.port < 65536,
        on_outbound(
            OutboundState::First,
            OutboundEvent::Message(Some(OutboundClientMsg::Connect(connect))),
            s1,
            a1,
        ),
        on_outbound(s1, OutboundEvent::LookedUp(Ok(Some(session))), s2, a2),
        on_outbound(s2, OutboundEvent::Dialed(Ok(())), s3, a3),
        on_outbound(s3, OutboundEvent::Message(Some(OutboundClientMsg::Data(data))), s4, a4),
    ensures
        a1 matches OutboundAction::LookUp(id) && id@ == connect.session_id@,
        a2 matches OutboundAction::Dial { host, port } && host@ == connect.host@ && port
            == connect.port,
        a3 matches OutboundAction::Start(OutboundServerMsg::Ack(ack)) && ack.success
            && ack.error@.len() == 0,
        a4 matches OutboundAction::Write(bytes) && bytes@ == data@,
        s4 is Bridging,
{
}

/// An outbound connection that cannot be had is declined or refused, each time with its reason.
pub proof fn outbound_failures_are_told(
    host: String,
    port: u16,
    connect: OutboundConnect,
    reason: String,
    error: DetourError,
    state: OutboundState,
    action: OutboundAction,
)
    requires
        !uuid_text(connect.session_id@),
    ensures
        on_outbound(
            OutboundState::First,
            OutboundEvent::Message(Some(OutboundClientMsg::Connect(connect))),
            state,
            action,
        ) ==> (action matches OutboundAction::Refuse(status) && status.code == Code::InvalidArgument
            && status.message@ == "invalid session ID: "@ + connect.session_id@),
        on_outbound(
            OutboundState::LookingUp { host, port },
            OutboundEvent::LookedUp(Ok(None)),
            state,
            action,
        ) ==> (action matches OutboundAction::Decline(OutboundServerMsg::Ack(ack)) && !ack.success
            && ack.error@ == "session not found"@),
        on_outbound(
            OutboundState::LookingUp { host, port },
            OutboundEvent::LookedUp(Err(error)),
            state,
            action,
        ) ==> (action matches OutboundAction::Refuse(status) && status.code == Code::Internal
            && status.message@ == error.message()),
        on_outbound(
            OutboundState::Dialing,
            OutboundEvent::Dialed(Err(reason)),
            state,
            action,
        ) ==> (action matches OutboundAction::Decline(OutboundServerMsg::Ack(ack)) && !ack.success
            && ack.error@ == reason@),
{
}

/// When no address of a target answers, the reason is that of the last one that was tried.
pub proof fn last_failure_is_told(errors: Seq<Seq<char>>, last: Seq<char>)
    ensures
        dial_error(errors.push(last)) == last,
        dial_error(Seq::empty()) == "target did not resolve to any address"@,
{
}

/// A raw connection goes to the agent of its session: its opening frame and every frame behind it as
/// they came, and what the agent answers to the sidecar that opened it.
pub proof fn raw_connection_goes_to_its_agent<T: Clone, P, R>(
    b0: RelayService<T, P, R>,
    b1: RelayService<T, P, R>,
    b2: RelayService<T, P, R>,
    b3: RelayService<T, P, R>,
    opening: RawConnFrame,
    waiter: R,
    second: RawConnFrame,
    s1: RawState<T>,
    a1: RawAction<T>,
    s2: RawState<T>,
    a2: RawAction<T>,
    s3: RawState<T>,
    a3: RawAction<T>,
)
    requires
        uuid_text(opening.session_id@),
        opening.connection_id@.len() > 0,
        b0.connections@.contains_key(opening.session_id@),
        on_raw(b0, b1, RawState::First, RawEvent::First { frame: opening, waiter }, s1, a1),
        on_raw(b1, b2, s1, RawEvent::Sent(true), s2, a2),
        on_raw(b2, b3, s2, RawEvent::Frame(second), s3, a3),
    ensures
        a1 matches RawAction::Send { agent, message: BrokerMessage::Raw(frame) } && frame@
            == opening@,
        s1 matches RawState::Sending { connection_id, agent, is_eof } && cloned(
            b0.connections@[opening.session_id@],
            agent,
        ),
        a2 is Read,
        a3 matches RawAction::Send { agent, message: BrokerMessage::Raw(frame) } && frame@
            == second@,
        b3.raw_connections@ == b0.raw_connections@.insert(opening.connection_id@, waiter),
        b3.connections@ == b0.connections@,
        b3.pending_requests@ == b0.pending_requests@,
{
}

/// An opening frame that names no session, no connection or a session without an agent is refused,
/// each with its own reason, in this order.
pub proof fn raw_connection_without_an_agent_is_refused<T: Clone, P, R>(
    before: RelayService<T, P, R>,
    after: RelayService<T, P, R>,
    frame: RawConnFrame,
    waiter: R,
    state: RawState<T>,
    action: RawAction<T>,
)
    requires
        on_raw(before, after, RawState::First, RawEvent::First { frame, waiter }, state, action),
    ensures
        !uuid_text(frame.session_id@) ==> (action matches RawAction::Refuse(status) && status.code
            == Code::InvalidArgument && status.message@ == "invalid session ID: "@
            + frame.session_id@),
        uuid_text(frame.session_id@) && frame.connection_id@.len() == 0 ==> (action matches
            RawAction::Refuse(status) && status.code == Code::InvalidArgument && status.message@
            == "connection_id required"@),
        uuid_text(frame.session_id@) && frame.connection_id@.len() > 0
            && !before.connections@.contains_key(frame.session_id@) ==> (action matches
            RawAction::Refuse(status) && status.code == Code::NotFound && status.message@
            == "session not found"@),
        action is Refuse ==> same_service(before, after) && state is Closed,
{
}

/// A frame that ended its half, or that did not arrive, was the last of its connection; the others
/// are kept.
pub proof fn last_frame_ends_its_connection<T, P: Clone, R: Clone>(
    before: RelayService<T, P, R>,
    after: RelayService<T, P, R>,
    session: Option<SessionId>,
    connection_id: String,
    is_eof: bool,
    sent: bool,
    state: TunnelState,
    action: TunnelAction<P, R>,
    other: Seq<char>,
)
    requires
        other != connection_id@,
        on_tunnel(
            before,
            after,
            TunnelState::Open { session },
            TunnelEvent::Delivered { connection_id, is_eof, sent },
            state,
            action,
        ),
    ensures
        before.raw_connections@.contains_key(connection_id@) ==> (
        after.raw_connections@.contains_key(connection_id@) <==> sent && !is_eof),
        after.raw_connections@.contains_key(other) <==> before.raw_connections@.contains_key(other),
        sent ==> action is Read,
        !sent ==> action is Dropped,
        state == (TunnelState::Open { session }),
        after.connections@ == before.connections@,
        after.pending_requests@ == before.pending_requests@,
{
}

/// A request or a connection whose agent is gone, or whose sidecar breaks off, is refused, each with
/// its own code.
pub proof fn broken_relays_are_refused<T: Clone, P: Clone, R>(
    before: RelayService<T, P, R>,
    after: RelayService<T, P, R>,
    id: String,
    service_name: String,
    agent: T,
    is_eof: bool,
    reason: String,
    request: RequestState<T>,
    told: RequestAction<T, P>,
    raw: RawState<T>,
    said: RawAction<T>,
)
    ensures
        on_request(
            before,
            after,
            RequestState::Sending { request_id: id, service_name, agent },
            RequestEvent::Sent(false),
            request,
            told,
        ) ==> (told matches RequestAction::Refuse(status) && status.code == Code::Unavailable
            && status.message@ == "agent tunnel closed"@),
        on_request(
            before,
            after,
            RequestState::Forwarding { request_id: id, service_name, agent },
            RequestEvent::Failed(reason),
            request,
            told,
        ) || on_request(
            before,
            after,
            RequestState::First,
            RequestEvent::Failed(reason),
            request,
            told,
        ) ==> (told matches RequestAction::Refuse(status) && status.code == Code::Internal
            && status.message@ == reason@),
        on_raw(
            before,
            after,
            RawState::Sending { connection_id: id, agent, is_eof },
            RawEvent::Sent(false),
            raw,
            said,
        ) ==> !after.raw_connections@.contains_key(id@) && (said matches RawAction::Refuse(status)
            && status.code == Code::Unavailable && status.message@ == "agent tunnel closed"@),
        on_raw(
            before,
            after,
            RawState::Pumping { connection_id: id, agent },
            RawEvent::Failed(reason),
            raw,
            said,
        ) ==> !after.raw_connections@.contains_key(id@) && (said matches RawAction::Refuse(status)
            && status.code == Code::Internal && status.message@ == reason@),
{
}

/// An outbound connection must be asked for first, and ends when either side ends it.
pub proof fn outbound_ends_with_either_side(
    data: Vec<u8>,
    s1: OutboundState,
    a1: OutboundAction,
    s2: OutboundState,
    a2: OutboundAction,
    s3: OutboundState,
    a3: OutboundAction,
    s4: OutboundState,
    a4: OutboundAction,
    s5: OutboundState,
    a5: OutboundAction,
)
    requires
        on_outbound(
            OutboundState::First,
            OutboundEvent::Message(Some(OutboundClientMsg::Data(data))),
            s1,
            a1,
        ),
        on_outbound(
            OutboundState::Bridging,
            OutboundEvent::Message(Some(OutboundClientMsg::Fin(true))),
            s2,
            a2,
        ),
        on_outbound(OutboundState::Bridging, OutboundEvent::Ended, s3, a3),
        on_outbound(OutboundState::Bridging, OutboundEvent::Written(false), s4, a4),
        on_outbound(OutboundState::Bridging, OutboundEvent::Written(true), s5, a5),
    ensures
        s1 is Closed && (a1 matches OutboundAction::Refuse(status) && status.code
            == Code::InvalidArgument && status.message@ == "first message must be OutboundConnect"@),
        s2 is Closed && a2 is Stop,
        s3 is Closed && a3 is Stop,
        s4 is Closed && a4 is Stop,
        s5 is Bridging && a5 is Read,
{
}

/// A service that is the same has the same tunnels, waiters and settings.
pub proof fn same_service_keeps_everything<T, P, R>(
    a: RelayService<T, P, R>,
    b: RelayService<T, P, R>,
)
    requires
        same_service(a, b),
    ensures
        a.connections@ == b.connections@,
        a.pending_requests@ == b.pending_requests@,
        a.raw_connections@ == b.raw_connections@,
        a.auth@ == b.auth@,
        a.broker_id@ == b.broker_id@,
        a.ttl_secs == b.ttl_secs,
{
}

/// Every route that an agent offers is taken, in its order; of its port the lower sixteen bits count,
/// and so they do of the port of an outbound connection.
pub proof fn ports_have_sixteen_bits(
    entries: Seq<RouteEntry>,
    i: int,
    high: u32,
    low: u16,
    connect: OutboundConnect,
    state: OutboundState,
    action: OutboundAction,
)
    requires
        0 <= i < entries.len(),
        entries[i].local_port == high * 65536 + low,
        connect.port == high * 65536 + low,
        uuid_text(connect.session_id@),
        on_outbound(
            OutboundState::First,
            OutboundEvent::Message(Some(OutboundClientMsg::Connect(connect))),
            state,
            action,
        ),
    ensures
        offered_routes(entries).len() == entries.len(),
        offered_routes(entries)[i] == (entries[i].service_name@, low),
        state matches OutboundState::LookingUp { host, port } && port == low && host@
            == connect.host@,
{
    assert((high * 65536 + low) % 65536 == low);
}

} // verus!
