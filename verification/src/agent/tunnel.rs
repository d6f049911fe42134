//! The tunnel of an agent: how it is opened, what is done with what arrives on it, and when it is
//! opened again.
use tonic::metadata::MetadataValue;
use vstd::hash_map::StringHashMap;
use vstd::prelude::*;
use vstd::string::*;
use vstd::utf8::*;

use crate::agent::forwarder::{local_uri, uri_of, LocalCall};
use crate::headers::valid_value;
use crate::model::config::ServiceRoute;
use crate::model::session::{AuthMode, SessionId, TunnelStatus};
use crate::model::wire::{
    AgentMessage, BrokerMessage, Heartbeat, RawConnFrame, RegisterSession, RelayRequest, RouteEntry,
    SessionAck,
};
use crate::text::{begins_with, chars_begin_with, chars_of, concat, ends_of_a_text, opt_text};

verus! {

/// Seconds between heartbeats.
pub const HEARTBEAT_INTERVAL_SECS: u64 = 30;

/// Seconds before the first attempt to open a tunnel again.
pub const RECONNECT_DELAY_SECS: u64 = 3;

/// No attempt waits longer than this.
pub const MAX_RECONNECT_DELAY_SECS: u64 = 60;

// ── Opening ───────────────────────────────────────────────────────────────────

/// A broker is spoken to over TLS if its address says so.
pub open spec fn secure(url: Seq<char>) -> bool {
    begins_with(url, "https://"@)
}

/// Whether a broker is spoken to over TLS.
pub fn needs_tls(url: &str) -> (r: bool)
    ensures
        r == secure(url@),
{
    chars_begin_with(chars_of(url).as_slice(), chars_of("https://").as_slice())
}

/// A route entry offers a route.
pub open spec fn offers(entry: RouteEntry, route: ServiceRoute) -> bool {
    entry.service_name == route.service_name && entry.local_port == route.local_port
}

/// Make the message that registers a session.
pub fn register_message(
    session_id: &SessionId,
    auth_mode: AuthMode,
    routes: &[ServiceRoute],
) -> (r: AgentMessage)
    ensures
        r matches AgentMessage::Register(register) && register.session_id@ == session_id@
            && register.auth_mode@ == auth_mode.name() && register.routes@.len() == routes@.len()
            && (forall|i: int|
            0 <= i < routes@.len() ==> offers(#[trigger] register.routes@[i], routes@[i])),
{
    let mut entries: Vec<RouteEntry> = Vec::new();
    let mut i: usize = 0;
    while i < routes.len()
        invariant
            i <= routes@.len(),
            entries@.len() == i,
            forall|k: int| 0 <= k < i ==> offers(#[trigger] entries@[k], routes@[k]),
        decreases routes@.len() - i,
    {
        entries.push(
            RouteEntry {
                service_name: routes[i].service_name.clone(),
                local_port: routes[i].local_port as u32,
            },
        );
        i = i + 1;
    }
    AgentMessage::Register(
        RegisterSession {
            session_id: session_id.to_string(),
            auth_mode: auth_mode.to_string(),
            routes: entries,
        },
    )
}

/// Make the message that keeps a session alive.
pub fn heartbeat_message(session_id: &SessionId) -> (r: AgentMessage)
    ensures
        r matches AgentMessage::Heartbeat(beat) && beat.session_id@ == session_id@,
{
    AgentMessage::Heartbeat(Heartbeat { session_id: session_id.to_string() })
}

/// `tonic::metadata::MetadataValue::try_from` a text accepts a header value, and says of any other
/// text only that it failed.
#[verifier::external_body]
fn metadata_error(text: &str) -> (r: Option<String>)
    ensures
        r is None <==> valid_value(encode_utf8(text@)),
        r matches Some(message) ==> message@ == "failed to parse metadata value"@,
{
    MetadataValue::try_from(text).err().map(|e| e.to_string())
}

/// The authorization that goes with a tunnel: none with `session-id`, and the bearer token with
/// the other modes, which cannot do without one. A token that cannot stand in a header is refused.
pub open spec fn authorization(mode: AuthMode, token: Option<Seq<char>>) -> Result<
    Option<Seq<char>>,
    Seq<char>,
> {
    if mode == AuthMode::SessionId {
        Ok(None)
    } else {
        match token {
            Some(token) => if valid_value(encode_utf8("Bearer "@ + token)) {
                Ok(Some("Bearer "@ + token))
            } else {
                Err("failed to parse metadata value"@)
            },
            None => Err("missing auth token for "@ + mode.name()),
        }
    }
}

/// Make the authorization that goes with a tunnel.
pub fn auth_metadata(mode: AuthMode, token: &Option<String>) -> (r: Result<Option<String>, String>)
    ensures
        match r {
            Ok(value) => authorization(mode, opt_text(*token)) == Ok::<
                Option<Seq<char>>,
                Seq<char>,
            >(opt_text(value)),
            Err(message) => authorization(mode, opt_text(*token)) == Err::<
                Option<Seq<char>>,
                Seq<char>,
            >(message@),
        },
{
    match mode {
        AuthMode::SessionId => Ok(None),
        _ => match token {
            Some(token) => {
                let value = concat("Bearer ", token.as_str());
                match metadata_error(value.as_str()) {
                    None => Ok(Some(value)),
                    Some(message) => Err(message),
                }
            },
            None => Err(concat("missing auth token for ", mode.to_string().as_str())),
        },
    }
}

// ── Dispatch ──────────────────────────────────────────────────────────────────

/// The port of each service; of two routes for one service the later counts.
pub open spec fn route_map(routes: Seq<ServiceRoute>) -> Map<Seq<char>, u16>
    decreases routes.len(),
{
    if routes.len() == 0 {
        Map::empty()
    } else {
        route_map(routes.drop_last()).insert(
            routes.last().service_name@,
            routes.last().local_port,
        )
    }
}

/// Sorts what arrives on a tunnel. `B` feeds the body of a request, `C` the frames of a raw
/// connection, to the task that handles it.
#[verifier::reject_recursive_types(B)]
#[verifier::reject_recursive_types(C)]
pub struct Dispatcher<B, C> {
    routes: StringHashMap<u16>,
    requests: StringHashMap<B>,
    connections: StringHashMap<C>,
}

/// What a [`Dispatcher`] knows: the ports of the services, the requests whose body is not
/// complete, and the raw connections that are open.
#[verifier::reject_recursive_types(B)]
#[verifier::reject_recursive_types(C)]
pub struct DispatcherView<B, C> {
    pub routes: Map<Seq<char>, u16>,
    pub requests: Map<Seq<char>, B>,
    pub connections: Map<Seq<char>, C>,
}

impl<B, C> View for Dispatcher<B, C> {
    type V = DispatcherView<B, C>;

    closed spec fn view(&self) -> DispatcherView<B, C> {
        DispatcherView {
            routes: self.routes@,
            requests: self.requests@,
            connections: self.connections@,
        }
    }
}

/// What happens on the tunnel of an agent.
pub enum AgentEvent<B, C> {
    /// A message came; one without content says nothing.
    Message(Option<BrokerMessage>),
    /// A part of a body was fed to its request, or could not be.
    Fed { request_id: String, end_of_body: bool, sent: bool },
    /// The body of a new request was opened with `body`, and its first part was fed, or could not
    /// be.
    Opened { request_id: String, end_of_body: bool, sent: bool, body: B },
    /// A frame was passed to its connection, or could not be.
    Passed { connection_id: String, is_eof: bool, sent: bool },
    /// A new connection was opened with `connection`.
    Connected { connection_id: String, is_eof: bool, connection: C },
}

/// What to do about the tunnel of an agent.
pub enum AgentAction<B, C> {
    /// Read the next message.
    Read,
    /// A session is acknowledged; read on.
    Acknowledged,
    /// Nothing local stands in for the service; read on.
    NoRoute { service_name: String },
    /// Feed a part of a body and say whether it went.
    Feed { body: B, chunk: Vec<u8>, request_id: String, end_of_body: bool },
    /// Open the body of a new request, feed the first part if there is one, and say whether it
    /// went.
    Open { call: LocalCall, first_chunk: Option<Vec<u8>>, end_of_body: bool },
    /// Start the request that was opened, and read on.
    Start,
    /// Pass a frame to its connection and say whether it went.
    Pass { connection: C, frame: RawConnFrame },
    /// Open a connection to a local port for an opening frame.
    Connect { frame: RawConnFrame, local_port: u16 },
}

/// What a request, or a further part of one, does.
pub open spec fn on_relayed<B: Clone, C>(
    before: DispatcherView<B, C>,
    after: DispatcherView<B, C>,
    request: RelayRequest,
    action: AgentAction<B, C>,
) -> bool {
    let id = request.request_id@;
    if before.requests.contains_key(id) {
        if request.body_chunk@.len() > 0 {
            &&& after == before
            &&& action matches AgentAction::Feed { body, chunk, request_id, end_of_body }
            &&& cloned(before.requests[id], body)
            &&& chunk == request.body_chunk
            &&& request_id == request.request_id
            &&& end_of_body == request.end_of_body
        } else {
            &&& action is Read
            &&& after == DispatcherView {
                requests: if request.end_of_body {
                    before.requests.remove(id)
                } else {
                    before.requests
                },
                ..before
            }
        }
    } else if before.routes.contains_key(request.service_name@) {
        &&& after == before
        &&& action matches AgentAction::Open { call, first_chunk, end_of_body }
        &&& call.request_id == request.request_id
        &&& call.method == request.method
        &&& call.uri@ == local_uri(before.routes[request.service_name@], request.path@)
        &&& call.headers == request.headers
        &&& end_of_body == request.end_of_body
        &&& if request.body_chunk@.len() > 0 {
            first_chunk == Some(request.body_chunk)
        } else {
            first_chunk is None
        }
    } else {
        &&& after == before
        &&& action == (AgentAction::<B, C>::NoRoute { service_name: request.service_name })
    }
}

/// What a raw frame does.
pub open spec fn on_frame<B, C: Clone>(
    before: DispatcherView<B, C>,
    after: DispatcherView<B, C>,
    frame: RawConnFrame,
    action: AgentAction<B, C>,
) -> bool {
    &&& after == before
    &&& if before.connections.contains_key(frame.connection_id@) {
        &&& action matches AgentAction::Pass { connection, frame: passed }
        &&& cloned(before.connections[frame.connection_id@], connection)
        &&& passed == frame
    } else if before.routes.contains_key(frame.service_name@) {
        action == (AgentAction::<B, C>::Connect {
            frame,
            local_port: before.routes[frame.service_name@],
        })
    } else {
        action == (AgentAction::<B, C>::NoRoute { service_name: frame.service_name })
    }
}

/// What an event does on the tunnel of an agent.
pub open spec fn on_agent<B: Clone, C: Clone>(
    before: DispatcherView<B, C>,
    after: DispatcherView<B, C>,
    event: AgentEvent<B, C>,
    action: AgentAction<B, C>,
) -> bool {
    match event {
        AgentEvent::Message(Some(BrokerMessage::Ack(_))) => after == before
            && action is Acknowledged,
        AgentEvent::Message(Some(BrokerMessage::Request(request))) => on_relayed(
            before,
            after,
            request,
            action,
        ),
        AgentEvent::Message(Some(BrokerMessage::Raw(frame))) => on_frame(
            before,
            after,
            frame,
            action,
        ),
        AgentEvent::Message(None) => after == before && action is Read,
        AgentEvent::Fed { request_id, end_of_body, sent } => {
            &&& action is Read
            &&& after == DispatcherView {
                requests: if !sent || end_of_body {
                    before.requests.remove(request_id@)
                } else {
                    before.requests
                },
                ..before
            }
        },
        AgentEvent::Opened { request_id, end_of_body, sent, body } => if sent {
            &&& action is Start
            &&& after == DispatcherView {
                requests: if end_of_body {
                    before.requests
                } else {
                    before.requests.insert(request_id@, body)
                },
                ..before
            }
        } else {
            after == before && action is Read
        },
        AgentEvent::Passed { connection_id, is_eof, sent } => {
            &&& action is Read
            &&& after == DispatcherView {
                connections: if !sent || is_eof {
                    before.connections.remove(connection_id@)
                } else {
                    before.connections
                },
                ..before
            }
        },
        AgentEvent::Connected { connection_id, is_eof, connection } => {
            &&& action is Start
            &&& after == DispatcherView {
                connections: if is_eof {
                    before.connections
                } else {
                    before.connections.insert(connection_id@, connection)
                },
                ..before
            }
        },
    }
}

impl<B: Clone, C: Clone> Dispatcher<B, C> {
    /// A dispatcher for some routes, with nothing open.
    pub fn new(routes: &[ServiceRoute]) -> (r: Self)
        ensures
            r@ == (DispatcherView {
                routes: route_map(routes@),
                requests: Map::<Seq<char>, B>::empty(),
                connections: Map::<Seq<char>, C>::empty(),
            }),
    {
        let mut map: StringHashMap<u16> = StringHashMap::new();
        let mut i: usize = 0;
        while i < routes.len()
            invariant
                i <= routes@.len(),
                map@ == route_map(routes@.take(i as int)),
            decreases routes@.len() - i,
        {
            map.insert(routes[i].service_name.clone(), routes[i].local_port);
            assert(routes@.take(i + 1).drop_last() =~= routes@.take(i as int));
            i = i + 1;
        }
        assert(routes@.take(i as int) =~= routes@);
        Dispatcher {
            routes: map,
            requests: StringHashMap::new(),
            connections: StringHashMap::new(),
        }
    }

    /// Take the next step on the tunnel.
    pub fn step(&mut self, event: AgentEvent<B, C>) -> (r: AgentAction<B, C>)
        ensures
            on_agent(old(self)@, final(self)@, event, r),
    {
        match event {
            AgentEvent::Message(Some(BrokerMessage::Ack(_))) => AgentAction::Acknowledged,
            AgentEvent::Message(Some(BrokerMessage::Request(request))) => self.relayed(request),
            AgentEvent::Message(Some(BrokerMessage::Raw(frame))) => self.raw_frame(frame),
            AgentEvent::Message(None) => AgentAction::Read,
            AgentEvent::Fed { request_id, end_of_body, sent } => {
                if !sent || end_of_body {
                    self.requests.remove(request_id.as_str());
                }
                AgentAction::Read
            },
            AgentEvent::Opened { request_id, end_of_body, sent, body } => {
                if !sent {
                    return AgentAction::Read;
                }
                if !end_of_body {
                    self.requests.insert(request_id, body);
                }
                AgentAction::Start
            },
            AgentEvent::Passed { connection_id, is_eof, sent } => {
                if !sent || is_eof {
                    self.connections.remove(connection_id.as_str());
                }
                AgentAction::Read
            },
            AgentEvent::Connected { connection_id, is_eof, connection } => {
                if !is_eof {
                    self.connections.insert(connection_id, connection);
                }
                AgentAction::Start
            },
        }
    }

    fn relayed(&mut self, request: RelayRequest) -> (r: AgentAction<B, C>)
        ensures
            on_relayed(old(self)@, final(self)@, request, r),
    {
        let open: Option<B> = match self.requests.get(request.request_id.as_str()) {
            Some(body) => Some(body.clone()),
            None => None,
        };
        if let Some(body) = open {
            if request.body_chunk.len() > 0 {
                return AgentAction::Feed {
                    body,
                    chunk: request.body_chunk,
                    request_id: request.request_id,
                    end_of_body: request.end_of_body,
                };
            }
            if request.end_of_body {
                self.requests.remove(request.request_id.as_str());
            }
            return AgentAction::Read;
        }
        let local_port: u16 = match self.routes.get(request.service_name.as_str()) {
            Some(port) => *port,
            None => {
                return AgentAction::NoRoute { service_name: request.service_name };
            },
        };
        let call = LocalCall {
            request_id: request.request_id,
            method: request.method,
            uri: uri_of(local_port, request.path.as_str()),
            headers: request.headers,
        };
        let first_chunk = if request.body_chunk.len() > 0 {
            Some(request.body_chunk)
        } else {
            None
        };
        AgentAction::Open { call, first_chunk, end_of_body: request.end_of_body }
    }

    fn raw_frame(&mut self, frame: RawConnFrame) -> (r: AgentAction<B, C>)
        ensures
            on_frame(old(self)@, final(self)@, frame, r),
    {
        if let Some(connection) = self.connections.get(frame.connection_id.as_str()) {
            return AgentAction::Pass { connection: connection.clone(), frame };
        }
        match self.routes.get(frame.service_name.as_str()) {
            Some(port) => AgentAction::Connect { local_port: *port, frame },
            None => AgentAction::NoRoute { service_name: frame.service_name },
        }
    }
}

// ── Reconnecting ──────────────────────────────────────────────────────────────

/// Where the life of a tunnel stands.
pub enum RunState {
    /// A tunnel is being opened or is open. `delay` is how long to wait if it breaks; `shutdown`
    /// says that a request to stop can still be waited for.
    Connecting { delay: u64, shutdown: bool },
    /// Waiting before the next attempt.
    Pausing { delay: u64 },
    /// Over.
    Stopped,
}

/// What happens in the life of a tunnel.
pub enum RunEvent {
    /// The tunnel ended, in order or not.
    Ended { in_order: bool },
    /// The wait is over.
    Slept,
    /// The agent was asked to stop.
    Shutdown,
}

/// What to do next in the life of a tunnel.
pub enum RunAction {
    /// Open the tunnel.
    Connect,
    /// Wait this many seconds, or until asked to stop.
    Pause { secs: u64 },
    /// Stop.
    Stop,
}

/// The wait behind a wait of `delay` seconds.
pub open spec fn next_delay(delay: u64) -> u64 {
    if delay * 2 <= MAX_RECONNECT_DELAY_SECS {
        (delay * 2) as u64
    } else {
        MAX_RECONNECT_DELAY_SECS
    }
}

/// What an event does in the life of a tunnel, and the statuses to report, in order. The request
/// to stop is waited for during the first pause only: a tunnel that breaks after that is not
/// opened again.
pub open spec fn on_run(
    was: RunState,
    event: RunEvent,
    state: RunState,
    statuses: Seq<TunnelStatus>,
    action: RunAction,
) -> bool {
    match (was, event) {
        (RunState::Connecting { delay, shutdown }, RunEvent::Ended { in_order }) => if in_order {
            &&& state is Stopped
            &&& statuses =~= seq![TunnelStatus::Stopped]
            &&& action is Stop
        } else if shutdown {
            &&& state == (RunState::Pausing { delay })
            &&& statuses =~= seq![TunnelStatus::Reconnecting]
            &&& action == (RunAction::Pause { secs: delay })
        } else {
            &&& state is Stopped
            &&& statuses =~= seq![TunnelStatus::Reconnecting, TunnelStatus::Stopped]
            &&& action is Stop
        },
        (RunState::Pausing { delay }, RunEvent::Slept) => {
            &&& state == (RunState::Connecting { delay: next_delay(delay), shutdown: false })
            &&& statuses =~= seq![TunnelStatus::Connecting]
            &&& action is Connect
        },
        _ => {
            &&& state is Stopped
            &&& statuses =~= seq![TunnelStatus::Stopped]
            &&& action is Stop
        },
    }
}

/// Begin the life of a tunnel.
pub fn run_start() -> (r: (RunState, TunnelStatus))
    ensures
        r.0 == (RunState::Connecting { delay: RECONNECT_DELAY_SECS, shutdown: true }),
        r.1 is Connecting,
{
    (
        RunState::Connecting { delay: RECONNECT_DELAY_SECS, shutdown: true },
        TunnelStatus::Connecting,
    )
}

/// Take the next step in the life of a tunnel.
pub fn run(state: RunState, event: RunEvent) -> (r: (RunState, Vec<TunnelStatus>, RunAction))
    ensures
        on_run(state, event, r.0, r.1@, r.2),
{
    match (state, event) {
        (RunState::Connecting { delay, shutdown }, RunEvent::Ended { in_order }) => {
            if in_order {
                (RunState::Stopped, vec![TunnelStatus::Stopped], RunAction::Stop)
            } else if shutdown {
                (
                    RunState::Pausing { delay },
                    vec![TunnelStatus::Reconnecting],
                    RunAction::Pause { secs: delay },
                )
            } else {
                (
                    RunState::Stopped,
                    vec![TunnelStatus::Reconnecting, TunnelStatus::Stopped],
                    RunAction::Stop,
                )
            }
        },
        (RunState::Pausing { delay }, RunEvent::Slept) => {
            let delay: u64 = if delay <= MAX_RECONNECT_DELAY_SECS / 2 {
                delay * 2
            } else {
                MAX_RECONNECT_DELAY_SECS
            };
            (
                RunState::Connecting { delay, shutdown: false },
                vec![TunnelStatus::Connecting],
                RunAction::Connect,
            )
        },
        _ => (RunState::Stopped, vec![TunnelStatus::Stopped], RunAction::Stop),
    }
}

// ── Laws ──────────────────────────────────────────────────────────────────────

/// The wait between two attempts.
pub open spec fn delay_of(state: RunState) -> u64 {
    match state {
        RunState::Connecting { delay, .. } => delay,
        RunState::Pausing { delay } => delay,
        RunState::Stopped => RECONNECT_DELAY_SECS,
    }
}

/// No wait is shorter than the first one or longer than the longest one.
pub proof fn delays_stay_bounded(
    was: RunState,
    event: RunEvent,
    state: RunState,
    statuses: Seq<TunnelStatus>,
    action: RunAction,
)
    requires
        on_run(was, event, state, statuses, action),
        RECONNECT_DELAY_SECS <= delay_of(was) <= MAX_RECONNECT_DELAY_SECS,
    ensures
        RECONNECT_DELAY_SECS <= delay_of(state) <= MAX_RECONNECT_DELAY_SECS,
        action matches RunAction::Pause { secs } ==> RECONNECT_DELAY_SECS <= secs
            <= MAX_RECONNECT_DELAY_SECS,
{
}

/// A tunnel that stops says so last.
pub proof fn stop_is_reported(
    was: RunState,
    event: RunEvent,
    state: RunState,
    statuses: Seq<TunnelStatus>,
    action: RunAction,
)
    requires
        on_run(was, event, state, statuses, action),
    ensures
        action is Stop <==> state is Stopped,
        action is Stop ==> statuses.len() > 0 && statuses.last() is Stopped,
{
}

/// A service is served on the port of its last route, and only if it has one.
pub proof fn route_map_is_exact(routes: Seq<ServiceRoute>, name: Seq<char>)
    ensures
        route_map(routes).contains_key(name) <==> exists|i: int|
            0 <= i < routes.len() && #[trigger] routes[i].service_name@ == name,
        forall|i: int|
            0 <= i < routes.len() && #[trigger] routes[i].service_name@ == name && (forall|j: int|
                i < j < routes.len() ==> (#[trigger] routes[j]).service_name@ != name)
                ==> route_map(routes)[name] == routes[i].local_port,
    decreases routes.len(),
{
    if routes.len() > 0 {
        let front = routes.drop_last();
        route_map_is_exact(front, name);
        if exists|i: int| 0 <= i < routes.len() && #[trigger] routes[i].service_name@ == name {
            let i = choose|i: int|
                0 <= i < routes.len() && #[trigger] routes[i].service_name@ == name;
            if i < front.len() {
                assert(front[i].service_name@ == name);
            }
        }
        if route_map(front).contains_key(name) {
            let i = choose|i: int|
                0 <= i < front.len() && #[trigger] front[i].service_name@ == name;
            assert(routes[i].service_name@ == name);
        }
        if routes.last().service_name@ == name {
            assert(routes[routes.len() - 1].service_name@ == name);
        }
        assert forall|i: int|
            0 <= i < routes.len() && #[trigger] routes[i].service_name@ == name && (forall|j: int|
                i < j < routes.len() ==> (#[trigger] routes[j]).service_name@
                    != name) implies route_map(routes)[name] == routes[i].local_port by {
            let last = routes.len() - 1;
            if i < last {
                assert(routes[last].service_name@ != name);
                assert(front[i].service_name@ == name);
                assert forall|j: int| i < j < front.len() implies (#[trigger] front[j]).service_name@
                    != name by {
                    assert(routes[j].service_name@ != name);
                }
            }
        }
    }
}

/// Only services with a route are reached, each on its own port, and nothing that arrives changes
/// the routes.
pub proof fn only_routed_services_are_reached<B: Clone, C: Clone>(
    before: DispatcherView<B, C>,
    after: DispatcherView<B, C>,
    event: AgentEvent<B, C>,
    action: AgentAction<B, C>,
)
    requires
        on_agent(before, after, event, action),
    ensures
        after.routes == before.routes,
        action matches AgentAction::Open { call, first_chunk, end_of_body } ==> (event matches
            AgentEvent::Message(Some(BrokerMessage::Request(request))) && before.routes.contains_key(
            request.service_name@,
        ) && call.uri@ == local_uri(before.routes[request.service_name@], request.path@)),
        action matches AgentAction::Connect { frame, local_port } ==> event
            == AgentEvent::<B, C>::Message(Some(BrokerMessage::Raw(frame)))
            && before.routes.contains_key(frame.service_name@) && local_port
            == before.routes[frame.service_name@],
{
}

/// A connection takes frames from its opening on until a frame ends it or cannot be passed.
pub proof fn connection_takes_frames_until_its_end<B: Clone, C: Clone>(
    before: DispatcherView<B, C>,
    after: DispatcherView<B, C>,
    connection_id: String,
    is_eof: bool,
    sent: bool,
    connection: C,
    action: AgentAction<B, C>,
)
    ensures
        on_agent(
            before,
            after,
            AgentEvent::Connected { connection_id, is_eof: false, connection },
            action,
        ) ==> after.connections.contains_key(connection_id@) && after.connections[connection_id@]
            == connection,
        on_agent(before, after, AgentEvent::Passed { connection_id, is_eof, sent }, action)
            && before.connections.contains_key(connection_id@) ==> (
        after.connections.contains_key(connection_id@) <==> sent && !is_eof),
{
}

/// Each wait is twice the one before, up to a minute.
pub proof fn waits_double(delay: u64)
    requires
        delay <= 60,
    ensures
        delay <= 30 ==> next_delay(delay) == 2 * delay,
        delay >= 30 ==> next_delay(delay) == 60,
{
}

/// A tunnel that breaks is opened again after its wait, unless the agent is asked to stop before; a
/// tunnel that ends in order is not.
pub proof fn broken_tunnel_is_opened_again(
    delay: u64,
    s1: RunState,
    t1: Seq<TunnelStatus>,
    a1: RunAction,
    s2: RunState,
    t2: Seq<TunnelStatus>,
    a2: RunAction,
    s3: RunState,
    t3: Seq<TunnelStatus>,
    a3: RunAction,
    s4: RunState,
    t4: Seq<TunnelStatus>,
    a4: RunAction,
)
    requires
        on_run(
            RunState::Connecting { delay, shutdown: true },
            RunEvent::Ended { in_order: false },
            s1,
            t1,
            a1,
        ),
        on_run(s1, RunEvent::Slept, s2, t2, a2),
        on_run(s1, RunEvent::Shutdown, s3, t3, a3),
        on_run(
            RunState::Connecting { delay, shutdown: true },
            RunEvent::Ended { in_order: true },
            s4,
            t4,
            a4,
        ),
    ensures
        a1 == (RunAction::Pause { secs: delay }),
        t1.len() == 1 && t1[0] is Reconnecting,
        a2 is Connect,
        t2.len() == 1 && t2[0] is Connecting,
        a3 is Stop,
        a4 is Stop,
{
}

/// A further part of a request goes to the request that it belongs to, whole and in order; the last
/// part closes it.
pub proof fn bodies_are_fed_to_their_requests<B: Clone, C: Clone>(
    before: DispatcherView<B, C>,
    after: DispatcherView<B, C>,
    request: RelayRequest,
    action: AgentAction<B, C>,
)
    requires
        on_agent(
            before,
            after,
            AgentEvent::Message(Some(BrokerMessage::Request(request))),
            action,
        ),
    ensures
        before.requests.contains_key(request.request_id@) && request.body_chunk@.len() > 0 ==> (
        action matches AgentAction::Feed { body, chunk, request_id, end_of_body } && cloned(
            before.requests[request.request_id@],
            body,
        ) && chunk == request.body_chunk && request_id == request.request_id && end_of_body
            == request.end_of_body),
        !before.requests.contains_key(request.request_id@) && before.routes.contains_key(
            request.service_name@,
        ) ==> (action matches AgentAction::Open { call, first_chunk, end_of_body } && call.method
            == request.method && call.headers == request.headers && call.request_id
            == request.request_id && call.uri@ == local_uri(
            before.routes[request.service_name@],
            request.path@,
        ) && end_of_body == request.end_of_body && (request.body_chunk@.len() > 0 ==> first_chunk
            == Some(request.body_chunk))),
        !before.requests.contains_key(request.request_id@) && !before.routes.contains_key(
            request.service_name@,
        ) ==> action is NoRoute,
        after.connections == before.connections,
        forall|id: Seq<char>|
            id != request.request_id@ ==> (#[trigger] after.requests.contains_key(id)
                <==> before.requests.contains_key(id)) && (before.requests.contains_key(id)
                ==> after.requests[id] == before.requests[id]),
{
}

/// A request takes further parts exactly until its last one, or until one cannot be fed.
pub proof fn request_takes_parts_until_its_end<B: Clone, C: Clone>(
    before: DispatcherView<B, C>,
    after: DispatcherView<B, C>,
    request_id: String,
    end_of_body: bool,
    sent: bool,
    body: B,
    action: AgentAction<B, C>,
)
    ensures
        on_agent(
            before,
            after,
            AgentEvent::Opened { request_id, end_of_body: false, sent: true, body },
            action,
        ) ==> action is Start && after.requests.contains_key(request_id@)
            && after.requests[request_id@] == body,
        on_agent(before, after, AgentEvent::Fed { request_id, end_of_body, sent }, action)
            && before.requests.contains_key(request_id@) ==> (after.requests.contains_key(
            request_id@,
        ) <==> sent && !end_of_body),
{
}

/// The first wait is three seconds and the longest is a minute.
pub proof fn waits_have_their_bounds()
    ensures
        RECONNECT_DELAY_SECS == 3,
        MAX_RECONNECT_DELAY_SECS == 60,
        HEARTBEAT_INTERVAL_SECS == 30,
{
}

/// A broker is spoken to over TLS exactly if its address begins with `https://`.
pub proof fn addresses_tell_of_tls(url: Seq<char>, rest: Seq<char>)
    ensures
        secure("https://"@ + rest),
        secure(url) ==> url == "https://"@ + url.skip("https://"@.len() as int),
        !secure("http://"@ + rest),
{
    ends_of_a_text(url, "https://"@, rest);
    reveal_strlit("https://");
    reveal_strlit("http://");
    let plain = "http://"@ + rest;
    if secure(plain) {
        assert(plain.take(8)[4] == plain[4]);
        assert("https://"@[4] == 's');
    }
}

/// What is offered of a route is its service and its port.
pub proof fn offer_names_the_route(entry: RouteEntry, route: ServiceRoute)
    requires
        offers(entry, route),
    ensures
        entry.service_name@ == route.service_name@,
        entry.local_port == route.local_port,
{
}

/// A token is presented as a bearer token, and only where the mode asks for one; without one such a
/// mode fails.
pub proof fn token_is_presented(mode: AuthMode, token: Seq<char>)
    ensures
        authorization(AuthMode::SessionId, Some(token)) == Ok::<Option<Seq<char>>, Seq<char>>(None),
        authorization(AuthMode::SessionId, None) == Ok::<Option<Seq<char>>, Seq<char>>(None),
        mode != AuthMode::SessionId ==> authorization(mode, None) == Err::<
            Option<Seq<char>>,
            Seq<char>,
        >("missing auth token for "@ + mode.name()),
        mode != AuthMode::SessionId && valid_value(encode_utf8("Bearer "@ + token))
            ==> authorization(mode, Some(token)) == Ok::<Option<Seq<char>>, Seq<char>>(
            Some("Bearer "@ + token),
        ),
        mode != AuthMode::SessionId && !valid_value(encode_utf8("Bearer "@ + token))
            ==> authorization(mode, Some(token)) is Err,
{
}

/// A frame goes to its connection if that is open, and otherwise opens one to the port of its
/// service; it goes on as it came, and no request is touched.
pub proof fn frames_go_to_their_connections<B: Clone, C: Clone>(
    before: DispatcherView<B, C>,
    after: DispatcherView<B, C>,
    frame: RawConnFrame,
    action: AgentAction<B, C>,
)
    requires
        on_agent(before, after, AgentEvent::Message(Some(BrokerMessage::Raw(frame))), action),
    ensures
        before.connections.contains_key(frame.connection_id@) ==> (action matches
            AgentAction::Pass { connection, frame: passed } && cloned(
            before.connections[frame.connection_id@],
            connection,
        ) && passed@ == frame@),
        !before.connections.contains_key(frame.connection_id@) && before.routes.contains_key(
            frame.service_name@,
        ) ==> (action matches AgentAction::Connect { frame: passed, local_port } && passed@ == frame@
            && local_port == before.routes[frame.service_name@]),
        !before.connections.contains_key(frame.connection_id@) && !before.routes.contains_key(
            frame.service_name@,
        ) ==> (action matches AgentAction::NoRoute { service_name } && service_name@
            == frame.service_name@),
        after.requests == before.requests,
        after.connections == before.connections,
{
}

/// What ends one request or connection leaves the others alone.
pub proof fn others_are_left_alone<B: Clone, C: Clone>(
    before: DispatcherView<B, C>,
    after: DispatcherView<B, C>,
    id: String,
    last: bool,
    sent: bool,
    body: B,
    connection: C,
    action: AgentAction<B, C>,
    other: Seq<char>,
)
    requires
        other != id@,
    ensures
        on_agent(
            before,
            after,
            AgentEvent::Fed { request_id: id, end_of_body: last, sent },
            action,
        ) || on_agent(
            before,
            after,
            AgentEvent::Opened { request_id: id, end_of_body: last, sent, body },
            action,
        ) ==> after.connections == before.connections && (after.requests.contains_key(other)
            <==> before.requests.contains_key(other)) && (before.requests.contains_key(other)
            ==> after.requests[other] == before.requests[other]),
        on_agent(
            before,
            after,
            AgentEvent::Passed { connection_id: id, is_eof: last, sent },
            action,
        ) || on_agent(
            before,
            after,
            AgentEvent::Connected { connection_id: id, is_eof: last, connection },
            action,
        ) ==> after.requests == before.requests && (after.connections.contains_key(other)
            <==> before.connections.contains_key(other)) && (before.connections.contains_key(other)
            ==> after.connections[other] == before.connections[other]),
{
}

/// A tunnel that was opened again waits twice as long if it breaks once more, up to a minute; but it
/// is then not opened a third time: that it broke is reported, and that it stopped.
pub proof fn second_break_is_the_last(
    delay: u64,
    s1: RunState,
    t1: Seq<TunnelStatus>,
    a1: RunAction,
    in_order: bool,
    s2: RunState,
    t2: Seq<TunnelStatus>,
    a2: RunAction,
)
    requires
        delay <= 60,
        on_run(RunState::Pausing { delay }, RunEvent::Slept, s1, t1, a1),
        on_run(s1, RunEvent::Ended { in_order }, s2, t2, a2),
    ensures
        a1 is Connect,
        delay <= 30 ==> delay_of(s1) == 2 * delay,
        delay > 30 ==> delay_of(s1) == 60,
        a2 is Stop,
        s2 is Stopped,
        !in_order ==> t2.len() == 2 && t2[0] is Reconnecting && t2[1] is Stopped,
        in_order ==> t2.len() == 1 && t2[0] is Stopped,
{
}

/// What says nothing changes nothing, and an acknowledgement neither.
pub proof fn empty_messages_change_nothing<B: Clone, C: Clone>(
    before: DispatcherView<B, C>,
    after: DispatcherView<B, C>,
    ack: SessionAck,
    action: AgentAction<B, C>,
)
    ensures
        on_agent(before, after, AgentEvent::Message(None), action) ==> after == before
            && action is Read,
        on_agent(
            before,
            after,
            AgentEvent::Message(Some(BrokerMessage::Ack(ack))),
            action,
        ) ==> after == before && action is Acknowledged,
{
}

} // verus!
