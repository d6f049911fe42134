use std::sync::mpsc::{channel, Sender};

use detour::agent::forwarder::{forward_connection, ForwardAction, ForwardEvent, ForwardState};
use detour::agent::tunnel::{register_message, AgentAction, AgentEvent, Dispatcher};
use detour::broker::auth::AuthService;
use detour::broker::connections::{ConnectionMap, PendingRequests, RawConnections};
use detour::broker::registry::{MemoryRegistry, SessionRegistry};
use detour::broker::relay::{
    lookup_session, RawAction, RawEvent, RawState, RelayService, TunnelAction, TunnelEvent, TunnelState,
};
use detour::model::config::ServiceRoute;
use detour::model::frames::raw_frame;
use detour::model::session::{AuthMode, SessionId};
use detour::model::wire::{
    AgentMessage, BrokerMessage, LookupRequest, LookupResponse, RawConnFrame,
};
use detour::sidecar::cache::SessionCache;
use detour::sidecar::inspector::{CachedResolver, Resolution};
use detour::sidecar::proxy::{handle_conn, ConnPlan, Destination, ProxyState};
use detour::sidecar::raw::sniff_head;

const SESSION: &str = "11111111-1111-4111-8111-111111111111";

type Broker = RelayService<Sender<BrokerMessage>, Sender<()>, Sender<RawConnFrame>>;

#[test]
fn routed_connection_reaches_its_port_and_is_answered() {
    let request = format!("GET /orders HTTP/1.1\r\nHost: a\r\nx-ROUTE-to: {SESSION}\r\n\r\nrest");

    // The sidecar finds the session and opens a connection with all that it read.
    let ConnPlan::Resolve { headers, path, initial, .. } =
        handle_conn(sniff_head(request.as_bytes(), false).unwrap())
    else {
        panic!("the request is looked up");
    };
    assert_eq!(path, "/orders");
    let mut resolver = CachedResolver::new(SessionCache::new(30), "svc".to_string());
    let Resolution::Ask { session_id, .. } = resolver.resolve(&headers, 0) else {
        panic!("the broker is asked");
    };
    let reply = LookupResponse {
        found: true,
        auth_mode: "session-id".to_string(),
        service_name: "svc".to_string(),
    };
    let found = resolver.resolved(&session_id, Some(reply), 0);
    let proxy = ProxyState {
        app_upstream: "localhost:8080".to_string(),
        service_name: "svc".to_string(),
        log_routed: false,
    };
    let Destination::Relay { opening, .. } = proxy.route_or_splice(found, initial) else {
        panic!("the connection is relayed");
    };

    // The broker hands it to the tunnel of the session.
    let mut broker: Broker = RelayService {
        connections: ConnectionMap::default(),
        pending_requests: PendingRequests::default(),
        raw_connections: RawConnections::default(),
        auth: AuthService::new(AuthMode::SessionId, None, None, None, None),
        broker_id: "b".to_string(),
        ttl_secs: 60,
    };
    let (to_agent, at_agent) = channel();
    broker.connections.insert(&SessionId::from_string(SESSION.to_string()).unwrap(), to_agent);
    let (to_sidecar, at_sidecar) = channel();
    let first = RawEvent::First { frame: opening, waiter: to_sidecar };
    let (_, action) = broker.relay_connection(RawState::First, first);
    let RawAction::Send { agent, message } = action else {
        panic!("the frame is sent on");
    };
    agent.send(message).unwrap();

    // The agent takes it to the port of the service.
    let routes = [ServiceRoute { service_name: "svc".to_string(), local_port: 3000 }];
    let mut tunnel: Dispatcher<Sender<u8>, Sender<u8>> = Dispatcher::new(&routes);
    let action = tunnel.step(AgentEvent::Message(Some(at_agent.recv().unwrap())));
    let AgentAction::Connect { frame, local_port } = action else {
        panic!("a connection is opened");
    };
    assert_eq!(local_port, 3000);
    let id = frame.connection_id.clone();
    let (_, action) = forward_connection(
        ForwardState::Dialing { open: frame },
        ForwardEvent::Dialed { connected: true },
    );
    let ForwardAction::Write(bytes) = action else {
        panic!("the request is written");
    };
    assert_eq!(bytes, request.into_bytes());

    // The answer finds its way back.
    let answer = raw_frame(&id, b"HTTP/1.1 204 No Content\r\n\r\n".to_vec(), false);
    let (_, action) = broker.open_tunnel(
        TunnelState::Open { session: None },
        TunnelEvent::Message(Some(AgentMessage::Raw(answer))),
    );
    let TunnelAction::Deliver { waiter, frame } = action else {
        panic!("the sidecar waits for it");
    };
    waiter.send(frame).unwrap();
    let frame = at_sidecar.recv().unwrap();
    assert_eq!(frame.payload, b"HTTP/1.1 204 No Content\r\n\r\n".to_vec());
    assert!(!frame.is_eof);
}

#[test]
fn registered_services_are_confirmed_to_their_sidecars() {
    let id = SessionId::from_string(SESSION.to_string()).unwrap();
    let route = |name: &str, local_port| ServiceRoute { service_name: name.into(), local_port };
    let routes = [route("payments", 65535), route("users", 1)];
    let AgentMessage::Register(register) =
        register_message(&id, AuthMode::SignedToken, &routes)
    else {
        panic!("the session is registered");
    };
    let mut broker: RelayService<u8, u8, u8> = RelayService {
        connections: ConnectionMap::default(),
        pending_requests: PendingRequests::default(),
        raw_connections: RawConnections::default(),
        auth: AuthService::new(AuthMode::SignedToken, None, None, None, None),
        broker_id: "b".to_string(),
        ttl_secs: 60,
    };
    let (state, _) = broker.open_tunnel(
        TunnelState::Open { session: None },
        TunnelEvent::Message(Some(AgentMessage::Register(register))),
    );
    let (_, action) =
        broker.open_tunnel(state, TunnelEvent::Authorized { result: Ok(()), now: 100 });
    let TunnelAction::Store(record) = action else {
        panic!("the session is stored");
    };
    assert_eq!(record.routes[0].local_port, 65535);
    let mut registry = MemoryRegistry::new(60);
    registry.register(record).unwrap();

    let mut ask = |service: &str, now| {
        let request = LookupRequest { session_id: SESSION.into(), service_name: service.into() };
        lookup_session(&request, registry.lookup(&id, now)).unwrap()
    };
    for service in ["payments", "users"] {
        let reply = ask(service, 160);
        assert!(reply.found);
        let mut resolver = CachedResolver::new(SessionCache::new(30), service.to_string());
        let found = resolver.resolved(&id, Some(reply), 0).unwrap();
        assert_eq!(found.service_name, service);
        assert_eq!(found.auth_mode, AuthMode::SignedToken);
    }
    assert!(!ask("orders", 160).found);
    assert!(ask("", 160).found);
    assert!(!ask("users", 161).found);
}
