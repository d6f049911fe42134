use std::sync::mpsc::{channel, Sender};

use detour::agent::forwarder::{
    do_forward, forward, forward_connection, response_header, uri_of, CallAction, CallEvent,
    CallState, ForwardAction, ForwardEvent, ForwardState, LocalCall,
};
use detour::agent::handle::AgentHandle;
use detour::agent::outbound::{
    dotted_text, handle, socks_read, socks_start, SocksAction, SocksEvent, SocksState,
};
use detour::agent::status::{
    chrono_now, overall, port_event, status_handler, status_label, status_port,
};
use detour::agent::tunnel::{
    auth_metadata, heartbeat_message, needs_tls, register_message, run, run_start, AgentAction,
    AgentEvent, Dispatcher, RunAction, RunEvent, RunState,
};
use detour::json::Json;
use detour::model::config::{AgentConfig, ServiceRoute};
use detour::model::session::{AuthMode, SessionId, TunnelStatus};
use detour::model::wire::{
    AgentMessage, BrokerMessage, Header, OutboundClientMsg, OutboundConnectAck, OutboundServerMsg,
    RawConnFrame, RelayRequest, SessionAck,
};
use http::header::HeaderValue;

const SESSION: &str = "11111111-1111-4111-8111-111111111111";

fn sid() -> SessionId {
    SessionId::from_string(SESSION.to_string()).unwrap()
}

fn route(name: &str, port: u16) -> ServiceRoute {
    ServiceRoute { service_name: name.to_string(), local_port: port }
}

fn open_frame(connection_id: &str, payload: Vec<u8>, is_eof: bool) -> RawConnFrame {
    RawConnFrame {
        session_id: "s".into(),
        connection_id: connection_id.to_string(),
        payload,
        is_eof,
        service_name: "svc".into(),
    }
}

fn closing(message: AgentMessage) -> RawConnFrame {
    match message {
        AgentMessage::Raw(frame) => frame,
        _ => panic!("expected raw frame"),
    }
}

// ── Forwarding ────────────────────────────────────────────────────────────────

#[test]
fn forward_connection_pumps_both_halves() {
    let open = open_frame("conn-1", b"PING".to_vec(), true);
    let (state, action) = forward_connection(
        ForwardState::Dialing { open },
        ForwardEvent::Dialed { connected: true },
    );
    let ForwardAction::Write(bytes) = action else {
        panic!("the opening payload goes upstream");
    };
    assert_eq!(bytes, b"PING");
    let (state, action) = forward_connection(state, ForwardEvent::Written(true));
    assert!(matches!((state, action), (ForwardState::Draining, ForwardAction::StartAndClose)));

    // What upstream says goes to the broker, and so does its end.
    let (frame, done) = detour::model::frames::frame_of_read("conn-1", Some(b"PONG"));
    assert_eq!((frame.connection_id.as_str(), frame.payload.as_slice(), done), ("conn-1", &b"PONG"[..], false));
    let (frame, done) = detour::model::frames::frame_of_read("conn-1", Some(b""));
    assert!(frame.is_eof && done, "agent must emit a closing is_eof frame");
}

#[test]
fn forward_connection_dial_failure_emits_eof() {
    let open = open_frame("conn-2", Vec::new(), false);
    let (state, action) = forward_connection(
        ForwardState::Dialing { open },
        ForwardEvent::Dialed { connected: false },
    );
    let ForwardAction::Fail(message) = action else {
        panic!("expected a closing frame");
    };
    assert!(matches!(state, ForwardState::Closed));
    let frame = closing(message);
    assert_eq!(frame.connection_id, "conn-2");
    assert!(frame.is_eof);
}

#[test]
fn forward_connection_pumps_frames_until_the_end() {
    let dial = |open| {
        forward_connection(ForwardState::Dialing { open }, ForwardEvent::Dialed { connected: true })
    };
    let (state, action) = dial(open_frame("c", vec![], false));
    assert!(matches!(action, ForwardAction::StartAndPump));
    let (state, action) = forward_connection(state, ForwardEvent::Frame(open_frame("c", vec![1], false)));
    assert!(matches!(action, ForwardAction::Write(bytes) if bytes == vec![1]));
    let (state, action) = forward_connection(state, ForwardEvent::Written(true));
    assert!(matches!(action, ForwardAction::Pump));
    let (state, action) = forward_connection(state, ForwardEvent::Frame(open_frame("c", vec![], false)));
    assert!(matches!(action, ForwardAction::Pump));
    let (state, action) = forward_connection(state, ForwardEvent::Frame(open_frame("c", vec![2], true)));
    assert!(matches!(action, ForwardAction::Write(bytes) if bytes == vec![2]));
    let (state, action) = forward_connection(state, ForwardEvent::Written(true));
    assert!(matches!((state, action), (ForwardState::Draining, ForwardAction::Close)));

    let (_, action) = forward_connection(ForwardState::Pumping, ForwardEvent::NoMoreFrames);
    assert!(matches!(action, ForwardAction::Drain));
    let (_, action) =
        forward_connection(ForwardState::Writing { is_eof: true }, ForwardEvent::Written(false));
    assert!(matches!(action, ForwardAction::Drain));
    let (_, action) =
        forward_connection(ForwardState::Pumping, ForwardEvent::Frame(open_frame("c", vec![], true)));
    assert!(matches!(action, ForwardAction::Close));
    let (_, action) = dial(open_frame("c", vec![], true));
    assert!(matches!(action, ForwardAction::StartAndClose));

    let opening = ForwardState::Opening { connection_id: "c".into(), is_eof: false };
    let (_, action) = forward_connection(opening, ForwardEvent::Written(false));
    let ForwardAction::Fail(message) = action else {
        panic!("expected a closing frame");
    };
    assert!(closing(message).is_eof);
}

#[test]
fn responses_carry_their_headers_once() {
    let header = response_header("content-type", &HeaderValue::from_static("text/plain"));
    assert_eq!((header.name.as_str(), header.value.as_str()), ("content-type", "text/plain"));
    let odd = response_header("x", &HeaderValue::from_bytes(b"\xff").unwrap());
    assert_eq!(odd.value, "");

    let part = |message| match message {
        AgentMessage::Response(response) => response,
        _ => panic!("expected a response"),
    };
    let data = |state, chunk: &[u8]| {
        let (state, action) = forward(state, CallEvent::Data(chunk.to_vec()));
        let CallAction::Send(message) = action else {
            panic!("the part is sent");
        };
        let (state, action) = forward(state, CallEvent::Sent(true));
        assert!(matches!(action, CallAction::Read));
        (state, part(message))
    };
    let responded = CallEvent::Responded { status: 201, headers: vec![header] };
    let (state, action) = forward(CallState::Calling { request_id: "r".into() }, responded);
    assert!(matches!(action, CallAction::Read));
    let (state, first) = data(state, b"a");
    assert_eq!((first.status_code, first.headers.len(), first.end_of_body), (201, 1, false));
    let (state, action) = forward(state, CallEvent::NoData);
    assert!(matches!(action, CallAction::Read));
    let (state, second) = data(state, b"b");
    assert_eq!((second.headers.len(), second.body_chunk.as_slice()), (0, &b"b"[..]));
    let (state, action) = forward(state, CallEvent::Ended);
    let (CallState::Closed, CallAction::Finish(message)) = (state, action) else {
        panic!("the response is ended");
    };
    let last = part(message);
    assert!(last.end_of_body && last.body_chunk.is_empty() && last.headers.is_empty());
    assert_eq!(last.request_id, "r");
}

#[test]
fn responses_end_for_a_reason() {
    let calling = || CallState::Calling { request_id: "r".into() };
    let (_, action) = forward(calling(), CallEvent::Failed);
    let CallAction::Finish(AgentMessage::Response(failed)) = action else {
        panic!("the failure is answered");
    };
    assert_eq!((failed.status_code, failed.body_chunk.as_slice()), (502, &b"Bad Gateway"[..]));
    assert!(failed.end_of_body && failed.headers.is_empty());
    assert_eq!(failed.request_id, "r");

    // A response without a body carries its headers on the last part.
    let header = response_header("a", &HeaderValue::from_static("b"));
    let responded = CallEvent::Responded { status: 204, headers: vec![header] };
    let (state, _) = forward(calling(), responded);
    let (_, action) = forward(state, CallEvent::Ended);
    let CallAction::Finish(AgentMessage::Response(only)) = action else {
        panic!("the response is ended");
    };
    assert_eq!((only.status_code, only.headers.len(), only.end_of_body), (204, 1, true));

    let (state, _) = forward(calling(), CallEvent::Responded { status: 200, headers: vec![] });
    let (state, _) = forward(state, CallEvent::Data(vec![1]));
    let (state, action) = forward(state, CallEvent::Sent(false));
    assert!(matches!((state, action), (CallState::Closed, CallAction::Stop)));
}

#[test]
fn local_calls_become_requests() {
    let call = |method: &str, uri: &str, name: &str, value: &str| LocalCall {
        request_id: "r".into(),
        method: method.into(),
        uri: uri.into(),
        headers: vec![
            Header { name: "X-A".into(), value: "1".into() },
            Header { name: name.into(), value: value.into() },
        ],
    };
    let request = do_forward(&call("PATCH", &uri_of(3000, "/a?b=c"), "x-a", "2")).unwrap();
    assert_eq!(request.method, http::Method::PATCH);
    assert_eq!(request.uri.to_string(), "http://127.0.0.1:3000/a?b=c");
    let values: Vec<_> = request.headers.get_all("x-a").iter().collect();
    assert_eq!(values, ["1", "2"]);
    assert!(do_forward(&call("GE T", "http://127.0.0.1:1/", "a", "b")).is_none());
    assert!(do_forward(&call("", "http://127.0.0.1:1/", "a", "b")).is_none());
    assert!(do_forward(&call("GET", "http://127.0.0.1:1/ x", "a", "b")).is_none());
    assert!(do_forward(&call("GET", "http://127.0.0.1:1/", "a b", "c")).is_none());
    assert!(do_forward(&call("GET", "http://127.0.0.1:1/", "a", "b\n")).is_none());
    assert_eq!(uri_of(3000, "/a?b=c"), "http://127.0.0.1:3000/a?b=c");
}

// ── The tunnel ────────────────────────────────────────────────────────────────

type Loop = Dispatcher<Sender<Vec<u8>>, Sender<RawConnFrame>>;

fn request(id: &str, service: &str, body: &[u8], end_of_body: bool) -> RelayRequest {
    RelayRequest {
        request_id: id.to_string(),
        method: "POST".into(),
        path: "/p".into(),
        headers: vec![Header { name: "a".into(), value: "b".into() }],
        body_chunk: body.to_vec(),
        end_of_body,
        service_name: service.to_string(),
    }
}

fn message<B, C>(message: BrokerMessage) -> AgentEvent<B, C> {
    AgentEvent::Message(Some(message))
}

#[test]
fn requests_are_opened_and_fed() {
    let mut tunnel: Loop = Dispatcher::new(&[route("svc", 1), route("svc", 3000)]);
    let action = tunnel.step(message(BrokerMessage::Request(request("r", "svc", b"one", false))));
    let AgentAction::Open { call, first_chunk, end_of_body } = action else {
        panic!("a new request is opened");
    };
    assert_eq!(call.uri, "http://127.0.0.1:3000/p");
    assert_eq!((call.method.as_str(), call.headers.len()), ("POST", 1));
    assert_eq!(first_chunk.as_deref(), Some(&b"one"[..]));
    let (body, fed) = channel();
    let action = tunnel.step(AgentEvent::Opened {
        request_id: call.request_id,
        end_of_body,
        sent: true,
        body,
    });
    assert!(matches!(action, AgentAction::Start));

    let action = tunnel.step(message(BrokerMessage::Request(request("r", "svc", b"two", true))));
    let AgentAction::Feed { body, chunk, request_id, end_of_body } = action else {
        panic!("a further part is fed");
    };
    let sent = body.send(chunk).is_ok();
    assert_eq!(fed.recv().unwrap(), b"two");
    assert!(matches!(tunnel.step(AgentEvent::Fed { request_id, end_of_body, sent }), AgentAction::Read));
    // The request is over: the same name opens a new one.
    let action = tunnel.step(message(BrokerMessage::Request(request("r", "svc", b"", true))));
    assert!(matches!(action, AgentAction::Open { first_chunk: None, end_of_body: true, .. }));
}

#[test]
fn requests_end_with_an_empty_part_or_a_failure() {
    let mut tunnel: Loop = Dispatcher::new(&[route("svc", 3000)]);
    let open = |tunnel: &mut Loop, sent| {
        tunnel.step(AgentEvent::Opened {
            request_id: "r".into(),
            end_of_body: false,
            sent,
            body: channel().0,
        })
    };
    assert!(matches!(open(&mut tunnel, false), AgentAction::Read));
    let again = |tunnel: &mut Loop, body: &[u8], end| {
        tunnel.step(message(BrokerMessage::Request(request("r", "svc", body, end))))
    };
    assert!(matches!(again(&mut tunnel, b"x", false), AgentAction::Open { .. }));
    assert!(matches!(open(&mut tunnel, true), AgentAction::Start));
    assert!(matches!(again(&mut tunnel, b"", false), AgentAction::Read));
    assert!(matches!(again(&mut tunnel, b"", true), AgentAction::Read));
    assert!(matches!(again(&mut tunnel, b"x", false), AgentAction::Open { .. }));
    assert!(matches!(open(&mut tunnel, true), AgentAction::Start));
    let fed = AgentEvent::Fed { request_id: "r".into(), end_of_body: false, sent: false };
    assert!(matches!(tunnel.step(fed), AgentAction::Read));
    assert!(matches!(again(&mut tunnel, b"x", false), AgentAction::Open { .. }));
}

#[test]
fn frames_are_passed_to_their_connection() {
    let mut tunnel: Loop = Dispatcher::new(&[route("svc", 3000)]);
    let frame = |payload: &[u8], eof| BrokerMessage::Raw(open_frame("c", payload.to_vec(), eof));
    let action = tunnel.step(message(frame(b"a", false)));
    let AgentAction::Connect { frame: opening, local_port } = action else {
        panic!("a new connection is opened");
    };
    assert_eq!((opening.payload.as_slice(), local_port), (&b"a"[..], 3000));
    let (connection, frames) = channel();
    let connected = AgentEvent::Connected { connection_id: "c".into(), is_eof: false, connection };
    assert!(matches!(tunnel.step(connected), AgentAction::Start));
    for (payload, eof) in [(&b"b"[..], false), (b"", true)] {
        let AgentAction::Pass { connection, frame } = tunnel.step(message(frame(payload, eof))) else {
            panic!("the frame is passed on");
        };
        let sent = connection.send(frame).is_ok();
        let passed = AgentEvent::Passed { connection_id: "c".into(), is_eof: eof, sent };
        assert!(matches!(tunnel.step(passed), AgentAction::Read));
    }
    assert_eq!(frames.recv().unwrap().payload, b"b");
    assert!(frames.recv().unwrap().is_eof);
    assert!(matches!(tunnel.step(message(frame(b"", false))), AgentAction::Connect { .. }));
    // An opening frame that is the last one keeps nothing open.
    let connected =
        AgentEvent::Connected { connection_id: "c".into(), is_eof: true, connection: channel().0 };
    assert!(matches!(tunnel.step(connected), AgentAction::Start));
    assert!(matches!(tunnel.step(message(frame(b"", false))), AgentAction::Connect { .. }));
}

#[test]
fn what_has_no_route_is_dropped() {
    let mut tunnel: Loop = Dispatcher::new(&[]);
    let action = tunnel.step(message(BrokerMessage::Request(request("r", "x", b"", true))));
    assert!(matches!(action, AgentAction::NoRoute { service_name } if service_name == "x"));
    let action = tunnel.step(message(BrokerMessage::Raw(open_frame("c", vec![], false))));
    assert!(matches!(action, AgentAction::NoRoute { service_name } if service_name == "svc"));
    let ack = BrokerMessage::Ack(SessionAck { session_id: SESSION.into(), ttl: 1 });
    assert!(matches!(tunnel.step(message(ack)), AgentAction::Acknowledged));
    assert!(matches!(tunnel.step(AgentEvent::Message(None)), AgentAction::Read));
}

#[test]
fn agents_register_and_keep_alive() {
    let AgentMessage::Register(register) =
        register_message(&sid(), AuthMode::GcpOidc, &[route("a", 3000), route("b", 65535)])
    else {
        panic!("expected a registration");
    };
    assert_eq!((register.session_id.as_str(), register.auth_mode.as_str()), (SESSION, "gcp-oidc"));
    assert_eq!(register.routes[1].service_name, "b");
    assert_eq!(register.routes[1].local_port, 65535);
    assert!(matches!(
        heartbeat_message(&sid()),
        AgentMessage::Heartbeat(beat) if beat.session_id == SESSION
    ));
    assert_eq!(auth_metadata(AuthMode::SessionId, &Some("t".into())).unwrap(), None);
    assert_eq!(
        auth_metadata(AuthMode::SignedToken, &Some("t".into())).unwrap().as_deref(),
        Some("Bearer t")
    );
    assert_eq!(
        auth_metadata(AuthMode::GcpOidc, &None).unwrap_err(),
        "missing auth token for gcp-oidc"
    );
    assert_eq!(
        auth_metadata(AuthMode::SignedToken, &Some("a\nb".into())).unwrap_err(),
        "failed to parse metadata value"
    );
    assert!(needs_tls("https://b"));
    assert!(!needs_tls("http://b"));
}

#[test]
fn broken_tunnels_are_opened_again() {
    let (state, status) = run_start();
    assert_eq!(status, TunnelStatus::Connecting);
    let (state, statuses, action) = run(state, RunEvent::Ended { in_order: false });
    assert_eq!(statuses, vec![TunnelStatus::Reconnecting]);
    assert!(matches!(action, RunAction::Pause { secs: 3 }));
    let (state, statuses, action) = run(state, RunEvent::Slept);
    assert_eq!(statuses, vec![TunnelStatus::Connecting]);
    assert!(matches!(action, RunAction::Connect));
    assert!(matches!(state, RunState::Connecting { delay: 6, shutdown: false }));
    let (state, statuses, action) = run(state, RunEvent::Ended { in_order: false });
    assert_eq!(statuses, vec![TunnelStatus::Reconnecting, TunnelStatus::Stopped]);
    assert!(matches!((state, action), (RunState::Stopped, RunAction::Stop)));

    let (state, _) = run_start();
    let (_, statuses, action) = run(state, RunEvent::Ended { in_order: true });
    assert_eq!(statuses, vec![TunnelStatus::Stopped]);
    assert!(matches!(action, RunAction::Stop));
    let (_, statuses, _) = run(RunState::Pausing { delay: 3 }, RunEvent::Shutdown);
    assert_eq!(statuses, vec![TunnelStatus::Stopped]);
}

#[test]
fn waits_double_up_to_a_minute() {
    let next = |delay| match run(RunState::Pausing { delay }, RunEvent::Slept) {
        (RunState::Connecting { delay, .. }, _, _) => delay,
        _ => panic!("the tunnel is opened again"),
    };
    assert_eq!(next(3), 6);
    assert_eq!(next(30), 60);
    assert_eq!(next(31), 60);
    assert_eq!(next(60), 60);
}

// ── SOCKS5 ────────────────────────────────────────────────────────────────────

fn feed(state: SocksState, bytes: &[u8]) -> (SocksState, SocksAction) {
    handle(state, SocksEvent::Bytes(bytes.to_vec()), &sid())
}

fn awaits(action: SocksAction) -> (Vec<u8>, usize) {
    match action {
        SocksAction::Exchange { write, read } => (write, read),
        _ => panic!("the session goes on"),
    }
}

fn reason(action: SocksAction) -> (Vec<u8>, String) {
    match action {
        SocksAction::Fail { write, reason } => (write, reason),
        _ => panic!("the session fails"),
    }
}

#[test]
fn socks_sessions_connect_by_name() {
    let (state, action) = socks_start();
    assert_eq!(awaits(action), (vec![], 2));
    let (state, action) = feed(state, &[5, 2]);
    assert_eq!(awaits(action), (vec![], 2));
    let (state, action) = feed(state, &[0, 1]);
    assert_eq!(awaits(action), (vec![5, 0], 4));
    let (state, action) = feed(state, &[5, 1, 0, 3]);
    assert_eq!(awaits(action), (vec![], 1));
    let (state, action) = feed(state, &[11]);
    assert_eq!(awaits(action), (vec![], 11));
    let (state, action) = feed(state, b"db.internal");
    assert_eq!(awaits(action), (vec![], 2));
    let (state, action) = feed(state, &[0x15, 0x38]);
    let SocksAction::Connect(OutboundClientMsg::Connect(connect)) = action else {
        panic!("the broker is asked");
    };
    assert_eq!((connect.session_id.as_str(), connect.host.as_str(), connect.port), (SESSION, "db.internal", 5432));

    let ack = OutboundServerMsg::Ack(OutboundConnectAck { success: true, error: String::new() });
    let (state, action) = handle(state, SocksEvent::Message(Some(ack)), &sid());
    let SocksAction::Bridge(reply) = action else {
        panic!("the connection stands");
    };
    assert_eq!(reply, vec![5, 0, 0, 1, 0, 0, 0, 0, 0, 0]);
    let data = SocksEvent::Message(Some(OutboundServerMsg::Data(vec![7])));
    let (state, action) = handle(state, data, &sid());
    assert!(matches!(action, SocksAction::Write(bytes) if bytes == vec![7]));
    let (state, action) = handle(state, SocksEvent::Written(true), &sid());
    assert!(matches!(action, SocksAction::Receive));
    let (state, action) =
        handle(state, SocksEvent::Message(Some(OutboundServerMsg::Fin(false))), &sid());
    assert!(matches!(action, SocksAction::Receive));
    let (_, action) = handle(state, SocksEvent::Message(Some(OutboundServerMsg::Fin(true))), &sid());
    assert!(matches!(action, SocksAction::Stop));
}

#[test]
fn socks_sessions_connect_by_address() {
    let (state, action) = feed(SocksState::Request, &[5, 1, 0, 1]);
    assert_eq!(awaits(action), (vec![], 4));
    let (state, _) = feed(state, &[10, 0, 200, 1]);
    assert!(matches!(state, SocksState::Port { host } if host == "10.0.200.1"));
    assert_eq!(dotted_text(&[255, 0, 1, 20]), "255.0.1.20");

    let (state, action) = feed(SocksState::Request, &[5, 1, 0, 4]);
    assert_eq!(awaits(action), (vec![], 16));
    let (state, action) = feed(state, &[1; 16]);
    assert!(matches!(action, SocksAction::FormatV6(ip) if ip == vec![1; 16]));
    let (state, action) = handle(state, SocksEvent::Text("101::1".into()), &sid());
    assert_eq!(awaits(action), (vec![], 2));
    assert!(matches!(state, SocksState::Port { host } if host == "101::1"));
}

#[test]
fn socks_sessions_fail_for_a_reason() {
    assert_eq!(reason(feed(SocksState::Greeting, &[4, 1]).1), (vec![], "not SOCKS5".to_string()));
    for request in [[4, 1, 0, 1], [5, 2, 0, 1]] {
        assert_eq!(
            reason(feed(SocksState::Request, &request).1).1,
            "only SOCKS5 CONNECT supported"
        );
    }
    assert_eq!(reason(feed(SocksState::Request, &[5, 1, 0, 2]).1).1, "unsupported ATYP");
    assert_eq!(
        reason(feed(SocksState::Name { len: 1 }, &[0xff]).1).1,
        "invalid utf-8 sequence of 1 bytes from index 0"
    );
    let refused = OutboundServerMsg::Ack(OutboundConnectAck { success: false, error: "no".into() });
    let (_, action) = handle(SocksState::Connecting, SocksEvent::Message(Some(refused)), &sid());
    assert_eq!(
        reason(action),
        (vec![5, 5, 0, 1, 0, 0, 0, 0, 0, 0], "broker refused connection: no".to_string())
    );
    let early = SocksEvent::Message(Some(OutboundServerMsg::Data(vec![])));
    assert_eq!(
        reason(handle(SocksState::Connecting, early, &sid()).1).1,
        "unexpected first message from broker"
    );
    assert_eq!(
        reason(handle(SocksState::Connecting, SocksEvent::Message(None), &sid()).1).1,
        "unexpected first message from broker"
    );
    assert_eq!(
        reason(handle(SocksState::Connecting, SocksEvent::Ended, &sid()).1).1,
        "broker closed stream before ack"
    );
    for over in [SocksEvent::Ended, SocksEvent::Message(None), SocksEvent::Written(false)] {
        let (_, action) = handle(SocksState::Bridging, over, &sid());
        assert!(matches!(action, SocksAction::Stop));
    }
}

#[test]
fn what_a_client_says_goes_to_the_broker() {
    assert!(matches!(
        socks_read(Some(vec![1])),
        (OutboundClientMsg::Data(bytes), false) if bytes == vec![1]
    ));
    assert!(matches!(socks_read(Some(vec![])), (OutboundClientMsg::Fin(true), true)));
    assert!(matches!(socks_read(None), (OutboundClientMsg::Fin(true), true)));
}

// The layer and the agent speak the same SOCKS5.
#[test]
fn requests_of_the_layer_are_understood() {
    let host = detour::layer::connect::SocksHost::Name("db.internal".into());
    let bytes = detour::layer::connect::socks5_request(&host, 5432);
    let mut state = SocksState::Request;
    let mut rest = &bytes[..];
    let mut read = 4;
    loop {
        let (next, action) = feed(state, &rest[..read]);
        rest = &rest[read..];
        match action {
            SocksAction::Exchange { write, read: more } => {
                assert!(write.is_empty());
                state = next;
                read = more;
            }
            SocksAction::Connect(OutboundClientMsg::Connect(connect)) => {
                assert_eq!((connect.host.as_str(), connect.port), ("db.internal", 5432));
                assert!(rest.is_empty());
                break;
            }
            _ => panic!("the request is complete"),
        }
    }
}

// ── Status ────────────────────────────────────────────────────────────────────

#[test]
fn the_worst_status_counts() {
    assert_eq!(overall(&[]), TunnelStatus::Stopped);
    assert_eq!(overall(&[TunnelStatus::Connected]), TunnelStatus::Connected);
    assert_eq!(
        overall(&[TunnelStatus::Connecting, TunnelStatus::Connected, TunnelStatus::Reconnecting]),
        TunnelStatus::Connecting
    );
    let error = |m: &str| TunnelStatus::Error(m.to_string());
    assert_eq!(overall(&[error("a"), error("b"), TunnelStatus::Connecting]), error("b"));
    assert_eq!(overall(&[error("a"), TunnelStatus::Stopped]), TunnelStatus::Stopped);
    assert_eq!(status_label(&error("a")), "error");
}

fn config(routes: Vec<ServiceRoute>) -> AgentConfig {
    AgentConfig {
        broker_url: "http://b".into(),
        routes,
        auth_mode: AuthMode::SessionId,
        auth_token: None,
        socks5_port: 1081,
    }
}

#[test]
fn agents_need_routes_and_share_one_session() {
    let err = match AgentHandle::start(&config(vec![])) {
        Err(err) => err,
        Ok(_) => panic!("there are no routes"),
    };
    assert_eq!(err.to_string(), "config error: no routes specified");
    let agent = match AgentHandle::start(&config(vec![route("a", 1), route("b", 2)])) {
        Ok(agent) => agent,
        Err(_) => panic!("there are routes"),
    };
    let sessions = agent.sessions();
    assert_eq!(sessions.len(), 2);
    assert_eq!(sessions[0].0, "a");
    assert_eq!(sessions[0].1, sessions[1].1);
    assert_eq!(sessions[0].1.as_str(), agent.session_id().as_str());
    assert_eq!(agent.status(&[TunnelStatus::Connected]), TunnelStatus::Connected);
}

fn text_of<'a>(json: &'a Json, name: &str) -> &'a str {
    json.get_str(name).unwrap()
}

#[test]
fn the_status_endpoint_lists_every_route() {
    let agent = match AgentHandle::start(&config(vec![route("a", 1), route("b", 2)])) {
        Ok(agent) => agent,
        Err(_) => panic!("there are routes"),
    };
    let body = status_handler(&agent.entries(&TunnelStatus::Connected), "http://b");
    assert_eq!(text_of(&body, "version"), "1");
    assert_eq!(text_of(&body, "status"), "connected");
    assert_eq!(text_of(&body, "broker_url"), "http://b");
    let sessions = body.get("sessions").unwrap().as_array().unwrap();
    assert_eq!(sessions.len(), 2);
    assert_eq!(text_of(&sessions[1], "service"), "b");
    assert_eq!(text_of(&sessions[1], "session_id"), agent.session_id().as_str());
    assert!(matches!(sessions[1].get("port"), Some(Json::Number(Some(2)))));
    assert_eq!(text_of(&status_handler(&[], "x"), "status"), "stopped");
}

#[test]
fn status_ports_are_tried_in_turn() {
    assert_eq!(status_port(0), Some(29876));
    assert_eq!(status_port(9), Some(29885));
    assert_eq!(status_port(10), None);
    assert_eq!(chrono_now(42), "42Z");
    assert!(port_event(29876, 1).is_none());
    let event = port_event(29877, 1).unwrap();
    assert_eq!(text_of(&event, "event"), "status_port");
    assert_eq!(text_of(&event, "ts"), "1Z");
    assert!(matches!(event.get("status_port"), Some(Json::Number(Some(29877)))));
}
