use detour::model::frames::{frame_of_read, opening_frame, raw_frame};
use detour::model::session::{AuthMode, ServiceSession, SessionId};
use detour::model::wire::LookupResponse;
use detour::sidecar::cache::SessionCache;
use detour::sidecar::h2::{
    decode_int, decode_str, first_headers_block, h2_room_left, hpack_find, preface, read_h2_route,
    H2Route,
};
use detour::sidecar::inspector::{CachedResolver, Resolution};
use detour::sidecar::proxy::{handle_conn, handle_h2, ConnPlan, Destination, ProxyState};
use detour::sidecar::raw::{
    is_upgrade, normalize_upstream, parse_head, relay_raw, sniff_head, sniff_room_left, RelayAction,
    RelayEvent, RelayState, Sniff,
};
use http::header::{HeaderMap, HeaderValue};

const SESSION: &str = "11111111-1111-4111-8111-111111111111";

fn sniffed(bytes: &[u8]) -> Sniff {
    sniff_head(bytes, true).expect("decided at the end of the stream")
}

fn header<'a>(headers: &'a HeaderMap<HeaderValue>, name: &str) -> &'a str {
    headers.get(name).unwrap().to_str().unwrap()
}

// ── Sniffing ──────────────────────────────────────────────────────────────────

#[test]
fn sniff_head_parses_request_line_headers_and_leftover() {
    let bytes = b"GET /foo?x=1 HTTP/1.1\r\nHost: svc\r\nX-Route-To: abc-123\r\n\r\nBODYBYTES";
    let Sniff::Http1 { head, rest } = sniffed(bytes) else {
        panic!("expected a parsed HTTP/1 head");
    };
    assert_eq!(head.method, "GET");
    assert_eq!(head.path, "/foo?x=1");
    assert_eq!(header(&head.headers, "x-route-to"), "abc-123");
    assert_eq!(header(&head.headers, "host"), "svc");
    assert_eq!(rest, b"BODYBYTES");
    assert!(head.raw.ends_with(b"\r\n\r\n"));
    assert!(head.raw.starts_with(b"GET /foo?x=1 HTTP/1.1"));
}

#[test]
fn sniff_head_non_http_returns_raw_bytes() {
    let Sniff::Raw { buffered } = sniffed(b"not http, no head terminator") else {
        panic!("expected the raw fallback");
    };
    assert_eq!(buffered, b"not http, no head terminator");
}

#[test]
fn sniff_head_websocket_upgrade_is_parsed_then_left_raw() {
    let bytes = b"GET /ws HTTP/1.1\r\nHost: svc\r\nUpgrade: websocket\r\nConnection: Upgrade\r\n\r\n\x81\x05hello";
    let Sniff::Http1 { head, rest } = sniffed(bytes) else {
        panic!("expected a parsed HTTP/1 head");
    };
    assert_eq!(header(&head.headers, "upgrade"), "websocket");
    assert_eq!(rest, b"\x81\x05hello");
    assert!(is_upgrade(&head.headers));
}

#[test]
fn sniff_head_asks_for_more_until_the_head_ends() {
    assert!(sniff_head(b"", false).is_none());
    assert!(sniff_head(b"GET / HTTP/1.1\r\nHost", false).is_none());
    assert!(sniff_head(b"PRI * HTT", false).is_none());
    let Some(Sniff::Raw { buffered }) = sniff_head(b"PRI * HTT", true) else {
        panic!("a broken preface is raw");
    };
    assert_eq!(buffered, b"PRI * HTT");
    let Some(Sniff::Raw { buffered }) = sniff_head(b"", true) else {
        panic!("nothing is raw");
    };
    assert!(buffered.is_empty());
}

#[test]
fn sniff_head_gives_up_on_an_endless_head() {
    let almost = vec![b'a'; 65535];
    assert!(sniff_head(&almost, false).is_none());
    let full = vec![b'a'; 65536];
    assert!(matches!(sniff_head(&full, false), Some(Sniff::Raw { .. })));
}

#[test]
fn sniff_head_leaves_unparseable_heads_raw() {
    let Sniff::Raw { buffered } = sniffed(b"GET\r\nHost: svc\r\n\r\nrest") else {
        panic!("no path");
    };
    assert_eq!(buffered, b"GET\r\nHost: svc\r\n\r\nrest");
    assert!(matches!(sniffed(b"\xff\xfe /x HTTP/1.1\r\n\r\n"), Sniff::Raw { .. }));
}

#[test]
fn sniffing_in_pieces_gives_the_same_head() {
    let bytes = b"GET /a HTTP/1.1\r\nHost: svc\r\n\r\ntail";
    let first = sniff_head(&bytes[..31], false).expect("the head is complete");
    let Sniff::Http1 { head, rest } = first else {
        panic!("expected a parsed HTTP/1 head");
    };
    assert_eq!(rest, b"t");
    let Sniff::Http1 { head: whole, rest: tail } = sniffed(bytes) else {
        panic!("expected a parsed HTTP/1 head");
    };
    assert_eq!(head.raw, whole.raw);
    assert_eq!(tail, b"tail");
}

#[test]
fn parse_head_keeps_repeated_headers_and_skips_broken_ones() {
    let head = parse_head(
        b"POST  /p   HTTP/1.1\r\nA: 1\r\nno colon\r\nbad name: x\r\nA:  2 \r\n: y\r\nB: a:b\r\n\r\nC: no\r\n",
    )
    .unwrap();
    assert_eq!(head.method, "POST");
    assert_eq!(head.path, "/p");
    let values: Vec<&str> = head.headers.get_all("a").iter().map(|v| v.to_str().unwrap()).collect();
    assert_eq!(values, vec!["1", "2"]);
    assert_eq!(header(&head.headers, "b"), "a:b");
    assert!(head.headers.get("c").is_none());
    assert_eq!(head.headers.len(), 3);
}

#[test]
fn parse_head_takes_many_headers() {
    let mut text = String::from("GET / HTTP/1.1\r\n");
    for i in 0..6554 {
        text.push_str(&format!("h{i}: {i}\r\n"));
    }
    text.push_str("\r\n");
    let head = parse_head(text.as_bytes()).unwrap();
    assert_eq!(head.headers.len(), 6554);
    assert_eq!(header(&head.headers, "h6553"), "6553");
}

#[test]
fn is_upgrade_detects_websocket_and_ignores_plain_requests() {
    let mut ws = HeaderMap::new();
    ws.insert(http::header::CONNECTION, "Upgrade".parse().unwrap());
    ws.insert(http::header::UPGRADE, "websocket".parse().unwrap());
    assert!(is_upgrade(&ws));

    let mut ws2 = HeaderMap::new();
    ws2.insert(http::header::CONNECTION, "keep-alive, Upgrade".parse().unwrap());
    ws2.insert(http::header::UPGRADE, "h2c".parse().unwrap());
    assert!(is_upgrade(&ws2));

    let mut partial = HeaderMap::new();
    partial.insert(http::header::CONNECTION, "Upgrade".parse().unwrap());
    assert!(!is_upgrade(&partial));

    let mut plain = HeaderMap::new();
    plain.insert(http::header::CONNECTION, "keep-alive".parse().unwrap());
    assert!(!is_upgrade(&plain));
}

#[test]
fn is_upgrade_ignores_values_that_are_not_text() {
    let mut odd = HeaderMap::new();
    odd.insert(http::header::CONNECTION, HeaderValue::from_bytes(b"upgrade\xff").unwrap());
    odd.insert(http::header::UPGRADE, "websocket".parse().unwrap());
    assert!(!is_upgrade(&odd));
}

#[test]
fn upstream_addresses_lose_scheme_and_slashes() {
    assert_eq!(normalize_upstream("http://localhost:8080//"), "localhost:8080");
    assert_eq!(normalize_upstream("https://app:1/"), "app:1");
    assert_eq!(normalize_upstream("localhost:8080"), "localhost:8080");
    assert_eq!(normalize_upstream("http://https://x"), "x");
    assert_eq!(normalize_upstream("https://http://x"), "http://x");
}

// ── HTTP/2 ────────────────────────────────────────────────────────────────────

fn h2_headers_frame(name: &str, value: &str) -> Vec<u8> {
    let mut block = vec![0x00u8];
    block.push(name.len() as u8);
    block.extend_from_slice(name.as_bytes());
    block.push(value.len() as u8);
    block.extend_from_slice(value.as_bytes());

    let len = block.len();
    let mut frame = vec![
        (len >> 16) as u8,
        (len >> 8) as u8,
        len as u8,
        0x01,
        0x05,
        0x00,
        0x00,
        0x00,
        0x01,
    ];
    frame.extend_from_slice(&block);
    frame
}

fn h2_settings_frame() -> Vec<u8> {
    vec![0x00, 0x00, 0x00, 0x04, 0x00, 0x00, 0x00, 0x00, 0x00]
}

#[test]
fn sniff_head_detects_http2_preface() {
    let mut bytes = preface();
    bytes.extend_from_slice(&h2_settings_frame());
    let Sniff::Http2 { buffered } = sniffed(&bytes) else {
        panic!("expected HTTP/2");
    };
    assert!(buffered.starts_with(b"PRI * HTTP/2.0\r\n\r\nSM\r\n\r\n"));
    assert_eq!(buffered, bytes);
}

#[test]
fn hpack_find_extracts_literal_header() {
    let frame = h2_headers_frame("x-route-to", "sess-uuid");
    let block = first_headers_block(&frame).expect("headers block");
    assert_eq!(hpack_find(block, "x-route-to").as_deref(), Some("sess-uuid"));
    assert_eq!(hpack_find(block, "missing"), None);
}

#[test]
fn read_h2_route_extracts_route_from_first_headers_frame() {
    let mut bytes = preface();
    bytes.extend_from_slice(&h2_settings_frame());
    bytes.extend_from_slice(&h2_headers_frame("x-route-to", "the-session"));

    let Sniff::Http2 { buffered } = sniffed(&bytes) else {
        panic!("expected HTTP/2");
    };
    let H2Route::Done { route, buffered: consumed } = read_h2_route(buffered, true) else {
        panic!("expected a decision");
    };
    assert_eq!(route.as_deref(), Some("the-session"));
    assert!(consumed.starts_with(&preface()));
    assert_eq!(consumed, bytes);
}

#[test]
fn read_h2_route_waits_for_a_whole_frame_and_gives_up_in_the_end() {
    let mut bytes = preface();
    let frame = h2_headers_frame("x-route-to", "s");
    bytes.extend_from_slice(&frame[..frame.len() - 1]);
    let H2Route::More { buffered } = read_h2_route(bytes.clone(), false) else {
        panic!("the frame is not complete");
    };
    assert_eq!(buffered, bytes);
    let H2Route::Done { route, buffered } = read_h2_route(bytes.clone(), true) else {
        panic!("the stream is over");
    };
    assert_eq!(route, None);
    assert_eq!(buffered, bytes);

    let mut long = preface();
    long.extend_from_slice(&[0, 0xff, 0xff, 0x04, 0, 0, 0, 0, 0]);
    long.resize(32768, 0);
    assert!(matches!(read_h2_route(long, false), H2Route::Done { route: None, .. }));
}

#[test]
fn headers_frames_lose_padding_and_priority() {
    let frame = [0, 0, 11, 1, 0x28, 0, 0, 0, 1, 2, 9, 9, 9, 9, 9, 0xaa, 0xbb, 0xcc, 0, 0];
    assert_eq!(first_headers_block(&frame), Some(&[0xaau8, 0xbb, 0xcc][..]));
    let too_much = [0, 0, 1, 1, 0x08, 0, 0, 0, 1, 1];
    assert_eq!(first_headers_block(&too_much), None);
    let short = [0, 0, 4, 1, 0x20, 0, 0, 0, 1, 1, 2, 3, 4];
    assert_eq!(first_headers_block(&short), None);
}

#[test]
fn hpack_find_returns_none_for_huffman_value() {
    let mut block = vec![0x00u8, "x-route-to".len() as u8];
    block.extend_from_slice(b"x-route-to");
    block.push(0x80 | 3);
    block.extend_from_slice(&[0xaa, 0xbb, 0xcc]);
    assert_eq!(hpack_find(&block, "x-route-to"), None);
}

#[test]
fn hpack_find_passes_over_indexed_fields_and_size_updates() {
    let mut block = vec![0x82u8, 0x86, 0x3f, 0x81, 0x00, 0x41, 0x01, b'a'];
    block.extend_from_slice(&[0x40, 10]);
    block.extend_from_slice(b"x-route-to");
    block.extend_from_slice(&[2, b'i', b'd']);
    assert_eq!(hpack_find(&block, "x-route-to").as_deref(), Some("id"));
    block.insert(0, 0xff);
    assert_eq!(hpack_find(&block[..1], "x-route-to"), None);
}

#[test]
fn reads_keep_to_the_room_that_is_left() {
    let mut buf = vec![b'a'; 65535];
    assert_eq!(sniff_room_left(&[]), 65536);
    assert!(sniff_head(&buf, false).is_none());
    assert_eq!(sniff_room_left(&buf), 1);
    buf.push(b'a');
    assert_eq!(sniff_room_left(&buf), 0);
    assert!(
        matches!(sniff_head(&buf, false), Some(Sniff::Raw { buffered }) if buffered.len() == 65536)
    );
    buf.push(b'a');
    assert_eq!(sniff_room_left(&buf), 0);

    let mut h2 = preface();
    assert_eq!(h2_room_left(&h2), 32768 - 24);
    h2.resize(32768, 0);
    assert_eq!(h2_room_left(&h2), 0);
    h2.push(0);
    assert_eq!(h2_room_left(&h2), 0);
}

#[test]
fn hpack_integers_and_strings_are_exact() {
    assert_eq!(decode_int(&[10], 0, 5), Some((10, 1)));
    assert_eq!(decode_int(&[0x1f, 0x9a, 0x0a], 0, 5), Some((1337, 3)));
    assert_eq!(decode_int(&[0xff, 0x00], 0, 7), Some((127, 2)));
    assert_eq!(decode_int(&[0x7f, 0xff, 0xff, 0xff, 0xff, 0x0f], 0, 7), None);
    assert_eq!(decode_int(&[0x7f, 0x80, 0x80, 0x80, 0x80, 0x80], 0, 7), None);
    assert_eq!(decode_int(&[0x7f, 0x80], 0, 7), None);
    assert_eq!(decode_int(&[1], 1, 7), None);
    // Of 32 bits the largest number fits, and none above it.
    assert_eq!(
        decode_int(&[0x1f, 0xe0, 0xff, 0xff, 0xff, 0x0f], 0, 5),
        Some((u32::MAX as usize, 6))
    );
    assert_eq!(decode_int(&[0x1f, 0xe1, 0xff, 0xff, 0xff, 0x0f], 0, 5), None);
    assert_eq!(decode_int(&[0x1f, 0x80, 0x80, 0x80, 0x80, 0x10], 0, 5), None);
    assert_eq!(decode_str(&[2, b'h', b'i', b'!'], 0), Some(("hi".to_string(), 3)));
    assert_eq!(decode_str(&[2, b'h'], 0), None);
    assert_eq!(decode_str(&[1, 0xff], 0), None);
}

// ── Sessions ──────────────────────────────────────────────────────────────────

fn session(id: &str, service: &str) -> ServiceSession {
    ServiceSession {
        session_id: SessionId::from_string(id.to_string()).unwrap(),
        connection_id: String::new(),
        broker_instance: String::new(),
        service_name: service.to_string(),
        auth_mode: AuthMode::SessionId,
        registered_at: 0,
        last_heartbeat: 0,
        allowed_services: vec![],
    }
}

#[test]
fn cached_sessions_hold_for_their_time() {
    let id = SessionId::from_string(SESSION.to_string()).unwrap();
    let mut cache = SessionCache::new(30);
    assert!(cache.get(&id, 0).is_none());
    cache.insert(session(SESSION, "svc"), 5);
    let almost = 5 + 30_000_000_000 - 1;
    assert_eq!(cache.get(&id, almost).unwrap().service_name, "svc");
    assert_eq!(cache.get(&id, 0).unwrap().service_name, "svc");
    assert!(cache.get(&id, almost + 1).is_none());
    // It was dropped, and stays so.
    assert!(cache.get(&id, 0).is_none());
}

#[test]
fn a_cache_without_time_holds_nothing() {
    let id = SessionId::from_string(SESSION.to_string()).unwrap();
    let mut cache = SessionCache::new(0);
    cache.insert(session(SESSION, "svc"), 7);
    assert!(cache.get(&id, 7).is_none());
}

fn routed(value: &str) -> HeaderMap<HeaderValue> {
    let mut headers = HeaderMap::new();
    headers.insert("x-route-to", value.parse().unwrap());
    headers
}

fn reply(found: bool, service: &str) -> LookupResponse {
    LookupResponse {
        found,
        auth_mode: "signed-token".to_string(),
        service_name: service.to_string(),
    }
}

#[test]
fn resolving_asks_the_broker_once() {
    let mut resolver = CachedResolver::new(SessionCache::new(30), "svc".to_string());
    let upper = "ABCDEF00-1111-4111-8111-111111111111";
    let Resolution::Ask { session_id, request } = resolver.resolve(&routed(upper), 0) else {
        panic!("nothing is known yet");
    };
    assert_eq!(request.session_id, upper.to_lowercase());
    assert_eq!(request.service_name, "svc");
    let record = resolver.resolved(&session_id, Some(reply(true, "svc")), 10).unwrap();
    assert_eq!(record.auth_mode, AuthMode::SignedToken);
    assert_eq!(record.session_id.as_str(), upper.to_lowercase());
    let Resolution::Route(again) = resolver.resolve(&routed(upper), 20) else {
        panic!("the session is known");
    };
    assert_eq!(again.service_name, "svc");
    assert!(matches!(
        resolver.resolve(&routed(upper), 10 + 30_000_000_000),
        Resolution::Ask { .. }
    ));
}

#[test]
fn requests_without_a_session_pass_through() {
    let mut resolver = CachedResolver::new(SessionCache::new(30), String::new());
    assert!(matches!(resolver.resolve(&HeaderMap::new(), 0), Resolution::PassThrough));
    assert!(matches!(resolver.resolve(&routed("abc-123"), 0), Resolution::PassThrough));
    let mut odd = HeaderMap::new();
    odd.insert("x-route-to", HeaderValue::from_bytes(b"\xff").unwrap());
    assert!(matches!(resolver.resolve(&odd, 0), Resolution::PassThrough));
}

#[test]
fn sessions_of_other_services_pass_through() {
    let mut resolver = CachedResolver::new(SessionCache::new(30), "payments-api".to_string());
    let Resolution::Ask { session_id, .. } = resolver.resolve(&routed(SESSION), 0) else {
        panic!("nothing is known yet");
    };
    assert!(resolver.resolved(&session_id, Some(reply(true, "user-api")), 0).is_none());
    assert!(resolver.resolved(&session_id, Some(reply(false, "payments-api")), 0).is_none());
    assert!(resolver.resolved(&session_id, None, 0).is_none());
    resolver.cache.insert(session(SESSION, "user-api"), 0);
    assert!(matches!(resolver.resolve(&routed(SESSION), 1), Resolution::PassThrough));

    let mut open = CachedResolver::new(SessionCache::new(30), String::new());
    assert!(open.resolved(&session_id, Some(reply(true, "user-api")), 0).is_some());
}

// ── Connections ───────────────────────────────────────────────────────────────

fn state() -> ProxyState {
    ProxyState {
        app_upstream: "http://localhost:8080/".to_string(),
        service_name: "svc".to_string(),
        log_routed: true,
    }
}

#[test]
fn health_checks_are_answered() {
    let ConnPlan::Answer { response } = handle_conn(sniffed(b"GET /healthz HTTP/1.1\r\n\r\n")) else {
        panic!("expected an answer");
    };
    assert_eq!(
        response,
        b"HTTP/1.1 200 OK\r\nContent-Type: text/plain\r\nContent-Length: 2\r\nConnection: close\r\n\r\nok"
    );
}

#[test]
fn connections_replay_what_was_read() {
    let bytes = b"GET /x HTTP/1.1\r\nX-Route-To: 11111111-1111-4111-8111-111111111111\r\n\r\nbody";
    let ConnPlan::Resolve { headers, method, path, upgrade, initial } = handle_conn(sniffed(bytes))
    else {
        panic!("expected to look for a session");
    };
    assert_eq!(initial, bytes);
    assert_eq!((method.as_str(), path.as_str(), upgrade), ("GET", "/x", false));
    let mut resolver = CachedResolver::new(SessionCache::new(30), "svc".to_string());
    assert!(matches!(resolver.resolve(&headers, 0), Resolution::Ask { .. }));

    let Destination::Relay { opening, log } =
        state().route_or_splice(Some(session(SESSION, "svc")), initial)
    else {
        panic!("a session was found");
    };
    assert!(log);
    assert_eq!(opening.payload, bytes);
    assert_eq!(opening.session_id, SESSION);
    assert_eq!(opening.service_name, "svc");
    assert!(!opening.is_eof);
    assert!(SessionId::from_string(opening.connection_id).is_ok());

    let Destination::Splice { address, initial } = state().route_or_splice(None, bytes.to_vec())
    else {
        panic!("no session was found");
    };
    assert_eq!(address, "localhost:8080");
    assert_eq!(initial, bytes);
}

#[test]
fn http2_routes_become_headers() {
    let ConnPlan::Resolve { headers, method, path, upgrade, initial } =
        handle_h2(Some(SESSION.to_string()), b"bytes".to_vec())
    else {
        panic!("expected to look for a session");
    };
    assert_eq!(header(&headers, "x-route-to"), SESSION);
    assert_eq!((method.as_str(), path.as_str(), upgrade), ("HTTP/2", "*", false));
    assert_eq!(initial, b"bytes");

    let ConnPlan::Resolve { headers, .. } = handle_h2(Some("a\nb".to_string()), vec![]) else {
        panic!("expected to look for a session");
    };
    assert!(headers.is_empty());
    assert!(matches!(
        handle_conn(Sniff::Http2 { buffered: vec![1] }),
        ConnPlan::ReadH2 { buffered } if buffered == vec![1]
    ));
    assert!(matches!(
        handle_conn(Sniff::Raw { buffered: vec![2] }),
        ConnPlan::Splice { initial } if initial == vec![2]
    ));
}

#[test]
fn frames_carry_every_byte_that_was_read() {
    let opening = opening_frame(SESSION, "c1", "svc", b"head".to_vec());
    let (first, first_done) = frame_of_read("c1", Some(b"ab"));
    let (second, _) = frame_of_read("c1", Some(b"c"));
    let (last, last_done) = frame_of_read("c1", Some(b""));
    let (broken, broken_done) = frame_of_read("c1", None);
    assert_eq!((first_done, last_done, broken_done), (false, true, true));
    assert!(last.is_eof && broken.is_eof && !first.is_eof);
    let mut written = Vec::new();
    let mut state = RelayState::Receiving;
    for frame in [opening, first, second] {
        assert_eq!(frame.connection_id, "c1");
        let (writing, action) = relay_raw(state, RelayEvent::Frame(frame));
        let RelayAction::Write(bytes) = action else {
            panic!("the payload is written");
        };
        written.extend(bytes);
        let (next, action) = relay_raw(writing, RelayEvent::Written(true));
        assert!(matches!(action, RelayAction::Receive));
        state = next;
    }
    assert_eq!(written, b"headabc");
    let (state, action) = relay_raw(state, RelayEvent::Frame(last));
    assert!(matches!((state, action), (RelayState::Closed, RelayAction::ShutDown)));
}

#[test]
fn relaying_back_ends_for_a_reason() {
    let (state, action) =
        relay_raw(RelayState::Receiving, RelayEvent::Frame(raw_frame("c1", b"x".to_vec(), true)));
    assert!(matches!(action, RelayAction::Write(bytes) if bytes == b"x"));
    let (_, action) = relay_raw(state, RelayEvent::Written(true));
    assert!(matches!(action, RelayAction::ShutDown));
    let (_, action) = relay_raw(RelayState::Writing { is_eof: true }, RelayEvent::Written(false));
    assert!(matches!(action, RelayAction::Stop));
    let (_, action) = relay_raw(RelayState::Receiving, RelayEvent::NoMoreFrames);
    assert!(matches!(action, RelayAction::Stop));
    let keep_alive = RelayEvent::Frame(raw_frame("c1", vec![], false));
    let (_, action) = relay_raw(RelayState::Receiving, keep_alive);
    assert!(matches!(action, RelayAction::Receive));
}
