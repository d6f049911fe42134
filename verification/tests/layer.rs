use detour::layer::connect::{
    connect, simple_connect, socks5_connect, socks5_port, socks5_request, socks5_start,
    ClientAction, ClientState, Peer, Rules, SocksHost,
};
use detour::layer::fake_ip::{be_bytes, fake_ipv4, fake_ipv6, FakeIpTable};
use detour::layer::inject::{
    configured_route, inject_route_header, send_all, RoutedFds, SendProgress,
};
use detour::layer::lookup::{
    answers_lookup, fill_fake_hostent_result, hinted, make_fake_addrinfo_list, populate,
    service_port, Family, HostentAnswer, LookupError, ServicePort,
};
use detour::layer::rules::{
    bypassed_host, bypassed_port, parse_target_host_port, should_passthrough_hostname,
    unix_socket_path, unix_socket_target,
};
use detour::sidecar::cache::SessionCache;
use detour::sidecar::inspector::{CachedResolver, Resolution};
use detour::sidecar::raw::{sniff_head, Sniff};
use detour::text::find_subsequence;

// ── Made-up addresses ─────────────────────────────────────────────────────────

#[test]
fn fake_ip_table_round_trips_ipv4_and_ipv6() {
    let mut table = FakeIpTable::new();
    let id = table.assign("db.internal");

    assert_eq!(table.lookup_v4(fake_ipv4(id)), Some("db.internal".to_string()));
    assert_eq!(table.lookup_v6(&fake_ipv6(id)), Some("db.internal".to_string()));
}

#[test]
fn fake_addresses_lie_in_their_ranges() {
    assert_eq!(fake_ipv4(0), 0xC612_0000);
    assert_eq!(fake_ipv4(1), 0xC612_0001);
    assert_eq!(fake_ipv4(0x1_FFFF), 0xC613_FFFF);
    assert_eq!(fake_ipv4(0x2_0001), 0xC612_0001);
    assert_eq!(
        fake_ipv6(0x0102_0304),
        vec![0x20, 0x01, 0x0d, 0xb8, 0xde, 0x70, 0, 0, 0, 0, 0, 0, 1, 2, 3, 4]
    );
    assert_eq!(be_bytes(0xC612_0001), vec![198, 18, 0, 1]);
}

#[test]
fn hosts_keep_their_numbers() {
    let mut table = FakeIpTable::new();
    assert_eq!(table.assign("a"), 1);
    assert_eq!(table.assign("b"), 2);
    assert_eq!(table.assign("a"), 1);
    assert_eq!(table.lookup_v4(fake_ipv4(2)), Some("b".to_string()));
    assert_eq!(table.lookup_v4(fake_ipv4(3)), None);
    assert_eq!(table.lookup_v4(0x0A00_0001), None);
    assert_eq!(table.lookup_v4(0xC614_0001), None);
    let mut elsewhere = fake_ipv6(1);
    elsewhere[4] = 0;
    assert_eq!(table.lookup_v6(&elsewhere), None);
}

// ── Rules ─────────────────────────────────────────────────────────────────────

#[test]
fn passthrough_detects_local_and_literal_hosts() {
    assert!(should_passthrough_hostname("localhost", None, false));
    assert!(should_passthrough_hostname("127.0.0.1", None, true));
    assert!(should_passthrough_hostname("::1", None, true));
    assert!(should_passthrough_hostname("10.0.0.5", None, true));
    assert!(!should_passthrough_hostname("redis.internal", None, false));
    assert!(should_passthrough_hostname("", None, false));
    assert!(should_passthrough_hostname("127.example", None, false));
    assert!(should_passthrough_hostname("redis.internal", Some("*.internal"), false));
}

#[test]
fn hosts_are_bypassed_by_name_or_below_a_name() {
    let list = Some("localhost, metadata.google.internal ,*.svc.cluster.local,");
    assert!(bypassed_host("localhost", list));
    assert!(bypassed_host("metadata.google.internal", list));
    assert!(bypassed_host("a.b.svc.cluster.local", list));
    assert!(bypassed_host("svc.cluster.local", list));
    assert!(!bypassed_host("xsvc.cluster.local", list));
    assert!(!bypassed_host("", list));
    assert!(!bypassed_host("localhost", None));
    assert!(!bypassed_host("*.svc.cluster.locals", list));
}

#[test]
fn ports_are_bypassed_by_number() {
    let list = Some("25, 2525 ,x,+80,70000");
    assert!(bypassed_port(25, list));
    assert!(bypassed_port(2525, list));
    assert!(bypassed_port(80, list));
    assert!(!bypassed_port(70000u32 as u16, list));
    assert!(!bypassed_port(26, list));
    assert!(!bypassed_port(25, None));
}

#[test]
fn parse_target_host_port_supports_ipv4_and_ipv6() {
    assert_eq!(
        parse_target_host_port("db.internal:5432"),
        Some(("db.internal".to_string(), 5432))
    );
    assert_eq!(
        parse_target_host_port("[2001:db8::1]:6379"),
        Some(("2001:db8::1".to_string(), 6379))
    );
}

#[test]
fn targets_that_make_no_sense_are_none() {
    assert_eq!(parse_target_host_port("2001:db8::1:6379"), Some(("2001:db8::1".to_string(), 6379)));
    assert_eq!(parse_target_host_port(" h : 80 "), Some(("h".to_string(), 80)));
    for bad in ["", "host", ":80", " :80", "h:", "h:x", "h:65536", "[::1]", "[::1]80", "[::1]: 80", "[::1"] {
        assert_eq!(parse_target_host_port(bad), None, "{bad}");
    }
    assert_eq!(parse_target_host_port("[]:1"), Some(("".to_string(), 1)));
}

#[test]
fn unix_socket_target_matches_prefix_mappings() {
    let maps = Some(
        "/cloudsql/project:region:instance=db.internal:5432;/var/run/redis=redis.internal:6379",
    );
    assert_eq!(
        unix_socket_target("/cloudsql/project:region:instance/.s.PGSQL.5432", maps),
        Some(("db.internal".to_string(), 5432))
    );
    assert_eq!(
        unix_socket_target("/var/run/redis/redis.sock", maps),
        Some(("redis.internal".to_string(), 6379))
    );
    assert_eq!(unix_socket_target("/tmp/other.sock", maps), None);
    assert_eq!(unix_socket_target("/var/run/redis2", maps), None);
    assert_eq!(
        unix_socket_target("/var/run/redis", maps),
        Some(("redis.internal".to_string(), 6379))
    );
    assert_eq!(unix_socket_target("/var/run/redis", None), None);
    assert_eq!(unix_socket_target("/a", Some("=h:1;/a=nonsense; /a = k:2 ")), Some(("k".to_string(), 2)));
}

#[test]
fn socket_paths_end_at_the_first_zero() {
    assert_eq!(unix_socket_path(10, 2, b"/tmp/x\0\0"), Some("/tmp/x".to_string()));
    assert_eq!(unix_socket_path(10, 2, b"/tmp/xyz"), Some("/tmp/xyz".to_string()));
    assert_eq!(unix_socket_path(2, 2, b"/tmp/x\0"), None);
    assert_eq!(unix_socket_path(10, 2, b"\0abstract"), None);
    assert_eq!(unix_socket_path(10, 2, b"\xff\0"), None);
}

// ── Lookups ───────────────────────────────────────────────────────────────────

#[test]
fn lookups_are_answered_for_remote_names() {
    assert!(answers_lookup(Some("db.internal"), Family::Any, None, false));
    assert!(answers_lookup(Some("db.internal"), Family::V6, None, false));
    assert!(!answers_lookup(Some("db.internal"), Family::Other, None, false));
    assert!(!answers_lookup(None, Family::V4, None, false));
    assert!(!answers_lookup(Some("10.0.0.5"), Family::V4, None, true));
    assert_eq!(populate(1, Family::V4), Some(vec![198, 18, 0, 1]));
    assert_eq!(populate(1, Family::V6), Some(fake_ipv6(1)));
    assert_eq!(populate(1, Family::Other), None);
}

fn fill(hostname: &str, family: Family, pointers: bool, buflen: usize) -> HostentAnswer {
    fill_fake_hostent_result(&mut FakeIpTable::new(), hostname, family, pointers, buflen, 8)
}

#[test]
fn answers_are_laid_out_in_the_buffer() {
    // Four bytes of name, a zero, four bytes of address: pointers start at 16.
    let HostentAnswer::Found { layout, address } = fill("host", Family::V4, true, 40) else {
        panic!("the answer fits");
    };
    assert_eq!(address, vec![198, 18, 0, 1]);
    assert_eq!((layout.name, layout.nul, layout.address), (0, 4, 5));
    assert_eq!((layout.aliases, layout.list, layout.end), (16, 24, 40));
    let HostentAnswer::Found { layout, address } = fill("h", Family::V6, true, 100) else {
        panic!("the answer fits");
    };
    assert_eq!(address.len(), 16);
    assert_eq!((layout.aliases, layout.list, layout.end), (24, 32, 48));
    assert!(matches!(
        fill("host", Family::V4, true, 39),
        HostentAnswer::Failed { error: LookupError::Range, h_errno: 2 }
    ));
    assert!(matches!(
        fill("host", Family::V4, true, 0),
        HostentAnswer::Failed { error: LookupError::Range, h_errno: 2 }
    ));
}

#[test]
fn lookups_that_make_no_sense_fail() {
    let mut table = FakeIpTable::new();
    let answer = fill_fake_hostent_result(&mut table, "h", Family::V4, false, 100, 8);
    assert!(matches!(
        answer,
        HostentAnswer::Failed { error: LookupError::Invalid, h_errno: 3 }
    ));
    assert_eq!(table.assign("x"), 1);
    let answer = fill_fake_hostent_result(&mut table, "h", Family::Other, true, 100, 8);
    assert!(matches!(
        answer,
        HostentAnswer::Failed { error: LookupError::Invalid, h_errno: 3 }
    ));
    // The name got a number all the same.
    assert_eq!(table.assign("h"), 2);
    assert_eq!(table.assign("y"), 3);
}

#[test]
fn service_port_parses_numeric_ports() {
    assert_eq!(service_port(Some("5432")), ServicePort::Port(5432));
    assert_eq!(service_port(None), ServicePort::Port(0));
    assert_eq!(service_port(Some("https")), ServicePort::ByName);
    assert_eq!(service_port(Some("65536")), ServicePort::ByName);
}

#[test]
fn address_lists_and_hints_have_defaults() {
    assert_eq!(make_fake_addrinfo_list(Family::Any), vec![Family::V6, Family::V4]);
    assert_eq!(make_fake_addrinfo_list(Family::V4), vec![Family::V4]);
    assert_eq!(make_fake_addrinfo_list(Family::V6), vec![Family::V6]);
    assert_eq!(hinted(Some(2), 1), 2);
    assert_eq!(hinted(Some(0), 1), 1);
    assert_eq!(hinted(None, 1), 1);
}

// ── Connections ───────────────────────────────────────────────────────────────

fn rules<'a>() -> Rules<'a> {
    Rules {
        bypass_hosts: Some("bypassed.internal"),
        bypass_ports: Some("25"),
        unix_socket_maps: Some("/cloudsql/x=db.internal:5432"),
    }
}

fn v4(ip: u32, port: u16) -> Peer {
    Peer::V4 { ip, port }
}

fn v6(octets: Vec<u8>, text: &str) -> Peer {
    Peer::V6 { octets, port: 443, text: text.to_string() }
}

#[test]
fn connections_go_to_the_name_behind_the_address() {
    let mut table = FakeIpTable::new();
    let id = table.assign("db.internal");
    let bypassed = table.assign("bypassed.internal");
    let db = Some(("db.internal".to_string(), 5432));
    assert_eq!(connect(true, &v4(fake_ipv4(id), 5432), &table, &rules()), db);
    assert_eq!(
        connect(true, &v6(fake_ipv6(id), "unused"), &table, &rules()),
        Some(("db.internal".to_string(), 443))
    );
    assert_eq!(
        connect(true, &v4(0x0A01_0203, 80), &table, &rules()),
        Some(("10.1.2.3".to_string(), 80))
    );
    let mut real = vec![0u8; 16];
    real[0] = 0x20;
    assert_eq!(
        connect(true, &v6(real, "2000::"), &table, &rules()),
        Some(("2000::".to_string(), 443))
    );
    let socket = |p: &str| Peer::Unix { path: Some(p.to_string()) };
    assert_eq!(connect(true, &socket("/cloudsql/x/.s"), &table, &rules()), db);
    assert_eq!(connect(true, &socket("/tmp/x"), &table, &rules()), None);
    assert_eq!(connect(true, &Peer::Unix { path: None }, &table, &rules()), None);
    assert_eq!(connect(true, &Peer::Other, &table, &rules()), None);
    assert_eq!(connect(true, &v4(fake_ipv4(bypassed), 80), &table, &rules()), None);
    assert_eq!(connect(true, &v4(fake_ipv4(id), 25), &table, &rules()), None);
    assert_eq!(connect(false, &v4(fake_ipv4(id), 5432), &table, &rules()), None);
}

#[test]
fn only_loopback_is_left_alone() {
    let table = FakeIpTable::new();
    for ip in [0x7F00_0001, 0x7FFF_FFFF] {
        assert_eq!(connect(true, &v4(ip, 80), &table, &rules()), None);
    }
    for (ip, text) in [
        (0, "0.0.0.0"),
        (0xA9FE_A9FE, "169.254.169.254"),
        (0x7EFF_FFFF, "126.255.255.255"),
        (0x8000_0000, "128.0.0.0"),
    ] {
        let target = Some((text.to_string(), 80));
        assert_eq!(connect(true, &v4(ip, 80), &table, &rules()), target);
    }
    let mut ip = vec![0u8; 16];
    assert!(connect(true, &v6(ip.clone(), "::"), &table, &rules()).is_some());
    ip[15] = 1;
    assert_eq!(connect(true, &v6(ip.clone(), "::1"), &table, &rules()), None);
    ip[0] = 0xfe;
    ip[1] = 0x80;
    let (host, _) = connect(true, &v6(ip, "fe80::1"), &table, &rules()).unwrap();
    assert_eq!(host, "fe80::1");
}

#[test]
fn plain_connectx_calls_are_recognised() {
    assert!(simple_connect(0, 0, 0, false, Some(16), 0));
    assert!(!simple_connect(1, 0, 0, false, Some(16), 0));
    assert!(!simple_connect(0, 1, 0, false, Some(16), 0));
    assert!(!simple_connect(0, 0, 1, false, Some(16), 0));
    assert!(!simple_connect(0, 0, 0, true, Some(16), 0));
    assert!(!simple_connect(0, 0, 0, false, Some(0), 0));
    assert!(!simple_connect(0, 0, 0, false, None, 0));
    assert!(!simple_connect(0, 0, 0, false, Some(16), 1));
}

#[test]
fn the_proxy_is_asked_for_the_host() {
    assert_eq!(socks5_port(None), 1081);
    assert_eq!(socks5_port(Some("2000")), 2000);
    assert_eq!(socks5_port(Some("x")), 1081);
    assert_eq!(
        socks5_request(&SocksHost::V4(vec![10, 0, 0, 1]), 258),
        vec![5, 1, 0, 1, 10, 0, 0, 1, 1, 2]
    );
    assert_eq!(
        socks5_request(&SocksHost::Name("ab".into()), 443),
        vec![5, 1, 0, 3, 2, b'a', b'b', 1, 187]
    );
    let v6 = socks5_request(&SocksHost::V6(vec![7; 16]), 0);
    assert_eq!(v6[..4], [5, 1, 0, 4]);
    assert_eq!(v6.len(), 22);
    // The length of a name is one byte.
    let long = socks5_request(&SocksHost::Name("x".repeat(257)), 0);
    assert_eq!(long[4], 1);
    assert_eq!(long.len(), 7 + 257);
}

fn exchange(action: ClientAction) -> (Vec<u8>, usize) {
    match action {
        ClientAction::Exchange { write, read } => (write, read),
        _ => panic!("the talk goes on"),
    }
}

#[test]
fn the_proxy_connects_or_refuses() {
    let host = SocksHost::Name("h".into());
    let (state, action) = socks5_start();
    assert_eq!(exchange(action), (vec![5, 1, 0], 2));
    let (state, action) = socks5_connect(state, &[5, 0], &host, 80);
    assert_eq!(exchange(action), (vec![5, 1, 0, 3, 1, b'h', 0, 80], 4));
    let (state, action) = socks5_connect(state, &[5, 0, 0, 1], &host, 80);
    assert_eq!(exchange(action), (vec![], 6));
    let (state, action) = socks5_connect(state, &[0; 6], &host, 80);
    assert!(matches!((state, action), (ClientState::Done, ClientAction::Connected)));

    let (state, action) = socks5_connect(ClientState::Reply, &[5, 0, 0, 3], &host, 80);
    assert_eq!(exchange(action), (vec![], 1));
    let (state, action) = socks5_connect(state, &[9], &host, 80);
    assert_eq!(exchange(action), (vec![], 11));
    assert!(matches!(state, ClientState::Bound { len: 11 }));
    let (_, action) = socks5_connect(ClientState::Reply, &[5, 0, 0, 4], &host, 80);
    assert_eq!(exchange(action), (vec![], 18));
    let (_, action) = socks5_connect(ClientState::Reply, &[5, 0, 0, 9], &host, 80);
    assert!(matches!(action, ClientAction::Connected));

    let (_, action) = socks5_connect(ClientState::Greeting, &[5, 255], &host, 80);
    assert!(matches!(action, ClientAction::Refuse { reason } if reason == "SOCKS5 auth rejected"));
    let (_, action) = socks5_connect(ClientState::Reply, &[5, 5, 0, 1], &host, 80);
    assert!(matches!(action, ClientAction::Refuse { reason } if reason == "SOCKS5 CONNECT failed"));
}

// ── Routes that are carried on ────────────────────────────────────────────────

#[test]
fn inject_route_header_adds_header_after_request_line() {
    let req = b"GET /api HTTP/1.1\r\nHost: svc\r\nAccept: */*\r\n\r\n";
    let out = inject_route_header(req, "sess-1").expect("should inject");
    let text = String::from_utf8(out).unwrap();
    assert_eq!(
        text,
        "GET /api HTTP/1.1\r\nX-Route-To: sess-1\r\nHost: svc\r\nAccept: */*\r\n\r\n"
    );
    assert!(text.ends_with("\r\n\r\n"));
}

#[test]
fn inject_route_header_preserves_body() {
    let req = b"POST /x HTTP/1.1\r\nHost: svc\r\nContent-Length: 5\r\n\r\nhello";
    let out = inject_route_header(req, "s2").unwrap();
    assert!(out.ends_with(b"\r\n\r\nhello"));
    assert!(find_subsequence(&out, b"X-Route-To: s2\r\n").is_some());
}

#[test]
fn inject_route_header_skips_when_already_present() {
    let req = b"GET / HTTP/1.1\r\nHost: svc\r\nx-route-to: existing\r\n\r\n";
    assert!(inject_route_header(req, "sess-1").is_none());
}

#[test]
fn inject_route_header_ignores_non_http_and_partial_heads() {
    assert!(inject_route_header(b"\x16\x03\x01 TLS handshake\r\n\r\n", "s").is_none());
    assert!(inject_route_header(b"PRI * HTTP/2.0\r\n\r\nSM\r\n\r\n", "s").is_none());
    assert!(inject_route_header(b"GET / HTTP/1.1\r\nHost: svc\r\n", "s").is_none());
}

#[test]
fn inject_route_header_handles_bare_heads_and_bytes() {
    assert_eq!(
        inject_route_header(b"GET / HTTP/1.0\r\n\r\nx", "s").unwrap(),
        b"GET / HTTP/1.0\r\nX-Route-To: s\r\n\r\nx"
    );
    // A route is seen in a head that is no text.
    let odd = b"GET / HTTP/1.1\r\nx-route-to: \xff\r\n\r\n";
    assert!(inject_route_header(odd, "s").is_none());
    let odd = b"GET / HTTP/1.1\r\nX-Route-To: a\r\nX-B: \xff\r\n\r\n";
    assert!(inject_route_header(odd, "s").is_none());
    let odd = b"GET / HTTP/1.1\r\nX-B: \xff\r\nX-\xff: a\r\n\r\n";
    assert_eq!(
        inject_route_header(odd, "s").unwrap(),
        b"GET / HTTP/1.1\r\nX-Route-To: s\r\nX-B: \xff\r\nX-\xff: a\r\n\r\n"
    );
    // A route in the body does not count.
    let body = b"GET / HTTP/1.1\r\n\r\nx-route-to: a\r\n\r\n";
    assert!(inject_route_header(body, "s").is_some());
    // What was injected is not injected again.
    let once = inject_route_header(b"GET / HTTP/1.1\r\nA: b\r\n\r\n", "s").unwrap();
    assert!(inject_route_header(&once, "s").is_none());
}

#[test]
fn configured_route_requires_non_empty_env() {
    assert!(configured_route(Some("  ")).is_none());
    assert_eq!(configured_route(Some("sess-xyz")).as_deref(), Some("sess-xyz"));
    assert!(configured_route(None).is_none());
}

#[test]
fn take_route_for_fd_only_fires_once_per_tracked_fd() {
    let setting = Some("sess-once");
    let mut fds = RoutedFds::new();
    let fd = 4242;
    assert!(fds.take_route_for_fd(fd, setting).is_none());

    fds.track(fd);
    assert_eq!(fds.take_route_for_fd(fd, setting).as_deref(), Some("sess-once"));
    assert!(fds.take_route_for_fd(fd, setting).is_none());

    fds.untrack(fd);
    assert!(fds.take_route_for_fd(fd, setting).is_none());
}

#[test]
fn only_the_first_request_is_rewritten() {
    let mut fds = RoutedFds::new();
    fds.track(3);
    let req = b"GET / HTTP/1.1\r\n\r\n";
    assert!(fds.rewrite(3, b"", Some("s")).is_none());
    assert!(fds.rewrite(3, req, None).is_none());
    assert_eq!(fds.rewrite(3, req, Some("s")).unwrap(), b"GET / HTTP/1.1\r\nX-Route-To: s\r\n\r\n");
    assert!(fds.rewrite(3, req, Some("s")).is_none());
    assert!(fds.rewrite(4, req, Some("s")).is_none());
    // A first write that is no request uses the chance up.
    fds.track(5);
    assert!(fds.rewrite(5, b"partial", Some("s")).is_none());
    assert!(fds.rewrite(5, req, Some("s")).is_none());
}

#[test]
fn partial_sends_go_on_until_all_is_sent() {
    assert!(matches!(send_all(0, 10, 4), SendProgress::Rest(4)));
    assert!(matches!(send_all(4, 10, 6), SendProgress::All));
    assert!(matches!(send_all(4, 10, 0), SendProgress::Failed));
    assert!(matches!(send_all(4, 10, -1), SendProgress::Failed));
}

// ── Chained detours ───────────────────────────────────────────────────────────

#[test]
fn injected_route_is_what_a_sidecar_asks_for() {
    let id = "A3F8C2D1-9e4b-4f1a-8c7d-2b5e6f0a1c3d";
    let request = b"POST /pay HTTP/1.1\r\nHost: api\r\nContent-Length: 4\r\n\r\nbody";
    let out = inject_route_header(request, id).unwrap();
    let Some(Sniff::Http1 { head, rest }) = sniff_head(&out, false) else {
        panic!("not taken for a request");
    };
    assert_eq!(head.method, "POST");
    assert_eq!(head.path, "/pay");
    assert_eq!(rest, b"body".to_vec());
    let mut resolver = CachedResolver::new(SessionCache::new(30), String::new());
    match resolver.resolve(&head.headers, 0) {
        Resolution::Ask { session_id, .. } => assert_eq!(session_id.as_str(), id.to_lowercase()),
        _ => panic!("no session asked for"),
    }
}

#[test]
fn injection_is_not_repeated() {
    let request = b"GET / HTTP/1.0\r\n\r\n";
    let out = inject_route_header(request, "sess-1").unwrap();
    assert_eq!(out, b"GET / HTTP/1.0\r\nX-Route-To: sess-1\r\n\r\n".to_vec());
    assert!(inject_route_header(&out, "sess-2").is_none());
    // Whatever the route is.
    for route in ["", "a\r\nb", "\r\n\r\n", " \u{7f} "] {
        let out = inject_route_header(b"GET / HTTP/1.1\r\nA: \xff\r\n\r\n", route).unwrap();
        assert!(inject_route_header(&out, "s").is_none());
    }
}
