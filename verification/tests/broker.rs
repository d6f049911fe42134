use std::sync::mpsc::{channel, Receiver, Sender};

use detour::broker::auth::{
    authorize_claims, authorize_services, check_identity, identity_key_id, read_jwks, select_key,
    strip_bearer, validate_google_identity_token, validate_jwt, AuthService, AuthStep, CertsReply,
};
use detour::broker::connections::{ConnectionMap, PendingRequests, RawConnections};
use detour::broker::registry::{
    redis_key, restrict_to_service, session_fields, session_of_fields, MemoryRegistry,
    SessionRegistry,
};
use detour::broker::relay::{
    connect_outbound_target, lookup_request, lookup_session, outbound_read, outbound_tunnel,
    DialStep, OutboundAction, OutboundEvent, OutboundState, RawAction, RawEvent, RawState,
    RelayService, RequestAction, RequestEvent, RequestState, TunnelAction, TunnelEvent,
    TunnelState, RELAY_TIMEOUT_SECS,
};
use detour::json::{parse, Json};
use detour::model::config::ServiceRoute;
use detour::model::error::DetourError;
use detour::model::frames::raw_frame;
use detour::model::session::{AuthMode, ServiceSession, SessionId, SessionRecord};
use detour::model::text_map::TextMap;
use detour::model::wire::{
    AgentMessage, BrokerMessage, Code, Heartbeat, LookupRequest, OutboundClientMsg,
    OutboundConnect, OutboundServerMsg, RawConnFrame, RegisterSession, RelayRequestMsg,
    RelayResponse, RelayResponseMsg, RouteEntry, Status,
};
use jsonwebtoken::{encode, EncodingKey, Header};

const SESSION: &str = "11111111-1111-4111-8111-111111111111";
const OTHER: &str = "22222222-2222-4222-8222-222222222222";
const SERVICE: &str = "svc";

fn sid() -> SessionId {
    SessionId::from_string(SESSION.to_string()).unwrap()
}

fn svc(names: &[&str]) -> Vec<String> {
    names.iter().map(|s| s.to_string()).collect()
}

fn json(text: &str) -> Json {
    parse(text.as_bytes()).unwrap()
}

fn message(r: Result<(), DetourError>) -> String {
    match r {
        Ok(()) => panic!("expected a refusal"),
        Err(DetourError::AuthError(message)) => message,
        Err(other) => panic!("expected an auth error, got {other:?}"),
    }
}

fn done(step: AuthStep) -> Result<(), DetourError> {
    match step {
        AuthStep::Done(result) => result,
        AuthStep::ReadClaims { .. } => panic!("no claims are needed"),
        AuthStep::FetchCerts { .. } => panic!("no keys are needed"),
    }
}

/// Checks a credential whose claims nobody objects to.
fn validated(
    auth: &AuthService,
    services: &[String],
    token: Option<&str>,
) -> Result<(), DetourError> {
    match auth.validate(&sid(), services, token) {
        AuthStep::ReadClaims { token } => auth.validate_with_claims(&token, None, services),
        step => done(step),
    }
}

fn jwt(secret: &str, claims: &str) -> String {
    let claims: serde_json::Value = serde_json::from_str(claims).unwrap();
    encode(&Header::default(), &claims, &EncodingKey::from_secret(secret.as_bytes())).unwrap()
}

// ── Authorization ─────────────────────────────────────────────────────────────

#[test]
fn validate_session_id_mode_accepts_target_services() {
    let auth = AuthService::new(AuthMode::SessionId, None, None, None, None);
    assert!(done(auth.validate(&sid(), &svc(&["orders", "billing"]), None)).is_ok());
    assert!(done(auth.validate(&sid(), &[], None)).is_ok());
    assert_eq!(*auth.mode(), AuthMode::SessionId);
}

#[test]
fn validate_signed_token_mode_requires_token() {
    let auth =
        AuthService::new(AuthMode::SignedToken, Some("secret".into()), None, None, None);
    assert!(done(auth.validate(&sid(), &svc(&["orders"]), None)).is_err());
    assert_eq!(
        message(done(auth.validate(&sid(), &svc(&["orders"]), None))),
        "signed-token mode requires JWT"
    );
    let bare = AuthService::new(AuthMode::SignedToken, None, None, None, None);
    assert_eq!(
        message(done(bare.validate(&sid(), &[], Some("t")))),
        "JWT secret not configured"
    );
}

#[test]
fn authorize_services_enforces_allow_list() {
    let allowed = svc(&["orders", "billing"]);
    assert!(authorize_services(&svc(&["orders"]), Some(&allowed)).is_ok());
    assert!(authorize_services(&svc(&["orders", "billing"]), Some(&allowed)).is_ok());
    assert!(authorize_services(&svc(&["payments"]), Some(&allowed)).is_err());
    assert!(authorize_services(&svc(&["orders", "payments"]), Some(&allowed)).is_err());
    assert!(authorize_services(&svc(&["anything"]), None).is_ok());
}

#[test]
fn the_first_unlisted_service_is_named() {
    let allowed = svc(&["orders"]);
    assert_eq!(
        message(authorize_services(&svc(&["orders", "b", "a"]), Some(&allowed))),
        "not authorized to intercept service 'b'"
    );
    assert_eq!(
        message(authorize_services(&svc(&["x"]), Some(&[]))),
        "not authorized to intercept service 'x'"
    );
    assert!(authorize_services(&[], Some(&[])).is_ok());
}

#[test]
fn validate_session_id_mode_rejects_unlisted_service() {
    let auth = AuthService::new(AuthMode::SessionId, None, None, None, Some(svc(&["orders"])));
    assert!(done(auth.validate(&sid(), &svc(&["orders"]), None)).is_ok());
    let err = done(auth.validate(&sid(), &svc(&["payments"]), None));
    assert!(err.is_err());
    assert!(err.unwrap_err().to_string().contains("payments"));
}

/// Checks a signed token whose claims nobody objects to.
fn signed(
    token: &str,
    secret: &str,
    services: &[String],
    allowed: Option<&[String]>,
) -> Result<(), DetourError> {
    validate_jwt(token, secret, None, services, allowed)
}

#[test]
fn signed_tokens_are_checked() {
    let good = jwt("s", r#"{"exp": 9999999999, "allowed_services": null}"#);
    assert!(signed(&good, "s", &svc(&["a"]), None).is_ok());
    assert_eq!(message(signed(&good, "other", &svc(&["a"]), None)), "InvalidSignature");
    assert_eq!(message(signed("garbage", "s", &[], None)), "InvalidToken");
    // The token is taken as it is, without a scheme in front of it.
    let scheme = format!("Bearer {good}");
    assert!(signed(&scheme, "s", &[], None).is_err());
    let old = jwt("s", r#"{"exp": 1}"#);
    assert_eq!(message(signed(&old, "s", &[], None)), "ExpiredSignature");
    let aimed = jwt("s", r#"{"exp": 9999999999, "aud": "x"}"#);
    assert_eq!(message(signed(&aimed, "s", &[], None)), "InvalidAudience");
    // A token does not take its claims from a list.
    let list = jwt("s", r#"[9999999999, ["a"]]"#);
    assert!(message(signed(&list, "s", &svc(&["a"]), None)).starts_with("JSON error: "));
}

#[test]
fn objections_come_between_signature_and_expiry() {
    let objection = "JSON error: missing field `exp` at line 1 column 2";
    let objected = |token: &str, secret: &str| {
        message(validate_jwt(token, secret, Some(objection.to_string()), &[], None))
    };
    assert_eq!(objected(&jwt("s", "{}"), "s"), objection);
    assert_eq!(objected(&jwt("s", "{}"), "other"), "InvalidSignature");
    assert_eq!(objected("garbage", "s"), "InvalidToken");
    let old = jwt("s", r#"{"exp": 1, "allowed_services": 5}"#);
    assert_eq!(objected(&old, "s"), objection);
    // A header that is no JSON is what the reader stumbles over, too.
    assert_eq!(objected("bm8.bm8.bm8", "s"), objection);
    assert!(message(signed("bm8.bm8.bm8", "s", &[], None)).starts_with("JSON error: "));

    let auth = AuthService::new(AuthMode::SignedToken, Some("s".into()), None, None, None);
    let token = jwt("s", "{}");
    let AuthStep::ReadClaims { token: kept } = auth.validate(&sid(), &[], Some(&token)) else {
        panic!("the claims are needed");
    };
    assert_eq!(kept, token);
    let refused = auth.validate_with_claims(&token, Some(objection.to_string()), &[]);
    assert_eq!(message(refused), objection);
    let bare = AuthService::new(AuthMode::SignedToken, None, None, None, None);
    assert_eq!(
        message(bare.validate_with_claims(&token, None, &[])),
        "JWT secret not configured"
    );
}

#[test]
fn claimed_services_take_the_place_of_the_broker_list() {
    let broker = svc(&["broker"]);
    let claimed = json(r#"{"exp": 5, "allowed_services": ["mine"]}"#);
    assert!(authorize_claims(&claimed, &svc(&["mine"]), Some(&broker)).is_ok());
    assert!(authorize_claims(&claimed, &svc(&["broker"]), Some(&broker)).is_err());
    let silent = json(r#"{"exp": 5}"#);
    assert!(authorize_claims(&silent, &svc(&["broker"]), Some(&broker)).is_ok());
    assert!(authorize_claims(&silent, &svc(&["mine"]), Some(&broker)).is_err());
    assert!(authorize_claims(&silent, &svc(&["mine"]), None).is_ok());
    for bad in [
        "{}",
        r#"{"exp": -1}"#,
        r#"{"exp": 1.5}"#,
        r#"{"exp": "5"}"#,
        r#"{"exp": 5, "allowed_services": "mine"}"#,
        r#"{"exp": 5, "allowed_services": ["mine", 1]}"#,
        "[]",
        "[5]",
        "[5, null, null]",
        "5",
    ] {
        assert_eq!(
            message(authorize_claims(&json(bad), &svc(&["mine"]), None)),
            "JSON error: malformed claims"
        );
    }
    let token = jwt("s", r#"{"exp": 9999999999, "allowed_services": ["mine"]}"#);
    assert!(signed(&token, "s", &svc(&["mine"]), Some(&broker)).is_ok());
    assert!(signed(&token, "s", &svc(&["broker"]), Some(&broker)).is_err());
    assert!(authorize_claims(&json(r#"[5, ["mine"]]"#), &svc(&["mine"]), Some(&broker)).is_ok());
    assert!(authorize_claims(&json("[5, null]"), &svc(&["mine"]), Some(&broker)).is_err());
}

#[test]
fn bearer_values_lose_their_scheme() {
    assert_eq!(strip_bearer("Bearer  abc "), "abc");
    assert_eq!(strip_bearer("bearer abc"), "abc");
    assert_eq!(strip_bearer(" abc"), "abc");
    assert_eq!(strip_bearer("BEARER abc"), "BEARER abc");
    assert_eq!(strip_bearer("Bearer"), "Bearer");
}

fn with_kid(kid: Option<&str>) -> String {
    let mut header = Header::default();
    header.kid = kid.map(str::to_string);
    let claims = serde_json::Value::Null;
    encode(&header, &claims, &EncodingKey::from_secret(b"s")).unwrap()
}

#[test]
fn identity_tokens_name_their_key() {
    assert_eq!(identity_key_id(&with_kid(Some("k1"))).unwrap(), "k1");
    assert_eq!(
        message(identity_key_id(&with_kid(None)).map(|_| ())),
        "identity token missing kid header"
    );
    assert_eq!(message(identity_key_id("nonsense").map(|_| ())), "InvalidToken");
}

#[test]
fn gcp_oidc_mode_asks_for_the_keys() {
    let auth = AuthService::new(AuthMode::GcpOidc, None, Some("aud".into()), None, None);
    let token = format!("Bearer {} ", with_kid(Some("k1")));
    let AuthStep::FetchCerts { token: kept, kid } = auth.validate(&sid(), &[], Some(&token)) else {
        panic!("the keys are needed");
    };
    assert_eq!(kid, "k1");
    assert_eq!(kept, with_kid(Some("k1")));
    assert_eq!(
        message(done(auth.validate(&sid(), &[], None))),
        "gcp-oidc mode requires bearer token"
    );
    let bare = AuthService::new(AuthMode::GcpOidc, None, None, None, None);
    assert_eq!(
        message(done(bare.validate(&sid(), &[], Some("t")))),
        "gcp-oidc mode requires DETOUR_GCP_OIDC_AUDIENCE to be configured"
    );
    assert_eq!(
        message(auth.validate_with_certs("t", "k1", CertsReply::NotFetched("x".into()), None, &[])),
        "failed to fetch Google certs: x"
    );
}

fn keys(text: &str) -> CertsReply {
    CertsReply::Body(text.as_bytes().to_vec())
}

fn google(certs: CertsReply) -> String {
    message(validate_google_identity_token("a.b.c", "k1", certs, None, "aud", None))
}

#[test]
fn google_keys_are_found_or_not() {
    assert_eq!(google(CertsReply::NotAsked("x".into())), "x");
    assert_eq!(google(CertsReply::NotRead("x".into())), "failed to parse Google certs: x");
    let undecodable = "failed to parse Google certs: error decoding response body";
    assert_eq!(google(keys("{")), undecodable);
    assert_eq!(google(keys("{}")), undecodable);
    assert_eq!(google(keys(r#"{"keys": [{"kid": "k1"}]}"#)), undecodable);
    assert_eq!(
        google(keys(r#"{"keys": [{"kid":"k1","n":"AQ","e":"AQ","kty":"RSA","alg":1}]}"#)),
        undecodable
    );
    let missing = "matching Google signing key not found";
    assert_eq!(google(keys(r#"{"keys": []}"#)), missing);
    for other in [
        r#"{"keys": [{"kid":"k2","n":"AQ","e":"AQ","kty":"RSA"}]}"#,
        r#"{"keys": [{"kid":"k1","n":"AQ","e":"AQ","kty":"EC"}]}"#,
        r#"{"keys": [{"kid":"k1","n":"AQ","e":"AQ","kty":"RSA","use":"enc"}]}"#,
        r#"{"keys": [{"kid":"k1","n":"AQ","e":"AQ","kty":"RSA","alg":"RS512"}]}"#,
    ] {
        assert_eq!(google(keys(other)), missing);
    }
    // A modulus that is not base64 makes no key.
    assert!(google(keys(r#"{"keys": [{"kid":"k1","n":"!","e":"AQ","kty":"RSA"}]}"#))
        .starts_with("Base64 error: "));
    // A key is there; the token is not signed with it.
    assert!(google(keys(r#"{"keys": [{"kid":"k1","n":"AQ","e":"AQ","kty":"RSA","use":"sig","alg":"RS256"}]}"#))
        .starts_with("invalid Google identity token: "));
}

#[test]
fn the_first_fitting_key_is_selected() {
    let set = read_jwks(&json(
        r#"{"keys": [
            {"kid":"a","n":"1","e":"1","kty":"RSA","use":"enc"},
            {"kid":"a","n":"2","e":"1","kty":"RSA","use":null},
            {"kid":"a","n":"3","e":"1","kty":"RSA"}
        ]}"#,
    ))
    .unwrap();
    assert_eq!(select_key(&set, "a"), Some(1));
    assert_eq!(select_key(&set, "b"), None);
    assert_eq!(set[1].n, "2");
    assert!(read_jwks(&json(r#"{"keys": {}}"#)).is_none());
    let list = read_jwks(&json(r#"[[["a","1","2","RSA",null,"sig"]]]"#)).unwrap();
    assert_eq!((list[0].kid.as_str(), list[0].e.as_str()), ("a", "2"));
    assert_eq!(select_key(&list, "a"), Some(0));
    assert!(read_jwks(&json(r#"[[["a","1","2","RSA",null]]]"#)).is_none());
    assert!(read_jwks(&json("[[], []]")).is_none());
}

fn identity(claims: &str, domain: Option<&str>) -> Result<(), DetourError> {
    check_identity(&json(claims), domain)
}

#[test]
fn identities_must_be_verified_and_in_the_domain() {
    let good = r#"{"exp":1,"iss":"accounts.google.com","email":"a@corp.com","email_verified":true}"#;
    assert!(identity(good, None).is_ok());
    assert!(identity(r#"[1,"accounts.google.com","a@corp.com",true]"#, Some("corp.com")).is_ok());
    assert!(identity(good, Some("corp.com")).is_ok());
    assert!(identity(good, Some("@corp.com")).is_ok());
    assert_eq!(
        message(identity(good, Some("orp.com"))),
        "identity token email a@corp.com is outside allowed domain @orp.com"
    );
    assert_eq!(
        message(identity(
            r#"{"exp":1,"iss":"https://evil","email":"a@b","email_verified":true}"#,
            None
        )),
        "unexpected token issuer"
    );
    assert_eq!(
        message(identity(r#"{"exp":1,"iss":"https://accounts.google.com","email_verified":true}"#, None)),
        "identity token missing email claim"
    );
    for unverified in ["false", "null"] {
        assert_eq!(
            message(identity(
                &format!(
                    r#"{{"exp":1,"iss":"accounts.google.com","email":"a@b","email_verified":{unverified}}}"#
                ),
                None
            )),
            "identity token email is not verified"
        );
    }
    for malformed in [
        r#"{"iss":"accounts.google.com","email":"a@b","email_verified":true}"#,
        r#"{"exp":1,"email":"a@b","email_verified":true}"#,
        r#"{"exp":1,"iss":"accounts.google.com","email":5,"email_verified":true}"#,
        r#"{"exp":1,"iss":"accounts.google.com","email":"a@b","email_verified":"true"}"#,
        r#"[1,"accounts.google.com","a@b"]"#,
    ] {
        assert_eq!(
            message(identity(malformed, None)),
            "invalid Google identity token: JSON error: malformed claims"
        );
    }
}

// ── Registries ────────────────────────────────────────────────────────────────

fn routes(names: &[&str]) -> Vec<ServiceRoute> {
    names
        .iter()
        .map(|n| ServiceRoute { service_name: n.to_string(), local_port: 3000 })
        .collect()
}

fn record(at: u64, names: &[&str]) -> SessionRecord {
    SessionRecord {
        session_id: sid(),
        connection_id: "c".to_string(),
        broker_instance: "b".to_string(),
        auth_mode: AuthMode::SignedToken,
        registered_at: at,
        last_heartbeat: at,
        routes: routes(names),
    }
}

#[test]
fn sessions_live_until_their_time_is_up() {
    let mut registry = MemoryRegistry::new(10);
    assert!(registry.lookup(&sid(), 0).unwrap().is_none());
    registry.register(record(100, &["a", "b"])).unwrap();
    let found = registry.lookup(&sid(), 110).unwrap().unwrap();
    assert_eq!(found.service_name, "a");
    assert_eq!(found.allowed_services, svc(&["a", "b"]));
    assert_eq!(found.registered_at, 100);
    registry.heartbeat(&sid(), 105).unwrap();
    assert_eq!(registry.lookup(&sid(), 115).unwrap().unwrap().last_heartbeat, 105);
    // A clock that runs backwards makes nobody older.
    assert!(registry.lookup(&sid(), 1).unwrap().is_some());
    assert!(registry.lookup(&sid(), 116).unwrap().is_none());
    // It was dropped.
    assert!(registry.lookup(&sid(), 105).unwrap().is_none());
    let err = registry.heartbeat(&sid(), 1).unwrap_err();
    assert_eq!(err.to_string(), format!("session not found: {SESSION}"));
}

#[test]
fn expired_sessions_are_gone() {
    let mut registry = MemoryRegistry::new(10);
    registry.register(record(0, &[])).unwrap();
    assert_eq!(registry.lookup(&sid(), 0).unwrap().unwrap().service_name, "");
    registry.expire(&sid()).unwrap();
    registry.expire(&sid()).unwrap();
    assert!(registry.lookup(&sid(), 0).unwrap().is_none());
}

#[test]
fn sessions_stand_for_their_services_only() {
    let session = || Some(ServiceSession::of_record(record(0, &["payments-api", "x"])));
    assert!(restrict_to_service(session(), "payments-api").is_some());
    assert!(restrict_to_service(session(), "x").is_some());
    assert!(restrict_to_service(session(), "user-api").is_none());
    assert!(restrict_to_service(session(), "").is_some());
    assert!(restrict_to_service(None, "").is_none());
}

fn stored(pairs: &[(String, String)]) -> TextMap {
    let mut map = TextMap::new();
    for (name, value) in pairs {
        map.set(name.clone(), value.clone());
    }
    map
}

#[test]
fn stored_sessions_are_read_back() {
    assert_eq!(redis_key(&sid()), format!("localroute:session:{SESSION}"));
    let session = ServiceSession::of_record(record(5, &["a", "b"]));
    let fields = session_fields(&session, 42);
    assert_eq!(fields.len(), 7);
    assert_eq!(fields[4], ("registered_at".to_string(), "42".to_string()));
    assert_eq!(fields[6], ("allowed_services".to_string(), "a,b".to_string()));
    let read = session_of_fields(&sid(), &stored(&fields)).unwrap();
    assert_eq!(read.connection_id, "c");
    assert_eq!(read.broker_instance, "b");
    assert_eq!(read.service_name, "a");
    assert_eq!(read.auth_mode, AuthMode::SignedToken);
    assert_eq!((read.registered_at, read.last_heartbeat), (42, 42));
    assert_eq!(read.allowed_services, svc(&["a", "b"]));
    // No services are read back as one without a name.
    let none = session_fields(&ServiceSession::of_record(record(5, &[])), 1);
    assert_eq!(session_of_fields(&sid(), &stored(&none)).unwrap().allowed_services, svc(&[""]));
}

#[test]
fn missing_fields_have_defaults() {
    assert!(session_of_fields(&sid(), &TextMap::new()).is_none());
    let odd = stored(&[("last_heartbeat".to_string(), "soon".to_string())]);
    let read = session_of_fields(&sid(), &odd).unwrap();
    assert_eq!(read.auth_mode, AuthMode::SessionId);
    assert_eq!((read.registered_at, read.last_heartbeat), (0, 0));
    assert!(read.allowed_services.is_empty());
    assert_eq!(read.service_name, "");
}

// ── Tables ────────────────────────────────────────────────────────────────────

type Answer = Result<RelayResponseMsg, Status>;

fn part(request_id: &str, body: &[u8], end_of_body: bool) -> RelayResponse {
    RelayResponse {
        request_id: request_id.to_string(),
        status_code: 200,
        headers: vec![],
        body_chunk: body.to_vec(),
        end_of_body,
    }
}

fn push(pending: &mut PendingRequests<Sender<Answer>>, response: RelayResponse) -> bool {
    match pending.push(response) {
        Some((tx, message)) => tx.send(Ok(message)).is_ok(),
        None => false,
    }
}

#[test]
fn pending_requests_stream_multiple_chunks_until_eof() {
    let mut pending = PendingRequests::default();
    let (tx, rx) = channel();
    let request_id = pending.register(tx);

    assert!(push(&mut pending, part(&request_id, b"hello", false)));
    assert!(push(&mut pending, part(&request_id, b" world", true)));

    let first = rx.recv().expect("first chunk").expect("ok result");
    assert_eq!(first.request_id, request_id);
    assert_eq!(first.body_chunk, b"hello");
    assert!(!first.end_of_body);

    let second = rx.recv().expect("second chunk").expect("ok result");
    assert_eq!(second.body_chunk, b" world");
    assert!(second.end_of_body);

    assert!(!push(&mut pending, part(&request_id, b"", true)));
}

#[test]
fn pending_requests_timeout_only_before_first_response() {
    let mut pending: PendingRequests<Sender<Answer>> = PendingRequests::default();

    let (tx, rx) = channel();
    let request_id = pending.register(tx);
    let (waiter, status) = pending.timeout_unstarted(&request_id).expect("nothing has come");
    assert_eq!(status.code, Code::DeadlineExceeded);
    assert_eq!(status.message, "agent relay timeout");
    waiter.send(Err(status)).unwrap();
    let timed_out = rx.recv().expect("timeout result");
    assert!(timed_out.is_err());
    assert!(pending.timeout_unstarted(&request_id).is_none());

    let (tx, _rx) = channel();
    let request_id = pending.register(tx);
    assert!(push(&mut pending, part(&request_id, b"chunk", false)));
    assert!(pending.timeout_unstarted(&request_id).is_none());
    pending.remove(&request_id);
    assert!(!push(&mut pending, part(&request_id, b"", false)));
}

fn frame(connection_id: &str, payload: &[u8], is_eof: bool) -> RawConnFrame {
    RawConnFrame {
        session_id: "s".into(),
        connection_id: connection_id.into(),
        payload: payload.to_vec(),
        is_eof,
        service_name: String::new(),
    }
}

fn deliver(raw: &mut RawConnections<Sender<RawConnFrame>>, frame: RawConnFrame) -> bool {
    let connection_id = frame.connection_id.clone();
    let is_eof = frame.is_eof;
    match raw.deliver(&frame) {
        Some(tx) => {
            let sent = tx.send(frame).is_ok();
            raw.delivered(&connection_id, is_eof, sent)
        }
        None => false,
    }
}

#[test]
fn raw_connections_deliver_in_order_until_eof() {
    let mut raw = RawConnections::default();
    let (tx, rx) = channel();
    raw.register("conn-1", tx);

    assert!(deliver(&mut raw, frame("conn-1", b"hello", false)));
    assert!(deliver(&mut raw, frame("conn-1", b" world", true)));

    let first = rx.recv().expect("first");
    assert_eq!(first.payload, b"hello");
    assert!(!first.is_eof);
    let second = rx.recv().expect("second");
    assert_eq!(second.payload, b" world");
    assert!(second.is_eof);

    assert!(!deliver(&mut raw, frame("conn-1", b"", false)));
}

#[test]
fn raw_connections_deliver_unknown_connection_returns_false() {
    let mut raw = RawConnections::default();
    assert!(!deliver(&mut raw, frame("missing", b"x", false)));
}

#[test]
fn raw_connections_drop_what_cannot_be_reached() {
    let mut raw = RawConnections::default();
    let (tx, rx) = channel();
    raw.register("c", tx);
    drop(rx);
    assert!(!deliver(&mut raw, frame("c", b"x", false)));
    assert!(raw.deliver(&frame("c", b"x", false)).is_none());
}

#[test]
fn tunnels_are_kept_by_session() {
    let mut map = ConnectionMap::default();
    assert!(map.get(&sid()).is_none());
    map.insert(&sid(), 1u8);
    map.insert(&sid(), 2u8);
    assert_eq!(map.get(&sid()), Some(&2));
    map.remove(&sid());
    assert!(map.get(&sid()).is_none());
}

// ── Calls ─────────────────────────────────────────────────────────────────────

type Service = RelayService<Sender<BrokerMessage>, Sender<Answer>, Sender<RawConnFrame>>;

fn broker(auth: AuthService) -> Service {
    RelayService {
        connections: ConnectionMap::default(),
        pending_requests: PendingRequests::default(),
        raw_connections: RawConnections::default(),
        auth,
        broker_id: "test-broker".into(),
        ttl_secs: 3600,
    }
}

fn open_auth() -> AuthService {
    AuthService::new(AuthMode::SessionId, None, None, None, None)
}

fn register_msg(session_id: &str) -> AgentMessage {
    AgentMessage::Register(RegisterSession {
        session_id: session_id.to_string(),
        auth_mode: "session-id".into(),
        routes: vec![RouteEntry { service_name: SERVICE.into(), local_port: 65536 + 7 }],
    })
}

fn event<T>(message: AgentMessage) -> TunnelEvent<T> {
    TunnelEvent::Message(Some(message))
}

/// Registers a session the way an agent does, and gives the state of its tunnel.
fn register(
    broker: &mut Service,
    registry: &mut MemoryRegistry,
    token: Option<&str>,
) -> Result<(TunnelState, Receiver<BrokerMessage>), Status> {
    let (tx, rx) = channel();
    let (state, action) =
        broker.open_tunnel(TunnelState::Open { session: None }, event(register_msg(SESSION)));
    let TunnelAction::Authorize { id, services } = action else {
        panic!("the credential is to be checked");
    };
    assert_eq!(services, svc(&[SERVICE]));
    assert_eq!(id.as_str(), SESSION);
    let result = validated(&broker.auth, &services, token);
    let (state, action) = broker.open_tunnel(state, TunnelEvent::Authorized { result, now: 50 });
    let record = match action {
        TunnelAction::Store(record) => record,
        TunnelAction::Refuse(status) => {
            assert!(matches!(state, TunnelState::Closed));
            return Err(status);
        }
        _ => panic!("the session is to be stored"),
    };
    assert_eq!(record.broker_instance, "test-broker");
    assert_eq!(record.routes[0].local_port, 7);
    assert_eq!((record.registered_at, record.last_heartbeat), (50, 50));
    assert!(SessionId::from_string(record.connection_id.clone()).is_ok());
    let result = registry.register(record);
    let (state, action) = broker.open_tunnel(state, TunnelEvent::Registered { result, tx });
    let TunnelAction::Acknowledge(BrokerMessage::Ack(ack)) = action else {
        panic!("the session is to be acknowledged");
    };
    assert_eq!((ack.session_id.as_str(), ack.ttl), (SESSION, 3600));
    Ok((state, rx))
}

fn sidecar_raw(connection_id: &str, payload: &[u8], is_eof: bool) -> RawConnFrame {
    RawConnFrame {
        session_id: SESSION.into(),
        connection_id: connection_id.to_string(),
        payload: payload.to_vec(),
        is_eof,
        service_name: SERVICE.into(),
    }
}

/// Hands a frame of an agent to the broker, and sends it on to its waiter.
fn agent_sends(broker: &mut Service, state: TunnelState, frame: RawConnFrame) -> TunnelState {
    let (state, action) = broker.open_tunnel(state, event(AgentMessage::Raw(frame)));
    let TunnelAction::Deliver { waiter, frame } = action else {
        panic!("somebody waits for the frame");
    };
    let connection_id = frame.connection_id.clone();
    let is_eof = frame.is_eof;
    let sent = waiter.send(frame).is_ok();
    let (state, action) =
        broker.open_tunnel(state, TunnelEvent::Delivered { connection_id, is_eof, sent });
    assert!(matches!(action, TunnelAction::Read));
    state
}

/// Takes the action of a raw relay: what is to be sent goes to the agent.
fn raw_step(
    broker: &mut Service,
    state: RawState<Sender<BrokerMessage>>,
    event: RawEvent<Sender<RawConnFrame>>,
) -> (RawState<Sender<BrokerMessage>>, RawAction<Sender<BrokerMessage>>) {
    let (state, action) = broker.relay_connection(state, event);
    match action {
        RawAction::Send { agent, message } => {
            let sent = agent.send(message).is_ok();
            broker.relay_connection(state, RawEvent::Sent(sent))
        }
        other => (state, other),
    }
}

fn read_until_eof(frames: &Receiver<RawConnFrame>) -> Vec<u8> {
    let mut data = Vec::new();
    while let Ok(frame) = frames.try_recv() {
        data.extend_from_slice(&frame.payload);
        if frame.is_eof {
            break;
        }
    }
    data
}

#[test]
fn e2e_routed_chunked_upload_and_download() {
    let mut broker = broker(open_auth());
    let mut registry = MemoryRegistry::new(3600);
    let (mut tunnel, to_agent) = register(&mut broker, &mut registry, None).unwrap();

    let (waiter, frames) = channel();
    let first = RawEvent::First { frame: sidecar_raw("c1", b"UP1", false), waiter };
    let (mut state, mut action) = raw_step(&mut broker, RawState::First, first);
    for (payload, is_eof) in [(&b"UP2"[..], false), (b"UP3", false), (b"", true)] {
        assert!(matches!(action, RawAction::Read));
        let next = RawEvent::Frame(sidecar_raw("c1", payload, is_eof));
        (state, action) = raw_step(&mut broker, state, next);
    }
    assert!(matches!((state, action), (RawState::Closed, RawAction::Stop)));

    // The agent echoes what it gets, and mirrors the end.
    while let Ok(BrokerMessage::Raw(frame)) = to_agent.try_recv() {
        let echo = raw_frame(&frame.connection_id, frame.payload, frame.is_eof);
        tunnel = agent_sends(&mut broker, tunnel, echo);
    }
    assert_eq!(read_until_eof(&frames), b"UP1UP2UP3");
    assert!(broker.raw_connections.deliver(&sidecar_raw("c1", b"", false)).is_none());
}

#[test]
fn e2e_routed_server_sent_events() {
    let mut broker = broker(open_auth());
    let mut registry = MemoryRegistry::new(3600);
    let (mut tunnel, to_agent) = register(&mut broker, &mut registry, None).unwrap();

    let (waiter, frames) = channel();
    let first = RawEvent::First { frame: sidecar_raw("sse", b"GET /events", false), waiter };
    let (_, action) = raw_step(&mut broker, RawState::First, first);
    assert!(matches!(action, RawAction::Read));

    let BrokerMessage::Raw(opening) = to_agent.recv().unwrap() else {
        panic!("expected the opening frame");
    };
    assert_eq!(opening.payload, b"GET /events");
    for i in 1..=3 {
        let event = format!("event: tick\ndata: {i}\n\n");
        tunnel = agent_sends(&mut broker, tunnel, raw_frame("sse", event.into_bytes(), false));
    }
    agent_sends(&mut broker, tunnel, raw_frame("sse", Vec::new(), true));

    let text = String::from_utf8(read_until_eof(&frames)).unwrap();
    assert_eq!(
        text,
        "event: tick\ndata: 1\n\nevent: tick\ndata: 2\n\nevent: tick\ndata: 3\n\n"
    );
}

fn make_jwt(secret: &str) -> String {
    jwt(secret, r#"{"exp": 9999999999, "allowed_services": null}"#)
}

#[test]
fn e2e_auth_success_registers_session() {
    let secret = "test-secret";
    let auth = AuthService::new(AuthMode::SignedToken, Some(secret.into()), None, None, None);
    let mut broker = broker(auth);
    let mut registry = MemoryRegistry::new(3600);
    assert!(register(&mut broker, &mut registry, Some(&make_jwt(secret))).is_ok());
    assert!(registry.lookup(&sid(), 50).unwrap().is_some());
    assert!(broker.connections.get(&sid()).is_some());
}

#[test]
fn e2e_auth_failure_rejects_session() {
    let auth =
        AuthService::new(AuthMode::SignedToken, Some("the-real-secret".into()), None, None, None);
    let mut broker = broker(auth);
    let mut registry = MemoryRegistry::new(3600);
    let err = register(&mut broker, &mut registry, Some(&make_jwt("a-different-secret")))
        .map(|_| ())
        .expect_err("expected an auth rejection, not an ack");
    assert_eq!(err.code, Code::Unauthenticated);
    assert_eq!(err.message, "auth error: InvalidSignature");
    assert!(registry.lookup(&sid(), 50).unwrap().is_none());
    assert!(broker.connections.get(&sid()).is_none());
}

#[test]
fn e2e_outbound_tunnel_with_dns_name() {
    let mut broker = broker(open_auth());
    let mut registry = MemoryRegistry::new(3600);
    let _agent = register(&mut broker, &mut registry, None).unwrap();

    let connect = OutboundClientMsg::Connect(OutboundConnect {
        session_id: SESSION.into(),
        host: "localhost".into(),
        port: 5432,
    });
    let (state, action) =
        outbound_tunnel(OutboundState::First, OutboundEvent::Message(Some(connect)));
    let OutboundAction::LookUp(id) = action else {
        panic!("the session is to be looked up");
    };
    let found = registry.lookup(&id, 60);
    let (state, action) = outbound_tunnel(state, OutboundEvent::LookedUp(found));
    let OutboundAction::Dial { host, port } = action else {
        panic!("the target is to be dialed");
    };
    assert_eq!((host.as_str(), port), ("localhost", 5432));
    let (state, action) = outbound_tunnel(state, OutboundEvent::Dialed(Ok(())));
    let OutboundAction::Start(OutboundServerMsg::Ack(ack)) = action else {
        panic!("expected an acknowledgement");
    };
    assert!(ack.success, "outbound connect failed: {}", ack.error);

    let data = OutboundEvent::Message(Some(OutboundClientMsg::Data(b"PING".to_vec())));
    let (state, action) = outbound_tunnel(state, data);
    let OutboundAction::Write(written) = action else {
        panic!("the bytes are to be written");
    };
    let (state, action) = outbound_tunnel(state, OutboundEvent::Written(true));
    assert!(matches!(action, OutboundAction::Read));
    let (OutboundServerMsg::Data(got), false) = outbound_read(Some(written)) else {
        panic!("the echo is to be sent");
    };
    assert_eq!(got, b"PING");
    assert!(matches!(outbound_read(Some(vec![])), (OutboundServerMsg::Fin(true), true)));
    assert!(matches!(outbound_read(None), (OutboundServerMsg::Fin(true), true)));

    for ignored in [
        OutboundClientMsg::Fin(false),
        OutboundClientMsg::Connect(OutboundConnect {
            session_id: String::new(),
            host: String::new(),
            port: 0,
        }),
    ] {
        let (state, action) =
            outbound_tunnel(OutboundState::Bridging, OutboundEvent::Message(Some(ignored)));
        assert!(matches!((state, action), (OutboundState::Bridging, OutboundAction::Read)));
    }
    let (_, action) =
        outbound_tunnel(state, OutboundEvent::Message(Some(OutboundClientMsg::Fin(true))));
    assert!(matches!(action, OutboundAction::Stop));
    for over in [OutboundEvent::Message(None), OutboundEvent::Ended, OutboundEvent::Written(false)] {
        let (_, action) = outbound_tunnel(OutboundState::Bridging, over);
        assert!(matches!(action, OutboundAction::Stop));
    }
}

#[test]
fn outbound_connections_are_refused_for_a_reason() {
    let (_, action) = outbound_tunnel(
        OutboundState::First,
        OutboundEvent::Message(Some(OutboundClientMsg::Fin(true))),
    );
    let OutboundAction::Refuse(status) = action else {
        panic!("expected a refusal");
    };
    assert_eq!(status.code, Code::InvalidArgument);
    assert_eq!(status.message, "first message must be OutboundConnect");

    let connect = |id: &str| {
        OutboundEvent::Message(Some(OutboundClientMsg::Connect(OutboundConnect {
            session_id: id.to_string(),
            host: "h".into(),
            port: 65536 + 80,
        })))
    };
    let (_, action) = outbound_tunnel(OutboundState::First, connect("nope"));
    let OutboundAction::Refuse(status) = action else {
        panic!("expected a refusal");
    };
    assert_eq!(status.message, "invalid session ID: nope");

    let (state, _) = outbound_tunnel(OutboundState::First, connect(SESSION));
    let OutboundState::LookingUp { port, .. } = &state else {
        panic!("expected a lookup");
    };
    assert_eq!(*port, 80);
    let (_, action) = outbound_tunnel(state, OutboundEvent::LookedUp(Ok(None)));
    let OutboundAction::Decline(OutboundServerMsg::Ack(ack)) = action else {
        panic!("expected a refusal");
    };
    assert_eq!((ack.success, ack.error.as_str()), (false, "session not found"));

    let (state, _) = outbound_tunnel(OutboundState::First, connect(SESSION));
    let broken = Err(DetourError::RegistryError("down".into()));
    let (_, action) = outbound_tunnel(state, OutboundEvent::LookedUp(broken));
    let OutboundAction::Refuse(status) = action else {
        panic!("expected a refusal");
    };
    assert_eq!((status.code, status.message.as_str()), (Code::Internal, "registry error: down"));

    let (_, action) =
        outbound_tunnel(OutboundState::Dialing, OutboundEvent::Dialed(Err("no way".into())));
    let OutboundAction::Decline(OutboundServerMsg::Ack(ack)) = action else {
        panic!("expected a refusal");
    };
    assert_eq!(ack.error, "no way");
    let (_, action) = outbound_tunnel(OutboundState::First, OutboundEvent::Ended);
    assert!(matches!(action, OutboundAction::Stop));
}

#[test]
fn targets_are_tried_address_by_address() {
    assert!(matches!(connect_outbound_target(2, &[]), DialStep::Try(0)));
    assert!(matches!(connect_outbound_target(2, &svc(&["a"])), DialStep::Try(1)));
    let DialStep::GiveUp(reason) = connect_outbound_target(2, &svc(&["a", "b"])) else {
        panic!("all addresses failed");
    };
    assert_eq!(reason, "b");
    let DialStep::GiveUp(reason) = connect_outbound_target(0, &[]) else {
        panic!("there are no addresses");
    };
    assert_eq!(reason, "target did not resolve to any address");
}

#[test]
fn tunnels_of_agents_handle_every_message() {
    let mut broker = broker(open_auth());
    let mut registry = MemoryRegistry::new(3600);
    let open = || TunnelState::Open { session: None };

    let (state, action) = broker.open_tunnel(open(), event(register_msg("bad")));
    let TunnelAction::Refuse(status) = action else {
        panic!("expected a refusal");
    };
    assert!(matches!(state, TunnelState::Closed));
    assert_eq!((status.code, status.message.as_str()), (Code::InvalidArgument, "invalid session ID: bad"));

    let beat = |id: &str| event(AgentMessage::Heartbeat(Heartbeat { session_id: id.to_string() }));
    let (_, action) = broker.open_tunnel(open(), beat(SESSION));
    assert!(matches!(action, TunnelAction::Beat(id) if id.as_str() == SESSION));
    let (_, action) = broker.open_tunnel(open(), beat("bad"));
    assert!(matches!(action, TunnelAction::Read));
    let (_, action) = broker.open_tunnel(open(), TunnelEvent::Message(None));
    assert!(matches!(action, TunnelAction::Read));
    let (_, action) = broker.open_tunnel(open(), event(AgentMessage::Response(part("r", b"", true))));
    assert!(matches!(action, TunnelAction::Dropped));
    let (_, action) = broker.open_tunnel(open(), event(AgentMessage::Raw(raw_frame("c", vec![], true))));
    assert!(matches!(action, TunnelAction::Dropped));
    let (_, action) = broker.open_tunnel(open(), TunnelEvent::Ended);
    assert!(matches!(action, TunnelAction::Stop));

    let failed = TunnelEvent::Registered {
        result: Err(DetourError::RegistryError("down".into())),
        tx: channel().0,
    };
    let registering = TunnelState::Registering { session: None, id: sid() };
    let (_, action) = broker.open_tunnel(registering, failed);
    let TunnelAction::Refuse(status) = action else {
        panic!("expected a refusal");
    };
    assert_eq!(status.code, Code::Internal);
    assert!(broker.connections.get(&sid()).is_none());

    let (state, _rx) = register(&mut broker, &mut registry, None).unwrap();
    let (_, action) = broker.open_tunnel(state, TunnelEvent::Ended);
    assert!(matches!(action, TunnelAction::Expire(id) if id.as_str() == SESSION));
    assert!(broker.connections.get(&sid()).is_none());
}

fn chunk(session_id: &str, body: &[u8], end_of_body: bool) -> RelayRequestMsg {
    RelayRequestMsg {
        session_id: session_id.to_string(),
        service_name: SERVICE.into(),
        method: "POST".into(),
        path: "/p".into(),
        headers: vec![],
        body_chunk: body.to_vec(),
        end_of_body,
    }
}

#[test]
fn relayed_requests_reach_the_agent_and_come_back() {
    let mut broker = broker(open_auth());
    let mut registry = MemoryRegistry::new(3600);
    let (tunnel, _to_agent) = register(&mut broker, &mut registry, None).unwrap();

    let (waiter, answers) = channel();
    let first = RequestEvent::First { chunk: chunk(SESSION, b"one", false), waiter };
    let (state, action) = broker.relay_request(RequestState::First, first);
    let RequestAction::Send { message: BrokerMessage::Request(request), .. } = action else {
        panic!("expected a request for the agent");
    };
    assert_eq!((request.method.as_str(), request.path.as_str()), ("POST", "/p"));
    assert_eq!(request.body_chunk, b"one");
    assert_eq!(request.service_name, SERVICE);
    let (state, action) = broker.relay_request(state, RequestEvent::Sent(true));
    assert!(matches!(action, RequestAction::Read));

    let (state, action) =
        broker.relay_request(state, RequestEvent::Chunk(chunk("ignored", b"two", true)));
    let RequestAction::Send { message: BrokerMessage::Request(body), .. } = action else {
        panic!("expected a request for the agent");
    };
    assert_eq!((body.method.as_str(), body.path.as_str()), ("", ""));
    assert_eq!(body.request_id, request.request_id);
    assert_eq!(body.body_chunk, b"two");
    assert!(body.end_of_body);
    let (state, _) = broker.relay_request(state, RequestEvent::Sent(true));
    let (state, action) = broker.relay_request(state, RequestEvent::Ended);
    assert!(matches!(action, RequestAction::Sleep(RELAY_TIMEOUT_SECS)));

    let (_, action) =
        broker.open_tunnel(tunnel, event(AgentMessage::Response(part(&request.request_id, b"ok", true))));
    let TunnelAction::Respond { tx, message } = action else {
        panic!("somebody waits for the response");
    };
    tx.send(Ok(message)).unwrap();
    assert_eq!(answers.recv().unwrap().unwrap().body_chunk, b"ok");
    let (_, action) = broker.relay_request(state, RequestEvent::Elapsed);
    assert!(matches!(action, RequestAction::Stop));
}

#[test]
fn relayed_requests_are_refused_for_a_reason() {
    let mut broker = broker(open_auth());
    let mut registry = MemoryRegistry::new(3600);
    let (_tunnel, _to_agent) = register(&mut broker, &mut registry, None).unwrap();
    let refused = |broker: &mut Service, state, event| {
        let (_, action) = broker.relay_request(state, event);
        match action {
            RequestAction::Refuse(status) => (status.code, status.message),
            _ => panic!("expected a refusal"),
        }
    };
    let first = |id: &str| RequestEvent::First { chunk: chunk(id, b"", true), waiter: channel().0 };
    assert_eq!(
        refused(&mut broker, RequestState::First, first("x")),
        (Code::InvalidArgument, "invalid session ID: x".to_string())
    );
    assert_eq!(
        refused(&mut broker, RequestState::First, first(OTHER)),
        (Code::NotFound, "session not found".to_string())
    );
    assert_eq!(
        refused(&mut broker, RequestState::First, RequestEvent::Failed("e".into())),
        (Code::Internal, "e".to_string())
    );
    let (state, _) = broker.relay_request(RequestState::First, first(SESSION));
    let RequestState::Sending { request_id, .. } = &state else {
        panic!("the request is on its way");
    };
    let request_id = request_id.clone();
    assert_eq!(
        refused(&mut broker, state, RequestEvent::Sent(false)),
        (Code::Unavailable, "agent tunnel closed".to_string())
    );
    assert!(broker.pending_requests.timeout_unstarted(&request_id).is_none());

    let (state, _) = broker.relay_request(RequestState::First, first(SESSION));
    let (state, _) = broker.relay_request(state, RequestEvent::Sent(true));
    assert_eq!(
        refused(&mut broker, state, RequestEvent::Failed("broke".into())),
        (Code::Internal, "broke".to_string())
    );

    let (state, _) = broker.relay_request(RequestState::First, first(SESSION));
    let (state, _) = broker.relay_request(state, RequestEvent::Sent(true));
    let (state, _) = broker.relay_request(state, RequestEvent::Ended);
    let (_, action) = broker.relay_request(state, RequestEvent::Elapsed);
    let RequestAction::TimeOut { status, .. } = action else {
        panic!("the time is up");
    };
    assert_eq!(status.code, Code::DeadlineExceeded);
    let (_, action) = broker.relay_request(RequestState::First, RequestEvent::Ended);
    assert!(matches!(action, RequestAction::Stop));
}

#[test]
fn raw_connections_are_refused_for_a_reason() {
    let mut broker = broker(open_auth());
    let mut registry = MemoryRegistry::new(3600);
    let (_tunnel, to_agent) = register(&mut broker, &mut registry, None).unwrap();
    let refused = |broker: &mut Service, state, event| {
        let (_, action) = raw_step(broker, state, event);
        match action {
            RawAction::Refuse(status) => (status.code, status.message),
            _ => panic!("expected a refusal"),
        }
    };
    let first = |id: &str, connection: &str| {
        let mut frame = sidecar_raw(connection, b"", false);
        frame.session_id = id.to_string();
        RawEvent::First { frame, waiter: channel().0 }
    };
    assert_eq!(
        refused(&mut broker, RawState::First, first("x", "c")),
        (Code::InvalidArgument, "invalid session ID: x".to_string())
    );
    assert_eq!(
        refused(&mut broker, RawState::First, first(SESSION, "")),
        (Code::InvalidArgument, "connection_id required".to_string())
    );
    assert_eq!(
        refused(&mut broker, RawState::First, first(OTHER, "c")),
        (Code::NotFound, "session not found".to_string())
    );
    assert_eq!(
        refused(&mut broker, RawState::First, RawEvent::Failed("e".into())),
        (Code::Internal, "e".to_string())
    );
    let (state, _) = raw_step(&mut broker, RawState::First, first(SESSION, "c"));
    let (state, action) = raw_step(&mut broker, state, RawEvent::Ended);
    assert!(matches!((state, action), (RawState::Closed, RawAction::Stop)));
    assert!(broker.raw_connections.deliver(&sidecar_raw("c", b"", false)).is_none());

    let (state, _) = raw_step(&mut broker, RawState::First, first(SESSION, "c"));
    assert_eq!(
        refused(&mut broker, state, RawEvent::Failed("broke".into())),
        (Code::Internal, "broke".to_string())
    );
    drop(to_agent);
    assert_eq!(
        refused(&mut broker, RawState::First, first(SESSION, "c")),
        (Code::Unavailable, "agent tunnel closed".to_string())
    );
    assert!(broker.raw_connections.deliver(&sidecar_raw("c", b"", false)).is_none());
}

#[test]
fn lookups_find_sessions_of_their_service() {
    let ask = |service: &str| LookupRequest {
        session_id: SESSION.to_string(),
        service_name: service.to_string(),
    };
    assert_eq!(lookup_request(&ask("")).unwrap().as_str(), SESSION);
    let bad = LookupRequest { session_id: "x".into(), service_name: String::new() };
    assert_eq!(lookup_request(&bad).unwrap_err().code, Code::InvalidArgument);

    let found = || Ok(Some(ServiceSession::of_record(record(0, &["payments-api", "b"]))));
    let answer = lookup_session(&ask("b"), found()).unwrap();
    assert!(answer.found);
    assert_eq!((answer.auth_mode.as_str(), answer.service_name.as_str()), ("signed-token", "b"));
    let any = lookup_session(&ask(""), found()).unwrap();
    assert_eq!(any.service_name, "payments-api");
    let other = lookup_session(&ask("user-api"), found()).unwrap();
    assert_eq!((other.found, other.auth_mode.as_str(), other.service_name.as_str()), (false, "", ""));
    assert!(!lookup_session(&ask(""), Ok(None)).unwrap().found);
    let err = lookup_session(&ask(""), Err(DetourError::RegistryError("down".into()))).unwrap_err();
    assert_eq!((err.code, err.message.as_str()), (Code::Internal, "registry error: down"));
}
