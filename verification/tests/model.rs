use detour::model::config::{
    config_from_env, from_env, BrokerConfig, SidecarConfig,
};
use detour::model::error::DetourError;
use detour::model::session::{AuthMode, SessionId, TunnelStatus};
use detour::model::text_map::TextMap;

fn env(pairs: &[(&str, &str)]) -> TextMap {
    let mut map = TextMap::new();
    for (name, value) in pairs {
        map.set(name.to_string(), value.to_string());
    }
    map
}

#[test]
fn session_ids_spell_uuids() {
    for good in [
        "11111111-1111-4111-8111-111111111111",
        "AAAAAAAA-bbbb-4ccc-8ddd-eeeeeeeeeeee",
        "0123456789abcdefABCDEF0123456789",
        "{67e55044-10b1-426f-9247-bb680e5fe0c8}",
        "urn:uuid:67e55044-10b1-426f-9247-bb680e5fe0c8",
        "URN:UUID:67e55044-10b1-426f-9247-bb680e5fe0c8",
    ] {
        let id = SessionId::from_string(good.to_string()).unwrap();
        assert_eq!(id.as_str(), good);
        assert_eq!(id.to_string(), good);
        assert_eq!(SessionId::try_from(good.to_string()).unwrap(), id);
    }
    for bad in [
        "",
        "abc-123",
        "11111111-1111-4111-8111-11111111111",
        "11111111-1111-4111-8111-11111111111g",
        "111111111111-4111-8111-111111111111-",
        "{67e55044-10b1-426f-9247-bb680e5fe0c8",
        "urn:uid::67e55044-10b1-426f-9247-bb680e5fe0c8",
        "0123456789abcdefABCDEF012345678é",
    ] {
        let err = SessionId::from_string(bad.to_string()).unwrap_err();
        assert!(matches!(err, DetourError::InvalidSessionId(ref s) if s == bad));
        assert_eq!(err.to_string(), format!("invalid session ID: {bad}"));
    }
}

#[test]
fn new_session_ids_are_random_uuids() {
    let a = SessionId::new();
    let b = SessionId::default();
    assert_ne!(a, b);
    assert_eq!(a.as_str().len(), 36);
    assert_eq!(a.as_str().as_bytes()[14], b'4');
    assert!(matches!(a.as_str().as_bytes()[19], b'8' | b'9' | b'a' | b'b'));
    assert_eq!(a.as_str(), a.as_str().to_lowercase());
    assert_eq!(SessionId::from_string(a.to_string()).unwrap(), a);
    assert_eq!(a.clone(), a);
}

#[test]
fn auth_modes_have_names() {
    for (mode, name) in [
        (AuthMode::SessionId, "session-id"),
        (AuthMode::SignedToken, "signed-token"),
        (AuthMode::GcpOidc, "gcp-oidc"),
    ] {
        assert_eq!(mode.to_string(), name);
        assert_eq!(AuthMode::from_str(name).unwrap(), mode);
    }
    let err = AuthMode::from_str("Session-Id").unwrap_err();
    assert_eq!(err.to_string(), "invalid auth mode: Session-Id");
}

#[test]
fn tunnel_statuses_read_as_words() {
    assert_eq!(TunnelStatus::Connecting.to_string(), "connecting");
    assert_eq!(TunnelStatus::Connected.to_string(), "connected");
    assert_eq!(TunnelStatus::Reconnecting.to_string(), "reconnecting");
    assert_eq!(TunnelStatus::Stopped.to_string(), "stopped");
    assert_eq!(TunnelStatus::Error("x".to_string()).to_string(), "error: x");
    assert_eq!(TunnelStatus::Error("x".to_string()).clone(), TunnelStatus::Error("x".to_string()));
}

#[test]
fn errors_say_what_went_wrong() {
    let d = || "d".to_string();
    for (error, text) in [
        (DetourError::SessionNotFound(d()), "session not found: d"),
        (DetourError::SessionExpired(d()), "session expired: d"),
        (DetourError::BrokerConnectionFailed(d()), "broker connection failed: d"),
        (DetourError::TunnelError(d()), "tunnel error: d"),
        (DetourError::RelayError(d()), "relay error: d"),
        (DetourError::RegistryError(d()), "registry error: d"),
        (DetourError::AuthError(d()), "auth error: d"),
        (DetourError::ConfigError(d()), "config error: d"),
        (DetourError::Other(d()), "d"),
    ] {
        assert_eq!(error.to_string(), text);
    }
}

#[test]
fn defaults_are_what_an_empty_environment_gives() {
    let broker = BrokerConfig::default();
    let from_nothing = config_from_env(&env(&[]));
    assert_eq!(broker.host, "0.0.0.0");
    assert_eq!((broker.port, from_nothing.port), (50051, 50051));
    assert_eq!(from_nothing.host, broker.host);
    assert_eq!(from_nothing.redis_url, "redis://127.0.0.1:6379");
    assert_eq!(from_nothing.session_ttl_secs, 28800);
    assert_eq!(broker.session_ttl_secs, 28800);
    assert!(from_nothing.tls_cert_path.is_none() && from_nothing.tls_key_path.is_none());

    let sidecar = SidecarConfig::default();
    let from_nothing = from_env(&env(&[]));
    assert_eq!(sidecar.broker_url, from_nothing.broker_url);
    assert_eq!(from_nothing.app_upstream, "localhost:8080");
    assert_eq!((sidecar.listen_port, from_nothing.listen_port), (8000, 8000));
    assert_eq!((sidecar.cache_ttl_secs, from_nothing.cache_ttl_secs), (30, 30));
    assert_eq!((sidecar.max_body_size_mb, from_nothing.max_body_size_mb), (10, 10));
    assert!(from_nothing.fallback_on_miss && from_nothing.log_routed_requests);
    assert_eq!(from_nothing.service_name, "");
}

#[test]
fn settings_come_from_the_environment() {
    let broker = config_from_env(&env(&[
        ("DETOUR_HOST", "::"),
        ("PORT", "8080"),
        ("DETOUR_AUTH_MODE", "gcp-oidc"),
        ("REDIS_URL", "redis://r"),
        ("DETOUR_SESSION_TTL_SECS", "60"),
        ("TLS_CERT_PATH", "/c"),
        ("TLS_KEY_PATH", "/k"),
    ]));
    assert_eq!(broker.host, "::");
    assert_eq!(broker.port, 8080);
    assert_eq!(broker.auth_mode, AuthMode::GcpOidc);
    assert_eq!(broker.redis_url, "redis://r");
    assert_eq!(broker.session_ttl_secs, 60);
    assert_eq!(broker.tls_cert_path.as_deref(), Some("/c"));
    assert_eq!(broker.tls_key_path.as_deref(), Some("/k"));

    let sidecar = from_env(&env(&[
        ("DETOUR_LISTEN_PORT", "8081"),
        ("PORT", "1"),
        ("DETOUR_FALLBACK_ON_MISS", "false"),
        ("DETOUR_LOG_ROUTED_REQUESTS", "no"),
        ("DETOUR_SERVICE_NAME", "payments-api"),
        ("DETOUR_CACHE_TTL_SECONDS", "+5"),
        ("DETOUR_MAX_BODY_SIZE_MB", "-1"),
    ]));
    assert_eq!(sidecar.listen_port, 8081);
    assert!(!sidecar.fallback_on_miss);
    assert!(sidecar.log_routed_requests);
    assert_eq!(sidecar.service_name, "payments-api");
    assert_eq!(sidecar.cache_ttl_secs, 5);
    assert_eq!(sidecar.max_body_size_mb, 10);
}

#[test]
fn settings_that_make_no_sense_give_way_to_defaults() {
    let broker = config_from_env(&env(&[
        ("DETOUR_PORT", "65536"),
        ("PORT", "80"),
        ("DETOUR_AUTH_MODE", "none"),
        ("DETOUR_SESSION_TTL_SECS", "18446744073709551616"),
    ]));
    // A port that is set but makes no sense is not looked up under the other name.
    assert_eq!(broker.port, 50051);
    assert_eq!(broker.auth_mode, AuthMode::SessionId);
    assert_eq!(broker.session_ttl_secs, 28800);
}
