//! The settings of the three programs, and what they are when nothing is said.
use vstd::prelude::*;
use vstd::string::*;

use crate::model::session::{auth_mode_round_trip, AuthMode};
use crate::model::text_map::{text_at, TextMap};
use crate::text::{
    chars_of, decimal_round_trip, decimal_text, digit, number_reads_back, only_digits_are_read,
    opt_text, parse_decimal, parse_number, same_text,
};

verus! {

/// The settings of a broker.
#[derive(Debug)]
pub struct BrokerConfig {
    pub host: String,
    pub port: u16,
    pub auth_mode: AuthMode,
    pub redis_url: String,
    pub session_ttl_secs: u64,
    pub tls_cert_path: Option<String>,
    pub tls_key_path: Option<String>,
}

impl Default for BrokerConfig {
    fn default() -> (r: Self)
        ensures
            r.host@ == "0.0.0.0"@,
            r.port == 50051,
            r.auth_mode == AuthMode::SessionId,
            r.redis_url@ == "redis://127.0.0.1:6379"@,
            r.session_ttl_secs == 28800,
            r.tls_cert_path is None,
            r.tls_key_path is None,
    {
        BrokerConfig {
            host: "0.0.0.0".to_string(),
            port: 50051,
            auth_mode: AuthMode::SessionId,
            redis_url: "redis://127.0.0.1:6379".to_string(),
            session_ttl_secs: 28800,
            tls_cert_path: None,
            tls_key_path: None,
        }
    }
}

/// The settings of a sidecar.
#[derive(Debug)]
pub struct SidecarConfig {
    pub broker_url: String,
    pub app_upstream: String,
    pub auth_mode: AuthMode,
    pub fallback_on_miss: bool,
    pub cache_ttl_secs: u64,
    pub log_routed_requests: bool,
    pub listen_port: u16,
    pub max_body_size_mb: u64,
    pub service_name: String,
}

impl Default for SidecarConfig {
    fn default() -> (r: Self)
        ensures
            r.broker_url@ == "http://localhost:50051"@,
            r.app_upstream@ == "localhost:8080"@,
            r.auth_mode == AuthMode::SessionId,
            r.fallback_on_miss,
            r.cache_ttl_secs == 30,
            r.log_routed_requests,
            r.listen_port == 8000,
            r.max_body_size_mb == 10,
            r.service_name@ == Seq::<char>::empty(),
    {
        SidecarConfig {
            broker_url: "http://localhost:50051".to_string(),
            app_upstream: "localhost:8080".to_string(),
            auth_mode: AuthMode::SessionId,
            fallback_on_miss: true,
            cache_ttl_secs: 30,
            log_routed_requests: true,
            listen_port: 8000,
            max_body_size_mb: 10,
            service_name: String::new(),
        }
    }
}

/// A service, and the local port that stands in for it.
#[derive(Debug)]
pub struct ServiceRoute {
    pub service_name: String,
    pub local_port: u16,
}

impl Clone for ServiceRoute {
    fn clone(&self) -> (r: Self)
        ensures
            r == *self,
    {
        ServiceRoute { service_name: self.service_name.clone(), local_port: self.local_port }
    }
}

impl View for ServiceRoute {
    type V = (Seq<char>, u16);

    open spec fn view(&self) -> (Seq<char>, u16) {
        (self.service_name@, self.local_port)
    }
}

/// The views of routes.
pub open spec fn routes_view(routes: Seq<ServiceRoute>) -> Seq<(Seq<char>, u16)> {
    routes.map_values(|r: ServiceRoute| r@)
}

/// The settings of an agent.
#[derive(Debug)]
pub struct AgentConfig {
    pub broker_url: String,
    pub routes: Vec<ServiceRoute>,
    pub auth_mode: AuthMode,
    /// The bearer token that the modes other than `session-id` present.
    pub auth_token: Option<String>,
    pub socks5_port: u16,
}

// ── Settings from the environment ─────────────────────────────────────────────

/// The value of the variable `name`, or else `default`.
pub open spec fn env_or(
    env: Map<Seq<char>, Seq<char>>,
    name: Seq<char>,
    default: Seq<char>,
) -> Seq<char> {
    if env.contains_key(name) {
        env[name]
    } else {
        default
    }
}

/// The number up to `max` that a text spells, or else `default`.
pub open spec fn number_or(text: Option<Seq<char>>, max: nat, default: nat) -> nat {
    match text {
        Some(s) => match parse_decimal(s, max) {
            Some(n) => n,
            None => default,
        },
        None => default,
    }
}

/// The authentication mode that the environment names; `session-id` if it names none.
pub open spec fn env_auth_mode(env: Map<Seq<char>, Seq<char>>) -> AuthMode {
    match text_at(env, "DETOUR_AUTH_MODE"@) {
        Some(s) => match AuthMode::named(s) {
            Some(mode) => mode,
            None => AuthMode::SessionId,
        },
        None => AuthMode::SessionId,
    }
}

/// The port setting: `name` if it is set at all, or else `PORT`.
pub open spec fn env_port(env: Map<Seq<char>, Seq<char>>, name: Seq<char>) -> Option<Seq<char>> {
    if env.contains_key(name) {
        Some(env[name])
    } else {
        text_at(env, "PORT"@)
    }
}

/// A switch that is on unless its variable says `false`.
pub open spec fn env_switch(env: Map<Seq<char>, Seq<char>>, name: Seq<char>) -> bool {
    text_at(env, name) != Some("false"@)
}

fn text_or(env: &TextMap, name: &str, default: &str) -> (r: String)
    ensures
        r@ == env_or(env@, name@, default@),
{
    match env.get(name) {
        Some(v) => v,
        None => default.to_string(),
    }
}

fn read_number(text: Option<String>, max: u64, default: u64) -> (r: u64)
    requires
        default <= max,
    ensures
        r == number_or(opt_text(text), max as nat, default as nat),
        r <= max,
{
    match text {
        Some(s) => match parse_number(chars_of(s.as_str()).as_slice(), max) {
            Some(n) => n,
            None => default,
        },
        None => default,
    }
}

fn auth_mode_of(env: &TextMap) -> (r: AuthMode)
    ensures
        r == env_auth_mode(env@),
{
    match env.get("DETOUR_AUTH_MODE") {
        Some(s) => match AuthMode::from_str(s.as_str()) {
            Ok(mode) => mode,
            Err(_) => AuthMode::SessionId,
        },
        None => AuthMode::SessionId,
    }
}

fn port_of(env: &TextMap, name: &str, default: u16) -> (r: u16)
    ensures
        r == number_or(env_port(env@, name@), u16::MAX as nat, default as nat),
{
    let text = match env.get(name) {
        Some(v) => Some(v),
        None => env.get("PORT"),
    };
    read_number(text, u16::MAX as u64, default as u64) as u16
}

fn switch_of(env: &TextMap, name: &str) -> (r: bool)
    ensures
        r == env_switch(env@, name@),
{
    match env.get(name) {
        Some(v) => !same_text(v.as_str(), "false"),
        None => true,
    }
}

/// The settings of a broker that the environment asks for.
pub fn config_from_env(env: &TextMap) -> (r: BrokerConfig)
    ensures
        r.host@ == env_or(env@, "DETOUR_HOST"@, "0.0.0.0"@),
        r.port == number_or(env_port(env@, "DETOUR_PORT"@), u16::MAX as nat, 50051),
        r.auth_mode == env_auth_mode(env@),
        r.redis_url@ == env_or(env@, "REDIS_URL"@, "redis://127.0.0.1:6379"@),
        r.session_ttl_secs == number_or(
            text_at(env@, "DETOUR_SESSION_TTL_SECS"@),
            u64::MAX as nat,
            28800,
        ),
        opt_text(r.tls_cert_path) == text_at(env@, "TLS_CERT_PATH"@),
        opt_text(r.tls_key_path) == text_at(env@, "TLS_KEY_PATH"@),
{
    BrokerConfig {
        host: text_or(env, "DETOUR_HOST", "0.0.0.0"),
        port: port_of(env, "DETOUR_PORT", 50051),
        auth_mode: auth_mode_of(env),
        redis_url: text_or(env, "REDIS_URL", "redis://127.0.0.1:6379"),
        session_ttl_secs: read_number(env.get("DETOUR_SESSION_TTL_SECS"), u64::MAX, 28800),
        tls_cert_path: env.get("TLS_CERT_PATH"),
        tls_key_path: env.get("TLS_KEY_PATH"),
    }
}

/// The settings of a sidecar that the environment asks for.
pub fn from_env(env: &TextMap) -> (r: SidecarConfig)
    ensures
        r.broker_url@ == env_or(env@, "DETOUR_BROKER_URL"@, "http://localhost:50051"@),
        r.app_upstream@ == env_or(env@, "APP_UPSTREAM"@, "localhost:8080"@),
        r.auth_mode == env_auth_mode(env@),
        r.fallback_on_miss == env_switch(env@, "DETOUR_FALLBACK_ON_MISS"@),
        r.cache_ttl_secs == number_or(
            text_at(env@, "DETOUR_CACHE_TTL_SECONDS"@),
            u64::MAX as nat,
            30,
        ),
        r.log_routed_requests == env_switch(env@, "DETOUR_LOG_ROUTED_REQUESTS"@),
        r.listen_port == number_or(env_port(env@, "DETOUR_LISTEN_PORT"@), u16::MAX as nat, 8000),
        r.max_body_size_mb == number_or(
            text_at(env@, "DETOUR_MAX_BODY_SIZE_MB"@),
            u64::MAX as nat,
            10,
        ),
        r.service_name@ == env_or(env@, "DETOUR_SERVICE_NAME"@, ""@),
{
    SidecarConfig {
        broker_url: text_or(env, "DETOUR_BROKER_URL", "http://localhost:50051"),
        app_upstream: text_or(env, "APP_UPSTREAM", "localhost:8080"),
        auth_mode: auth_mode_of(env),
        fallback_on_miss: switch_of(env, "DETOUR_FALLBACK_ON_MISS"),
        cache_ttl_secs: read_number(env.get("DETOUR_CACHE_TTL_SECONDS"), u64::MAX, 30),
        log_routed_requests: switch_of(env, "DETOUR_LOG_ROUTED_REQUESTS"),
        listen_port: port_of(env, "DETOUR_LISTEN_PORT", 8000),
        max_body_size_mb: read_number(env.get("DETOUR_MAX_BODY_SIZE_MB"), u64::MAX, 10),
        service_name: text_or(env, "DETOUR_SERVICE_NAME", ""),
    }
}

// ── Laws ──────────────────────────────────────────────────────────────────────

/// A number that is set counts if it is within its bound; otherwise, and where none is set, the
/// default does.
pub proof fn numbers_fall_back(n: nat, text: Seq<char>, max: nat, default: nat)
    ensures
        number_or(Some(decimal_text(n)), max, default) == (if n <= max {
            n
        } else {
            default
        }),
        number_or(None, max, default) == default,
        (text.len() == 0 || (text[0] != '+' && !(48 <= text[0] as u32 <= 57))) ==> number_or(
            Some(text),
            max,
            default,
        ) == default,
        default <= max ==> number_or(Some(text), max, default) <= max,
{
    decimal_round_trip(n);
    only_digits_are_read(text, max);
    if n <= max {
        number_reads_back(n, max);
    } else {
        let digits = decimal_text(n);
        assert forall|i: int| 0 <= i < digits.len() implies 48 <= (#[trigger] digits[i]) as u32
            <= 57 by {
            assert(digit(digits[i]));
        }
        only_digits_are_read(digits, max);
    }
}

/// A port is set by its own variable, or else by `PORT`; a switch is off only if its variable says
/// `false`; another setting is what its variable says, or else the default.
pub proof fn settings_are_read_from_their_variables(
    env: Map<Seq<char>, Seq<char>>,
    name: Seq<char>,
    value: Seq<char>,
    general: Seq<char>,
    default: Seq<char>,
)
    requires
        !env.contains_key(name),
        name != "PORT"@,
        value != "false"@,
    ensures
        env_port(env.insert("PORT"@, general).insert(name, value), name) == Some(value),
        env_port(env.insert("PORT"@, general), name) == Some(general),
        !env.contains_key("PORT"@) ==> env_port(env, name) is None,
        env_or(env.insert(name, value), name, default) == value,
        env_or(env, name, default) == default,
        env_switch(env.insert(name, value), name),
        env_switch(env, name),
        !env_switch(env.insert(name, "false"@), name),
{
}

/// The mode of trust is the one that `DETOUR_AUTH_MODE` names, or else `session-id`.
pub proof fn mode_is_read_from_its_variable(
    env: Map<Seq<char>, Seq<char>>,
    mode: AuthMode,
    name: Seq<char>,
)
    requires
        AuthMode::named(name) is None,
    ensures
        env_auth_mode(env.insert("DETOUR_AUTH_MODE"@, mode.name())) == mode,
        env_auth_mode(env.insert("DETOUR_AUTH_MODE"@, name)) == AuthMode::SessionId,
        !env.contains_key("DETOUR_AUTH_MODE"@) ==> env_auth_mode(env) == AuthMode::SessionId,
{
    auth_mode_round_trip(mode, name);
}

} // verus!
