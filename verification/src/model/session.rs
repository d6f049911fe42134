//! Sessions: their identity, how they are trusted, and how their tunnel fares.
use vstd::prelude::*;
use vstd::string::*;
use vstd::utf8::*;

use crate::model::config::ServiceRoute;
use crate::model::error::DetourError;
use crate::text::{clone_strings, concat, lower, lower_text, same_text, texts};

verus! {

// ── Session identity ──────────────────────────────────────────────────────────

/// A hexadecimal digit, in either case.
pub open spec fn hex_digit(c: char) -> bool {
    ||| '0' as u32 <= c as u32 <= '9' as u32
    ||| 'a' as u32 <= c as u32 <= 'f' as u32
    ||| 'A' as u32 <= c as u32 <= 'F' as u32
}

/// 32 hexadecimal digits in groups of 8, 4, 4, 4 and 12, with hyphens between the groups.
pub open spec fn hyphenated_uuid(s: Seq<char>) -> bool {
    &&& s.len() == 36
    &&& forall|i: int|
        0 <= i < 36 ==> if i == 8 || i == 13 || i == 18 || i == 23 {
            #[trigger] s[i] == '-'
        } else {
            hex_digit(s[i])
        }
}

/// A text that spells a UUID: 32 hexadecimal digits, the hyphenated form, the hyphenated form in
/// braces, or the hyphenated form behind `urn:uuid:` in any case.
pub open spec fn uuid_text(s: Seq<char>) -> bool {
    ||| s.len() == 32 && forall|i: int| 0 <= i < 32 ==> hex_digit(#[trigger] s[i])
    ||| hyphenated_uuid(s)
    ||| s.len() == 38 && s[0] == '{' && s[37] == '}' && hyphenated_uuid(s.subrange(1, 37))
    ||| s.len() == 45 && lower_text(s.take(9)) == "urn:uuid:"@ && hyphenated_uuid(s.skip(9))
}

/// The hyphenated form of a random UUID: lower-case digits, the version 4 and one of the variant
/// digits 8, 9, a and b.
pub open spec fn random_uuid_text(s: Seq<char>) -> bool {
    &&& hyphenated_uuid(s)
    &&& lower_text(s) == s
    &&& s[14] == '4'
    &&& s[19] == '8' || s[19] == '9' || s[19] == 'a' || s[19] == 'b'
}

/// A text that spells a UUID is visible ASCII without blanks.
pub proof fn lemma_uuid_is_visible(s: Seq<char>)
    requires
        uuid_text(s),
    ensures
        s.len() > 0,
        forall|i: int| 0 <= i < s.len() ==> 33 <= (#[trigger] s[i]) as u32 <= 126,
        encode_utf8(s).len() == s.len(),
        forall|i: int| 0 <= i < s.len() ==> 33 <= (#[trigger] encode_utf8(s)[i]) <= 126,
{
    reveal_strlit("urn:uuid:");
    assert forall|i: int| 0 <= i < s.len() implies 33 <= (#[trigger] s[i]) as u32 <= 126 by {
        if s.len() == 32 {
            assert(hex_digit(s[i]));
        } else if s.len() == 36 {
            assert(hyphenated_uuid(s));
        } else if s.len() == 38 {
            if 0 < i < 37 {
                assert(s.subrange(1, 37)[i - 1] == s[i]);
            }
        } else if i < 9 {
            assert(lower_text(s.take(9))[i] == lower(s[i]));
        } else {
            assert(s.skip(9)[i - 9] == s[i]);
        }
    }
    assert forall|i: int| 0 <= i < s.len() implies '\0' <= #[trigger] s[i] <= '\u{7f}' by {
        let c = s[i];
        char_u32_cast(c, c as u32);
        assert(33 <= c as u32 <= 126);
    }
    is_ascii_chars_encode_utf8(s);
    assert forall|i: int| 0 <= i < s.len() implies 33 <= (#[trigger] encode_utf8(s)[i]) <= 126 by {
        assert(s[i] as u8 == encode_utf8(s)[i]);
    }
}

/// `uuid::Uuid::parse_str` accepts exactly the texts that spell a UUID in one of its four forms.
#[verifier::external_body]
fn spells_uuid(s: &str) -> (r: bool)
    ensures
        r == uuid_text(s@),
{
    uuid::Uuid::parse_str(s).is_ok()
}

/// `uuid::Uuid::new_v4`, written out by its `to_string`, is the hyphenated form of a random UUID.
/// Which one is left to chance.
#[verifier::external_body]
pub(crate) fn fresh_uuid() -> (r: String)
    ensures
        random_uuid_text(r@),
{
    uuid::Uuid::new_v4().to_string()
}

/// The identity of a session: a text that spells a UUID, kept as it was given.
#[derive(Debug, PartialEq, Eq, Hash)]
pub struct SessionId(String);

impl View for SessionId {
    type V = Seq<char>;

    closed spec fn view(&self) -> Seq<char> {
        self.0@
    }
}

impl Clone for SessionId {
    fn clone(&self) -> (r: Self)
        ensures
            r == *self,
    {
        proof {
            use_type_invariant(self);
        }
        SessionId(self.0.clone())
    }
}

impl SessionId {
    #[verifier::type_invariant]
    spec fn spelled(&self) -> bool {
        uuid_text(self.0@)
    }

    /// A new session identity, at random.
    pub fn new() -> (r: Self)
        ensures
            random_uuid_text(r@),
    {
        SessionId(fresh_uuid())
    }

    /// Take a text as a session identity, if it spells a UUID.
    pub fn from_string(s: String) -> (r: Result<Self, DetourError>)
        ensures
            match r {
                Ok(id) => uuid_text(s@) && id@ == s@,
                Err(e) => !uuid_text(s@) && e == DetourError::InvalidSessionId(s),
            },
    {
        if spells_uuid(s.as_str()) {
            Ok(SessionId(s))
        } else {
            Err(DetourError::InvalidSessionId(s))
        }
    }

    /// The text of the identity, which spells a UUID.
    pub fn as_str(&self) -> (r: &str)
        ensures
            r@ == self@,
            uuid_text(r@),
    {
        proof {
            use_type_invariant(self);
        }
        self.0.as_str()
    }

    /// The text of the identity, as a new string.
    pub fn to_string(&self) -> (r: String)
        ensures
            r@ == self@,
    {
        self.0.clone()
    }
}

impl Default for SessionId {
    fn default() -> (r: Self)
        ensures
            random_uuid_text(r@),
    {
        SessionId::new()
    }
}

impl TryFrom<String> for SessionId {
    type Error = DetourError;

    fn try_from(s: String) -> (r: Result<Self, DetourError>)
        ensures
            match r {
                Ok(id) => uuid_text(s@) && id@ == s@,
                Err(e) => !uuid_text(s@) && e == DetourError::InvalidSessionId(s),
            },
    {
        SessionId::from_string(s)
    }
}

/// What `try_from` gives is stated over the view, in its own `ensures`.
impl vstd::std_specs::convert::TryFromSpecImpl<String> for SessionId {
    open spec fn obeys_try_from_spec() -> bool {
        false
    }

    open spec fn try_from_spec(s: String) -> Result<Self, DetourError> {
        if uuid_text(s@) {
            Ok(choose|id: SessionId| id@ == s@)
        } else {
            Err(DetourError::InvalidSessionId(s))
        }
    }
}

/// A random identity is accepted when it is given back as text.
pub proof fn random_uuid_is_accepted(s: Seq<char>)
    requires
        random_uuid_text(s),
    ensures
        uuid_text(s),
{
}

// ── Trust ─────────────────────────────────────────────────────────────────────

/// How a broker decides whom to trust.
#[derive(Debug, Clone, Copy, PartialEq, Eq, Structural)]
pub enum AuthMode {
    /// The session identity is the credential.
    SessionId,
    /// A token signed with a shared secret.
    SignedToken,
    /// A Google identity token.
    GcpOidc,
}

impl AuthMode {
    /// The name of the mode.
    pub open spec fn name(&self) -> Seq<char> {
        match self {
            AuthMode::SessionId => "session-id"@,
            AuthMode::SignedToken => "signed-token"@,
            AuthMode::GcpOidc => "gcp-oidc"@,
        }
    }

    /// The mode of a name.
    pub open spec fn named(name: Seq<char>) -> Option<AuthMode> {
        if name == "session-id"@ {
            Some(AuthMode::SessionId)
        } else if name == "signed-token"@ {
            Some(AuthMode::SignedToken)
        } else if name == "gcp-oidc"@ {
            Some(AuthMode::GcpOidc)
        } else {
            None
        }
    }

    /// The name of the mode.
    pub fn to_string(&self) -> (r: String)
        ensures
            r@ == self.name(),
    {
        match self {
            AuthMode::SessionId => "session-id".to_string(),
            AuthMode::SignedToken => "signed-token".to_string(),
            AuthMode::GcpOidc => "gcp-oidc".to_string(),
        }
    }

    /// Find the mode of a name.
    pub fn from_str(s: &str) -> (r: Result<Self, DetourError>)
        ensures
            match r {
                Ok(mode) => AuthMode::named(s@) == Some(mode),
                Err(e) => AuthMode::named(s@) is None && e is InvalidAuthMode && e.detail() == s@,
            },
    {
        if same_text(s, "session-id") {
            Ok(AuthMode::SessionId)
        } else if same_text(s, "signed-token") {
            Ok(AuthMode::SignedToken)
        } else if same_text(s, "gcp-oidc") {
            Ok(AuthMode::GcpOidc)
        } else {
            Err(DetourError::InvalidAuthMode(s.to_string()))
        }
    }
}

/// The name of a mode leads back to the mode, and to no other.
pub proof fn auth_mode_round_trip(mode: AuthMode, name: Seq<char>)
    ensures
        AuthMode::named(mode.name()) == Some(mode),
        AuthMode::named(name) == Some(mode) ==> name == mode.name(),
{
    reveal_strlit("session-id");
    reveal_strlit("signed-token");
    reveal_strlit("gcp-oidc");
    assert("session-id"@.len() != "signed-token"@.len());
    assert("session-id"@.len() != "gcp-oidc"@.len());
    assert("signed-token"@.len() != "gcp-oidc"@.len());
}

// ── Tunnels ───────────────────────────────────────────────────────────────────

/// How the tunnel of a session fares.
#[derive(Debug, PartialEq, Eq)]
pub enum TunnelStatus {
    Connecting,
    Connected,
    Reconnecting,
    Stopped,
    Error(String),
}

impl Clone for TunnelStatus {
    fn clone(&self) -> (r: Self)
        ensures
            r == *self,
    {
        match self {
            TunnelStatus::Connecting => TunnelStatus::Connecting,
            TunnelStatus::Connected => TunnelStatus::Connected,
            TunnelStatus::Reconnecting => TunnelStatus::Reconnecting,
            TunnelStatus::Stopped => TunnelStatus::Stopped,
            TunnelStatus::Error(msg) => TunnelStatus::Error(msg.clone()),
        }
    }
}

impl TunnelStatus {
    /// What a status reads as.
    pub open spec fn text(&self) -> Seq<char> {
        match self {
            TunnelStatus::Connecting => "connecting"@,
            TunnelStatus::Connected => "connected"@,
            TunnelStatus::Reconnecting => "reconnecting"@,
            TunnelStatus::Stopped => "stopped"@,
            TunnelStatus::Error(msg) => "error: "@ + msg@,
        }
    }

    /// The status as text.
    pub fn to_string(&self) -> (r: String)
        ensures
            r@ == self.text(),
    {
        match self {
            TunnelStatus::Connecting => "connecting".to_string(),
            TunnelStatus::Connected => "connected".to_string(),
            TunnelStatus::Reconnecting => "reconnecting".to_string(),
            TunnelStatus::Stopped => "stopped".to_string(),
            TunnelStatus::Error(msg) => concat("error: ", msg.as_str()),
        }
    }
}

// ── Records ───────────────────────────────────────────────────────────────────

/// What a broker keeps of a registered session.
#[derive(Debug)]
pub struct SessionRecord {
    pub session_id: SessionId,
    pub connection_id: String,
    pub broker_instance: String,
    pub auth_mode: AuthMode,
    pub registered_at: u64,
    pub last_heartbeat: u64,
    pub routes: Vec<ServiceRoute>,
}

/// The names of the services that routes lead to.
pub open spec fn route_names(routes: Seq<ServiceRoute>) -> Seq<Seq<char>> {
    routes.map_values(|r: ServiceRoute| r.service_name@)
}

/// Collect the names of the services that routes lead to.
pub fn service_names(routes: &[ServiceRoute]) -> (r: Vec<String>)
    ensures
        texts(r@) == route_names(routes@),
{
    let mut out: Vec<String> = Vec::new();
    let mut i: usize = 0;
    while i < routes.len()
        invariant
            i <= routes@.len(),
            texts(out@) == route_names(routes@).take(i as int),
        decreases routes@.len() - i,
    {
        let ghost before = out@;
        out.push(routes[i].service_name.clone());
        assert(texts(out@) =~= texts(before).push(routes@[i as int].service_name@));
        assert(route_names(routes@).take(i + 1) =~= route_names(routes@).take(i as int).push(
            routes@[i as int].service_name@,
        ));
        i = i + 1;
    }
    assert(route_names(routes@).take(i as int) =~= route_names(routes@));
    out
}

/// A session as the registries keep it: under the service of its first route, with the names of
/// all services that it may stand in for.
#[derive(Debug)]
pub struct ServiceSession {
    pub session_id: SessionId,
    pub connection_id: String,
    pub broker_instance: String,
    pub service_name: String,
    pub auth_mode: AuthMode,
    pub registered_at: u64,
    pub last_heartbeat: u64,
    pub allowed_services: Vec<String>,
}

/// What a [`ServiceSession`] says.
pub struct ServiceSessionView {
    pub session_id: Seq<char>,
    pub connection_id: Seq<char>,
    pub broker_instance: Seq<char>,
    pub service_name: Seq<char>,
    pub auth_mode: AuthMode,
    pub registered_at: u64,
    pub last_heartbeat: u64,
    pub allowed_services: Seq<Seq<char>>,
}

impl View for ServiceSession {
    type V = ServiceSessionView;

    open spec fn view(&self) -> ServiceSessionView {
        ServiceSessionView {
            session_id: self.session_id@,
            connection_id: self.connection_id@,
            broker_instance: self.broker_instance@,
            service_name: self.service_name@,
            auth_mode: self.auth_mode,
            registered_at: self.registered_at,
            last_heartbeat: self.last_heartbeat,
            allowed_services: texts(self.allowed_services@),
        }
    }
}

/// The view of an optional session.
pub open spec fn opt_session(s: Option<ServiceSession>) -> Option<ServiceSessionView> {
    match s {
        Some(s) => Some(s@),
        None => None,
    }
}

impl Clone for ServiceSession {
    fn clone(&self) -> (r: Self)
        ensures
            r@ == self@,
    {
        ServiceSession {
            session_id: self.session_id.clone(),
            connection_id: self.connection_id.clone(),
            broker_instance: self.broker_instance.clone(),
            service_name: self.service_name.clone(),
            auth_mode: self.auth_mode,
            registered_at: self.registered_at,
            last_heartbeat: self.last_heartbeat,
            allowed_services: clone_strings(self.allowed_services.as_slice()),
        }
    }
}

/// The service of the first route; none if there are no routes.
pub open spec fn first_name(names: Seq<Seq<char>>) -> Seq<char> {
    if names.len() > 0 {
        names[0]
    } else {
        Seq::empty()
    }
}

/// A session record as the registries keep it.
pub open spec fn kept(record: SessionRecord) -> ServiceSessionView {
    ServiceSessionView {
        session_id: record.session_id@,
        connection_id: record.connection_id@,
        broker_instance: record.broker_instance@,
        service_name: first_name(route_names(record.routes@)),
        auth_mode: record.auth_mode,
        registered_at: record.registered_at,
        last_heartbeat: record.last_heartbeat,
        allowed_services: route_names(record.routes@),
    }
}

impl ServiceSession {
    /// A session record as the registries keep it.
    pub fn of_record(record: SessionRecord) -> (r: Self)
        ensures
            r@ == kept(record),
    {
        let allowed_services = service_names(record.routes.as_slice());
        let service_name = if record.routes.len() > 0 {
            record.routes[0].service_name.clone()
        } else {
            String::new()
        };
        ServiceSession {
            session_id: record.session_id,
            connection_id: record.connection_id,
            broker_instance: record.broker_instance,
            service_name,
            auth_mode: record.auth_mode,
            registered_at: record.registered_at,
            last_heartbeat: record.last_heartbeat,
            allowed_services,
        }
    }
}

// ── Laws ──────────────────────────────────────────────────────────────────────

/// A session that is kept has what was registered of it: its service is that of the first route, and
/// it may stand in for the service of each route, in their order.
pub proof fn record_is_kept_whole(record: SessionRecord, i: int)
    requires
        0 <= i < record.routes@.len(),
    ensures
        kept(record).session_id == record.session_id@,
        kept(record).connection_id == record.connection_id@,
        kept(record).broker_instance == record.broker_instance@,
        kept(record).auth_mode == record.auth_mode,
        kept(record).registered_at == record.registered_at,
        kept(record).last_heartbeat == record.last_heartbeat,
        kept(record).service_name == record.routes@[0].service_name@,
        kept(record).allowed_services.len() == record.routes@.len(),
        kept(record).allowed_services[i] == record.routes@[i].service_name@,
{
}

/// Each way of trust has its name, and no other name leads to one.
pub proof fn modes_have_their_names(name: Seq<char>)
    ensures
        AuthMode::SessionId.name() == "session-id"@,
        AuthMode::SignedToken.name() == "signed-token"@,
        AuthMode::GcpOidc.name() == "gcp-oidc"@,
        AuthMode::named(name) is Some <==> name == "session-id"@ || name == "signed-token"@ || name
            == "gcp-oidc"@,
{
}

/// A status reads as its name; an error also says what it is.
pub proof fn statuses_read_as_their_names(status: TunnelStatus)
    ensures
        status is Connecting ==> status.text() == "connecting"@,
        status is Connected ==> status.text() == "connected"@,
        status is Reconnecting ==> status.text() == "reconnecting"@,
        status is Stopped ==> status.text() == "stopped"@,
        status matches TunnelStatus::Error(message) ==> status.text() == "error: "@ + message@,
{
}

} // verus!
