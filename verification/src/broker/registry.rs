//! Which sessions are registered, and until when.
use vstd::hash_map::StringHashMap;
use vstd::prelude::*;
use vstd::string::*;

use crate::model::error::DetourError;
use crate::model::session::{
    auth_mode_round_trip, kept, opt_session, AuthMode, ServiceSession, ServiceSessionView,
    SessionId, SessionRecord,
};
use crate::model::text_map::{text_at, TextMap};
use crate::text::{
    chars_of, concat, decimal_text, join, join_strings, join_then_split, number_reads_back,
    number_text, parse_decimal, parse_number, same_text, split_chars, split_on, string_of, texts,
    views,
};

verus! {

/// The seconds from the last heartbeat to `now`; none if the clock did not move on.
pub open spec fn age(last_heartbeat: u64, now: u64) -> int {
    if now >= last_heartbeat {
        now - last_heartbeat
    } else {
        0
    }
}

/// A session is alive at `now` if its last heartbeat is no more than `ttl_secs` old.
pub open spec fn alive(session: ServiceSessionView, now: u64, ttl_secs: u64) -> bool {
    age(session.last_heartbeat, now) <= ttl_secs
}

/// A session stands in for the service `name`; every session does for the empty name.
pub open spec fn stands_for(session: ServiceSessionView, name: Seq<char>) -> bool {
    name.len() == 0 || session.allowed_services.contains(name)
}

/// The sessions that a registry holds, and how long each lives without a heartbeat.
pub struct RegistryView {
    pub sessions: Map<Seq<char>, ServiceSessionView>,
    pub ttl_secs: u64,
}

/// The session that a registry gives for `id` at `now`.
pub open spec fn registered(registry: RegistryView, id: Seq<char>, now: u64) -> Option<
    ServiceSessionView,
> {
    if registry.sessions.contains_key(id) && alive(registry.sessions[id], now, registry.ttl_secs) {
        Some(registry.sessions[id])
    } else {
        None
    }
}

/// A registry once a session has been registered, in place of one with the same identity.
pub open spec fn after_register(registry: RegistryView, record: SessionRecord) -> RegistryView {
    RegistryView {
        sessions: registry.sessions.insert(record.session_id@, kept(record)),
        ttl_secs: registry.ttl_secs,
    }
}

/// A registry once a session has been looked up: without it, if it is not alive.
pub open spec fn after_lookup(registry: RegistryView, id: Seq<char>, now: u64) -> RegistryView {
    if registered(registry, id, now) is None {
        after_expire(registry, id)
    } else {
        registry
    }
}

/// A registry once a session that it holds has sent a heartbeat.
pub open spec fn after_heartbeat(registry: RegistryView, id: Seq<char>, now: u64) -> RegistryView {
    RegistryView {
        sessions: registry.sessions.insert(
            id,
            ServiceSessionView { last_heartbeat: now, ..registry.sessions[id] },
        ),
        ttl_secs: registry.ttl_secs,
    }
}

/// A registry once a session has been dropped.
pub open spec fn after_expire(registry: RegistryView, id: Seq<char>) -> RegistryView {
    RegistryView { sessions: registry.sessions.remove(id), ttl_secs: registry.ttl_secs }
}

/// Keeps the sessions that are registered. `now` is the time in seconds. A registry that could not
/// do what it was asked for says so, and then nothing is promised of what it holds.
pub trait SessionRegistry {
    /// What the registry holds.
    spec fn held(&self) -> RegistryView;

    /// Register a session, in place of one with the same identity.
    fn register(&mut self, record: SessionRecord) -> (r: Result<(), DetourError>)
        ensures
            r is Ok ==> final(self).held() == after_register(old(self).held(), record),
    ;

    /// Look a session up. One that is no longer alive is dropped.
    fn lookup(&mut self, id: &SessionId, now: u64) -> (r: Result<
        Option<ServiceSession>,
        DetourError,
    >)
        ensures
            r matches Ok(found) ==> opt_session(found) == registered(old(self).held(), id@, now)
                && final(self).held() == after_lookup(old(self).held(), id@, now),
    ;

    /// Note that a session is alive.
    fn heartbeat(&mut self, id: &SessionId, now: u64) -> (r: Result<(), DetourError>)
        ensures
            r is Ok ==> final(self).held() == after_heartbeat(old(self).held(), id@, now),
    ;

    /// Drop a session.
    fn expire(&mut self, id: &SessionId) -> (r: Result<(), DetourError>)
        ensures
            r is Ok ==> final(self).held() == after_expire(old(self).held(), id@),
    ;
}

// ── In memory ─────────────────────────────────────────────────────────────────

/// A registry in the memory of the broker.
pub struct MemoryRegistry {
    sessions: StringHashMap<ServiceSession>,
    ttl_secs: u64,
}

impl MemoryRegistry {
    /// A registry without sessions.
    pub fn new(ttl_secs: u64) -> (r: Self)
        ensures
            r.held() == (RegistryView { sessions: Map::empty(), ttl_secs }),
    {
        let r = MemoryRegistry { sessions: StringHashMap::new(), ttl_secs };
        assert(r.held().sessions =~= Map::empty());
        r
    }
}

impl SessionRegistry for MemoryRegistry {
    closed spec fn held(&self) -> RegistryView {
        RegistryView {
            sessions: self.sessions@.map_values(|s: ServiceSession| s@),
            ttl_secs: self.ttl_secs,
        }
    }

    fn register(&mut self, record: SessionRecord) -> (r: Result<(), DetourError>)
        ensures
            r is Ok,
    {
        let key = record.session_id.to_string();
        self.sessions.insert(key, ServiceSession::of_record(record));
        assert(self.held().sessions =~= old(self).held().sessions.insert(
            record.session_id@,
            kept(record),
        ));
        Ok(())
    }

    fn lookup(&mut self, id: &SessionId, now: u64) -> (r: Result<
        Option<ServiceSession>,
        DetourError,
    >)
        ensures
            r is Ok,
    {
        let mut dead = false;
        match self.sessions.get(id.as_str()) {
            Some(session) => {
                let age: u64 = now.saturating_sub(session.last_heartbeat);
                if age > self.ttl_secs {
                    dead = true;
                } else {
                    return Ok(Some(session.clone()));
                }
            },
            None => {
                assert(self.held().sessions =~= self.held().sessions.remove(id@));
            },
        }
        if dead {
            self.sessions.remove(id.as_str());
            assert(self.held().sessions =~= old(self).held().sessions.remove(id@));
        }
        Ok(None)
    }

    fn heartbeat(&mut self, id: &SessionId, now: u64) -> (r: Result<(), DetourError>)
        ensures
            r is Ok <==> old(self).held().sessions.contains_key(id@),
            r matches Err(e) ==> e is SessionNotFound && e.detail() == id@ && final(self).held()
                == old(self).held(),
    {
        let renewed = match self.sessions.get(id.as_str()) {
            Some(session) => {
                let mut renewed = session.clone();
                renewed.last_heartbeat = now;
                renewed
            },
            None => {
                return Err(DetourError::SessionNotFound(id.to_string()));
            },
        };
        self.sessions.insert(id.to_string(), renewed);
        assert(self.held().sessions =~= old(self).held().sessions.insert(id@, renewed@));
        Ok(())
    }

    fn expire(&mut self, id: &SessionId) -> (r: Result<(), DetourError>)
        ensures
            r is Ok,
    {
        self.sessions.remove(id.as_str());
        assert(self.held().sessions =~= old(self).held().sessions.remove(id@));
        Ok(())
    }
}

// ── By service ────────────────────────────────────────────────────────────────

/// A session that was found, if it stands in for the service `name`.
pub open spec fn for_service(
    found: Option<ServiceSessionView>,
    name: Seq<char>,
) -> Option<ServiceSessionView> {
    match found {
        Some(session) => if stands_for(session, name) {
            Some(session)
        } else {
            None
        },
        None => None,
    }
}

/// Keep a session that was found only if it stands in for a service.
pub fn restrict_to_service(found: Option<ServiceSession>, name: &str) -> (r: Option<ServiceSession>)
    ensures
        opt_session(r) == for_service(opt_session(found), name@),
{
    match found {
        None => None,
        Some(session) => {
            if name.is_empty() {
                return Some(session);
            }
            let ghost names = texts(session.allowed_services@);
            let mut i: usize = 0;
            while i < session.allowed_services.len()
                invariant
                    i <= session.allowed_services@.len(),
                    names == texts(session.allowed_services@),
                    session == found->Some_0,
                    found is Some,
                    forall|k: int| 0 <= k < i ==> names[k] != name@,
                decreases session.allowed_services@.len() - i,
            {
                assert(names[i as int] == session.allowed_services@[i as int]@);
                if same_text(session.allowed_services[i].as_str(), name) {
                    return Some(session);
                }
                i = i + 1;
            }
            None
        },
    }
}

// ── In Redis ──────────────────────────────────────────────────────────────────

/// The key under which a session is stored.
pub open spec fn session_key(id: Seq<char>) -> Seq<char> {
    "localroute:session:"@ + id
}

/// The key under which a session is stored.
pub fn redis_key(id: &SessionId) -> (r: String)
    ensures
        r@ == session_key(id@),
{
    concat("localroute:session:", id.as_str())
}

/// The views of pairs of strings.
pub open spec fn pairs_view(pairs: Seq<(String, String)>) -> Seq<(Seq<char>, Seq<char>)> {
    pairs.map_values(|p: (String, String)| (p.0@, p.1@))
}

/// The fields that are stored of a session registered at `now`.
pub open spec fn stored_fields(session: ServiceSessionView, now: u64) -> Seq<
    (Seq<char>, Seq<char>),
> {
    seq![
        ("connection_id"@, session.connection_id),
        ("broker_instance"@, session.broker_instance),
        ("service_name"@, session.service_name),
        ("auth_mode"@, session.auth_mode.name()),
        ("registered_at"@, decimal_text(now as nat)),
        ("last_heartbeat"@, decimal_text(now as nat)),
        ("allowed_services"@, join(session.allowed_services, ","@)),
    ]
}

/// Write out the fields of a session that is registered at `now`.
pub fn session_fields(session: &ServiceSession, now: u64) -> (r: Vec<(String, String)>)
    ensures
        pairs_view(r@) == stored_fields(session@, now),
{
    let mut out: Vec<(String, String)> = Vec::new();
    out.push(("connection_id".to_string(), session.connection_id.clone()));
    out.push(("broker_instance".to_string(), session.broker_instance.clone()));
    out.push(("service_name".to_string(), session.service_name.clone()));
    out.push(("auth_mode".to_string(), session.auth_mode.to_string()));
    out.push(("registered_at".to_string(), number_text(now)));
    out.push(("last_heartbeat".to_string(), number_text(now)));
    out.push(
        ("allowed_services".to_string(), join_strings(session.allowed_services.as_slice(), ",")),
    );
    assert(pairs_view(out@) =~= stored_fields(session@, now));
    out
}

/// A text field, empty where it is missing.
pub open spec fn field_or_empty(fields: Map<Seq<char>, Seq<char>>, name: Seq<char>) -> Seq<char> {
    match text_at(fields, name) {
        Some(text) => text,
        None => Seq::empty(),
    }
}

/// A number field, zero where it is missing or no number.
pub open spec fn field_or_zero(fields: Map<Seq<char>, Seq<char>>, name: Seq<char>) -> u64 {
    match text_at(fields, name) {
        Some(text) => match parse_decimal(text, u64::MAX as nat) {
            Some(n) => n as u64,
            None => 0,
        },
        None => 0,
    }
}

/// The session that stored fields describe; none if there are no fields.
pub open spec fn stored_session(fields: Map<Seq<char>, Seq<char>>, id: Seq<char>) -> Option<
    ServiceSessionView,
> {
    if fields.dom() =~= Set::empty() {
        None
    } else {
        Some(
            ServiceSessionView {
                session_id: id,
                connection_id: field_or_empty(fields, "connection_id"@),
                broker_instance: field_or_empty(fields, "broker_instance"@),
                service_name: field_or_empty(fields, "service_name"@),
                auth_mode: match text_at(fields, "auth_mode"@) {
                    Some(name) => match AuthMode::named(name) {
                        Some(mode) => mode,
                        None => AuthMode::SessionId,
                    },
                    None => AuthMode::SessionId,
                },
                registered_at: field_or_zero(fields, "registered_at"@),
                last_heartbeat: field_or_zero(fields, "last_heartbeat"@),
                allowed_services: match text_at(fields, "allowed_services"@) {
                    Some(text) => split_on(text, ','),
                    None => Seq::empty(),
                },
            },
        )
    }
}

fn text_field(fields: &TextMap, name: &str) -> (r: String)
    ensures
        r@ == field_or_empty(fields@, name@),
{
    match fields.get(name) {
        Some(text) => text,
        None => String::new(),
    }
}

fn number_field(fields: &TextMap, name: &str) -> (r: u64)
    ensures
        r == field_or_zero(fields@, name@),
{
    match fields.get(name) {
        Some(text) => match parse_number(chars_of(text.as_str()).as_slice(), u64::MAX) {
            Some(n) => n,
            None => 0,
        },
        None => 0,
    }
}

fn list_field(fields: &TextMap, name: &str) -> (r: Vec<String>)
    ensures
        texts(r@) == match text_at(fields@, name@) {
            Some(text) => split_on(text, ','),
            None => Seq::empty(),
        },
{
    let mut out: Vec<String> = Vec::new();
    match fields.get(name) {
        None => {
            assert(texts(out@) =~= Seq::empty());
        },
        Some(text) => {
            let parts = split_chars(chars_of(text.as_str()).as_slice(), ',');
            let mut i: usize = 0;
            while i < parts.len()
                invariant
                    i <= parts@.len(),
                    texts(out@) == views(parts@).take(i as int),
                decreases parts@.len() - i,
            {
                let ghost before = out@;
                out.push(string_of(parts[i].as_slice()));
                assert(texts(out@) =~= texts(before).push(parts@[i as int]@));
                assert(views(parts@).take(i + 1) =~= views(parts@).take(i as int).push(
                    parts@[i as int]@,
                ));
                i = i + 1;
            }
            assert(views(parts@).take(i as int) =~= views(parts@));
        },
    }
    out
}

/// Read a session back from its stored fields.
pub fn session_of_fields(id: &SessionId, fields: &TextMap) -> (r: Option<ServiceSession>)
    ensures
        opt_session(r) == stored_session(fields@, id@),
{
    if fields.is_empty() {
        return None;
    }
    let auth_mode = match fields.get("auth_mode") {
        Some(name) => match AuthMode::from_str(name.as_str()) {
            Ok(mode) => mode,
            Err(_) => AuthMode::SessionId,
        },
        None => AuthMode::SessionId,
    };
    Some(
        ServiceSession {
            session_id: id.clone(),
            connection_id: text_field(fields, "connection_id"),
            broker_instance: text_field(fields, "broker_instance"),
            service_name: text_field(fields, "service_name"),
            auth_mode,
            registered_at: number_field(fields, "registered_at"),
            last_heartbeat: number_field(fields, "last_heartbeat"),
            allowed_services: list_field(fields, "allowed_services"),
        },
    )
}

// ── Laws ──────────────────────────────────────────────────────────────────────

/// A session that was registered is found until its time is up without a heartbeat, and the other
/// sessions are not touched.
pub proof fn registered_session_is_found(registry: RegistryView, record: SessionRecord, now: u64)
    ensures
        registered(after_register(registry, record), record.session_id@, now) == if age(
            record.last_heartbeat,
            now,
        ) <= registry.ttl_secs {
            Some(kept(record))
        } else {
            None
        },
        forall|id: Seq<char>|
            id != record.session_id@ ==> #[trigger] registered(
                after_register(registry, record),
                id,
                now,
            ) == registered(registry, id, now),
{
}

/// A heartbeat keeps a session alive for another full time to live, and changes nothing else of
/// it.
pub proof fn heartbeat_renews(registry: RegistryView, id: Seq<char>, beat: u64, now: u64)
    requires
        registry.sessions.contains_key(id),
    ensures
        registered(after_heartbeat(registry, id, beat), id, now) == if age(beat, now)
            <= registry.ttl_secs {
            Some(ServiceSessionView { last_heartbeat: beat, ..registry.sessions[id] })
        } else {
            None
        },
{
}

/// A session that was dropped is not found, at any time.
pub proof fn expired_session_is_gone(registry: RegistryView, id: Seq<char>, now: u64)
    ensures
        registered(after_expire(registry, id), id, now) is None,
{
}

/// Looking a session up does not change what any later lookup finds.
pub proof fn lookup_hides_nothing(
    registry: RegistryView,
    id: Seq<char>,
    now: u64,
    other: Seq<char>,
    later: u64,
)
    requires
        now <= later,
    ensures
        registered(after_lookup(registry, id, now), other, later) == registered(
            registry,
            other,
            later,
        ),
{
}

/// A session stands in for exactly the services that its routes name.
pub proof fn session_stands_for_its_routes(record: SessionRecord, name: Seq<char>)
    requires
        name.len() > 0,
    ensures
        stands_for(kept(record), name) <==> exists|i: int|
            0 <= i < record.routes@.len() && #[trigger] record.routes@[i].service_name@ == name,
{
    let names = kept(record).allowed_services;
    if names.contains(name) {
        let i = choose|i: int| 0 <= i < names.len() && names[i] == name;
        assert(record.routes@[i].service_name@ == name);
    }
    if exists|i: int|
        0 <= i < record.routes@.len() && #[trigger] record.routes@[i].service_name@ == name {
        let i = choose|i: int|
            0 <= i < record.routes@.len() && #[trigger] record.routes@[i].service_name@ == name;
        assert(names[i] == name);
    }
}

/// `map` once fields have been set in it.
pub open spec fn with_fields(
    map: Map<Seq<char>, Seq<char>>,
    fields: Seq<(Seq<char>, Seq<char>)>,
) -> Map<Seq<char>, Seq<char>>
    decreases fields.len(),
{
    if fields.len() == 0 {
        map
    } else {
        let rest = with_fields(map, fields.drop_last());
        rest.insert(fields.last().0, fields.last().1)
    }
}

proof fn lemma_fields_in_map(
    before: Map<Seq<char>, Seq<char>>,
    session: ServiceSessionView,
    now: u64,
)
    ensures
        ({
            let stored = with_fields(before, stored_fields(session, now));
            &&& text_at(stored, "connection_id"@) == Some(session.connection_id)
            &&& text_at(stored, "broker_instance"@) == Some(session.broker_instance)
            &&& text_at(stored, "service_name"@) == Some(session.service_name)
            &&& text_at(stored, "auth_mode"@) == Some(session.auth_mode.name())
            &&& text_at(stored, "registered_at"@) == Some(decimal_text(now as nat))
            &&& text_at(stored, "last_heartbeat"@) == Some(decimal_text(now as nat))
            &&& text_at(stored, "allowed_services"@) == Some(join(session.allowed_services, ","@))
        }),
{
    reveal_strlit("connection_id");
    reveal_strlit("broker_instance");
    reveal_strlit("service_name");
    reveal_strlit("auth_mode");
    reveal_strlit("registered_at");
    reveal_strlit("last_heartbeat");
    reveal_strlit("allowed_services");
    assert("connection_id"@[0] != "registered_at"@[0]);
    assert("connection_id"@.len() == 13 && "registered_at"@.len() == 13);
    assert("broker_instance"@.len() == 15 && "service_name"@.len() == 12);
    assert("auth_mode"@.len() == 9 && "last_heartbeat"@.len() == 14);
    assert("allowed_services"@.len() == 16);
    let fields = stored_fields(session, now);
    let m0 = before;
    let m1 = m0.insert(fields[0].0, fields[0].1);
    let m2 = m1.insert(fields[1].0, fields[1].1);
    let m3 = m2.insert(fields[2].0, fields[2].1);
    let m4 = m3.insert(fields[3].0, fields[3].1);
    let m5 = m4.insert(fields[4].0, fields[4].1);
    let m6 = m5.insert(fields[5].0, fields[5].1);
    let m7 = m6.insert(fields[6].0, fields[6].1);
    let f6 = fields.drop_last();
    let f5 = f6.drop_last();
    let f4 = f5.drop_last();
    let f3 = f4.drop_last();
    let f2 = f3.drop_last();
    let f1 = f2.drop_last();
    let f0 = f1.drop_last();
    assert(with_fields(m0, f0) == m0);
    assert(with_fields(m0, f1) == m1);
    assert(with_fields(m0, f2) == m2);
    assert(with_fields(m0, f3) == m3);
    assert(with_fields(m0, f4) == m4);
    assert(with_fields(m0, f5) == m5);
    assert(with_fields(m0, f6) == m6);
    assert(with_fields(m0, fields) == m7);
    assert(text_at(m7, "connection_id"@) == Some(session.connection_id));
    assert(text_at(m7, "broker_instance"@) == Some(session.broker_instance));
    assert(text_at(m7, "service_name"@) == Some(session.service_name));
    assert(text_at(m7, "auth_mode"@) == Some(session.auth_mode.name()));
    assert(text_at(m7, "registered_at"@) == Some(decimal_text(now as nat)));
    assert(text_at(m7, "last_heartbeat"@) == Some(decimal_text(now as nat)));
    assert(text_at(m7, "allowed_services"@) == Some(join(session.allowed_services, ","@)));
}

/// A session that was stored is read back as it was, with the time it was stored at, whatever was
/// stored under its key before. The names of its services must be free of commas, and there must
/// be one: an empty list is read back as a list of one empty name.
pub proof fn stored_session_reads_back(
    before: Map<Seq<char>, Seq<char>>,
    session: ServiceSessionView,
    now: u64,
)
    requires
        session.allowed_services.len() > 0,
        forall|i: int|
            0 <= i < session.allowed_services.len() ==> !(
            #[trigger] session.allowed_services[i]).contains(','),
    ensures
        stored_session(
            with_fields(before, stored_fields(session, now)),
            session.session_id,
        ) == Some(ServiceSessionView { registered_at: now, last_heartbeat: now, ..session }),
{
    reveal_strlit(",");
    lemma_fields_in_map(before, session, now);
    auth_mode_round_trip(session.auth_mode, session.auth_mode.name());
    number_reads_back(now as nat, u64::MAX as nat);
    assert(","@ =~= seq![',']);
    join_then_split(session.allowed_services, ',');
}

/// A registered session is given for as many seconds behind its last heartbeat as the registry
/// keeps sessions, with all that was registered of it, and not for a second more.
pub proof fn session_lives_for_its_time(registry: RegistryView, record: SessionRecord, waited: u64)
    requires
        record.last_heartbeat + waited <= u64::MAX,
    ensures
        registered(
            after_register(registry, record),
            record.session_id@,
            (record.last_heartbeat + waited) as u64,
        ) matches Some(found) ==> waited <= registry.ttl_secs && found.session_id
            == record.session_id@ && found.connection_id == record.connection_id@
            && found.broker_instance == record.broker_instance@ && found.auth_mode
            == record.auth_mode && found.registered_at == record.registered_at
            && found.last_heartbeat == record.last_heartbeat,
        waited <= registry.ttl_secs ==> registered(
            after_register(registry, record),
            record.session_id@,
            (record.last_heartbeat + waited) as u64,
        ) is Some,
{
}

/// A session whose last heartbeat lies ahead of the clock is given.
pub proof fn clock_that_falls_back_hides_nothing(
    registry: RegistryView,
    record: SessionRecord,
    now: u64,
)
    requires
        now <= record.last_heartbeat,
    ensures
        registered(after_register(registry, record), record.session_id@, now) is Some,
{
}

/// A heartbeat at some time is as good as a registration at that time: the session is given for as
/// many seconds behind it as the registry keeps sessions. Other sessions are not touched.
pub proof fn heartbeat_counts_from_its_time(
    registry: RegistryView,
    id: Seq<char>,
    beat: u64,
    waited: u64,
    other: Seq<char>,
    now: u64,
)
    requires
        registry.sessions.contains_key(id),
        beat + waited <= u64::MAX,
        other != id,
    ensures
        registered(after_heartbeat(registry, id, beat), id, (beat + waited) as u64) is Some
            <==> waited <= registry.ttl_secs,
        registered(after_heartbeat(registry, id, beat), other, now) == registered(
            registry,
            other,
            now,
        ),
        registered(after_expire(registry, id), other, now) == registered(registry, other, now),
        after_heartbeat(registry, id, beat).ttl_secs == registry.ttl_secs,
        after_expire(registry, id).ttl_secs == registry.ttl_secs,
{
}

/// A session that is given for a service is one that was found, whole; it is given for each of its
/// services, wherever in its list that stands, for no other one, and for no name at all.
pub proof fn session_is_given_for_its_services(
    session: ServiceSessionView,
    name: Seq<char>,
    i: int,
)
    requires
        0 <= i < session.allowed_services.len(),
        forall|k: int| 0 <= k < session.allowed_services.len() ==> #[trigger] session.allowed_services[k] != name,
        name.len() > 0,
    ensures
        for_service(Some(session), session.allowed_services[i]) == Some(session),
        for_service(Some(session), Seq::empty()) == Some(session),
        for_service(Some(session), name) is None,
        for_service(None, session.allowed_services[i]) is None,
        for_service(None, Seq::empty()) is None,
{
    assert(session.allowed_services.contains(session.allowed_services[i]));
    if session.allowed_services.contains(name) {
        let k = choose|k: int|
            0 <= k < session.allowed_services.len() && session.allowed_services[k] == name;
        assert(session.allowed_services[k] != name);
    }
}

/// What is stored of a session stands under the names of its fields, beside what else is stored
/// there.
pub proof fn fields_are_stored_by_name(
    before: Map<Seq<char>, Seq<char>>,
    session: ServiceSessionView,
    now: u64,
)
    ensures
        ({
            let stored = with_fields(before, stored_fields(session, now));
            &&& text_at(stored, "connection_id"@) == Some(session.connection_id)
            &&& text_at(stored, "broker_instance"@) == Some(session.broker_instance)
            &&& text_at(stored, "service_name"@) == Some(session.service_name)
            &&& text_at(stored, "auth_mode"@) == Some(session.auth_mode.name())
            &&& text_at(stored, "registered_at"@) == Some(decimal_text(now as nat))
            &&& text_at(stored, "last_heartbeat"@) == Some(decimal_text(now as nat))
            &&& text_at(stored, "allowed_services"@) == Some(join(session.allowed_services, ","@))
        }),
{
    lemma_fields_in_map(before, session, now);
}

/// A field that is missing, or that says nothing, counts as nothing: no text, the number zero, no
/// services, and the mode `session-id`.
pub proof fn missing_fields_count_as_nothing(
    fields: Map<Seq<char>, Seq<char>>,
    id: Seq<char>,
    name: Seq<char>,
)
    requires
        fields.contains_key(name),
    ensures
        stored_session(Map::empty(), id) is None,
        stored_session(fields, id) matches Some(session) && session.session_id == id && (
        !fields.contains_key("connection_id"@) ==> session.connection_id.len() == 0) && (
        !fields.contains_key("broker_instance"@) ==> session.broker_instance.len() == 0) && (
        !fields.contains_key("service_name"@) ==> session.service_name.len() == 0) && (
        !fields.contains_key("allowed_services"@) ==> session.allowed_services.len() == 0) && (
        !fields.contains_key("registered_at"@) ==> session.registered_at == 0) && (
        !fields.contains_key("last_heartbeat"@) ==> session.last_heartbeat == 0) && (
        fields.contains_key("last_heartbeat"@) && parse_decimal(
            fields["last_heartbeat"@],
            u64::MAX as nat,
        ) is None ==> session.last_heartbeat == 0) && (!fields.contains_key("auth_mode"@)
            ==> session.auth_mode == AuthMode::SessionId) && (fields.contains_key("auth_mode"@)
            && AuthMode::named(fields["auth_mode"@]) is None ==> session.auth_mode
            == AuthMode::SessionId),
{
    assert(fields.dom().contains(name));
    assert(!Set::<Seq<char>>::empty().contains(name));
    assert(Map::<Seq<char>, Seq<char>>::empty().dom() =~= Set::empty());
}

/// Sessions are stored apart: no two identities share a key.
pub proof fn sessions_are_stored_apart(a: Seq<char>, b: Seq<char>)
    ensures
        session_key(a) == session_key(b) ==> a == b,
        session_key(a) == "localroute:session:"@ + a,
{
    let n = "localroute:session:"@.len() as int;
    assert(session_key(a).skip(n) =~= a);
    assert(session_key(b).skip(n) =~= b);
}

/// A session that was looked up after its time is dropped, so that no heartbeat brings it back; one
/// that was found is kept as it is, and so are the others.
pub proof fn dead_session_is_dropped(
    registry: RegistryView,
    id: Seq<char>,
    now: u64,
    other: Seq<char>,
)
    requires
        other != id,
        registry.sessions.contains_key(id),
    ensures
        after_lookup(registry, id, now).sessions.contains_key(id) <==> now
            <= registry.sessions[id].last_heartbeat + registry.ttl_secs,
        after_lookup(registry, id, now).sessions.contains_key(id) ==> after_lookup(
            registry,
            id,
            now,
        ).sessions[id] == registry.sessions[id],
        after_lookup(registry, id, now).sessions.contains_key(other)
            <==> registry.sessions.contains_key(other),
        registry.sessions.contains_key(other) ==> after_lookup(registry, id, now).sessions[other]
            == registry.sessions[other],
        after_lookup(registry, id, now).ttl_secs == registry.ttl_secs,
{
}

} // verus!
