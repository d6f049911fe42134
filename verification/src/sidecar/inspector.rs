//! Which session a request asks to be routed to.
use http::header::{HeaderMap, HeaderValue};
use vstd::prelude::*;
use vstd::string::*;
use vstd::utf8::*;

use crate::model::session::{
    auth_mode_round_trip, hex_digit, hyphenated_uuid, lemma_uuid_is_visible, opt_session, uuid_text,
    AuthMode, ServiceSession, ServiceSessionView, SessionId,
};
use crate::model::wire::{LookupRequest, LookupRequestView, LookupResponse, LookupResponseView};
use crate::sidecar::cache::{cached, fresh, CacheView, SessionCache};
use crate::headers::{get_text, header_lists, header_text, valid_value};
use crate::sidecar::raw::{first_header_decides, header_field, header_line_reads_back, lists_of};
use crate::text::{chars_of, lower, lower_chars, lower_text, same_text, string_of, texts, trim};

verus! {

/// The header that names the session.
pub const ROUTE_HEADER: &'static str = "x-route-to";

/// The session that headers ask for: the value of `x-route-to` in lower case, if it spells a UUID.
pub open spec fn requested_session(headers: Map<Seq<char>, Seq<Seq<u8>>>) -> Option<Seq<char>> {
    match header_text(headers, "x-route-to"@) {
        Some(raw) => if uuid_text(raw) {
            Some(lower_text(raw))
        } else {
            None
        },
        None => None,
    }
}

/// A sidecar of the service `expected` takes sessions of the service `name`. One without a service
/// name takes all.
pub open spec fn serves(expected: Seq<char>, name: Seq<char>) -> bool {
    expected.len() == 0 || name == expected
}

/// What the headers of a request lead to.
pub enum Resolution {
    /// No session: the request goes to the app.
    PassThrough,
    /// A session that is known.
    Route(ServiceSession),
    /// A session that the broker is to be asked about.
    Ask { session_id: SessionId, request: LookupRequest },
}

/// The session that the answer of a broker describes.
pub open spec fn looked_up(id: Seq<char>, reply: LookupResponseView) -> ServiceSessionView {
    ServiceSessionView {
        session_id: id,
        connection_id: Seq::empty(),
        broker_instance: Seq::empty(),
        service_name: reply.service_name,
        auth_mode: match AuthMode::named(reply.auth_mode) {
            Some(mode) => mode,
            None => AuthMode::SessionId,
        },
        registered_at: 0,
        last_heartbeat: 0,
        allowed_services: Seq::empty(),
    }
}

/// Resolves requests to sessions, through a cache of what the broker said lately.
pub struct CachedResolver {
    pub cache: SessionCache,
    pub expected_service: String,
}

proof fn lemma_lower_hyphenated(s: Seq<char>)
    requires
        hyphenated_uuid(s),
    ensures
        hyphenated_uuid(lower_text(s)),
{
    let t = lower_text(s);
    assert forall|i: int| 0 <= i < 36 implies if i == 8 || i == 13 || i == 18 || i == 23 {
        #[trigger] t[i] == '-'
    } else {
        hex_digit(t[i])
    } by {
        assert(t[i] == lower(s[i]));
        assert(if i == 8 || i == 13 || i == 18 || i == 23 {
            s[i] == '-'
        } else {
            hex_digit(s[i])
        });
    }
}

/// The lower-case form of a text that spells a UUID spells one too.
pub proof fn lower_uuid_is_uuid(s: Seq<char>)
    requires
        uuid_text(s),
    ensures
        uuid_text(lower_text(s)),
{
    let t = lower_text(s);
    if s.len() == 32 {
        assert forall|i: int| 0 <= i < 32 implies hex_digit(#[trigger] t[i]) by {
            assert(t[i] == lower(s[i]));
            assert(hex_digit(s[i]));
        }
    } else if s.len() == 36 {
        lemma_lower_hyphenated(s);
    } else if s.len() == 38 {
        lemma_lower_hyphenated(s.subrange(1, 37));
        assert(t.subrange(1, 37) =~= lower_text(s.subrange(1, 37)));
    } else {
        lemma_lower_hyphenated(s.skip(9));
        assert(t.skip(9) =~= lower_text(s.skip(9)));
        assert(lower_text(t.take(9)) =~= lower_text(s.take(9)));
    }
}

impl CachedResolver {
    /// A resolver for the sidecar of one service.
    pub fn new(cache: SessionCache, expected_service: String) -> (r: Self)
        ensures
            r.cache == cache,
            r.expected_service == expected_service,
    {
        CachedResolver { cache, expected_service }
    }

    /// Find the session that a request with these headers goes to. A value that spells no UUID is
    /// passed through, and so is a session of another service.
    pub fn resolve(&mut self, headers: &HeaderMap<HeaderValue>, now: u128) -> (r: Resolution)
        ensures
            final(self).expected_service == old(self).expected_service,
            match requested_session(header_lists(*headers)) {
                None => r is PassThrough && final(self).cache@ == old(self).cache@,
                Some(id) => match cached(old(self).cache@, id, now) {
                    Some(record) => final(self).cache@ == old(self).cache@ && if serves(
                        old(self).expected_service@,
                        record.service_name,
                    ) {
                        r matches Resolution::Route(found) && found@ == record
                            && found@.session_id == id
                    } else {
                        r is PassThrough
                    },
                    None => {
                        &&& r matches Resolution::Ask { session_id, request }
                        &&& session_id@ == id
                        &&& request@ == (LookupRequestView {
                            session_id: id,
                            service_name: old(self).expected_service@,
                        })
                        &&& final(self).cache@ == (CacheView {
                            entries: old(self).cache@.entries.remove(id),
                            ttl_secs: old(self).cache@.ttl_secs,
                        })
                    },
                },
            },
    {
        proof {
            reveal_strlit("x-route-to");
        }
        let raw = match get_text(headers, ROUTE_HEADER) {
            Some(raw) => raw,
            None => {
                return Resolution::PassThrough;
            },
        };
        let lowered = string_of(lower_chars(chars_of(raw.as_str()).as_slice()).as_slice());
        if SessionId::from_string(raw).is_err() {
            return Resolution::PassThrough;
        }
        let sid = match SessionId::from_string(lowered) {
            Ok(sid) => sid,
            Err(_) => {
                proof {
                    lower_uuid_is_uuid(raw@);
                }
                return Resolution::PassThrough;
            },
        };
        match self.cache.get(&sid, now) {
            Some(record) => {
                if !self.expected_service.as_str().is_empty() && !same_text(
                    record.service_name.as_str(),
                    self.expected_service.as_str(),
                ) {
                    return Resolution::PassThrough;
                }
                Resolution::Route(record)
            },
            None => {
                let request = LookupRequest {
                    session_id: sid.to_string(),
                    service_name: self.expected_service.clone(),
                };
                Resolution::Ask { session_id: sid, request }
            },
        }
    }

    /// Take the answer of the broker about a session; `None` says that there was no answer. A
    /// session of this service is kept for later requests.
    pub fn resolved(
        &mut self,
        session_id: &SessionId,
        reply: Option<LookupResponse>,
        now: u128,
    ) -> (r: Option<ServiceSession>)
        ensures
            final(self).expected_service == old(self).expected_service,
            match reply {
                Some(reply) => if reply.found && serves(
                    old(self).expected_service@,
                    reply.service_name@,
                ) {
                    &&& opt_session(r) == Some(looked_up(session_id@, reply@))
                    &&& final(self).cache@ == (CacheView {
                        entries: old(self).cache@.entries.insert(
                            session_id@,
                            (looked_up(session_id@, reply@), now),
                        ),
                        ttl_secs: old(self).cache@.ttl_secs,
                    })
                } else {
                    r is None && final(self).cache@ == old(self).cache@
                },
                None => r is None && final(self).cache@ == old(self).cache@,
            },
    {
        match reply {
            None => None,
            Some(reply) => {
                if !reply.found {
                    return None;
                }
                let auth_mode = match AuthMode::from_str(reply.auth_mode.as_str()) {
                    Ok(mode) => mode,
                    Err(_) => AuthMode::SessionId,
                };
                let record = ServiceSession {
                    session_id: session_id.clone(),
                    connection_id: String::new(),
                    broker_instance: String::new(),
                    service_name: reply.service_name,
                    auth_mode,
                    registered_at: 0,
                    last_heartbeat: 0,
                    allowed_services: Vec::new(),
                };
                assert(texts(record.allowed_services@) =~= Seq::empty());
                if !self.expected_service.as_str().is_empty() && !same_text(
                    record.service_name.as_str(),
                    self.expected_service.as_str(),
                ) {
                    return None;
                }
                self.cache.insert(record.clone(), now);
                Some(record)
            },
        }
    }
}

/// A first `x-route-to` value that spells a UUID is the session that is asked for.
pub proof fn lemma_requested(headers: Map<Seq<char>, Seq<Seq<u8>>>, id: Seq<char>)
    requires
        uuid_text(id),
        headers.contains_key("x-route-to"@),
        headers["x-route-to"@][0] == encode_utf8(id),
    ensures
        requested_session(headers) == Some(lower_text(id)),
{
    lemma_uuid_is_visible(id);
    encode_utf8_decode_utf8(id);
}

/// A request whose first `x-route-to` line names a session asks for that session, however the name
/// of the header and the digits are written, and whatever the other lines say.
pub proof fn route_line_is_honoured(
    lines: Seq<Seq<char>>,
    k: int,
    n: nat,
    name: Seq<char>,
    id: Seq<char>,
)
    requires
        0 <= k < n,
        lower_text(name) == "x-route-to"@,
        uuid_text(id),
        lines[k] == name + seq![':', ' '] + id,
        !lists_of(lines, k as nat).contains_key("x-route-to"@),
    ensures
        requested_session(lists_of(lines, n)) == Some(lower_text(id)),
{
    reveal_strlit("x-route-to");
    lemma_uuid_is_visible(id);
    assert(valid_value(encode_utf8(id)));
    assert(name.len() == lower_text(name).len() == 10);
    assert forall|i: int| 0 <= i < name.len() implies '\0' <= #[trigger] name[i] <= '\u{7f}' by {
        let c = name[i];
        assert(lower_text(name)[i] == lower(c));
        assert(("x-route-to"@[i] as u32) < 128);
        char_u32_cast(c, c as u32);
    }
    assert(trim(id) == id);
    header_line_reads_back(name, id);
    first_header_decides(lines, (k + 1) as nat, n, "x-route-to"@);
    lemma_requested(lists_of(lines, n), id);
}

/// A request without an `x-route-to` line asks for no session.
pub proof fn request_without_route_is_passed_through(lines: Seq<Seq<char>>, n: nat)
    requires
        forall|k: int|
            0 <= k < n ==> (header_field(#[trigger] lines[k]) matches Some((name, value)) ==> name
                != "x-route-to"@),
    ensures
        requested_session(lists_of(lines, n)) is None,
{
    lemma_not_listed(lines, n, "x-route-to"@);
}

proof fn lemma_not_listed(lines: Seq<Seq<char>>, n: nat, wanted: Seq<char>)
    requires
        forall|k: int|
            0 <= k < n ==> (header_field(#[trigger] lines[k]) matches Some((name, value)) ==> name
                != wanted),
    ensures
        !lists_of(lines, n).contains_key(wanted),
    decreases n,
{
    if n > 0 {
        lemma_not_listed(lines, (n - 1) as nat, wanted);
        assert(header_field(lines[n - 1]) matches Some((name, value)) ==> name != wanted);
    }
}

/// A sidecar that has a service name never routes to a session of another service, whether the
/// cache or the broker names it.
pub proof fn sessions_are_not_cross_routed(
    expected: Seq<char>,
    cache: CacheView,
    id: Seq<char>,
    now: u128,
    reply: LookupResponseView,
)
    requires
        expected.len() > 0,
    ensures
        serves(expected, looked_up(id, reply).service_name) ==> reply.service_name == expected,
        cached(cache, id, now) matches Some(record) ==> (serves(expected, record.service_name)
            <==> record.service_name == expected),
{
}

/// A session that the broker confirmed is found again without asking, until its time is up.
pub proof fn confirmed_session_is_kept(
    before: CacheView,
    after: CacheView,
    id: Seq<char>,
    reply: LookupResponseView,
    at: u128,
    now: u128,
)
    requires
        after.ttl_secs == before.ttl_secs,
        after.entries == before.entries.insert(id, (looked_up(id, reply), at)),
    ensures
        fresh(at, now, before.ttl_secs) ==> cached(after, id, now) == Some(looked_up(id, reply)),
        !fresh(at, now, before.ttl_secs) ==> cached(after, id, now) is None,
{
}

/// What the broker says of a session is taken over: its service, and the mode that it names or else
/// `session-id`. Nothing else is known of it.
pub proof fn answer_is_taken_over(id: Seq<char>, reply: LookupResponseView, mode: AuthMode)
    ensures
        looked_up(id, reply).session_id == id,
        looked_up(id, reply).service_name == reply.service_name,
        reply.auth_mode == mode.name() ==> looked_up(id, reply).auth_mode == mode,
        AuthMode::named(reply.auth_mode) is None ==> looked_up(id, reply).auth_mode
            == AuthMode::SessionId,
        looked_up(id, reply).connection_id.len() == 0,
        looked_up(id, reply).broker_instance.len() == 0,
        looked_up(id, reply).allowed_services.len() == 0,
        looked_up(id, reply).registered_at == 0,
        looked_up(id, reply).last_heartbeat == 0,
{
    auth_mode_round_trip(mode, reply.auth_mode);
}

/// A session is asked for only by a UUID in the first `x-route-to`, and in lower case.
pub proof fn only_uuids_are_asked_for(headers: Map<Seq<char>, Seq<Seq<u8>>>, value: Seq<char>)
    ensures
        !headers.contains_key("x-route-to"@) ==> requested_session(headers) is None,
        headers.contains_key("x-route-to"@) && headers["x-route-to"@][0] == encode_utf8(value)
            && !uuid_text(value) ==> requested_session(headers) is None,
        requested_session(headers) matches Some(id) ==> uuid_text(id) && headers.contains_key(
            "x-route-to"@,
        ),
{
    encode_utf8_decode_utf8(value);
    if let Some(raw) = header_text(headers, "x-route-to"@) {
        if uuid_text(raw) {
            lower_uuid_is_uuid(raw);
        }
    }
}

/// A sidecar takes the sessions of its own service, and one without a service takes all.
pub proof fn sidecar_takes_its_own(expected: Seq<char>, name: Seq<char>)
    ensures
        serves(name, name),
        serves(Seq::empty(), name),
        serves(expected, name) ==> expected == name || expected.len() == 0,
{
}

} // verus!
