//! Starting a session from the command line.
use vstd::prelude::*;
use vstd::slice::slice_subrange;
use vstd::string::*;

use crate::agent::status::{chrono_now, timestamp};
use crate::cli::gcloud::{quote, quoted, CliError};
use crate::json::{items_view, list, members_view, object, text, Json, JsonView};
use crate::model::config::{routes_view, ServiceRoute};
use crate::model::session::{AuthMode, SessionId, TunnelStatus};
use crate::text::{
    all_digits, chars_of, concat, decimal_round_trip, decimal_text, digit, last_index,
    last_index_is, lemma_last_index_is, number_reads_back, number_text, parse_decimal, parse_number,
    rfind_char, same_text, string_of, texts,
};

verus! {

/// The arguments of `detour start`.
pub struct StartArgs {
    pub routes: Vec<String>,
    pub broker: String,
    pub output: String,
    pub auth_mode: String,
}

// ── Routes ────────────────────────────────────────────────────────────────────

/// The service and the port of a route `SERVICE:PORT`, or what is wrong with it. The last colon
/// parts the two.
pub open spec fn route_of(s: Seq<char>) -> Result<(Seq<char>, u16), Seq<char>> {
    match last_index(s, ':') {
        None => Err("invalid route "@ + quoted(s) + ": expected SERVICE:PORT"@),
        Some(colon) => match parse_decimal(s.skip(colon + 1), u16::MAX as nat) {
            None => Err("invalid port in route "@ + quoted(s)),
            Some(port) => if colon == 0 {
                Err("service name is empty in route "@ + quoted(s))
            } else {
                Ok((s.take(colon), port as u16))
            },
        },
    }
}

/// Read a route `SERVICE:PORT`.
pub fn parse_route(s: &str) -> (r: Result<ServiceRoute, CliError>)
    ensures
        match r {
            Ok(route) => route_of(s@) == Ok::<(Seq<char>, u16), Seq<char>>(route@),
            Err(e) => route_of(s@) is Err && e.says(route_of(s@)->Err_0, None),
        },
{
    let chars = chars_of(s);
    let len: usize = chars.len();
    let colon = match rfind_char(chars.as_slice(), ':') {
        None => {
            let message = concat(
                concat("invalid route ", quote(s).as_str()).as_str(),
                ": expected SERVICE:PORT",
            );
            return Err(CliError::new(message));
        },
        Some(colon) => colon,
    };
    let digits = slice_subrange(chars.as_slice(), colon + 1, len);
    assert(digits@ =~= s@.skip(colon + 1));
    let local_port: u16 = match parse_number(digits, u16::MAX as u64) {
        None => {
            return Err(CliError::new(concat("invalid port in route ", quote(s).as_str())));
        },
        Some(port) => port as u16,
    };
    if colon == 0 {
        return Err(CliError::new(concat("service name is empty in route ", quote(s).as_str())));
    }
    let name = slice_subrange(chars.as_slice(), 0, colon);
    assert(name@ =~= s@.take(colon as int));
    Ok(ServiceRoute { service_name: string_of(name), local_port })
}

/// The routes of some texts, or what is wrong with the first one that is none.
pub open spec fn routes_of(all: Seq<Seq<char>>) -> Result<Seq<(Seq<char>, u16)>, Seq<char>>
    decreases all.len(),
{
    if all.len() == 0 {
        Ok(Seq::empty())
    } else {
        match routes_of(all.drop_last()) {
            Err(message) => Err(message),
            Ok(before) => match route_of(all.last()) {
                Err(message) => Err(message),
                Ok(route) => Ok(before.push(route)),
            },
        }
    }
}

proof fn lemma_routes_fail(all: Seq<Seq<char>>, i: int)
    requires
        0 <= i <= all.len(),
        routes_of(all.take(i)) is Err,
    ensures
        routes_of(all) == routes_of(all.take(i)),
    decreases all.len() - i,
{
    if i < all.len() {
        assert(all.take(i + 1).drop_last() =~= all.take(i));
        lemma_routes_fail(all, i + 1);
    } else {
        assert(all.take(i) =~= all);
    }
}

fn parse_routes(all: &[String]) -> (r: Result<Vec<ServiceRoute>, CliError>)
    ensures
        match r {
            Ok(routes) => routes_of(texts(all@)) == Ok::<Seq<(Seq<char>, u16)>, Seq<char>>(
                routes_view(routes@),
            ),
            Err(e) => routes_of(texts(all@)) is Err && e.says(routes_of(texts(all@))->Err_0, None),
        },
{
    let ghost given = texts(all@);
    let mut out: Vec<ServiceRoute> = Vec::new();
    let mut i: usize = 0;
    assert(routes_view(out@) =~= Seq::empty());
    while i < all.len()
        invariant
            i <= all@.len(),
            given == texts(all@),
            routes_of(given.take(i as int)) == Ok::<Seq<(Seq<char>, u16)>, Seq<char>>(
                routes_view(out@),
            ),
        decreases all@.len() - i,
    {
        let ghost before = out@;
        assert(given.take(i + 1).drop_last() =~= given.take(i as int));
        assert(given.take(i + 1).last() == all@[i as int]@);
        match parse_route(all[i].as_str()) {
            Ok(route) => {
                out.push(route);
                assert(routes_view(out@) =~= routes_view(before).push(route@));
            },
            Err(e) => {
                proof {
                    lemma_routes_fail(given, i + 1);
                }
                return Err(e);
            },
        }
        i = i + 1;
    }
    assert(given.take(i as int) =~= given);
    Ok(out)
}

/// What a session is to be started with.
pub struct StartPlan {
    pub auth_mode: AuthMode,
    pub routes: Vec<ServiceRoute>,
}

/// The message of a mode that there is not.
pub open spec fn invalid_mode(name: Seq<char>) -> Seq<char> {
    "invalid auth mode: "@ + name
}

/// Check the arguments of `detour start`: there must be routes, the mode must be one, and each
/// route must be one.
pub fn plan_start(args: &StartArgs) -> (r: Result<StartPlan, CliError>)
    ensures
        if args.routes@.len() == 0 {
            r matches Err(e) && e.says("at least one --route SERVICE:PORT is required"@, None)
        } else {
            match AuthMode::named(args.auth_mode@) {
                None => r matches Err(e) && e.says(invalid_mode(args.auth_mode@), None),
                Some(mode) => match routes_of(texts(args.routes@)) {
                    Err(message) => r matches Err(e) && e.says(message, None),
                    Ok(routes) => r matches Ok(plan) && plan.auth_mode == mode && routes_view(
                        plan.routes@,
                    ) == routes,
                },
            }
        },
{
    if args.routes.len() == 0 {
        return Err(
            CliError::new("at least one --route SERVICE:PORT is required".to_string()),
        );
    }
    let auth_mode = match AuthMode::from_str(args.auth_mode.as_str()) {
        Ok(mode) => mode,
        Err(e) => {
            return Err(CliError::new(e.to_string()));
        },
    };
    match parse_routes(args.routes.as_slice()) {
        Ok(routes) => Ok(StartPlan { auth_mode, routes }),
        Err(e) => Err(e),
    }
}

// ── Waiting ───────────────────────────────────────────────────────────────────

/// How long to wait for the tunnel, in seconds.
pub const CONNECT_TIMEOUT_SECS: u64 = 10;

/// How often to look at the tunnel, in milliseconds.
pub const POLL_INTERVAL_MS: u64 = 100;

/// What a status says to the one who waits for the tunnel: it is there, it will not come, or
/// nothing yet.
pub fn wait_until_connected(status: &TunnelStatus) -> (r: Option<bool>)
    ensures
        r == match *status {
            TunnelStatus::Connected => Some(true),
            TunnelStatus::Stopped => Some(false),
            _ => None,
        },
{
    match status {
        TunnelStatus::Connected => Some(true),
        TunnelStatus::Stopped => Some(false),
        _ => None,
    }
}

// ── Printing ──────────────────────────────────────────────────────────────────

/// The lines that announce the attempt to connect.
pub open spec fn banner(version: Seq<char>, broker: Seq<char>) -> Seq<Seq<char>> {
    seq![Seq::empty(), "  Detour v"@ + version, "  Connecting to "@ + broker + " ..."@]
}

/// Make the lines that announce the attempt to connect; none with JSON output.
pub fn start_banner(args: &StartArgs, version: &str) -> (r: Vec<String>)
    ensures
        texts(r@) == if args.output@ == "json"@ {
            Seq::empty()
        } else {
            banner(version@, args.broker@)
        },
{
    let mut out: Vec<String> = Vec::new();
    if !same_text(args.output.as_str(), "json") {
        out.push(String::new());
        out.push(concat("  Detour v", version));
        out.push(concat(concat("  Connecting to ", args.broker.as_str()).as_str(), " ..."));
        assert(texts(out@) =~= banner(version@, args.broker@));
    } else {
        assert(texts(out@) =~= Seq::empty());
    }
    out
}

/// The line about one route of a session.
pub open spec fn route_line(name: Seq<char>, id: Seq<char>, port: u16) -> Seq<char> {
    "  "@ + name + "  →  X-Route-To: "@ + id + "  →  localhost:"@ + decimal_text(port as nat)
}

/// The lines about the routes of a session.
pub open spec fn route_lines(routes: Seq<(Seq<char>, u16)>, id: Seq<char>) -> Seq<Seq<char>> {
    routes.map_values(|r: (Seq<char>, u16)| route_line(r.0, id, r.1))
}

/// The event that tells whether a session is ready.
pub open spec fn ready_event(
    connected: bool,
    secs: u64,
    routes: Seq<(Seq<char>, u16)>,
    id: Seq<char>,
    broker: Seq<char>,
) -> JsonView {
    JsonView::Object(
        seq![
            ("event"@, JsonView::Text(if connected { "ready"@ } else { "error"@ })),
            ("ts"@, JsonView::Text(timestamp(secs))),
            (
                "sessions"@,
                JsonView::List(
                    routes.map_values(
                        |r: (Seq<char>, u16)|
                            JsonView::Object(
                                seq![
                                    ("service"@, JsonView::Text(r.0)),
                                    ("session_id"@, JsonView::Text(id)),
                                ],
                            ),
                    ),
                ),
            ),
            ("broker_url"@, JsonView::Text(broker)),
        ],
    )
}

/// What to print once it is known whether a session is ready.
pub struct StartReport {
    /// An event for the standard output.
    pub event: Option<Json>,
    /// Lines for the standard error.
    pub lines: Vec<String>,
    /// Why the command fails.
    pub error: Option<String>,
}

fn session_list(routes: &[ServiceRoute], id: &SessionId) -> (r: Json)
    ensures
        r@ == JsonView::List(
            routes_view(routes@).map_values(
                |r: (Seq<char>, u16)|
                    JsonView::Object(
                        seq![
                            ("service"@, JsonView::Text(r.0)),
                            ("session_id"@, JsonView::Text(id@)),
                        ],
                    ),
            ),
        ),
{
    let ghost entries = routes_view(routes@).map_values(
        |r: (Seq<char>, u16)|
            JsonView::Object(
                seq![("service"@, JsonView::Text(r.0)), ("session_id"@, JsonView::Text(id@))],
            ),
    );
    let mut out: Vec<Json> = Vec::new();
    let mut i: usize = 0;
    while i < routes.len()
        invariant
            i <= routes@.len(),
            entries == routes_view(routes@).map_values(
                |r: (Seq<char>, u16)|
                    JsonView::Object(
                        seq![
                            ("service"@, JsonView::Text(r.0)),
                            ("session_id"@, JsonView::Text(id@)),
                        ],
                    ),
            ),
            items_view(out@) == entries.take(i as int),
        decreases routes@.len() - i,
    {
        let ghost before = out@;
        let mut members: Vec<(String, Json)> = Vec::new();
        members.push(("service".to_string(), text(routes[i].service_name.as_str())));
        members.push(("session_id".to_string(), text(id.as_str())));
        assert(members_view(members@) =~= entries[i as int]->Object_0);
        out.push(object(members));
        assert(items_view(out@) =~= items_view(before).push(entries[i as int]));
        assert(entries.take(i + 1) =~= entries.take(i as int).push(entries[i as int]));
        i = i + 1;
    }
    assert(entries.take(i as int) =~= entries);
    list(out)
}

fn ready_lines(routes: &[ServiceRoute], id: &SessionId) -> (r: Vec<String>)
    ensures
        texts(r@) == seq![Seq::<char>::empty()] + route_lines(routes_view(routes@), id@) + seq![
            Seq::<char>::empty(),
            "  Status: connected"@,
            Seq::<char>::empty(),
        ],
{
    let ghost said = route_lines(routes_view(routes@), id@);
    let mut out: Vec<String> = Vec::new();
    out.push(String::new());
    let mut i: usize = 0;
    assert(texts(out@) =~= seq![Seq::<char>::empty()] + said.take(0));
    while i < routes.len()
        invariant
            i <= routes@.len(),
            said == route_lines(routes_view(routes@), id@),
            texts(out@) == seq![Seq::<char>::empty()] + said.take(i as int),
        decreases routes@.len() - i,
    {
        let ghost before = out@;
        let line = concat(
            concat("  ", routes[i].service_name.as_str()).as_str(),
            "  →  X-Route-To: ",
        );
        let line = concat(concat(line.as_str(), id.as_str()).as_str(), "  →  localhost:");
        out.push(concat(line.as_str(), number_text(routes[i].local_port as u64).as_str()));
        assert(texts(out@) =~= texts(before).push(said[i as int]));
        assert(seq![Seq::<char>::empty()] + said.take(i + 1) =~= (seq![Seq::<char>::empty()]
            + said.take(i as int)).push(said[i as int]));
        i = i + 1;
    }
    assert(said.take(i as int) =~= said);
    out.push(String::new());
    out.push("  Status: connected".to_string());
    out.push(String::new());
    assert(texts(out@) =~= seq![Seq::<char>::empty()] + said + seq![
        Seq::<char>::empty(),
        "  Status: connected"@,
        Seq::<char>::empty(),
    ]);
    out
}

/// Decide what to print once it is known whether the tunnel is there.
pub fn start_report(
    args: &StartArgs,
    routes: &[ServiceRoute],
    id: &SessionId,
    connected: bool,
    secs: u64,
) -> (r: StartReport)
    ensures
        if args.output@ == "json"@ {
            &&& r.event matches Some(event)
            &&& event@ == ready_event(connected, secs, routes_view(routes@), id@, args.broker@)
            &&& r.lines@.len() == 0
            &&& if connected {
                r.error is None
            } else {
                r.error matches Some(message) && message@ == "failed to connect to broker"@
            }
        } else if connected {
            &&& r.event is None
            &&& texts(r.lines@) == seq![Seq::<char>::empty()] + route_lines(
                routes_view(routes@),
                id@,
            ) + seq![Seq::<char>::empty(), "  Status: connected"@, Seq::<char>::empty()]
            &&& r.error is None
        } else {
            &&& r.event is None
            &&& r.lines@.len() == 0
            &&& r.error matches Some(message)
            &&& message@ == "failed to connect to broker — check broker URL and network"@
        },
{
    if same_text(args.output.as_str(), "json") {
        let mut members: Vec<(String, Json)> = Vec::new();
        members.push(
            (
                "event".to_string(),
                text(
                    if connected {
                        "ready"
                    } else {
                        "error"
                    },
                ),
            ),
        );
        members.push(("ts".to_string(), text(chrono_now(secs).as_str())));
        members.push(("sessions".to_string(), session_list(routes, id)));
        members.push(("broker_url".to_string(), text(args.broker.as_str())));
        assert(members_view(members@) =~= ready_event(
            connected,
            secs,
            routes_view(routes@),
            id@,
            args.broker@,
        )->Object_0);
        let error = if connected {
            None
        } else {
            Some("failed to connect to broker".to_string())
        };
        StartReport { event: Some(object(members)), lines: Vec::new(), error }
    } else if connected {
        StartReport { event: None, lines: ready_lines(routes, id), error: None }
    } else {
        StartReport {
            event: None,
            lines: Vec::new(),
            error: Some(
                "failed to connect to broker — check broker URL and network".to_string(),
            ),
        }
    }
}

/// Decide what to print once the tunnel is stopped.
pub fn stop_report(args: &StartArgs, secs: u64) -> (r: (Option<Json>, Vec<String>))
    ensures
        if args.output@ == "json"@ {
            &&& r.0 matches Some(event)
            &&& event@ == JsonView::Object(
                seq![
                    ("event"@, JsonView::Text("status"@)),
                    ("ts"@, JsonView::Text(timestamp(secs))),
                    ("status"@, JsonView::Text("stopped"@)),
                ],
            )
            &&& r.1@.len() == 0
        } else {
            r.0 is None && texts(r.1@) == seq!["  Tunnel stopped."@]
        },
{
    if same_text(args.output.as_str(), "json") {
        let mut members: Vec<(String, Json)> = Vec::new();
        members.push(("event".to_string(), text("status")));
        members.push(("ts".to_string(), text(chrono_now(secs).as_str())));
        members.push(("status".to_string(), text("stopped")));
        assert(members_view(members@) =~= seq![
            ("event"@, JsonView::Text("status"@)),
            ("ts"@, JsonView::Text(timestamp(secs))),
            ("status"@, JsonView::Text("stopped"@)),
        ]);
        (Some(object(members)), Vec::new())
    } else {
        let lines = vec!["  Tunnel stopped.".to_string()];
        assert(texts(lines@) =~= seq!["  Tunnel stopped."@]);
        (None, lines)
    }
}

// ── Laws ──────────────────────────────────────────────────────────────────────

/// A route is read back: the service, with whatever colons stand in it, and its port.
pub proof fn route_reads_back(service: Seq<char>, port: u16)
    ensures
        service.len() > 0 ==> route_of(service + seq![':'] + decimal_text(port as nat)) == Ok::<
            (Seq<char>, u16),
            Seq<char>,
        >((service, port)),
        route_of(seq![':'] + decimal_text(port as nat)) is Err,
        !service.contains(':') ==> route_of(service) is Err,
{
    let digits = decimal_text(port as nat);
    number_reads_back(port as nat, 65535);
    decimal_round_trip(port as nat);
    lemma_colon_before_digits(service, digits);
    let s = service + seq![':'] + digits;
    let n = service.len() as int;
    assert(s.skip(n + 1) =~= digits);
    assert(s.take(n) =~= service);
    lemma_colon_before_digits(Seq::empty(), digits);
    assert(seq![':'] + digits =~= Seq::<char>::empty() + seq![':'] + digits);
    if let Some(i) = last_index(service, ':') {
        assert(last_index_is(service, ':', i));
        assert(service.contains(service[i]));
    }
}

proof fn lemma_colon_before_digits(service: Seq<char>, digits: Seq<char>)
    requires
        all_digits(digits),
    ensures
        last_index(service + seq![':'] + digits, ':') == Some(service.len() as int),
{
    let s = service + seq![':'] + digits;
    let n = service.len() as int;
    assert(last_index_is(s, ':', n)) by {
        assert forall|j: int| n < j < s.len() implies s[j] != ':' by {
            assert(digit(digits[j - n - 1]));
        }
    }
    lemma_last_index_is(s, ':', n);
}

/// Every route that is given is taken, in its order, and one that is none is refused.
pub proof fn every_route_is_taken(all: Seq<Seq<char>>)
    ensures
        routes_of(all) matches Ok(routes) ==> routes.len() == all.len() && forall|i: int|
            0 <= i < all.len() ==> route_of(#[trigger] all[i]) == Ok::<(Seq<char>, u16), Seq<char>>(
                routes[i],
            ),
        (forall|i: int| 0 <= i < all.len() ==> route_of(#[trigger] all[i]) is Ok) ==> routes_of(all)
            is Ok,
    decreases all.len(),
{
    if all.len() > 0 {
        let front = all.drop_last();
        every_route_is_taken(front);
        assert(all =~= front.push(all.last()));
        if routes_of(all) is Ok {
            let routes = routes_of(all)->Ok_0;
            assert forall|i: int| 0 <= i < all.len() implies route_of(#[trigger] all[i]) == Ok::<
                (Seq<char>, u16),
                Seq<char>,
            >(routes[i]) by {
                if i < front.len() {
                    assert(front[i] == all[i]);
                }
            }
        }
        if forall|i: int| 0 <= i < all.len() ==> route_of(#[trigger] all[i]) is Ok {
            assert forall|i: int| 0 <= i < front.len() implies route_of(#[trigger] front[i]) is Ok by {
                assert(front[i] == all[i]);
            }
            assert(route_of(all[all.len() - 1]) is Ok);
        }
    }
}

/// Every route is announced, on a line of its own and in its order, with its service, the session
/// and its port.
pub proof fn every_route_is_announced(routes: Seq<(Seq<char>, u16)>, id: Seq<char>, i: int)
    requires
        0 <= i < routes.len(),
    ensures
        route_lines(routes, id).len() == routes.len(),
        route_lines(routes, id)[i] == "  "@ + routes[i].0 + "  →  X-Route-To: "@ + id
            + "  →  localhost:"@ + decimal_text(routes[i].1 as nat),
{
}

/// The event that tells that a session is ready names every service with the session.
pub proof fn ready_event_names_every_service(
    connected: bool,
    secs: u64,
    routes: Seq<(Seq<char>, u16)>,
    id: Seq<char>,
    broker: Seq<char>,
    i: int,
)
    requires
        0 <= i < routes.len(),
    ensures
        ready_event(connected, secs, routes, id, broker) matches JsonView::Object(members)
            && members.len() == 4 && members[0] == ("event"@, JsonView::Text(
            if connected {
                "ready"@
            } else {
                "error"@
            },
        )) && members[1] == ("ts"@, JsonView::Text(decimal_text(secs as nat) + "Z"@))
            && members[3] == ("broker_url"@, JsonView::Text(broker)) && members[2].0 == "sessions"@
            && (members[2].1 matches JsonView::List(sessions) && sessions.len() == routes.len()
            && sessions[i] == JsonView::Object(
            seq![
                ("service"@, JsonView::Text(routes[i].0)),
                ("session_id"@, JsonView::Text(id)),
            ],
        )),
{
}

/// The tunnel is waited for ten seconds, and looked at ten times in each.
pub proof fn waiting_has_its_bounds()
    ensures
        CONNECT_TIMEOUT_SECS == 10,
        POLL_INTERVAL_MS * 10 == 1000,
{
}

/// Of several routes that are none, the first is told of.
pub proof fn first_bad_route_is_told(all: Seq<Seq<char>>, i: int)
    requires
        0 <= i < all.len(),
        route_of(all[i]) is Err,
        forall|j: int| 0 <= j < i ==> route_of(#[trigger] all[j]) is Ok,
    ensures
        routes_of(all) == Err::<Seq<(Seq<char>, u16)>, Seq<char>>(route_of(all[i])->Err_0),
    decreases all.len(),
{
    let front = all.drop_last();
    if i < front.len() {
        assert(front[i] == all[i]);
        assert forall|j: int| 0 <= j < i implies route_of(#[trigger] front[j]) is Ok by {
            assert(front[j] == all[j]);
        }
        first_bad_route_is_told(front, i);
    } else {
        assert forall|j: int| 0 <= j < front.len() implies route_of(#[trigger] front[j]) is Ok by {
            assert(front[j] == all[j]);
        }
        every_route_is_taken(front);
    }
}

/// A route whose port is no number up to 65535 is none, whatever its service; and each kind of bad
/// route is told of in its own way.
pub proof fn bad_routes_are_refused(service: Seq<char>, port: Seq<char>)
    requires
        !port.contains(':'),
    ensures
        parse_decimal(port, 65535) is None ==> route_of(service + seq![':'] + port) == Err::<
            (Seq<char>, u16),
            Seq<char>,
        >("invalid port in route "@ + quoted(service + seq![':'] + port)),
        parse_decimal(port, 65535) is Some ==> route_of(seq![':'] + port) == Err::<
            (Seq<char>, u16),
            Seq<char>,
        >("service name is empty in route "@ + quoted(seq![':'] + port)),
        route_of(port) == Err::<(Seq<char>, u16), Seq<char>>(
            "invalid route "@ + quoted(port) + ": expected SERVICE:PORT"@,
        ),
{
    lemma_last_colon_of(service, port);
    let s = service + seq![':'] + port;
    assert(s.skip((service.len() + 1) as int) =~= port);
    let nothing = Seq::<char>::empty();
    lemma_last_colon_of(nothing, port);
    assert(nothing + seq![':'] + port =~= seq![':'] + port);
    assert((seq![':'] + port).skip(1) =~= port);
    if let Some(i) = last_index(port, ':') {
        assert(last_index_is(port, ':', i));
        assert(port.contains(port[i]));
    }
}

proof fn lemma_last_colon_of(service: Seq<char>, port: Seq<char>)
    requires
        !port.contains(':'),
    ensures
        last_index(service + seq![':'] + port, ':') == Some(service.len() as int),
{
    let s = service + seq![':'] + port;
    let n = service.len() as int;
    assert(last_index_is(s, ':', n)) by {
        assert forall|j: int| n < j < s.len() implies s[j] != ':' by {
            assert(port.contains(port[j - n - 1]));
        }
    }
    lemma_last_index_is(s, ':', n);
}

} // verus!
