//! How an agent reports its state.
use vstd::prelude::*;
use vstd::string::*;

use crate::json::{items_view, list, members_view, number, object, text, Json, JsonView};
use crate::model::config::ServiceRoute;
use crate::model::session::{SessionId, TunnelStatus};
use crate::text::{concat, decimal_text, number_text};

verus! {

/// The port of the status endpoint, unless it is taken.
pub const DEFAULT_STATUS_PORT: u16 = 29876;

/// How many ports are tried for the status endpoint.
pub const MAX_PORT_TRIES: u16 = 10;

/// A session on one of its routes.
pub struct SessionEntry {
    pub session_id: SessionId,
    pub route: ServiceRoute,
    pub status: TunnelStatus,
}

/// What a status is called; the detail of an error is left out.
pub open spec fn label(status: TunnelStatus) -> Seq<char> {
    match status {
        TunnelStatus::Connecting => "connecting"@,
        TunnelStatus::Connected => "connected"@,
        TunnelStatus::Reconnecting => "reconnecting"@,
        TunnelStatus::Stopped => "stopped"@,
        TunnelStatus::Error(_) => "error"@,
    }
}

/// What a status is called.
pub fn status_label(status: &TunnelStatus) -> (r: &'static str)
    ensures
        r@ == label(*status),
{
    match status {
        TunnelStatus::Connecting => "connecting",
        TunnelStatus::Connected => "connected",
        TunnelStatus::Reconnecting => "reconnecting",
        TunnelStatus::Stopped => "stopped",
        TunnelStatus::Error(_) => "error",
    }
}

/// How bad a status is.
pub open spec fn rank(status: TunnelStatus) -> u8 {
    match status {
        TunnelStatus::Connected => 0,
        TunnelStatus::Reconnecting => 1,
        TunnelStatus::Connecting => 2,
        TunnelStatus::Error(_) => 3,
        TunnelStatus::Stopped => 4,
    }
}

/// How bad a status is.
pub fn status_rank(status: &TunnelStatus) -> (r: u8)
    ensures
        r == rank(*status),
{
    match status {
        TunnelStatus::Connected => 0,
        TunnelStatus::Reconnecting => 1,
        TunnelStatus::Connecting => 2,
        TunnelStatus::Error(_) => 3,
        TunnelStatus::Stopped => 4,
    }
}

/// The worst of some statuses, the last of those that are equally bad; stopped if there are none.
pub open spec fn worst(statuses: Seq<TunnelStatus>) -> TunnelStatus
    decreases statuses.len(),
{
    if statuses.len() == 0 {
        TunnelStatus::Stopped
    } else if statuses.len() == 1 {
        statuses[0]
    } else if rank(statuses.last()) >= rank(worst(statuses.drop_last())) {
        statuses.last()
    } else {
        worst(statuses.drop_last())
    }
}

/// The worst of some statuses.
pub fn overall(statuses: &[TunnelStatus]) -> (r: TunnelStatus)
    ensures
        r == worst(statuses@),
{
    if statuses.len() == 0 {
        return TunnelStatus::Stopped;
    }
    let mut found: usize = 0;
    let mut i: usize = 1;
    assert(statuses@.take(1).len() == 1);
    while i < statuses.len()
        invariant
            1 <= i <= statuses@.len(),
            found < i,
            statuses@[found as int] == worst(statuses@.take(i as int)),
        decreases statuses@.len() - i,
    {
        assert(statuses@.take(i + 1).drop_last() =~= statuses@.take(i as int));
        if status_rank(&statuses[i]) >= status_rank(&statuses[found]) {
            found = i;
        }
        i = i + 1;
    }
    assert(statuses@.take(i as int) =~= statuses@);
    statuses[found].clone()
}

/// No status is worse than the worst, and the worst is one of them.
pub proof fn worst_is_worst(statuses: Seq<TunnelStatus>)
    requires
        statuses.len() > 0,
    ensures
        statuses.contains(worst(statuses)),
        forall|i: int|
            0 <= i < statuses.len() ==> rank(#[trigger] statuses[i]) <= rank(worst(statuses)),
    decreases statuses.len(),
{
    if statuses.len() == 1 {
        assert(statuses.contains(statuses[0]));
    } else {
        let front = statuses.drop_last();
        worst_is_worst(front);
        assert(statuses.contains(statuses.last()));
        let k = choose|k: int| 0 <= k < front.len() && front[k] == worst(front);
        assert(statuses.contains(statuses[k]));
        assert forall|i: int| 0 <= i < statuses.len() implies rank(#[trigger] statuses[i]) <= rank(
            worst(statuses),
        ) by {
            if i < front.len() {
                assert(rank(front[i]) <= rank(worst(front)));
            }
        }
    }
}

/// What the status endpoint says of a session.
pub open spec fn entry_body(entry: SessionEntry) -> JsonView {
    JsonView::Object(
        seq![
            ("service"@, JsonView::Text(entry.route.service_name@)),
            ("session_id"@, JsonView::Text(entry.session_id@)),
            ("port"@, JsonView::Number(Some(entry.route.local_port as u64))),
            ("status"@, JsonView::Text(label(entry.status))),
        ],
    )
}

/// What the status endpoint says.
pub open spec fn status_body(entries: Seq<SessionEntry>, broker_url: Seq<char>) -> JsonView {
    JsonView::Object(
        seq![
            ("version"@, JsonView::Text("1"@)),
            ("status"@, JsonView::Text(label(worst(entries.map_values(|e: SessionEntry| e.status))))),
            ("broker_url"@, JsonView::Text(broker_url)),
            ("sessions"@, JsonView::List(entries.map_values(|e: SessionEntry| entry_body(e)))),
        ],
    )
}

fn entry_json(entry: &SessionEntry) -> (r: Json)
    ensures
        r@ == entry_body(*entry),
{
    let mut members: Vec<(String, Json)> = Vec::new();
    members.push(("service".to_string(), text(entry.route.service_name.as_str())));
    members.push(("session_id".to_string(), text(entry.session_id.as_str())));
    members.push(("port".to_string(), number(entry.route.local_port as u64)));
    members.push(("status".to_string(), text(status_label(&entry.status))));
    assert(members_view(members@) =~= entry_body(*entry)->Object_0);
    object(members)
}

/// Make the answer of the status endpoint.
pub fn status_handler(entries: &[SessionEntry], broker_url: &str) -> (r: Json)
    ensures
        r@ == status_body(entries@, broker_url@),
{
    let ghost all = entries@.map_values(|e: SessionEntry| e.status);
    let ghost bodies = entries@.map_values(|e: SessionEntry| entry_body(e));
    let mut statuses: Vec<TunnelStatus> = Vec::new();
    let mut sessions: Vec<Json> = Vec::new();
    let mut i: usize = 0;
    while i < entries.len()
        invariant
            i <= entries@.len(),
            all == entries@.map_values(|e: SessionEntry| e.status),
            bodies == entries@.map_values(|e: SessionEntry| entry_body(e)),
            statuses@ == all.take(i as int),
            items_view(sessions@) == bodies.take(i as int),
        decreases entries@.len() - i,
    {
        let ghost before = sessions@;
        statuses.push(entries[i].status.clone());
        sessions.push(entry_json(&entries[i]));
        assert(statuses@ =~= all.take(i + 1));
        assert(items_view(sessions@) =~= items_view(before).push(bodies[i as int]));
        assert(bodies.take(i + 1) =~= bodies.take(i as int).push(bodies[i as int]));
        i = i + 1;
    }
    assert(all.take(i as int) =~= all);
    assert(bodies.take(i as int) =~= bodies);
    let worst_of = overall(statuses.as_slice());
    let mut members: Vec<(String, Json)> = Vec::new();
    members.push(("version".to_string(), text("1")));
    members.push(("status".to_string(), text(status_label(&worst_of))));
    members.push(("broker_url".to_string(), text(broker_url)));
    members.push(("sessions".to_string(), list(sessions)));
    assert(members_view(members@) =~= status_body(entries@, broker_url@)->Object_0);
    object(members)
}

/// The port to try for the status endpoint once `taken` ports were found taken; `None` once all
/// have been tried, and then the default port it is.
pub fn status_port(taken: u16) -> (r: Option<u16>)
    ensures
        r == if taken < MAX_PORT_TRIES {
            Some((DEFAULT_STATUS_PORT + taken) as u16)
        } else {
            None
        },
{
    if taken < MAX_PORT_TRIES {
        Some(DEFAULT_STATUS_PORT + taken)
    } else {
        None
    }
}

/// A moment in seconds, as events carry it.
pub open spec fn timestamp(secs: u64) -> Seq<char> {
    decimal_text(secs as nat) + "Z"@
}

/// Write out a moment in seconds.
pub fn chrono_now(secs: u64) -> (r: String)
    ensures
        r@ == timestamp(secs),
{
    concat(number_text(secs).as_str(), "Z")
}

/// The event that announces a status port other than the default one.
pub fn port_event(port: u16, secs: u64) -> (r: Option<Json>)
    ensures
        if port == DEFAULT_STATUS_PORT {
            r is None
        } else {
            r matches Some(event) && event@ == JsonView::Object(
                seq![
                    ("event"@, JsonView::Text("status_port"@)),
                    ("ts"@, JsonView::Text(timestamp(secs))),
                    ("status_port"@, JsonView::Number(Some(port as u64))),
                ],
            )
        },
{
    if port == DEFAULT_STATUS_PORT {
        return None;
    }
    let mut members: Vec<(String, Json)> = Vec::new();
    members.push(("event".to_string(), text("status_port")));
    members.push(("ts".to_string(), text(chrono_now(secs).as_str())));
    members.push(("status_port".to_string(), number(port as u64)));
    assert(members_view(members@) =~= seq![
        ("event"@, JsonView::Text("status_port"@)),
        ("ts"@, JsonView::Text(timestamp(secs))),
        ("status_port"@, JsonView::Number(Some(port as u64))),
    ]);
    Some(object(members))
}

/// The status endpoint tells of every session, in order, with its own service, identity, port and
/// status.
pub proof fn every_session_is_told_of(entries: Seq<SessionEntry>, broker_url: Seq<char>, i: int)
    requires
        0 <= i < entries.len(),
    ensures
        status_body(entries, broker_url) matches JsonView::Object(members) && members.len() == 4
            && members[2] == ("broker_url"@, JsonView::Text(broker_url)) && members[3].0
            == "sessions"@ && (members[3].1 matches JsonView::List(sessions) && sessions.len()
            == entries.len() && (sessions[i] matches JsonView::Object(told) && told.len() == 4
            && told[0] == ("service"@, JsonView::Text(entries[i].route.service_name@)) && told[1] == (
            "session_id"@,
            JsonView::Text(entries[i].session_id@),
        ) && told[2] == ("port"@, JsonView::Number(Some(entries[i].route.local_port as u64)))
            && told[3].0 == "status"@ && (entries[i].status is Connecting ==> told[3].1
            == JsonView::Text("connecting"@)) && (entries[i].status is Connected ==> told[3].1
            == JsonView::Text("connected"@)) && (entries[i].status is Reconnecting ==> told[3].1
            == JsonView::Text("reconnecting"@)) && (entries[i].status is Stopped ==> told[3].1
            == JsonView::Text("stopped"@)) && (entries[i].status is Error ==> told[3].1
            == JsonView::Text("error"@)))),
{
    let members = status_body(entries, broker_url)->Object_0;
    let sessions = members[3].1->List_0;
    assert(sessions[i] == entry_body(entries[i]));
}

/// As a whole an agent is connected only if all of its sessions are, and stopped if any is.
pub proof fn agent_is_as_well_as_its_worst_session(statuses: Seq<TunnelStatus>, i: int)
    requires
        0 <= i < statuses.len(),
    ensures
        worst(statuses) is Connected ==> statuses[i] is Connected,
        statuses[i] is Stopped ==> worst(statuses) is Stopped,
        statuses[i] is Error ==> worst(statuses) is Error || worst(statuses) is Stopped,
        statuses[i] is Connecting ==> !(worst(statuses) is Connected) && !(worst(statuses)
            is Reconnecting),
        statuses.contains(worst(statuses)),
{
    worst_is_worst(statuses);
}

/// The status endpoint is looked for on ten ports, from 29876 on.
pub proof fn status_has_its_ports()
    ensures
        DEFAULT_STATUS_PORT == 29876,
        MAX_PORT_TRIES == 10,
{
}

/// A time is written as its seconds, and as nothing else.
pub proof fn time_is_written_in_seconds(secs: u64)
    ensures
        timestamp(secs) == decimal_text(secs as nat) + "Z"@,
{
}

/// Without sessions an agent is stopped; of sessions that fare equally badly the last is told of.
pub proof fn last_of_the_worst_is_told_of(statuses: Seq<TunnelStatus>, message: String)
    ensures
        worst(Seq::empty()) is Stopped,
        worst(seq![TunnelStatus::Error(message)]) == TunnelStatus::Error(message),
        statuses.len() > 0 && (forall|i: int|
            0 <= i < statuses.len() ==> !((#[trigger] statuses[i]) is Stopped)) ==> worst(
            statuses.push(TunnelStatus::Error(message)),
        ) == TunnelStatus::Error(message),
{
    let all = statuses.push(TunnelStatus::Error(message));
    assert(all.drop_last() =~= statuses);
    if statuses.len() > 0 {
        worst_is_worst(statuses);
    }
}

/// As a whole the status endpoint tells what the worst session does: connected only if all are, and
/// stopped if any is, or if there is none.
pub proof fn endpoint_tells_the_worst(entries: Seq<SessionEntry>, broker_url: Seq<char>, i: int)
    requires
        0 <= i < entries.len(),
    ensures
        status_body(entries, broker_url) matches JsonView::Object(members) && members[0] == (
            "version"@,
            JsonView::Text("1"@),
        ) && members[1].0 == "status"@ && (entries[i].status is Stopped ==> members[1].1
            == JsonView::Text("stopped"@)) && (members[1].1 == JsonView::Text("connected"@)
            ==> entries[i].status is Connected) && ((forall|k: int|
            0 <= k < entries.len() ==> (#[trigger] entries[k]).status is Connected)
            ==> members[1].1 == JsonView::Text("connected"@)),
{
    reveal_strlit("connecting");
    reveal_strlit("connected");
    reveal_strlit("reconnecting");
    reveal_strlit("stopped");
    reveal_strlit("error");
    let statuses = entries.map_values(|e: SessionEntry| e.status);
    assert(statuses[i] == entries[i].status);
    agent_is_as_well_as_its_worst_session(statuses, i);
    assert("connecting"@.len() == 10 && "connected"@.len() == 9 && "reconnecting"@.len() == 12
        && "stopped"@.len() == 7 && "error"@.len() == 5);
    let k = choose|k: int| 0 <= k < statuses.len() && statuses[k] == worst(statuses);
    assert(statuses[k] == entries[k].status);
}

} // verus!
