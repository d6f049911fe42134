//! Asking a running agent how it fares.
use vstd::prelude::*;
use vstd::string::*;

use crate::json::{text_member, Json, JsonView};
use crate::text::{concat, decimal_text, number_text, same_text, texts};

verus! {

/// The arguments of `detour status`.
pub struct StatusArgs {
    pub port: u16,
}

/// The address of the status endpoint.
pub fn status_url(args: &StatusArgs) -> (r: String)
    ensures
        r@ == "http://127.0.0.1:"@ + decimal_text(args.port as nat) + "/status"@,
{
    concat(
        concat("http://127.0.0.1:", number_text(args.port as u64).as_str()).as_str(),
        "/status",
    )
}

/// The text of a member, or else another text.
pub open spec fn text_or(body: JsonView, name: Seq<char>, default: Seq<char>) -> Seq<char> {
    match text_member(body, name) {
        Some(s) => s,
        None => default,
    }
}

/// The number of a member, or else zero.
pub open spec fn number_or_zero(body: JsonView, name: Seq<char>) -> u64 {
    match body.member(name) {
        Some(JsonView::Number(Some(n))) => n,
        _ => 0,
    }
}

/// What is said of an agent: the state of its session, or only its status if that is not
/// `connected`, or that there is no agent.
pub open spec fn status_lines(port: u16, body: Option<JsonView>) -> Seq<Seq<char>> {
    match body {
        None => seq![
            "Status: stopped (agent not running on port "@ + decimal_text(port as nat) + ")"@,
        ],
        Some(body) => if text_or(body, "status"@, "unknown"@) == "connected"@ {
            seq![
                "Status:     connected"@,
                "Session ID: "@ + text_or(body, "session_id"@, "-"@),
                "Service:    "@ + text_or(body, "service"@, "-"@),
                "Port:       "@ + decimal_text(number_or_zero(body, "port"@) as nat),
                "Broker:     "@ + text_or(body, "broker_url"@, "-"@),
            ]
        } else {
            seq!["Status: "@ + text_or(body, "status"@, "unknown"@)]
        },
    }
}

fn member_text<'a>(body: &'a Json, name: &str, default: &'a str) -> (r: &'a str)
    ensures
        r@ == text_or(body@, name@, default@),
{
    match body.get_str(name) {
        Some(s) => s,
        None => default,
    }
}

/// Say how an agent fares, given what its status endpoint answered, if it did.
pub fn status_report(args: &StatusArgs, body: Option<&Json>) -> (r: Vec<String>)
    ensures
        texts(r@) == status_lines(
            args.port,
            match body {
                Some(body) => Some(body@),
                None => None,
            },
        ),
{
    let mut out: Vec<String> = Vec::new();
    match body {
        None => {
            let line = concat(
                "Status: stopped (agent not running on port ",
                number_text(args.port as u64).as_str(),
            );
            out.push(concat(line.as_str(), ")"));
            assert(texts(out@) =~= status_lines(args.port, None));
        },
        Some(body) => {
            let status = member_text(body, "status", "unknown");
            if same_text(status, "connected") {
                let port: u64 = match body.get("port") {
                    Some(Json::Number(Some(n))) => *n,
                    _ => 0,
                };
                out.push("Status:     connected".to_string());
                out.push(concat("Session ID: ", member_text(body, "session_id", "-")));
                out.push(concat("Service:    ", member_text(body, "service", "-")));
                out.push(concat("Port:       ", number_text(port).as_str()));
                out.push(concat("Broker:     ", member_text(body, "broker_url", "-")));
            } else {
                out.push(concat("Status: ", status));
            }
            assert(texts(out@) =~= status_lines(args.port, Some(body@)));
        },
    }
    out
}

// ── Laws ──────────────────────────────────────────────────────────────────────

/// What an agent answers is shown: if it is connected, its session, service, port and broker, each as
/// the answer has it or a dash; otherwise the status alone.
pub proof fn answer_is_shown(
    port: u16,
    body: JsonView,
    status: Seq<char>,
    session: Seq<char>,
    service: Seq<char>,
    broker: Seq<char>,
    at: u64,
)
    requires
        body.member("status"@) == Some(JsonView::Text(status)),
        body.member("session_id"@) == Some(JsonView::Text(session)),
        body.member("service"@) == Some(JsonView::Text(service)),
        body.member("broker_url"@) == Some(JsonView::Text(broker)),
        body.member("port"@) == Some(JsonView::Number(Some(at))),
    ensures
        status == "connected"@ ==> status_lines(port, Some(body)).len() == 5 && status_lines(
            port,
            Some(body),
        )[1] == "Session ID: "@ + session && status_lines(port, Some(body))[2] == "Service:    "@
            + service && status_lines(port, Some(body))[3] == "Port:       "@ + decimal_text(
            at as nat,
        ) && status_lines(port, Some(body))[4] == "Broker:     "@ + broker,
        status != "connected"@ ==> status_lines(port, Some(body)) == seq!["Status: "@ + status],
        status_lines(port, None) == seq![
            "Status: stopped (agent not running on port "@ + decimal_text(port as nat) + ")"@,
        ],
{
}

/// What an answer leaves out is shown as a dash, a zero or an unknown status.
pub proof fn missing_members_are_shown(body: JsonView, name: Seq<char>, default: Seq<char>)
    ensures
        body.member(name) is None ==> text_or(body, name, default) == default,
        body.member(name) is None ==> number_or_zero(body, name) == 0,
        body.member(name) matches Some(JsonView::Text(s)) ==> text_or(body, name, default) == s,
        body.member(name) matches Some(JsonView::Number(Some(n))) ==> number_or_zero(body, name)
            == n,
{
}

} // verus!
