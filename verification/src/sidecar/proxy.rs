//! What a sidecar does with a connection.
use http::header::{HeaderMap, HeaderValue};
use vstd::prelude::*;
use vstd::string::*;
use vstd::utf8::*;

use crate::model::frames::opening_frame;
use crate::model::session::{
    fresh_uuid, lemma_uuid_is_visible, random_uuid_text, uuid_text, ServiceSession,
};
use crate::model::wire::{RawConnFrame, RawConnFrameView};
use crate::headers::{
    append_header, appended, empty_headers, header_lists, header_name, header_value, no_headers,
    normalised_name_is_kept, valid_value,
};
use crate::sidecar::inspector::{lemma_requested, requested_session, ROUTE_HEADER};
use crate::sidecar::raw::{is_upgrade, normalize_upstream, upgrade, upstream_address, Sniff};
use crate::text::{bytes_between, lower_text, opt_text, push_bytes, same_text};

verus! {

/// The settings that decide what becomes of a connection.
pub struct ProxyState {
    pub app_upstream: String,
    pub service_name: String,
    pub log_routed: bool,
}

/// The answer to a health check.
pub open spec fn healthz_ok() -> Seq<u8> {
    encode_utf8(
        "HTTP/1.1 200 OK\r\nContent-Type: text/plain\r\nContent-Length: 2\r\nConnection: close\r\n\r\nok"@,
    )
}

/// What to do with a connection whose start was sniffed.
pub enum ConnPlan {
    /// Answer a health check and close.
    Answer { response: Vec<u8> },
    /// Look for a session by the headers; `initial` is to be replayed either way.
    Resolve {
        headers: HeaderMap<HeaderValue>,
        method: String,
        path: String,
        upgrade: bool,
        initial: Vec<u8>,
    },
    /// Read on to the first HEADERS frame.
    ReadH2 { buffered: Vec<u8> },
    /// Splice to the app.
    Splice { initial: Vec<u8> },
}

/// Decide what to do with a connection by its sniffed start.
pub fn handle_conn(sniff: Sniff) -> (r: ConnPlan)
    ensures
        match sniff {
            Sniff::Http1 { head, rest } => if head.path@ == "/healthz"@ {
                r matches ConnPlan::Answer { response } && response@ == healthz_ok()
            } else {
                &&& r matches ConnPlan::Resolve {
                    headers,
                    method,
                    path,
                    upgrade: asked,
                    initial,
                }
                &&& headers == head.headers
                &&& method == head.method
                &&& path == head.path
                &&& asked == upgrade(header_lists(head.headers))
                &&& initial@ == sniff.consumed()
            },
            Sniff::Http2 { buffered } => r == (ConnPlan::ReadH2 { buffered }),
            Sniff::Raw { buffered } => r == (ConnPlan::Splice { initial: buffered }),
        },
{
    match sniff {
        Sniff::Http1 { head, rest } => {
            if same_text(head.path.as_str(), "/healthz") {
                let text =
                    "HTTP/1.1 200 OK\r\nContent-Type: text/plain\r\nContent-Length: 2\r\nConnection: close\r\n\r\nok";
                let bytes = text.as_bytes();
                assert(bytes@.subrange(0, bytes@.len() as int) =~= bytes@);
                return ConnPlan::Answer { response: bytes_between(bytes, 0, bytes.len()) };
            }
            let upgrade = is_upgrade(&head.headers);
            let mut initial = head.raw;
            push_bytes(&mut initial, rest.as_slice());
            ConnPlan::Resolve {
                headers: head.headers,
                method: head.method,
                path: head.path,
                upgrade,
                initial,
            }
        },
        Sniff::Http2 { buffered } => ConnPlan::ReadH2 { buffered },
        Sniff::Raw { buffered } => ConnPlan::Splice { initial: buffered },
    }
}

/// The headers that stand for the route of an HTTP/2 connection: `x-route-to`, if the route is a
/// header value.
pub open spec fn route_headers(route: Option<Seq<char>>) -> Map<Seq<char>, Seq<Seq<u8>>> {
    match route {
        Some(value) => if valid_value(encode_utf8(value)) {
            appended(no_headers(), "x-route-to"@, encode_utf8(value))
        } else {
            no_headers()
        },
        None => no_headers(),
    }
}

/// An HTTP/2 connection asks for the session that its route spells, and for none without a route.
pub proof fn h2_route_asks_for_its_session(route: Seq<char>)
    requires
        uuid_text(route),
    ensures
        requested_session(route_headers(Some(route))) == Some(lower_text(route)),
        requested_session(route_headers(None)) is None,
{
    lemma_uuid_is_visible(route);
    lemma_requested(route_headers(Some(route)), route);
}

/// Go on with an HTTP/2 connection once its route is known.
pub fn handle_h2(route: Option<String>, buffered: Vec<u8>) -> (r: ConnPlan)
    ensures
        r matches ConnPlan::Resolve { headers, method, path, upgrade: asked, initial }
            && header_lists(headers) == route_headers(opt_text(route)) && method@ == "HTTP/2"@
            && path@ == "*"@ && !asked && initial == buffered,
{
    proof {
        reveal_strlit("x-route-to");
        normalised_name_is_kept("x-route-to"@);
        assert(no_headers().dom().len() == 0);
    }
    let mut headers = empty_headers();
    if let Some(value) = route {
        if let Some(v) = header_value(value.as_str()) {
            if let Some(n) = header_name(ROUTE_HEADER.as_bytes()) {
                let _ = append_header(&mut headers, n, v);
            }
        }
    }
    ConnPlan::Resolve {
        headers,
        method: "HTTP/2".to_string(),
        path: "*".to_string(),
        upgrade: false,
        initial: buffered,
    }
}

/// Where a connection goes.
pub enum Destination {
    /// To the agent of a session, over the broker: the opening frame, and whether to log it. Once
    /// it has begun there is no way back to the app.
    Relay { opening: RawConnFrame, log: bool },
    /// To the app.
    Splice { address: String, initial: Vec<u8> },
}

impl ProxyState {
    /// Send a connection to the session that was found for it, or else to the app. Either way
    /// `initial` goes first.
    pub fn route_or_splice(&self, found: Option<ServiceSession>, initial: Vec<u8>) -> (r: Destination)
        ensures
            match found {
                Some(record) => {
                    &&& r matches Destination::Relay { opening, log }
                    &&& opening@ == (RawConnFrameView {
                        session_id: record.session_id@,
                        connection_id: opening.connection_id@,
                        payload: initial@,
                        is_eof: false,
                        service_name: self.service_name@,
                    })
                    &&& random_uuid_text(opening.connection_id@)
                    &&& log == self.log_routed
                },
                None => r matches Destination::Splice { address, initial: bytes } && address@
                    == upstream_address(self.app_upstream@) && bytes == initial,
            },
    {
        match found {
            Some(record) => {
                let connection_id = fresh_uuid();
                let opening = opening_frame(
                    record.session_id.as_str(),
                    connection_id.as_str(),
                    self.service_name.as_str(),
                    initial,
                );
                Destination::Relay { opening, log: self.log_routed }
            },
            None => Destination::Splice {
                address: normalize_upstream(self.app_upstream.as_str()),
                initial,
            },
        }
    }
}

} // verus!
