//! Handing relayed requests and raw connections to what runs on this machine.
use http::header::{HeaderMap, HeaderValue};
use http::{Method, Uri};
use vstd::prelude::*;
use vstd::string::*;
use vstd::utf8::*;

use crate::headers::{
    append_header, appended, empty_headers, header_lists, header_name, header_value, map_room,
    name_is_lowered, no_headers, normal_name, token_byte, valid_name, valid_value, value_bytes,
    visible, visible_text,
};
use crate::model::frames::{plain_frame, raw_frame};
use crate::model::wire::{AgentMessage, Header, RawConnFrame, RelayResponse};
use crate::text::{
    bytes_between, concat, decimal_text, lower_text, number_reads_back, number_text, parse_decimal,
};

verus! {

/// A request to what runs on this machine.
pub struct LocalCall {
    pub request_id: String,
    pub method: String,
    pub uri: String,
    pub headers: Vec<Header>,
}

/// The address of a path on a local port.
pub open spec fn local_uri(port: u16, path: Seq<char>) -> Seq<char> {
    "http://127.0.0.1:"@ + decimal_text(port as nat) + path
}

/// The address of a path on a local port.
pub fn uri_of(port: u16, path: &str) -> (r: String)
    ensures
        r@ == local_uri(port, path@),
{
    let host = concat("http://127.0.0.1:", number_text(port as u64).as_str());
    concat(host.as_str(), path)
}

/// `http::Method`, opaque.
#[verifier::external_type_specification]
#[verifier::external_body]
pub struct ExMethod(Method);

/// `http::Uri`, opaque.
#[verifier::external_type_specification]
#[verifier::external_body]
pub struct ExUri(Uri);

/// The text of a method.
pub uninterp spec fn method_text(method: Method) -> Seq<char>;

/// The address that a text spells, if it spells one.
pub uninterp spec fn parsed_uri(text: Seq<char>) -> Option<Uri>;

/// `bytes` is a method: one token character or more.
pub open spec fn valid_method(bytes: Seq<u8>) -> bool {
    &&& bytes.len() > 0
    &&& forall|i: int| 0 <= i < bytes.len() ==> token_byte(#[trigger] bytes[i])
}

/// `http::Method::try_from` a text accepts one token character or more, and keeps them as they
/// are.
#[verifier::external_body]
fn http_method(text: &str) -> (r: Option<Method>)
    ensures
        r is Some <==> valid_method(encode_utf8(text@)),
        r matches Some(m) ==> method_text(m) == text@,
{
    Method::try_from(text).ok()
}

/// `http::Uri::try_from` a text gives the address that the text spells. Which texts spell one is
/// left to it.
#[verifier::external_body]
fn http_uri(text: &str) -> (r: Option<Uri>)
    ensures
        r == parsed_uri(text@),
{
    Uri::try_from(text).ok()
}

/// A request to what runs on this machine, ready to be sent but for its body.
pub struct LocalRequest {
    pub method: Method,
    pub uri: Uri,
    pub headers: HeaderMap<HeaderValue>,
}

/// A header that can be sent.
pub open spec fn sendable(header: Header) -> bool {
    valid_name(encode_utf8(header.name@)) && valid_value(encode_utf8(header.value@))
}

/// A call that can be made.
pub open spec fn callable(call: LocalCall) -> bool {
    &&& valid_method(encode_utf8(call.method@))
    &&& parsed_uri(call.uri@) is Some
    &&& forall|i: int| 0 <= i < call.headers@.len() ==> sendable(#[trigger] call.headers@[i])
}

/// The header lists that some headers make.
pub open spec fn local_headers(headers: Seq<Header>) -> Map<Seq<char>, Seq<Seq<u8>>>
    decreases headers.len(),
{
    if headers.len() == 0 {
        no_headers()
    } else {
        appended(
            local_headers(headers.drop_last()),
            normal_name(encode_utf8(headers.last().name@)),
            encode_utf8(headers.last().value@),
        )
    }
}

proof fn lemma_local_headers_size(headers: Seq<Header>)
    ensures
        local_headers(headers).dom().finite(),
        local_headers(headers).dom().len() <= headers.len(),
    decreases headers.len(),
{
    if headers.len() > 0 {
        let before = local_headers(headers.drop_last());
        let name = normal_name(encode_utf8(headers.last().name@));
        lemma_local_headers_size(headers.drop_last());
        assert(local_headers(headers).dom() =~= before.dom().insert(name));
    }
}

/// No name that some headers make is lost with more of them.
proof fn lemma_local_headers_grow(headers: Seq<Header>, i: int)
    requires
        0 <= i <= headers.len(),
    ensures
        local_headers(headers.take(i)).dom().len() <= local_headers(headers).dom().len(),
    decreases headers.len() - i,
{
    lemma_local_headers_size(headers);
    if i == headers.len() {
        assert(headers.take(i) =~= headers);
    } else {
        lemma_local_headers_grow(headers, i + 1);
        let before = headers.take(i);
        let after = headers.take(i + 1);
        lemma_local_headers_size(before);
        assert(after.drop_last() =~= before);
        let name = normal_name(encode_utf8(after.last().name@));
        assert(local_headers(after).dom() =~= local_headers(before).dom().insert(name));
    }
}

/// Make the request of a call. Nothing is given for a call that cannot be made; nothing may be
/// given for one with 6554 different names or more before its last header, where a header map may
/// run out of room.
pub fn do_forward(call: &LocalCall) -> (r: Option<LocalRequest>)
    ensures
        match r {
            Some(request) => {
                &&& callable(*call)
                &&& method_text(request.method) == call.method@
                &&& Some(request.uri) == parsed_uri(call.uri@)
                &&& header_lists(request.headers) == local_headers(call.headers@)
            },
            None => !callable(*call) || (call.headers@.len() > 0 && local_headers(
                call.headers@.drop_last(),
            ).dom().len() >= map_room()),
        },
{
    let method = match http_method(call.method.as_str()) {
        Some(method) => method,
        None => {
            return None;
        },
    };
    let uri = match http_uri(call.uri.as_str()) {
        Some(uri) => uri,
        None => {
            return None;
        },
    };
    let mut headers = empty_headers();
    let mut i: usize = 0;
    while i < call.headers.len()
        invariant
            i <= call.headers@.len(),
            header_lists(headers) == local_headers(call.headers@.take(i as int)),
            forall|k: int| 0 <= k < i ==> sendable(#[trigger] call.headers@[k]),
        decreases call.headers@.len() - i,
    {
        assert(call.headers@.take(i + 1).drop_last() =~= call.headers@.take(i as int));
        proof {
            lemma_local_headers_size(call.headers@.take(i as int));
            let front = call.headers@.drop_last();
            assert(front.take(i as int) =~= call.headers@.take(i as int));
            lemma_local_headers_grow(front, i as int);
        }
        match (
            header_name(call.headers[i].name.as_str().as_bytes()),
            header_value(call.headers[i].value.as_str()),
        ) {
            (Some(name), Some(value)) => {
                if !append_header(&mut headers, name, value) {
                    return None;
                }
            },
            _ => {
                assert(!sendable(call.headers@[i as int]));
                return None;
            },
        }
        i = i + 1;
    }
    assert(call.headers@.take(i as int) =~= call.headers@);
    Some(LocalRequest { method, uri, headers })
}

// ── Responses ─────────────────────────────────────────────────────────────────

/// The text of a header value of a response: empty if it is not all visible ASCII, spaces and
/// tabs.
pub open spec fn value_text(value: Seq<u8>) -> Seq<char> {
    if visible(value) {
        decode_utf8(value)
    } else {
        Seq::empty()
    }
}

/// Make a header of what a response holds.
pub fn response_header(name: &str, value: &HeaderValue) -> (r: Header)
    ensures
        r.name@ == name@,
        r.value@ == value_text(value_bytes(*value)),
{
    let text = match visible_text(value) {
        Some(s) => {
            proof {
                encode_utf8_decode_utf8(s@);
            }
            s.to_string()
        },
        None => String::new(),
    };
    Header { name: name.to_string(), value: text }
}

/// A response on its way to the broker. The headers ride on the first part that is sent.
pub struct ResponseParts {
    pub request_id: String,
    pub status: u16,
    pub headers: Option<Vec<Header>>,
}

/// The headers that are still to be sent.
pub open spec fn unsent(headers: Option<Vec<Header>>) -> Seq<Header> {
    match headers {
        Some(headers) => headers@,
        None => Seq::empty(),
    }
}

/// A message is the next part of a response.
pub open spec fn is_part(
    message: AgentMessage,
    parts: ResponseParts,
    chunk: Seq<u8>,
    end_of_body: bool,
) -> bool {
    &&& message matches AgentMessage::Response(response)
    &&& response.request_id == parts.request_id
    &&& response.status_code == parts.status
    &&& response.headers@ == unsent(parts.headers)
    &&& response.body_chunk@ == chunk
    &&& response.end_of_body == end_of_body
}

impl ResponseParts {
    /// Make the message for a part of the response.
    fn part(&mut self, chunk: Vec<u8>, end_of_body: bool) -> (r: AgentMessage)
        ensures
            is_part(r, *old(self), chunk@, end_of_body),
            *final(self) == (ResponseParts { headers: None, ..*old(self) }),
    {
        let headers = match self.headers.take() {
            Some(headers) => headers,
            None => Vec::new(),
        };
        AgentMessage::Response(
            RelayResponse {
                request_id: self.request_id.clone(),
                status_code: self.status as u32,
                headers,
                body_chunk: chunk,
                end_of_body,
            },
        )
    }
}

/// The response to a request that could not be forwarded.
pub open spec fn is_bad_gateway(message: AgentMessage, request_id: Seq<char>) -> bool {
    &&& message matches AgentMessage::Response(response)
    &&& response.request_id@ == request_id
    &&& response.status_code == 502
    &&& response.headers@.len() == 0
    &&& response.body_chunk@ == encode_utf8("Bad Gateway"@)
    &&& response.end_of_body
}

/// Make the response to a request that could not be forwarded.
fn bad_gateway(request_id: &str) -> (r: AgentMessage)
    ensures
        is_bad_gateway(r, request_id@),
{
    let text = "Bad Gateway";
    let bytes = text.as_bytes();
    assert(bytes@.subrange(0, bytes@.len() as int) =~= bytes@);
    AgentMessage::Response(
        RelayResponse {
            request_id: request_id.to_string(),
            status_code: 502,
            headers: Vec::new(),
            body_chunk: bytes_between(bytes, 0, bytes.len()),
            end_of_body: true,
        },
    )
}

/// Where a relayed request stands.
pub enum CallState {
    /// Waiting for the response of what runs on this machine.
    Calling { request_id: String },
    /// Waiting for a part of its body.
    Streaming { parts: ResponseParts },
    /// A part is on its way to the broker.
    Sending { parts: ResponseParts },
    /// Over.
    Closed,
}

/// What happens to a relayed request.
pub enum CallEvent {
    /// It could not be made, or found no response.
    Failed,
    /// A response began.
    Responded { status: u16, headers: Vec<Header> },
    /// A part of the body came.
    Data(Vec<u8>),
    /// Something else than a part of the body came.
    NoData,
    /// The body ended or broke off.
    Ended,
    /// A part was handed to the broker, or could not be.
    Sent(bool),
}

/// What to do about a relayed request.
pub enum CallAction {
    /// Read on in the body.
    Read,
    /// Send this to the broker and say whether it went.
    Send(AgentMessage),
    /// Send this to the broker, and stop.
    Finish(AgentMessage),
    /// Stop.
    Stop,
}

/// What an event does to a relayed request.
pub open spec fn on_call(
    was: CallState,
    event: CallEvent,
    state: CallState,
    action: CallAction,
) -> bool {
    match (was, event) {
        (CallState::Calling { request_id }, CallEvent::Failed) => {
            &&& state is Closed
            &&& action matches CallAction::Finish(message)
            &&& is_bad_gateway(message, request_id@)
        },
        (CallState::Calling { request_id }, CallEvent::Responded { status, headers }) => {
            &&& state == (CallState::Streaming {
                parts: ResponseParts { request_id, status, headers: Some(headers) },
            })
            &&& action is Read
        },
        (CallState::Streaming { parts }, CallEvent::Data(chunk)) => {
            &&& state == (CallState::Sending { parts: ResponseParts { headers: None, ..parts } })
            &&& action matches CallAction::Send(message)
            &&& is_part(message, parts, chunk@, false)
        },
        (CallState::Streaming { parts }, CallEvent::NoData) => state == was && action is Read,
        (CallState::Streaming { parts }, CallEvent::Ended) => {
            &&& state is Closed
            &&& action matches CallAction::Finish(message)
            &&& is_part(message, parts, Seq::empty(), true)
        },
        (CallState::Sending { parts }, CallEvent::Sent(true)) => {
            &&& state == (CallState::Streaming { parts })
            &&& action is Read
        },
        _ => state is Closed && action is Stop,
    }
}

/// Take the next step with a relayed request. A response that breaks off is ended like one that is
/// complete; an event that the state does not wait for ends it.
pub fn forward(state: CallState, event: CallEvent) -> (r: (CallState, CallAction))
    ensures
        on_call(state, event, r.0, r.1),
{
    match (state, event) {
        (CallState::Calling { request_id }, CallEvent::Failed) => (
            CallState::Closed,
            CallAction::Finish(bad_gateway(request_id.as_str())),
        ),
        (CallState::Calling { request_id }, CallEvent::Responded { status, headers }) => (
            CallState::Streaming {
                parts: ResponseParts { request_id, status, headers: Some(headers) },
            },
            CallAction::Read,
        ),
        (CallState::Streaming { parts }, CallEvent::Data(chunk)) => {
            let mut parts = parts;
            let message = parts.part(chunk, false);
            (CallState::Sending { parts }, CallAction::Send(message))
        },
        (CallState::Streaming { parts }, CallEvent::NoData) => (
            CallState::Streaming { parts },
            CallAction::Read,
        ),
        (CallState::Streaming { parts }, CallEvent::Ended) => {
            let mut parts = parts;
            (CallState::Closed, CallAction::Finish(parts.part(Vec::new(), true)))
        },
        (CallState::Sending { parts }, CallEvent::Sent(true)) => (
            CallState::Streaming { parts },
            CallAction::Read,
        ),
        _ => (CallState::Closed, CallAction::Stop),
    }
}

// ── Raw connections ───────────────────────────────────────────────────────────

/// Where a raw connection to a local port stands.
pub enum ForwardState {
    /// Waiting for the connection.
    Dialing { open: RawConnFrame },
    /// The bytes of the opening frame are on their way to the local side.
    Opening { connection_id: String, is_eof: bool },
    /// Waiting for a frame of the broker.
    Pumping,
    /// The bytes of a frame are on their way to the local side.
    Writing { is_eof: bool },
    /// Nothing more goes to the local side.
    Draining,
    /// Over.
    Closed,
}

/// What happens on a raw connection to a local port.
pub enum ForwardEvent {
    /// The local port was dialed.
    Dialed { connected: bool },
    /// Bytes were written to the local side, or could not be.
    Written(bool),
    /// A frame of the broker came.
    Frame(RawConnFrame),
    /// No more frames will come.
    NoMoreFrames,
}

/// What to do about a raw connection to a local port.
pub enum ForwardAction {
    /// Write to the local side and say whether it went.
    Write(Vec<u8>),
    /// Start to send what the local side says, and wait for a frame of the broker.
    StartAndPump,
    /// Start to send what the local side says, close the half towards it, and wait for its end.
    StartAndClose,
    /// Wait for a frame of the broker.
    Pump,
    /// Close the half towards the local side, and wait for its end.
    Close,
    /// Wait for the end of the local side.
    Drain,
    /// Send this to the broker, and stop.
    Fail(AgentMessage),
    /// Stop.
    Stop,
}

/// The message that ends a connection.
pub open spec fn is_closing(message: AgentMessage, connection_id: Seq<char>) -> bool {
    message matches AgentMessage::Raw(frame) && frame@ == plain_frame(
        connection_id,
        Seq::empty(),
        true,
    )
}

/// What comes once the opening frame has been written: the local side is listened to, and written
/// to unless the opening frame was the last.
pub open spec fn is_started(is_eof: bool, state: ForwardState, action: ForwardAction) -> bool {
    if is_eof {
        state is Draining && action is StartAndClose
    } else {
        state is Pumping && action is StartAndPump
    }
}

/// What comes once a frame has been written.
pub open spec fn is_continued(is_eof: bool, state: ForwardState, action: ForwardAction) -> bool {
    if is_eof {
        state is Draining && action is Close
    } else {
        state is Pumping && action is Pump
    }
}

/// What an event does on a raw connection to a local port.
pub open spec fn on_forward(
    was: ForwardState,
    event: ForwardEvent,
    state: ForwardState,
    action: ForwardAction,
) -> bool {
    match (was, event) {
        (ForwardState::Dialing { open }, ForwardEvent::Dialed { connected }) => if !connected {
            &&& state is Closed
            &&& action matches ForwardAction::Fail(message)
            &&& is_closing(message, open.connection_id@)
        } else if open.payload@.len() > 0 {
            &&& state matches ForwardState::Opening { connection_id, is_eof }
            &&& connection_id == open.connection_id
            &&& is_eof == open.is_eof
            &&& action == ForwardAction::Write(open.payload)
        } else {
            is_started(open.is_eof, state, action)
        },
        (ForwardState::Opening { connection_id, is_eof }, ForwardEvent::Written(written)) => {
            if written {
                is_started(is_eof, state, action)
            } else {
                &&& state is Closed
                &&& action matches ForwardAction::Fail(message)
                &&& is_closing(message, connection_id@)
            }
        },
        (ForwardState::Pumping, ForwardEvent::Frame(frame)) => if frame.payload@.len() > 0 {
            &&& state == (ForwardState::Writing { is_eof: frame.is_eof })
            &&& action == ForwardAction::Write(frame.payload)
        } else {
            is_continued(frame.is_eof, state, action)
        },
        (ForwardState::Pumping, ForwardEvent::NoMoreFrames) => state is Draining
            && action is Drain,
        (ForwardState::Writing { is_eof }, ForwardEvent::Written(written)) => if written {
            is_continued(is_eof, state, action)
        } else {
            state is Draining && action is Drain
        },
        _ => state is Closed && action is Stop,
    }
}

fn closing(connection_id: &str) -> (r: AgentMessage)
    ensures
        is_closing(r, connection_id@),
{
    AgentMessage::Raw(raw_frame(connection_id, Vec::new(), true))
}

fn started(is_eof: bool) -> (r: (ForwardState, ForwardAction))
    ensures
        is_started(is_eof, r.0, r.1),
{
    if is_eof {
        (ForwardState::Draining, ForwardAction::StartAndClose)
    } else {
        (ForwardState::Pumping, ForwardAction::StartAndPump)
    }
}

fn continued(is_eof: bool) -> (r: (ForwardState, ForwardAction))
    ensures
        is_continued(is_eof, r.0, r.1),
{
    if is_eof {
        (ForwardState::Draining, ForwardAction::Close)
    } else {
        (ForwardState::Pumping, ForwardAction::Pump)
    }
}

/// Take the next step with a raw connection to a local port. An opening frame that ends the half
/// of the client leaves nothing to wait for from the broker.
pub fn forward_connection(state: ForwardState, event: ForwardEvent) -> (r: (
    ForwardState,
    ForwardAction,
))
    ensures
        on_forward(state, event, r.0, r.1),
{
    match (state, event) {
        (ForwardState::Dialing { open }, ForwardEvent::Dialed { connected }) => {
            if !connected {
                (
                    ForwardState::Closed,
                    ForwardAction::Fail(closing(open.connection_id.as_str())),
                )
            } else if open.payload.len() > 0 {
                (
                    ForwardState::Opening {
                        connection_id: open.connection_id,
                        is_eof: open.is_eof,
                    },
                    ForwardAction::Write(open.payload),
                )
            } else {
                started(open.is_eof)
            }
        },
        (ForwardState::Opening { connection_id, is_eof }, ForwardEvent::Written(written)) => {
            if written {
                started(is_eof)
            } else {
                (ForwardState::Closed, ForwardAction::Fail(closing(connection_id.as_str())))
            }
        },
        (ForwardState::Pumping, ForwardEvent::Frame(frame)) => {
            if frame.payload.len() > 0 {
                (
                    ForwardState::Writing { is_eof: frame.is_eof },
                    ForwardAction::Write(frame.payload),
                )
            } else {
                continued(frame.is_eof)
            }
        },
        (ForwardState::Pumping, ForwardEvent::NoMoreFrames) => (
            ForwardState::Draining,
            ForwardAction::Drain,
        ),
        (ForwardState::Writing { is_eof }, ForwardEvent::Written(written)) => {
            if written {
                continued(is_eof)
            } else {
                (ForwardState::Draining, ForwardAction::Drain)
            }
        },
        _ => (ForwardState::Closed, ForwardAction::Stop),
    }
}

// ── Laws ──────────────────────────────────────────────────────────────────────

/// A connection that cannot be dialed is closed towards the broker, so that nobody waits for it.
pub proof fn failed_dial_is_closed(open: RawConnFrame, state: ForwardState, action: ForwardAction)
    requires
        on_forward(
            ForwardState::Dialing { open },
            ForwardEvent::Dialed { connected: false },
            state,
            action,
        ),
    ensures
        action matches ForwardAction::Fail(message) && is_closing(message, open.connection_id@),
{
}

/// Every byte of a frame is written to the local side, and nothing else is.
pub proof fn frames_are_written_whole(
    was: ForwardState,
    frame: RawConnFrame,
    state: ForwardState,
    action: ForwardAction,
)
    requires
        was is Pumping,
        on_forward(was, ForwardEvent::Frame(frame), state, action),
    ensures
        frame.payload@.len() > 0 ==> action == ForwardAction::Write(frame.payload),
        frame.payload@.len() == 0 ==> !(action is Write),
{
}

/// The headers of a response are sent once, with its first part.
pub proof fn headers_are_sent_once(
    was: CallState,
    event: CallEvent,
    state: CallState,
    action: CallAction,
)
    requires
        on_call(was, event, state, action),
    ensures
        action is Send ==> (was matches CallState::Streaming { parts }
            && action->Send_0->Response_0.headers@ == unsent(parts.headers)),
        state matches CallState::Sending { parts } ==> parts.headers is None,
        (was matches CallState::Sending { parts } && parts.headers is None) ==> (state matches
            CallState::Streaming { parts } ==> parts.headers is None),
{
}

/// A relayed request is answered to its end: what stops without a last part was given up by the
/// broker.
pub proof fn response_is_ended(
    was: CallState,
    event: CallEvent,
    state: CallState,
    action: CallAction,
)
    requires
        on_call(was, event, state, action),
    ensures
        action matches CallAction::Finish(AgentMessage::Response(response)) ==> response.end_of_body
            && state is Closed,
        action matches CallAction::Send(AgentMessage::Response(response)) ==> !response.end_of_body,
        was is Calling && event is Failed ==> action is Finish,
        was is Streaming && event is Ended ==> action is Finish,
{
}

/// Every header of a relayed request is sent under its own name, in lower case: the values of a
/// name are those of the headers that have it, in their order, and a name that no header has is not
/// sent.
pub proof fn headers_are_filed_by_name(headers: Seq<Header>, name: Seq<char>)
    requires
        forall|i: int| 0 <= i < headers.len() ==> sendable(#[trigger] headers[i]),
    ensures
        ({
            let named = headers.filter(|h: Header| lower_text(h.name@) == name);
            &&& local_headers(headers).contains_key(name) <==> named.len() > 0
            &&& named.len() > 0 ==> local_headers(headers)[name] == named.map_values(
                |h: Header| encode_utf8(h.value@),
            )
        }),
    decreases headers.len(),
{
    reveal(Seq::filter);
    let pred = |h: Header| lower_text(h.name@) == name;
    let value = |h: Header| encode_utf8(h.value@);
    let named = headers.filter(pred);
    if headers.len() > 0 {
        let front = headers.drop_last();
        let last = headers.last();
        assert forall|i: int| 0 <= i < front.len() implies sendable(#[trigger] front[i]) by {
            assert(front[i] == headers[i]);
        }
        headers_are_filed_by_name(front, name);
        assert(sendable(last));
        name_is_lowered(last.name@);
        let before = front.filter(pred);
        if pred(last) {
            assert(named == before.push(last));
            assert(named.map_values(value) =~= before.map_values(value).push(value(last)));
        }
    }
}

/// In particular every header is there, with its value under its name.
pub proof fn every_header_is_sent(headers: Seq<Header>, i: int)
    requires
        forall|k: int| 0 <= k < headers.len() ==> sendable(#[trigger] headers[k]),
        0 <= i < headers.len(),
    ensures
        local_headers(headers).contains_key(lower_text(headers[i].name@)),
        local_headers(headers)[lower_text(headers[i].name@)].contains(
            encode_utf8(headers[i].value@),
        ),
{
    let name = lower_text(headers[i].name@);
    let pred = |h: Header| lower_text(h.name@) == name;
    let value = |h: Header| encode_utf8(h.value@);
    let named = headers.filter(pred);
    headers_are_filed_by_name(headers, name);
    headers.lemma_filter_contains(pred, i);
    let k = choose|k: int| 0 <= k < named.len() && named[k] == headers[i];
    assert(named.map_values(value)[k] == encode_utf8(headers[i].value@));
}

/// A local call goes to this machine, to the port of the service, with the path that was asked for.
pub proof fn local_call_goes_to_its_port(port: u16, path: Seq<char>)
    ensures
        exists|digits: Seq<char>|
            #![trigger parse_decimal(digits, 65535)]
            parse_decimal(digits, 65535) == Some(port as nat) && local_uri(port, path)
                == "http://127.0.0.1:"@ + digits + path,
{
    number_reads_back(port as nat, 65535);
    assert(parse_decimal(decimal_text(port as nat), 65535) == Some(port as nat));
}

/// A response is passed on as it is: its status on every part, its headers on the first one, each
/// part of its body as it came, and its end once.
pub proof fn response_is_passed_on(
    request_id: String,
    status: u16,
    headers: Vec<Header>,
    chunk: Vec<u8>,
    second: Vec<u8>,
    s1: CallState,
    a1: CallAction,
    s2: CallState,
    a2: CallAction,
    s3: CallState,
    a3: CallAction,
    s4: CallState,
    a4: CallAction,
    s5: CallState,
    a5: CallAction,
)
    requires
        on_call(
            CallState::Calling { request_id },
            CallEvent::Responded { status, headers },
            s1,
            a1,
        ),
        on_call(s1, CallEvent::Data(chunk), s2, a2),
        on_call(s2, CallEvent::Sent(true), s3, a3),
        on_call(s3, CallEvent::Data(second), s4, a4),
        on_call(s3, CallEvent::Ended, s5, a5),
    ensures
        a1 is Read,
        a3 is Read,
        a2 matches CallAction::Send(AgentMessage::Response(part)) && part.request_id == request_id
            && part.status_code == status && part.headers@ == headers@ && part.body_chunk@ == chunk@
            && !part.end_of_body,
        a4 matches CallAction::Send(AgentMessage::Response(part)) && part.request_id == request_id
            && part.status_code == status && part.headers@.len() == 0 && part.body_chunk@
            == second@ && !part.end_of_body,
        a5 matches CallAction::Finish(AgentMessage::Response(part)) && part.request_id == request_id
            && part.status_code == status && part.headers@.len() == 0 && part.body_chunk@.len() == 0
            && part.end_of_body,
{
}

/// A response without a body is passed on in one part, with its headers; a request that found no
/// response is answered with 502.
pub proof fn every_request_is_answered(
    request_id: String,
    status: u16,
    headers: Vec<Header>,
    s1: CallState,
    a1: CallAction,
    s2: CallState,
    a2: CallAction,
    s3: CallState,
    a3: CallAction,
)
    requires
        on_call(
            CallState::Calling { request_id },
            CallEvent::Responded { status, headers },
            s1,
            a1,
        ),
        on_call(s1, CallEvent::Ended, s2, a2),
        on_call(CallState::Calling { request_id }, CallEvent::Failed, s3, a3),
    ensures
        a2 matches CallAction::Finish(AgentMessage::Response(part)) && part.request_id == request_id
            && part.status_code == status && part.headers@ == headers@ && part.body_chunk@.len()
            == 0 && part.end_of_body,
        a3 matches CallAction::Finish(AgentMessage::Response(part)) && part.request_id@
            == request_id@ && part.status_code == 502 && part.body_chunk@ == encode_utf8(
            "Bad Gateway"@,
        ) && part.end_of_body,
{
}

/// A raw connection is written as it came: what the opening frame carries first, then what each
/// frame carries; the end of the client's half closes the local one, and does not end the other.
pub proof fn raw_connection_is_written(
    open: RawConnFrame,
    frame: RawConnFrame,
    s1: ForwardState,
    a1: ForwardAction,
    s2: ForwardState,
    a2: ForwardAction,
    s3: ForwardState,
    a3: ForwardAction,
    s4: ForwardState,
    a4: ForwardAction,
)
    requires
        open.payload@.len() > 0,
        !open.is_eof,
        frame.payload@.len() > 0,
        on_forward(
            ForwardState::Dialing { open },
            ForwardEvent::Dialed { connected: true },
            s1,
            a1,
        ),
        on_forward(s1, ForwardEvent::Written(true), s2, a2),
        on_forward(s2, ForwardEvent::Frame(frame), s3, a3),
        on_forward(s3, ForwardEvent::Written(true), s4, a4),
    ensures
        a1 == ForwardAction::Write(open.payload),
        a2 is StartAndPump,
        a3 == ForwardAction::Write(frame.payload),
        frame.is_eof ==> a4 is Close && s4 is Draining,
        !frame.is_eof ==> a4 is Pump && s4 == s2,
{
}

/// A call is made exactly if its method is a token, its address is one, and each of its headers can
/// be sent.
pub proof fn sendable_calls_are_made(call: LocalCall, i: int)
    ensures
        callable(call) ==> encode_utf8(call.method@).len() > 0 && parsed_uri(call.uri@) is Some,
        callable(call) && 0 <= i < call.headers@.len() ==> sendable(call.headers@[i]),
        valid_method(encode_utf8(call.method@)) && parsed_uri(call.uri@) is Some && (forall|k: int|
            0 <= k < call.headers@.len() ==> sendable(#[trigger] call.headers@[k])) ==> callable(
            call,
        ),
{
}

/// The value of a response header is passed on as text if it is visible, and otherwise left empty.
pub proof fn visible_values_are_passed_on(text: Seq<char>, value: Seq<u8>)
    ensures
        visible(encode_utf8(text)) ==> value_text(encode_utf8(text)) == text,
        !visible(value) ==> value_text(value).len() == 0,
{
    encode_utf8_decode_utf8(text);
}

/// A raw connection whose opening frame carries nothing is pumped at once; one whose client has
/// closed its half is only listened to; one whose opening bytes cannot be written is closed towards
/// the broker.
pub proof fn raw_connection_is_opened(
    open: RawConnFrame,
    connection_id: String,
    is_eof: bool,
    s1: ForwardState,
    a1: ForwardAction,
    s2: ForwardState,
    a2: ForwardAction,
)
    requires
        on_forward(
            ForwardState::Dialing { open },
            ForwardEvent::Dialed { connected: true },
            s1,
            a1,
        ),
        on_forward(
            ForwardState::Opening { connection_id, is_eof },
            ForwardEvent::Written(false),
            s2,
            a2,
        ),
    ensures
        open.payload@.len() == 0 && open.is_eof ==> a1 is StartAndClose && s1 is Draining,
        open.payload@.len() == 0 && !open.is_eof ==> a1 is StartAndPump && s1 is Pumping,
        open.payload@.len() > 0 ==> (a1 matches ForwardAction::Write(bytes) && bytes@
            == open.payload@),
        a2 matches ForwardAction::Fail(AgentMessage::Raw(frame)) && frame.connection_id@
            == connection_id@ && frame.is_eof && frame.payload@.len() == 0,
{
}

/// A part that the broker does not take ends the answer; what is no part of the body is passed over.
pub proof fn lost_broker_ends_the_answer(
    parts: ResponseParts,
    s1: CallState,
    a1: CallAction,
    s2: CallState,
    a2: CallAction,
)
    requires
        on_call(CallState::Sending { parts }, CallEvent::Sent(false), s1, a1),
        on_call(CallState::Streaming { parts }, CallEvent::NoData, s2, a2),
    ensures
        s1 is Closed && a1 is Stop,
        s2 == (CallState::Streaming { parts }) && a2 is Read,
{
}

/// A local side that takes nothing more is still listened to, and so is one to which nothing more
/// comes.
pub proof fn local_side_is_heard_to_its_end(
    is_eof: bool,
    frame: RawConnFrame,
    s1: ForwardState,
    a1: ForwardAction,
    s2: ForwardState,
    a2: ForwardAction,
    s3: ForwardState,
    a3: ForwardAction,
)
    requires
        frame.payload@.len() == 0,
        on_forward(ForwardState::Writing { is_eof }, ForwardEvent::Written(false), s1, a1),
        on_forward(ForwardState::Pumping, ForwardEvent::NoMoreFrames, s2, a2),
        on_forward(ForwardState::Pumping, ForwardEvent::Frame(frame), s3, a3),
    ensures
        s1 is Draining && a1 is Drain,
        s2 is Draining && a2 is Drain,
        frame.is_eof ==> s3 is Draining && a3 is Close,
        !frame.is_eof ==> s3 is Pumping && a3 is Pump,
{
}

} // verus!
