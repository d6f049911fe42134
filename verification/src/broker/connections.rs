//! Who waits for what: the tunnels of agents, requests in flight and raw connections.
//!
//! `T` is the sending end of a stream. A map hands out copies of the ends that it holds; sending
//! on them is left to the caller.
use vstd::hash_map::StringHashMap;
use vstd::prelude::*;
use vstd::string::*;

use crate::model::session::{fresh_uuid, random_uuid_text, SessionId};
use crate::model::wire::{Code, RawConnFrame, RelayResponse, RelayResponseMsg, Status};

verus! {

// ── Tunnels ───────────────────────────────────────────────────────────────────

/// The tunnels of agents, by session.
#[verifier::reject_recursive_types(T)]
pub struct ConnectionMap<T> {
    inner: StringHashMap<T>,
}

impl<T> View for ConnectionMap<T> {
    type V = Map<Seq<char>, T>;

    closed spec fn view(&self) -> Map<Seq<char>, T> {
        self.inner@
    }
}

impl<T> Default for ConnectionMap<T> {
    fn default() -> (r: Self)
        ensures
            r@ == Map::<Seq<char>, T>::empty(),
    {
        ConnectionMap { inner: StringHashMap::new() }
    }
}

impl<T> ConnectionMap<T> {
    /// Keep the tunnel of a session, in place of an earlier one.
    pub fn insert(&mut self, session_id: &SessionId, tx: T)
        ensures
            final(self)@ == old(self)@.insert(session_id@, tx),
    {
        self.inner.insert(session_id.to_string(), tx);
    }

    /// Forget the tunnel of a session.
    pub fn remove(&mut self, session_id: &SessionId)
        ensures
            final(self)@ == old(self)@.remove(session_id@),
    {
        self.inner.remove(session_id.as_str());
    }

    /// The tunnel of a session.
    pub fn get(&self, session_id: &SessionId) -> (r: Option<&T>)
        ensures
            match r {
                Some(tx) => self@.contains_key(session_id@) && *tx == self@[session_id@],
                None => !self@.contains_key(session_id@),
            },
    {
        self.inner.get(session_id.as_str())
    }
}

// ── Requests in flight ────────────────────────────────────────────────────────

/// A request in flight: who waits for its response, and whether any of it has come.
pub struct Pending<T> {
    pub tx: T,
    pub saw_first_response: bool,
}

/// The requests in flight, by request.
#[verifier::reject_recursive_types(T)]
pub struct PendingRequests<T> {
    waiting: StringHashMap<T>,
    started: StringHashMap<bool>,
}

impl<T> View for PendingRequests<T> {
    type V = Map<Seq<char>, Pending<T>>;

    closed spec fn view(&self) -> Map<Seq<char>, Pending<T>> {
        Map::new(
            |id: Seq<char>| self.waiting@.contains_key(id),
            |id: Seq<char>|
                Pending {
                    tx: self.waiting@[id],
                    saw_first_response: self.started@.contains_key(id),
                },
        )
    }
}

/// The part of a response that goes to the sidecar.
pub open spec fn forwarded(response: RelayResponse, message: RelayResponseMsg) -> bool {
    &&& message.request_id == response.request_id
    &&& message.status_code == response.status_code
    &&& message.headers == response.headers
    &&& message.body_chunk == response.body_chunk
    &&& message.end_of_body == response.end_of_body
}

/// The requests in flight once a part of the response to `id` has come: the last part ends it.
pub open spec fn after_push<T>(
    pending: Map<Seq<char>, Pending<T>>,
    id: Seq<char>,
    end_of_body: bool,
) -> Map<Seq<char>, Pending<T>> {
    if !pending.contains_key(id) {
        pending
    } else if end_of_body {
        pending.remove(id)
    } else {
        pending.insert(id, Pending { tx: pending[id].tx, saw_first_response: true })
    }
}

/// A request has waited in vain: it is in flight and no part of its response has come.
pub open spec fn unstarted<T>(pending: Map<Seq<char>, Pending<T>>, id: Seq<char>) -> bool {
    pending.contains_key(id) && !pending[id].saw_first_response
}

impl<T> Default for PendingRequests<T> {
    fn default() -> (r: Self)
        ensures
            r@ == Map::<Seq<char>, Pending<T>>::empty(),
    {
        let r = PendingRequests { waiting: StringHashMap::new(), started: StringHashMap::new() };
        assert(r@ =~= Map::<Seq<char>, Pending<T>>::empty());
        r
    }
}

impl<T: Clone> PendingRequests<T> {
    /// Note that `tx` waits for the response to a new request, under a fresh identity.
    pub fn register(&mut self, tx: T) -> (r: String)
        ensures
            random_uuid_text(r@),
            final(self)@ == old(self)@.insert(r@, Pending { tx, saw_first_response: false }),
    {
        let request_id = fresh_uuid();
        self.register_as(request_id.as_str(), tx);
        request_id
    }

    /// Note that `tx` waits for the response to the request `request_id`.
    pub fn register_as(&mut self, request_id: &str, tx: T)
        ensures
            final(self)@ == old(self)@.insert(
                request_id@,
                Pending { tx, saw_first_response: false },
            ),
    {
        self.started.remove(request_id);
        self.waiting.insert(request_id.to_string(), tx);
        assert(self@ =~= old(self)@.insert(request_id@, Pending { tx, saw_first_response: false }));
    }

    /// Take a part of a response from an agent: who waits for it, and what is to be sent there.
    /// `None` says that nobody waits.
    pub fn push(&mut self, response: RelayResponse) -> (r: Option<(T, RelayResponseMsg)>)
        ensures
            final(self)@ == after_push(
                old(self)@,
                response.request_id@,
                response.end_of_body,
            ),
            r is Some <==> old(self)@.contains_key(response.request_id@),
            r matches Some((tx, message)) ==> cloned(old(self)@[response.request_id@].tx, tx)
                && forwarded(response, message),
    {
        let tx = match self.waiting.get(response.request_id.as_str()) {
            None => {
                return None;
            },
            Some(tx) => tx.clone(),
        };
        if response.end_of_body {
            self.waiting.remove(response.request_id.as_str());
            self.started.remove(response.request_id.as_str());
        } else {
            self.started.insert(response.request_id.clone(), true);
        }
        assert(self@ =~= after_push(old(self)@, response.request_id@, response.end_of_body));
        let message = RelayResponseMsg {
            request_id: response.request_id,
            status_code: response.status_code,
            headers: response.headers,
            body_chunk: response.body_chunk,
            end_of_body: response.end_of_body,
        };
        Some((tx, message))
    }

    /// Give up on a request of whose response no part has come: who waited for it, and what it is
    /// to be told. `None` says that there is nothing to give up.
    pub fn timeout_unstarted(&mut self, request_id: &str) -> (r: Option<(T, Status)>)
        ensures
            r is Some <==> unstarted(old(self)@, request_id@),
            r matches Some((tx, status)) ==> cloned(old(self)@[request_id@].tx, tx) && status.says(
                Code::DeadlineExceeded,
                "agent relay timeout"@,
            ),
            final(self)@ == if unstarted(old(self)@, request_id@) {
                old(self)@.remove(request_id@)
            } else {
                old(self)@
            },
    {
        if self.started.contains_key(request_id) {
            return None;
        }
        let tx = match self.waiting.get(request_id) {
            None => {
                return None;
            },
            Some(tx) => tx.clone(),
        };
        self.waiting.remove(request_id);
        assert(self@ =~= old(self)@.remove(request_id@));
        Some((tx, Status::new(Code::DeadlineExceeded, "agent relay timeout".to_string())))
    }

    /// Forget a request.
    pub fn remove(&mut self, request_id: &str)
        ensures
            final(self)@ == old(self)@.remove(request_id@),
    {
        self.waiting.remove(request_id);
        self.started.remove(request_id);
        assert(self@ =~= old(self)@.remove(request_id@));
    }
}

// ── Raw connections ───────────────────────────────────────────────────────────

/// The raw connections, by connection: where the frames of the agent go.
#[verifier::reject_recursive_types(T)]
pub struct RawConnections<T> {
    inner: StringHashMap<T>,
}

impl<T> View for RawConnections<T> {
    type V = Map<Seq<char>, T>;

    closed spec fn view(&self) -> Map<Seq<char>, T> {
        self.inner@
    }
}

impl<T> Default for RawConnections<T> {
    fn default() -> (r: Self)
        ensures
            r@ == Map::<Seq<char>, T>::empty(),
    {
        RawConnections { inner: StringHashMap::new() }
    }
}

impl<T: Clone> RawConnections<T> {
    /// Note where the frames of a connection go.
    pub fn register(&mut self, connection_id: &str, tx: T)
        ensures
            final(self)@ == old(self)@.insert(connection_id@, tx),
    {
        self.inner.insert(connection_id.to_string(), tx);
    }

    /// Forget a connection.
    pub fn remove(&mut self, connection_id: &str)
        ensures
            final(self)@ == old(self)@.remove(connection_id@),
    {
        self.inner.remove(connection_id);
    }

    /// Where a frame of an agent goes. `None` says that nobody waits for it.
    pub fn deliver(&self, frame: &RawConnFrame) -> (r: Option<T>)
        ensures
            r is Some <==> self@.contains_key(frame.connection_id@),
            r matches Some(tx) ==> cloned(self@[frame.connection_id@], tx),
    {
        match self.inner.get(frame.connection_id.as_str()) {
            Some(tx) => Some(tx.clone()),
            None => None,
        }
    }

    /// Take note of a frame that was handed over: a connection is dropped once a frame closed the
    /// half of the agent, or the stream of the sidecar is gone. Says whether the frame arrived.
    pub fn delivered(&mut self, connection_id: &str, is_eof: bool, sent: bool) -> (r: bool)
        ensures
            r == sent,
            final(self)@ == if is_eof || !sent {
                old(self)@.remove(connection_id@)
            } else {
                old(self)@
            },
    {
        if is_eof || !sent {
            self.inner.remove(connection_id);
        }
        sent
    }
}

// ── Laws ──────────────────────────────────────────────────────────────────────

/// The parts of a response reach the waiter up to the last one, and none behind it.
pub proof fn response_streams_until_its_end<T>(
    pending: Map<Seq<char>, Pending<T>>,
    id: Seq<char>,
    end_of_body: bool,
)
    requires
        pending.contains_key(id),
    ensures
        after_push(pending, id, end_of_body).contains_key(id) <==> !end_of_body,
        !end_of_body ==> after_push(pending, id, end_of_body)[id].tx == pending[id].tx,
        forall|other: Seq<char>|
            other != id ==> (#[trigger] after_push(pending, id, end_of_body).contains_key(other)
                <==> pending.contains_key(other)),
{
}

/// A request times out only while no part of its response has come.
pub proof fn started_response_does_not_time_out<T>(
    pending: Map<Seq<char>, Pending<T>>,
    id: Seq<char>,
    end_of_body: bool,
)
    ensures
        !unstarted(after_push(pending, id, end_of_body), id),
{
}

/// What an agent answered goes on as it came.
pub proof fn response_is_forwarded_whole(response: RelayResponse, message: RelayResponseMsg)
    requires
        forwarded(response, message),
    ensures
        message.request_id@ == response.request_id@,
        message.status_code == response.status_code,
        message.headers@ == response.headers@,
        message.body_chunk@ == response.body_chunk@,
        message.end_of_body == response.end_of_body,
{
}

/// A request waits for its response from its start on, and is given up only if none of it came: a
/// first part keeps it, and its waiter, whatever else is in flight.
pub proof fn waiter_is_kept_once_answered<T>(
    pending: Map<Seq<char>, Pending<T>>,
    id: Seq<char>,
    tx: T,
    other: Seq<char>,
)
    requires
        other != id,
    ensures
        unstarted(pending.insert(id, Pending { tx, saw_first_response: false }), id),
        ({
            let answered = after_push(
                pending.insert(id, Pending { tx, saw_first_response: false }),
                id,
                false,
            );
            answered.contains_key(id) && answered[id].tx == tx && !unstarted(answered, id)
        }),
        unstarted(after_push(pending, other, false), id) == unstarted(pending, id),
        unstarted(after_push(pending, other, true), id) == unstarted(pending, id),
        pending.contains_key(id) ==> after_push(pending, other, true)[id] == pending[id],
        pending.contains_key(id) ==> after_push(pending, other, false)[id] == pending[id],
{
}

} // verus!
