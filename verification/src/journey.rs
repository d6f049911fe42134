//! The way of a routed connection: from a sidecar through a broker to a local port, and back.
use vstd::prelude::*;

use crate::agent::forwarder::{on_forward, ForwardAction, ForwardEvent, ForwardState};
use crate::agent::tunnel::{offers, on_agent, AgentAction, AgentEvent, DispatcherView};
use crate::broker::registry::{
    after_register, age, registered, registered_session_is_found, session_stands_for_its_routes,
    RegistryView,
};
use crate::broker::relay::{
    lookup_answer, offered_routes, on_message, on_raw, RawAction, RawEvent, RawState, RelayService,
    TunnelAction, TunnelState,
};
use crate::model::config::{routes_view, ServiceRoute};
use crate::model::session::{auth_mode_round_trip, uuid_text, SessionId, SessionRecord};
use crate::model::wire::{AgentMessage, BrokerMessage, RawConnFrame, RouteEntry};
use crate::sidecar::inspector::{looked_up, serves};

verus! {

/// The routes that an agent offers arrive at the broker as they are.
pub proof fn offered_routes_arrive(entries: Seq<RouteEntry>, routes: Seq<ServiceRoute>)
    requires
        entries.len() == routes.len(),
        forall|i: int| 0 <= i < routes.len() ==> offers(#[trigger] entries[i], routes[i]),
    ensures
        offered_routes(entries) == routes_view(routes),
{
    assert forall|i: int| 0 <= i < routes.len() implies offered_routes(entries)[i] == routes_view(
        routes,
    )[i] by {
        assert(offers(entries[i], routes[i]));
    }
    assert(offered_routes(entries) =~= routes_view(routes));
}

/// A session that was registered with a route for a service is confirmed to the sidecar of that
/// service while it is alive, and the sidecar takes it; no other service is told of it.
pub proof fn registered_session_is_confirmed(
    registry: RegistryView,
    record: SessionRecord,
    now: u64,
    service: Seq<char>,
)
    requires
        service.len() > 0,
        age(record.last_heartbeat, now) <= registry.ttl_secs,
    ensures
        ({
            let found = registered(after_register(registry, record), record.session_id@, now);
            let answer = lookup_answer(found, service);
            &&& answer.found <==> exists|i: int|
                0 <= i < record.routes@.len() && #[trigger] record.routes@[i].service_name@
                    == service
            &&& answer.found ==> serves(service, looked_up(record.session_id@, answer).service_name)
                && looked_up(record.session_id@, answer).auth_mode == record.auth_mode
        }),
{
    registered_session_is_found(registry, record, now);
    session_stands_for_its_routes(record, service);
    auth_mode_round_trip(record.auth_mode, record.auth_mode.name());
}

/// A broker hands the opening frame of a connection, as it is, to the tunnel of the session that
/// it names.
pub proof fn opening_goes_to_its_session<T: Clone, P, R>(
    before: RelayService<T, P, R>,
    after: RelayService<T, P, R>,
    frame: RawConnFrame,
    waiter: R,
    state: RawState<T>,
    action: RawAction<T>,
)
    requires
        uuid_text(frame.session_id@),
        frame.connection_id@.len() > 0,
        before.connections@.contains_key(frame.session_id@),
        on_raw(before, after, RawState::First, RawEvent::First { frame, waiter }, state, action),
    ensures
        action matches RawAction::Send { agent, message } && message == BrokerMessage::Raw(frame)
            && (state matches RawState::Sending { agent: kept, .. } && cloned(
            before.connections@[frame.session_id@],
            kept,
        ) && cloned(kept, agent)),
{
}

/// An agent takes the opening frame of a connection to the port of the service that it names, and
/// writes there, before anything else, the bytes that the sidecar had read.
pub proof fn opening_goes_to_its_port<B: Clone, C: Clone>(
    before: DispatcherView<B, C>,
    after: DispatcherView<B, C>,
    frame: RawConnFrame,
    action: AgentAction<B, C>,
    state: ForwardState,
    first: ForwardAction,
)
    requires
        before.routes.contains_key(frame.service_name@),
        !before.connections.contains_key(frame.connection_id@),
        frame.payload@.len() > 0,
        on_agent(before, after, AgentEvent::Message(Some(BrokerMessage::Raw(frame))), action),
        on_forward(
            ForwardState::Dialing { open: frame },
            ForwardEvent::Dialed { connected: true },
            state,
            first,
        ),
    ensures
        action == (AgentAction::<B, C>::Connect {
            frame,
            local_port: before.routes[frame.service_name@],
        }),
        first == ForwardAction::Write(frame.payload),
{
}

/// What the agent then sends for the connection goes back, as it is, to the sidecar that opened it.
pub proof fn answers_come_back<T: Clone, P: Clone, R: Clone>(
    before: RelayService<T, P, R>,
    opened: RelayService<T, P, R>,
    after: RelayService<T, P, R>,
    frame: RawConnFrame,
    waiter: R,
    state: RawState<T>,
    action: RawAction<T>,
    session: Option<SessionId>,
    reply: RawConnFrame,
    next: TunnelState,
    step: TunnelAction<P, R>,
)
    requires
        uuid_text(frame.session_id@),
        frame.connection_id@.len() > 0,
        before.connections@.contains_key(frame.session_id@),
        on_raw(before, opened, RawState::First, RawEvent::First { frame, waiter }, state, action),
        reply.connection_id@ == frame.connection_id@,
        on_message(opened, after, session, Some(AgentMessage::Raw(reply)), next, step),
    ensures
        step matches TunnelAction::Deliver { waiter: to, frame: passed } && cloned(waiter, to)
            && passed == reply,
{
}

} // verus!
