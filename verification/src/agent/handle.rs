//! An agent: its session and the routes that the session offers.
use vstd::prelude::*;
use vstd::string::*;

use crate::agent::status::{overall, worst, SessionEntry};
use crate::model::config::{AgentConfig, ServiceRoute};
use crate::model::error::DetourError;
use crate::model::session::{random_uuid_text, SessionId, TunnelStatus};

verus! {

/// A running agent. All its routes share one session.
pub struct AgentHandle {
    session_id: SessionId,
    routes: Vec<ServiceRoute>,
}

/// What an [`AgentHandle`] is.
pub struct AgentView {
    pub session_id: Seq<char>,
    pub routes: Seq<ServiceRoute>,
}

impl View for AgentHandle {
    type V = AgentView;

    closed spec fn view(&self) -> AgentView {
        AgentView { session_id: self.session_id@, routes: self.routes@ }
    }
}

fn clone_routes(routes: &[ServiceRoute]) -> (r: Vec<ServiceRoute>)
    ensures
        r@ == routes@,
{
    let mut out: Vec<ServiceRoute> = Vec::new();
    let mut i: usize = 0;
    while i < routes.len()
        invariant
            i <= routes@.len(),
            out@ == routes@.take(i as int),
        decreases routes@.len() - i,
    {
        out.push(routes[i].clone());
        assert(out@ =~= routes@.take(i + 1));
        i = i + 1;
    }
    assert(routes@.take(i as int) =~= routes@);
    out
}

impl AgentHandle {
    /// Start an agent under a new session. It must have routes.
    pub fn start(config: &AgentConfig) -> (r: Result<AgentHandle, DetourError>)
        ensures
            match r {
                Ok(agent) => config.routes@.len() > 0 && agent@.routes == config.routes@
                    && random_uuid_text(agent@.session_id),
                Err(e) => config.routes@.len() == 0 && e is ConfigError && e.detail()
                    == "no routes specified"@,
            },
    {
        if config.routes.len() == 0 {
            return Err(DetourError::ConfigError("no routes specified".to_string()));
        }
        Ok(
            AgentHandle {
                session_id: SessionId::new(),
                routes: clone_routes(config.routes.as_slice()),
            },
        )
    }

    /// The session of the agent.
    pub fn session_id(&self) -> (r: &SessionId)
        ensures
            r@ == self@.session_id,
    {
        &self.session_id
    }

    /// The service and the session of each route. All share the same session.
    pub fn sessions(&self) -> (r: Vec<(String, SessionId)>)
        ensures
            r@.len() == self@.routes.len(),
            forall|i: int|
                0 <= i < r@.len() ==> (#[trigger] r@[i]).0 == self@.routes[i].service_name
                    && r@[i].1@ == self@.session_id,
    {
        let mut out: Vec<(String, SessionId)> = Vec::new();
        let mut i: usize = 0;
        while i < self.routes.len()
            invariant
                i <= self.routes@.len(),
                out@.len() == i,
                forall|k: int|
                    0 <= k < i ==> (#[trigger] out@[k]).0 == self.routes@[k].service_name
                        && out@[k].1@ == self.session_id@,
            decreases self.routes@.len() - i,
        {
            out.push((self.routes[i].service_name.clone(), self.session_id.clone()));
            i = i + 1;
        }
        out
    }

    /// What the status endpoint reports: each route, with the status of the one tunnel.
    pub fn entries(&self, status: &TunnelStatus) -> (r: Vec<SessionEntry>)
        ensures
            r@.len() == self@.routes.len(),
            forall|i: int|
                0 <= i < r@.len() ==> (#[trigger] r@[i]).route == self@.routes[i]
                    && r@[i].session_id@ == self@.session_id && r@[i].status == *status,
    {
        let mut out: Vec<SessionEntry> = Vec::new();
        let mut i: usize = 0;
        while i < self.routes.len()
            invariant
                i <= self.routes@.len(),
                out@.len() == i,
                forall|k: int|
                    0 <= k < i ==> (#[trigger] out@[k]).route == self.routes@[k]
                        && out@[k].session_id@ == self.session_id@ && out@[k].status == *status,
            decreases self.routes@.len() - i,
        {
            out.push(
                SessionEntry {
                    session_id: self.session_id.clone(),
                    route: self.routes[i].clone(),
                    status: status.clone(),
                },
            );
            i = i + 1;
        }
        out
    }

    /// The worst status of the tunnels of the agent.
    pub fn status(&self, tunnels: &[TunnelStatus]) -> (r: TunnelStatus)
        ensures
            r == worst(tunnels@),
    {
        overall(tunnels)
    }
}

} // verus!
