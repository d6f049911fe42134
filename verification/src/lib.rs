//! Routing of live cloud traffic to a local machine.
//!
//! A sidecar stands in front of a service and looks for the header `X-Route-To` at the start of
//! each connection. A connection that names a session is relayed, as raw bytes, through a broker
//! and the tunnel of an agent to a port of the machine that the agent runs on; all others reach
//! the service. In the other direction a layer in a local process leads its connections through
//! the agent into the cloud.
//!
//! Everything here decides and computes; sockets, streams and clocks are left to the programs that
//! use it. What takes several steps is a function from a state and an event to the next state and
//! the action to take.
pub mod agent;
pub mod broker;
pub mod cli;
pub mod headers;
pub mod journey;
pub mod json;
pub mod layer;
pub mod model;
pub mod sidecar;
pub mod text;
