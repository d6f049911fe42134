pub mod forwarder;
pub mod handle;
pub mod outbound;
pub mod status;
pub mod tunnel;
