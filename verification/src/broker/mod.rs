pub mod auth;
pub mod connections;
pub mod registry;
pub mod relay;
