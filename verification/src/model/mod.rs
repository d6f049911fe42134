pub mod config;
pub mod error;
pub mod frames;
pub mod session;
pub mod text_map;
pub mod wire;
