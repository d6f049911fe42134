pub mod cache;
pub mod h2;
pub mod inspector;
pub mod proxy;
pub mod raw;
