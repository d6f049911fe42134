pub mod chain;
pub mod connect;
pub mod fake_ip;
pub mod inject;
pub mod lookup;
pub mod rules;
