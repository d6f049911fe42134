pub mod auth;
pub mod env;
pub mod gcloud;
pub mod run;
pub mod start;
pub mod status;
pub mod tun;
