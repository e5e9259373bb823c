//! The HTTP side: where requests go, how they authenticate, and when they are tried again.

pub mod client;
pub mod client_laws;
pub mod config;
pub mod host;
pub mod host_laws;
pub mod retry;
pub mod sealed;
pub mod sealed_laws;
