//! Verified core of the Ferrum edge gateway.
pub mod config;
pub mod dns;
pub mod grpc;
pub mod http3;
pub mod ipv4;
pub mod json;
pub mod parse;
pub mod plugins;
pub mod router_cache;
pub mod service_discovery;
pub mod text;
pub mod url;
