//! HTTP/3 listener settings and the request side of the HTTP/3 backend client.
pub mod client;
pub mod config;
