//! The data plane's gRPC connection to the control plane.
pub mod dp_client;
