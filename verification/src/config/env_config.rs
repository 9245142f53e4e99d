//! Settings read from the environment at startup.
use vstd::prelude::*;

verus! {

/// The environment settings of the HTTP/3 listener.
#[derive(Debug, Clone, Copy)]
pub struct EnvConfig {
    /// Maximum concurrent bidirectional streams per HTTP/3 connection.
    pub http3_max_streams: u32,
    /// HTTP/3 connection idle timeout, in seconds.
    pub http3_idle_timeout: u64,
}

} // verus!
