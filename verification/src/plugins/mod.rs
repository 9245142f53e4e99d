//! Request plugins and the data they act on.
pub mod access_control;

use vstd::prelude::*;

verus! {

/// An identified API consumer.
#[derive(Debug)]
pub struct Consumer {
    pub id: String,
    pub username: String,
}

/// What plugins see of a request.
#[derive(Debug)]
pub struct RequestContext {
    /// The client's IP address, as text.
    pub client_ip: String,
    /// The consumer an authentication plugin identified, if any.
    pub identified_consumer: Option<Consumer>,
}

/// A plugin's verdict on a request.
#[derive(Debug)]
pub enum PluginResult {
    /// Let the request through.
    Continue,
    /// Answer the request with this status and JSON body.
    Reject { status_code: u16, body: String },
}

/// A verdict by its plain values: `None` to continue, the status and body to reject.
pub open spec fn verdict(r: PluginResult) -> Option<(u16, Seq<char>)> {
    match r {
        PluginResult::Continue => None,
        PluginResult::Reject { status_code, body } => Some((status_code, body@)),
    }
}

} // verus!
