//! TLS settings of the data plane's control plane client.
use vstd::prelude::*;

use crate::url::{parsed_uri_authority, uri_authority};

verus! {

/// TLS configuration for the DP gRPC client.
#[derive(Clone, Debug)]
pub struct DpGrpcTlsConfig {
    /// CA certificate PEM bytes for verifying the CP server certificate.
    pub ca_cert_pem: Option<Vec<u8>>,
    /// Client certificate PEM bytes for mTLS.
    pub client_cert_pem: Option<Vec<u8>>,
    /// Client private key PEM bytes for mTLS.
    pub client_key_pem: Option<Vec<u8>>,
    /// Skip server certificate verification (testing only).
    pub insecure_skip_verify: bool,
}

impl Default for DpGrpcTlsConfig {
    fn default() -> (c: Self)
        ensures
            c.ca_cert_pem is None,
            c.client_cert_pem is None,
            c.client_key_pem is None,
            !c.insecure_skip_verify,
    {
        DpGrpcTlsConfig { ca_cert_pem: None, client_cert_pem: None, client_key_pem: None, insecure_skip_verify: false }
    }
}

impl DpGrpcTlsConfig {
    /// The client certificate and key for mTLS, when both are configured.
    pub fn client_identity(&self) -> (id: Option<(&Vec<u8>, &Vec<u8>)>)
        ensures
            id is Some <==> self.client_cert_pem is Some && self.client_key_pem is Some,
            id matches Some(p) ==> Some(*p.0) == self.client_cert_pem && Some(*p.1) == self.client_key_pem,
    {
        match (&self.client_cert_pem, &self.client_key_pem) {
            (Some(cert), Some(key)) => Some((cert, key)),
            _ => None,
        }
    }
}

/// The server name the control plane's certificate is checked against: the
/// host of the control plane URL, when it parses and names one.
pub open spec fn spec_tls_domain_name(cp_url: Seq<char>) -> Option<Seq<char>> {
    match parsed_uri_authority(cp_url) {
        Ok((Some(h), _)) => Some(h),
        _ => None,
    }
}

/// The TLS server name for the control plane URL (see [`spec_tls_domain_name`]).
pub fn tls_domain_name(cp_url: &str) -> (d: Option<String>)
    ensures
        match d {
            Some(h) => spec_tls_domain_name(cp_url@) == Some(h@),
            None => spec_tls_domain_name(cp_url@) is None,
        },
{
    match uri_authority(cp_url) {
        Ok((Some(h), _)) => Some(h),
        _ => None,
    }
}

/// The authorization header value sent to the control plane.
pub open spec fn spec_bearer_authorization(token: Seq<char>) -> Seq<char> {
    "Bearer "@ + token
}

/// The authorization header value for an auth token: `Bearer <token>`.
pub fn bearer_authorization(token: &str) -> (v: String)
    ensures
        v@ == spec_bearer_authorization(token@),
{
    let mut v = String::from_str("Bearer ");
    v.append(token);
    v
}

} // verus!
