//! The request side of the HTTP/3 backend client: the method to send and the
//! backend authority to dial.
use vstd::prelude::*;

use crate::config::types::Proxy;
use crate::text::{chars_equal, chars_of};
use crate::url::{parsed_uri_authority, uri_authority};

verus! {

/// The request methods the HTTP/3 client sends.
#[derive(Debug, Clone, Copy, PartialEq, Eq, Structural)]
pub enum HttpMethod {
    Get,
    Post,
    Put,
    Delete,
    Patch,
    Head,
    Options,
}

/// The method sent for a method name: the seven standard names map to
/// themselves (case-sensitively); any other name is sent as `GET`.
pub open spec fn spec_method_for(name: Seq<char>) -> HttpMethod {
    if name == "POST"@ {
        HttpMethod::Post
    } else if name == "PUT"@ {
        HttpMethod::Put
    } else if name == "DELETE"@ {
        HttpMethod::Delete
    } else if name == "PATCH"@ {
        HttpMethod::Patch
    } else if name == "HEAD"@ {
        HttpMethod::Head
    } else if name == "OPTIONS"@ {
        HttpMethod::Options
    } else {
        HttpMethod::Get
    }
}

/// The method sent for a method name (see [`spec_method_for`]).
pub fn method_for(name: &str) -> (m: HttpMethod)
    ensures
        m == spec_method_for(name@),
{
    let n = chars_of(name);
    if chars_equal(&n, &chars_of("POST")) {
        HttpMethod::Post
    } else if chars_equal(&n, &chars_of("PUT")) {
        HttpMethod::Put
    } else if chars_equal(&n, &chars_of("DELETE")) {
        HttpMethod::Delete
    } else if chars_equal(&n, &chars_of("PATCH")) {
        HttpMethod::Patch
    } else if chars_equal(&n, &chars_of("HEAD")) {
        HttpMethod::Head
    } else if chars_equal(&n, &chars_of("OPTIONS")) {
        HttpMethod::Options
    } else {
        HttpMethod::Get
    }
}

/// The host and port to dial: those of the backend URL where it has them,
/// the proxy's backend host and port otherwise.
pub fn backend_authority(url_host: Option<&str>, url_port: Option<u16>, proxy: &Proxy) -> (a: (String, u16))
    ensures
        a.0@ == match url_host {
            Some(h) => h@,
            None => proxy.backend_host@,
        },
        a.1 == match url_port {
            Some(p) => p,
            None => proxy.backend_port,
        },
{
    let host = match url_host {
        Some(h) => h.to_owned(),
        None => proxy.backend_host.clone(),
    };
    let port = match url_port {
        Some(p) => p,
        None => proxy.backend_port,
    };
    (host, port)
}

/// The host and port a request to `backend_url` dials: those the URL names,
/// the proxy's backend host and port where it names none; an error when the
/// URL does not parse.
pub open spec fn spec_request_authority(proxy_host: Seq<char>, proxy_port: u16, backend_url: Seq<char>) -> Result<(Seq<char>, u16), Seq<char>> {
    match parsed_uri_authority(backend_url) {
        Ok((h, p)) => Ok((
            match h {
                Some(x) => x,
                None => proxy_host,
            },
            match p {
                Some(x) => x,
                None => proxy_port,
            },
        )),
        Err(e) => Err("Invalid backend URL: "@ + e),
    }
}

/// The host and port to dial for a request to `backend_url` (see
/// [`spec_request_authority`]).
pub fn request_authority(proxy: &Proxy, backend_url: &str) -> (r: Result<(String, u16), String>)
    ensures
        match r {
            Ok((h, p)) => spec_request_authority(proxy.backend_host@, proxy.backend_port, backend_url@)
                == Ok::<(Seq<char>, u16), Seq<char>>((h@, p)),
            Err(e) => spec_request_authority(proxy.backend_host@, proxy.backend_port, backend_url@)
                == Err::<(Seq<char>, u16), Seq<char>>(e@),
        },
{
    match uri_authority(backend_url) {
        Ok((host, port)) => {
            let a = match &host {
                Some(h) => backend_authority(Some(h.as_str()), port, proxy),
                None => backend_authority(None, port, proxy),
            };
            Ok(a)
        },
        Err(e) => {
            let mut msg = String::from_str("Invalid backend URL: ");
            msg.append(e.as_str());
            Err(msg)
        },
    }
}

} // verus!
