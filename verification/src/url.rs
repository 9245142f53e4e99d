//! Backend and control plane URLs, read with the `http` crate's URI parser.
use vstd::prelude::*;

verus! {

/// What `http::Uri` makes of a URL: its host and port when it parses, the
/// parser's error message otherwise.
pub uninterp spec fn parsed_uri_authority(url: Seq<char>) -> Result<(Option<Seq<char>>, Option<u16>), Seq<char>>;

/// The characters of an optional string.
pub open spec fn opt_string_view(s: Option<String>) -> Option<Seq<char>> {
    match s {
        Some(t) => Some(t@),
        None => None,
    }
}

/// `str::parse::<http::Uri>`, then `Uri::host` and `Uri::port_u16` of the
/// result: the URL's host and port, or the parse error's message.
#[verifier::external_body]
pub(crate) fn uri_authority(url: &str) -> (r: Result<(Option<String>, Option<u16>), String>)
    ensures
        match r {
            Ok((h, p)) => parsed_uri_authority(url@) == Ok::<(Option<Seq<char>>, Option<u16>), Seq<char>>((opt_string_view(h), p)),
            Err(e) => parsed_uri_authority(url@) == Err::<(Option<Seq<char>>, Option<u16>), Seq<char>>(e@),
        },
{
    match url.parse::<http::Uri>() {
        Ok(uri) => Ok((uri.host().map(|h| h.to_string()), uri.port_u16())),
        Err(e) => Err(e.to_string()),
    }
}

} // verus!
