//! A minimal blocking HTTP/1.1 client engine, kept free of sockets.
//!
//! The modules here hold the wire protocol: turning a URL into connection
//! coordinates, writing a request head, reading a status line and a header
//! block out of raw bytes, choosing how a response body is framed, and
//! deciding what to do with a redirect. Every function works on plain values
//! and carries a contract; the caller owns the socket and feeds bytes in.

pub mod agent;
pub mod body;
pub mod bytes;
pub mod error;
pub mod header;
pub mod readers;
pub mod redirect;
pub mod request;
pub mod response;
pub mod stream;
pub mod unit;
pub mod url;

pub use crate::agent::Config;
pub use crate::error::{Cause, Error, ErrorKind, Transport};
pub use crate::request::{Method, Request};
pub use crate::response::Response;
pub use crate::url::Url;

use crate::body::BodySize;
use crate::url::parse_spec;
use vstd::prelude::*;

verus! {

/// Make a GET request: the request for the URL that `path` spells, without
/// headers and without a body.
pub fn get(path: &str) -> (r: Result<Request, Error>)
    ensures
        match parse_spec(path@) {
            Ok(p) => r matches Ok(req) && req.method == Method::Get && req.url.text() == path@
                && req.url.parts() == p && req.headers@ == Seq::<(Seq<u8>, Seq<u8>)>::empty()
                && req.body == BodySize::Empty,
            Err(e) => r matches Err(err) && err == Error::invalid_url(e),
        },
{
    match Url::parse(path) {
        Ok(url) => Ok(Request::new(Method::Get, url)),
        Err(e) => Err(e),
    }
}

} // verus!
