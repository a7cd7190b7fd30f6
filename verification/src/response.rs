//! The responses, as the bytes sent back. Every response closes the
//! connection and states the exact length of its body.

use vstd::prelude::*;
use vstd::string::*;
use crate::text::{append_bytes, numeral, spec_numeral};

verus! {

/// A response without a body: the status line, the header lines of `extra`
/// (each ending in `\r\n`), a length of 0, and the closing header.
pub open spec fn spec_bare(status: Seq<u8>, extra: Seq<u8>) -> Seq<u8> {
    "HTTP/1.1 ".spec_bytes() + status + "\r\n".spec_bytes() + extra
        + "Content-Length: 0\r\nConnection: close\r\n\r\n".spec_bytes()
}

/// A response with a plain-text body, whose length in bytes it states in
/// decimal.
pub open spec fn spec_plain(status: Seq<u8>, body: Seq<u8>) -> Seq<u8> {
    "HTTP/1.1 ".spec_bytes() + status
        + "\r\nContent-Type: text/plain\r\nContent-Length: ".spec_bytes() + spec_numeral(
        body.len(),
        10,
    ) + "\r\nConnection: close\r\n\r\n".spec_bytes() + body
}

/// The hint shown at the root.
pub open spec fn root_hint() -> Seq<u8> {
    "Try POST with {\"url\": \"https://...\"}".spec_bytes()
}

/// What a create request without a usable URL is told.
pub open spec fn bad_url_text() -> Seq<u8> {
    "Missing or invalid URL in request body".spec_bytes()
}

/// 200 with the hint.
pub open spec fn spec_root() -> Seq<u8> {
    spec_plain("200 OK".spec_bytes(), root_hint())
}

/// 303 to `/`.
pub open spec fn spec_redirect_to_root() -> Seq<u8> {
    spec_bare("303 See Other".spec_bytes(), "Location: /\r\n".spec_bytes())
}

/// 302 to `url`.
pub open spec fn spec_found(url: Seq<u8>) -> Seq<u8> {
    spec_bare(
        "302 Found".spec_bytes(),
        "Location: ".spec_bytes() + url + "\r\n".spec_bytes(),
    )
}

/// 401 with a Basic challenge.
pub open spec fn spec_unauthorized() -> Seq<u8> {
    spec_bare("401 Unauthorized".spec_bytes(), "WWW-Authenticate: Basic\r\n".spec_bytes())
}

/// 500 without a body.
pub open spec fn spec_server_error() -> Seq<u8> {
    spec_bare("500 Internal Server Error".spec_bytes(), Seq::empty())
}

/// 200 with the short code as body.
pub open spec fn spec_created(code: Seq<u8>) -> Seq<u8> {
    spec_plain("200 OK".spec_bytes(), code)
}

/// 400 for a create request without a usable URL.
pub open spec fn spec_bad_url() -> Seq<u8> {
    spec_plain("400 Bad Request".spec_bytes(), bad_url_text())
}

/// Builds a response without a body.
pub fn bare(status: &str, extra: &[u8]) -> (out: Vec<u8>)
    ensures
        out@ == spec_bare(status.spec_bytes(), extra@),
{
    let mut out: Vec<u8> = Vec::new();
    append_bytes(&mut out, "HTTP/1.1 ".as_bytes());
    append_bytes(&mut out, status.as_bytes());
    append_bytes(&mut out, "\r\n".as_bytes());
    append_bytes(&mut out, extra);
    append_bytes(&mut out, "Content-Length: 0\r\nConnection: close\r\n\r\n".as_bytes());
    out
}

/// Builds a response with a plain-text body.
pub fn plain(status: &str, body: &[u8]) -> (out: Vec<u8>)
    ensures
        out@ == spec_plain(status.spec_bytes(), body@),
{
    let mut out: Vec<u8> = Vec::new();
    append_bytes(&mut out, "HTTP/1.1 ".as_bytes());
    append_bytes(&mut out, status.as_bytes());
    append_bytes(&mut out, "\r\nContent-Type: text/plain\r\nContent-Length: ".as_bytes());
    let length = numeral(body.len() as u64, 10);
    append_bytes(&mut out, length.as_slice());
    append_bytes(&mut out, "\r\nConnection: close\r\n\r\n".as_bytes());
    append_bytes(&mut out, body);
    out
}

/// The response to `GET /`.
pub fn handle_root() -> (out: Vec<u8>)
    ensures
        out@ == spec_root(),
{
    plain("200 OK", "Try POST with {\"url\": \"https://...\"}".as_bytes())
}

/// The redirect to `/`.
pub fn redirect_to_root() -> (out: Vec<u8>)
    ensures
        out@ == spec_redirect_to_root(),
{
    bare("303 See Other", "Location: /\r\n".as_bytes())
}

/// The redirect to a stored URL.
pub fn found(url: &str) -> (out: Vec<u8>)
    ensures
        out@ == spec_found(url.spec_bytes()),
{
    let mut location: Vec<u8> = Vec::new();
    append_bytes(&mut location, "Location: ".as_bytes());
    append_bytes(&mut location, url.as_bytes());
    append_bytes(&mut location, "\r\n".as_bytes());
    bare("302 Found", location.as_slice())
}

/// The challenge sent when the credentials do not match.
pub fn unauthorized() -> (out: Vec<u8>)
    ensures
        out@ == spec_unauthorized(),
{
    bare("401 Unauthorized", "WWW-Authenticate: Basic\r\n".as_bytes())
}

/// The response to a failure on the server's side.
pub fn server_error() -> (out: Vec<u8>)
    ensures
        out@ == spec_server_error(),
{
    let none: Vec<u8> = Vec::new();
    bare("500 Internal Server Error", none.as_slice())
}

/// The response that hands out a short code.
pub fn created(code: &str) -> (out: Vec<u8>)
    ensures
        out@ == spec_created(code.spec_bytes()),
{
    plain("200 OK", code.as_bytes())
}

/// The response to a create request without a usable URL.
pub fn bad_url() -> (out: Vec<u8>)
    ensures
        out@ == spec_bad_url(),
{
    plain("400 Bad Request", "Missing or invalid URL in request body".as_bytes())
}

} // verus!
