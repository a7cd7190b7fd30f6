//! Deciding the response to a request, against the store.

use vstd::prelude::*;
use vstd::slice::slice_subrange;
use vstd::string::*;
use vstd::utf8::*;
use crate::auth::{check_basic_auth, spec_check_basic_auth};
use crate::encode::{is_code, is_short_code, shorten_url, spec_short_code};
use crate::request::{spec_message, ErrorModel, HttpRequest, ReqParseError, RequestModel};
use crate::response::{
    bad_url, created, found, handle_root, plain, redirect_to_root, server_error, spec_bad_url,
    spec_created, spec_found, spec_plain, spec_redirect_to_root, spec_root, spec_server_error,
    spec_unauthorized, unauthorized,
};
use crate::store::{Store, StoreModel};
use crate::text::bytes_eq;
use crate::url::{extract_url, spec_extract_url};
use crate::utf8::{lemma_cut_after_ascii, substr};

verus! {

/// The last attempt at which a code is tried: attempts 0 to 10, so eleven
/// codes at most.
pub const MAX_ATTEMPT: u32 = 10;

/// The code that a path names: the path is one slash followed by a short
/// code. A path without a slash at its start names none, nor does one with
/// a further slash, which is no Base62 character.
pub open spec fn code_of_path(path: Seq<u8>) -> Option<Seq<u8>> {
    if path.len() > 0 && path[0] == 0x2F && is_short_code(path.skip(1)) {
        Some(path.skip(1))
    } else {
        None
    }
}

/// The response to a `GET`: the hint at `/`; a redirect to the stored URL
/// where the path names a code that is in the store; a redirect to `/` for
/// every other path.
pub open spec fn spec_handle_get(store: StoreModel, path: Seq<u8>) -> Seq<u8> {
    if path == "/".spec_bytes() {
        spec_root()
    } else {
        match code_of_path(path) {
            Some(code) => if store.contains_key(code) {
                spec_found(store[code])
            } else {
                spec_redirect_to_root()
            },
            None => spec_redirect_to_root(),
        }
    }
}

/// `code` is taken, by another URL than `url`.
pub open spec fn collides(store: StoreModel, code: Seq<u8>, url: Seq<u8>) -> bool {
    store.contains_key(code) && store[code] != url
}

/// The code that `url` gets, trying from `attempt` on: the first candidate
/// that is free or already stands for `url`; `None` once the candidate of
/// attempt 10 collides too.
pub open spec fn spec_assign(store: StoreModel, url: Seq<u8>, attempt: nat) -> Option<Seq<u8>>
    decreases MAX_ATTEMPT + 1 - attempt,
{
    let code = spec_short_code(url, attempt);
    if !collides(store, code, url) {
        Some(code)
    } else if attempt >= MAX_ATTEMPT {
        None
    } else {
        spec_assign(store, url, attempt + 1)
    }
}

/// How a create request ends.
pub enum PostOutcome {
    /// No secret is configured: 500.
    Misconfigured,
    /// The credentials do not match: 401.
    Unauthorized,
    /// The body names no usable URL: 400.
    BadUrl,
    /// Every candidate code is taken by another URL: 500.
    Exhausted,
    /// `code` stands for `url` from now on: 200.
    Created { code: Seq<u8>, url: Seq<u8> },
}

/// How a create request ends. The secret is checked first, so that without
/// one every request fails; then the credentials; then the body.
pub open spec fn spec_post_outcome(
    store: StoreModel,
    req: RequestModel,
    secret: Seq<u8>,
) -> PostOutcome {
    if secret.len() == 0 {
        PostOutcome::Misconfigured
    } else if !spec_check_basic_auth(req.headers, secret) {
        PostOutcome::Unauthorized
    } else {
        match spec_extract_url(req.body) {
            None => PostOutcome::BadUrl,
            Some(url) => match spec_assign(store, url, 0) {
                None => PostOutcome::Exhausted,
                Some(code) => PostOutcome::Created { code, url },
            },
        }
    }
}

/// The response for an outcome.
pub open spec fn spec_post_response(outcome: PostOutcome) -> Seq<u8> {
    match outcome {
        PostOutcome::Misconfigured => spec_server_error(),
        PostOutcome::Unauthorized => spec_unauthorized(),
        PostOutcome::BadUrl => spec_bad_url(),
        PostOutcome::Exhausted => spec_server_error(),
        PostOutcome::Created { code, url } => spec_created(code),
    }
}

/// The store after an outcome: changed only by a code that is handed out.
pub open spec fn spec_post_store(store: StoreModel, outcome: PostOutcome) -> StoreModel {
    match outcome {
        PostOutcome::Created { code, url } => store.insert(code, url),
        _ => store,
    }
}

/// The response to an error in reading the request: 500 for an I/O
/// failure, 400 for every other error, with the description as body.
pub open spec fn spec_handle_err(e: ErrorModel) -> Seq<u8> {
    let status = if e is IoError {
        "500 Internal Server Error".spec_bytes()
    } else {
        "400 Bad Request".spec_bytes()
    };
    spec_plain(status, spec_message(e))
}

/// The response to a `GET` request.
pub fn handle_get(store: &Store, req: &HttpRequest) -> (response: Vec<u8>)
    ensures
        response@ == spec_handle_get(store@, req@.path),
{
    let path = req.path.as_str();
    let bytes = path.as_bytes();
    if bytes_eq(bytes, "/".as_bytes()) {
        return handle_root();
    }
    if bytes.len() == 0 || bytes[0] != 0x2F {
        return redirect_to_root();
    }
    if !is_code(slice_subrange(bytes, 1, bytes.len())) {
        return redirect_to_root();
    }
    proof {
        encode_utf8_valid_utf8(path@);
        lemma_cut_after_ascii(bytes@, 0);
        assert(bytes@.subrange(1, bytes.len() as int) == bytes@.skip(1));
    }
    let code = substr(path, 1, bytes.len());
    match store.get(code) {
        Some(url) => found(url),
        None => redirect_to_root(),
    }
}

/// Picks the code for `url`: the first candidate of attempts 0 to 10 that
/// is free or already stands for `url`.
pub fn assign_code(store: &Store, url: &str) -> (code: Option<String>)
    ensures
        match code {
            Some(code) => spec_assign(store@, url.spec_bytes(), 0) == Some(encode_utf8(code@)),
            None => spec_assign(store@, url.spec_bytes(), 0) is None,
        },
{
    let mut attempt: u32 = 0;
    loop
        invariant
            attempt <= MAX_ATTEMPT,
            spec_assign(store@, url.spec_bytes(), 0) == spec_assign(
                store@,
                url.spec_bytes(),
                attempt as nat,
            ),
        decreases MAX_ATTEMPT - attempt,
    {
        let code = shorten_url(url, attempt);
        let taken = match store.get(code.as_str()) {
            Some(existing) => !bytes_eq(existing.as_bytes(), url.as_bytes()),
            None => false,
        };
        if !taken {
            return Some(code);
        }
        if attempt >= MAX_ATTEMPT {
            return None;
        }
        attempt += 1;
    }
}

/// The response to a `POST` request, with `expected_auth` as the configured
/// secret (empty where none is configured). The store changes only where a
/// code is handed out.
pub fn handle_post(store: &mut Store, req: &HttpRequest, expected_auth: &str) -> (response: Vec<u8>)
    ensures
        response@ == spec_post_response(
            spec_post_outcome(old(store)@, req@, expected_auth.spec_bytes()),
        ),
        final(store)@ == spec_post_store(
            old(store)@,
            spec_post_outcome(old(store)@, req@, expected_auth.spec_bytes()),
        ),
{
    if expected_auth.as_bytes().len() == 0 {
        return server_error();
    }
    if !check_basic_auth(req.headers.as_slice(), expected_auth) {
        return unauthorized();
    }
    let url = match extract_url(req.body.as_str()) {
        Some(url) => url,
        None => {
            return bad_url();
        },
    };
    match assign_code(store, url) {
        None => server_error(),
        Some(code) => {
            let response = created(code.as_str());
            store.insert(code, url.to_owned());
            response
        },
    }
}

/// The response to a request that could not be read.
pub fn handle_err(err: &ReqParseError) -> (response: Vec<u8>)
    ensures
        response@ == spec_handle_err(err@),
{
    let text = err.message();
    match err {
        ReqParseError::IoError(_) => plain("500 Internal Server Error", text.as_str().as_bytes()),
        _ => plain("400 Bad Request", text.as_str().as_bytes()),
    }
}

/// The response to whatever reading the request gave, and the store after
/// it: an error is described; a `POST` creates; every other request is
/// served as a `GET`.
pub open spec fn spec_handle_client(
    store: StoreModel,
    request: Result<RequestModel, ErrorModel>,
    secret: Seq<u8>,
) -> (Seq<u8>, StoreModel) {
    match request {
        Err(e) => (spec_handle_err(e), store),
        Ok(req) => if req.method == "POST".spec_bytes() {
            let outcome = spec_post_outcome(store, req, secret);
            (spec_post_response(outcome), spec_post_store(store, outcome))
        } else {
            (spec_handle_get(store, req.path), store)
        },
    }
}

/// The model of what reading a request gave.
pub open spec fn request_model(request: Result<HttpRequest, ReqParseError>) -> Result<
    RequestModel,
    ErrorModel,
> {
    match request {
        Ok(req) => Ok(req@),
        Err(e) => Err(e@),
    }
}

/// Serves one connection: decides the response to what reading the request
/// gave, with `expected_auth` as the configured secret.
pub fn handle_client(
    store: &mut Store,
    request: &Result<HttpRequest, ReqParseError>,
    expected_auth: &str,
) -> (response: Vec<u8>)
    ensures
        (response@, final(store)@) == spec_handle_client(
            old(store)@,
            request_model(*request),
            expected_auth.spec_bytes(),
        ),
{
    match request {
        Err(e) => handle_err(e),
        Ok(req) => if bytes_eq(req.method.as_str().as_bytes(), "POST".as_bytes()) {
            handle_post(store, req, expected_auth)
        } else {
            handle_get(store, req)
        },
    }
}

} // verus!
