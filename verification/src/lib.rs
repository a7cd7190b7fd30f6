//! The core of a minimal URL-shortening HTTP service: reading a request
//! from the bytes of a connection, turning a URL into a short Base62 code,
//! and deciding the response against an in-memory store.
//!
//! Nothing here touches a socket. The caller reads bytes and hands them in;
//! it gets the bytes of the response back and sends them.
//!
//! Text is modelled by its UTF-8 bytes: the contracts speak of
//! `encode_utf8(s@)` for a string `s`.

pub mod auth;
pub mod base64;
pub mod encode;
pub mod handlers;
pub mod headers;
pub mod laws;
pub mod number;
pub mod request;
pub mod response;
pub mod space;
pub mod store;
pub mod text;
pub mod url;
pub mod utf8;

pub use auth::check_basic_auth;
pub use base64::base64_decode;
pub use encode::{djb2, encode, get_hash_prefix, shorten_url, to_base62};
pub use handlers::{assign_code, handle_client, handle_err, handle_get, handle_post};
pub use number::IntErrorKind;
pub use request::{
    finish, parse_header_line, parse_req, parse_request_line, HeaderStep, HttpRequest,
    PendingBody, ReqParseError, RequestHead, MAX_BODY, MAX_HEADER,
};
pub use response::{handle_root, redirect_to_root};
pub use store::Store;
pub use url::extract_url;
pub use utf8::Utf8Fault;
