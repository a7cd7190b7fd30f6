//! The Basic-Authentication gate.

use vstd::prelude::*;
use vstd::string::*;
use vstd::utf8::*;
use crate::base64::{base64_decode, spec_base64_decode};
use crate::headers::{header_value, headers_model, spec_header_value, FieldModel};
use crate::text::{bytes_eq, has_prefix, starts_with};
use crate::utf8::{lemma_cut_after_ascii, substr};

verus! {

/// Whether the first `Authorization` field reads `Basic ` followed by the
/// Base64 form of `expected`. A missing field, another scheme, a value that
/// does not decode, and an empty decoded text never match; so an empty
/// `expected` never matches.
pub open spec fn spec_check_basic_auth(headers: Seq<FieldModel>, expected: Seq<u8>) -> bool {
    let scheme = "Basic ".spec_bytes();
    match spec_header_value(headers, "Authorization".spec_bytes(), 0) {
        Some(value) => has_prefix(value, scheme) && match spec_base64_decode(
            value.skip(scheme.len() as int),
        ) {
            Some(decoded) => decoded.len() > 0 && decoded == expected,
            None => false,
        },
        None => false,
    }
}

/// The bytes of the scheme prefix are ASCII.
proof fn lemma_scheme_ascii()
    ensures
        "Basic ".spec_bytes().len() == 6,
        forall|i: int| 0 <= i < 6 ==> #[trigger] "Basic ".spec_bytes()[i] < 0x80,
{
    reveal_strlit("Basic ");
    is_ascii_chars_encode_utf8("Basic "@);
}

/// Checks the `Authorization` field of `headers` against `expected`.
pub fn check_basic_auth(headers: &[(String, String)], expected: &str) -> (ok: bool)
    ensures
        ok == spec_check_basic_auth(headers_model(headers@), expected.spec_bytes()),
{
    let auth = match header_value(headers, "Authorization") {
        Some(value) => value,
        None => {
            return false;
        },
    };
    let scheme = "Basic ".as_bytes();
    if !starts_with(auth.as_bytes(), scheme) {
        return false;
    }
    proof {
        lemma_scheme_ascii();
        encode_utf8_valid_utf8(auth@);
        assert(auth.spec_bytes()[5] == auth.spec_bytes().take(6)[5]);
        lemma_cut_after_ascii(auth.spec_bytes(), 5);
    }
    let encoded = substr(auth, scheme.len(), auth.as_bytes().len());
    proof {
        assert(encoded.spec_bytes() == auth.spec_bytes().skip(6));
    }
    match base64_decode(encoded) {
        Some(decoded) => decoded.len() > 0 && bytes_eq(decoded.as_slice(), expected.as_bytes()),
        None => false,
    }
}

} // verus!
