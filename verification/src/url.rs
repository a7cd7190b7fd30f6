//! Finding the URL in the body of a create request.

use vstd::prelude::*;
use vstd::string::*;
use vstd::utf8::*;
use crate::space::{trim_start, trimmed_start};
use crate::text::{find_byte, find_seq, has_prefix, index_of_byte, index_of_seq, starts_with};
use crate::utf8::{lemma_cut_after_ascii, substr};

verus! {

/// The URL that a body names: after the first `"url":` and any white space
/// a `"` must follow; the value runs to the next `"` and must begin with
/// `http://` or `https://`. This is a scan, not a JSON parser: a value
/// cannot hold a quote, escaped or not.
pub open spec fn spec_extract_url(body: Seq<u8>) -> Option<Seq<u8>> {
    let key = "\"url\":".spec_bytes();
    let at = find_seq(body, key, 0);
    if at >= body.len() {
        None
    } else {
        let rest = trimmed_start(body.skip(at + key.len()));
        if rest.len() == 0 || rest[0] != 0x22 {
            None
        } else {
            let close = find_byte(rest, 0x22, 1);
            let value = rest.subrange(1, close);
            if close < rest.len() && is_web_url(value) {
                Some(value)
            } else {
                None
            }
        }
    }
}

/// Begins with `http://` or `https://`.
pub open spec fn is_web_url(value: Seq<u8>) -> bool {
    has_prefix(value, "http://".spec_bytes()) || has_prefix(value, "https://".spec_bytes())
}

proof fn lemma_key_ascii()
    ensures
        "\"url\":".spec_bytes().len() == 6,
        "\"url\":".spec_bytes()[5] == 0x3A,
{
    reveal_strlit("\"url\":");
    is_ascii_chars_encode_utf8("\"url\":"@);
}

/// Extracts the URL from `body`.
pub fn extract_url<'a>(body: &'a str) -> (url: Option<&'a str>)
    ensures
        match url {
            Some(value) => spec_extract_url(body.spec_bytes()) == Some(value.spec_bytes()),
            None => spec_extract_url(body.spec_bytes()) is None,
        },
{
    let bytes = body.as_bytes();
    let key = "\"url\":".as_bytes();
    let at = index_of_seq(bytes, key, 0);
    if at >= bytes.len() {
        return None;
    }
    proof {
        lemma_key_ascii();
        encode_utf8_valid_utf8(body@);
        assert(bytes@[at + 5] == bytes@.subrange(at as int, at + 6)[5]);
        lemma_cut_after_ascii(bytes@, at + 5);
    }
    let after_key = substr(body, at + key.len(), bytes.len());
    let rest = trim_start(after_key);
    let rest_bytes = rest.as_bytes();
    if rest_bytes.len() == 0 || rest_bytes[0] != 0x22 {
        return None;
    }
    let close = index_of_byte(rest_bytes, 0x22, 1);
    if close >= rest_bytes.len() {
        return None;
    }
    proof {
        encode_utf8_valid_utf8(rest@);
        lemma_cut_after_ascii(rest_bytes@, 0);
    }
    let value = substr(rest, 1, close);
    if starts_with(value.as_bytes(), "http://".as_bytes()) || starts_with(
        value.as_bytes(),
        "https://".as_bytes(),
    ) {
        Some(value)
    } else {
        None
    }
}

} // verus!
