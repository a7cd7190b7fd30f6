//! Hashing a text to a 48-bit value and rendering it as a short Base62 code.
//!
//! The hash is the xor form of djb2 over the UTF-8 bytes of the text, of
//! which the low 48 bits are kept.

use vstd::prelude::*;
use vstd::string::*;
use vstd::utf8::*;
use crate::text::{
    append_bytes, digit_char, lemma_ascii_is_utf8, lemma_digits_ascii, numeral, spec_digits,
    spec_numeral, string_of,
};
use crate::utf8::{str_from_utf8, substr};

verus! {

/// The longest code handed out.
pub const MAX_CODE_LEN: usize = 7;

/// One step of the hash: `hash * 33`, wrapped to 64 bits, xor the byte.
pub open spec fn djb2_step(hash: u64, byte: u8) -> u64 {
    (((hash * 33) % 0x1_0000_0000_0000_0000) as u64) ^ (byte as u64)
}

/// The hash of a byte sequence, folded from the left starting at 5381.
pub open spec fn spec_djb2(bytes: Seq<u8>) -> u64
    decreases bytes.len(),
{
    if bytes.len() == 0 {
        5381
    } else {
        djb2_step(spec_djb2(bytes.drop_last()), bytes.last())
    }
}

/// The low 48 bits of the hash.
pub open spec fn spec_hash_prefix(bytes: Seq<u8>) -> u64 {
    spec_djb2(bytes) & 0x0000_FFFF_FFFF_FFFF
}

/// `n` in Base62, most significant digit first, `0` for zero.
pub open spec fn spec_base62(n: nat) -> Seq<u8> {
    spec_numeral(n, 62)
}

/// A digit or an ASCII letter.
pub open spec fn is_base62(b: u8) -> bool {
    (0x30 <= b <= 0x39) || (0x61 <= b <= 0x7A) || (0x41 <= b <= 0x5A)
}

/// One to seven Base62 characters.
pub open spec fn is_short_code(code: Seq<u8>) -> bool {
    &&& 1 <= code.len() <= MAX_CODE_LEN
    &&& forall|i: int| 0 <= i < code.len() ==> is_base62(#[trigger] code[i])
}

/// The code of a text: the Base62 numeral of its hash prefix, cut (never
/// padded) to its first seven characters.
pub open spec fn spec_encode(text: Seq<u8>) -> Seq<u8> {
    let all = spec_base62(spec_hash_prefix(text) as nat);
    if all.len() > MAX_CODE_LEN {
        all.take(MAX_CODE_LEN as int)
    } else {
        all
    }
}

/// The text hashed for a URL at an attempt: the URL itself at attempt 0,
/// afterwards the URL, a colon and the attempt in decimal.
pub open spec fn spec_salted(url: Seq<u8>, attempt: nat) -> Seq<u8> {
    if attempt == 0 {
        url
    } else {
        url + seq![0x3Au8] + spec_numeral(attempt, 10)
    }
}

/// The candidate code for a URL at an attempt.
pub open spec fn spec_short_code(url: Seq<u8>, attempt: nat) -> Seq<u8> {
    spec_encode(spec_salted(url, attempt))
}

proof fn lemma_times_33(hash: u64)
    ensures
        (hash << 5).wrapping_add(hash) == ((hash * 33) % 0x1_0000_0000_0000_0000) as u64,
{
    let shifted = hash << 5;
    assert(shifted == ((hash * 32) % 0x1_0000_0000_0000_0000) as u64) by (bit_vector)
        requires
            shifted == hash << 5,
    ;
}

/// Base62 digits are Base62 characters, and there is at least one for a
/// positive number.
pub proof fn lemma_base62_digits(n: nat)
    ensures
        forall|i: int|
            0 <= i < spec_digits(n, 62).len() ==> is_base62(#[trigger] spec_digits(n, 62)[i]),
        n > 0 ==> spec_digits(n, 62).len() >= 1,
    decreases n,
{
    if n != 0 {
        lemma_base62_digits(n / 62);
        let upper = spec_digits(n / 62, 62);
        assert(is_base62(digit_char(n % 62)));
        assert forall|i: int| 0 <= i < spec_digits(n, 62).len() implies is_base62(
            #[trigger] spec_digits(n, 62)[i],
        ) by {
            if i < upper.len() {
                assert(spec_digits(n, 62)[i] == upper[i]);
            }
        }
    }
}

/// Every code is one to seven Base62 characters.
pub proof fn lemma_encode_is_short_code(text: Seq<u8>)
    ensures
        is_short_code(spec_encode(text)),
{
    lemma_base62_digits(spec_hash_prefix(text) as nat);
}

/// A text whose hash prefix is zero has the code `0`.
pub proof fn lemma_encode_zero(text: Seq<u8>)
    requires
        spec_hash_prefix(text) == 0,
    ensures
        spec_encode(text) == seq![0x30u8],
{
}

/// Hashes the UTF-8 bytes of `s`.
pub fn djb2(s: &str) -> (hash: u64)
    ensures
        hash == spec_djb2(s.spec_bytes()),
{
    let bytes = s.as_bytes();
    let mut hash: u64 = 5381;
    let mut i: usize = 0;
    while i < bytes.len()
        invariant
            i <= bytes.len(),
            hash == spec_djb2(bytes@.take(i as int)),
        decreases bytes.len() - i,
    {
        proof {
            assert(bytes@.take(i + 1).drop_last() == bytes@.take(i as int));
            lemma_times_33(hash);
        }
        hash = (hash << 5).wrapping_add(hash) ^ (bytes[i] as u64);
        i += 1;
    }
    proof {
        assert(bytes@.take(i as int) == bytes@);
    }
    hash
}

/// Whether `code` is one to seven Base62 characters.
pub fn is_code(code: &[u8]) -> (yes: bool)
    ensures
        yes == is_short_code(code@),
{
    if code.len() < 1 || code.len() > MAX_CODE_LEN {
        return false;
    }
    let mut i: usize = 0;
    while i < code.len()
        invariant
            1 <= code.len() <= MAX_CODE_LEN,
            i <= code.len(),
            forall|j: int| 0 <= j < i ==> is_base62(#[trigger] code@[j]),
        decreases code.len() - i,
    {
        let b = code[i];
        if !((0x30 <= b && b <= 0x39) || (0x61 <= b && b <= 0x7A) || (0x41 <= b && b <= 0x5A)) {
            return false;
        }
        i += 1;
    }
    true
}

/// The low 48 bits of the hash of `url`.
pub fn get_hash_prefix(url: &str) -> (prefix: u64)
    ensures
        prefix == spec_hash_prefix(url.spec_bytes()),
        prefix < 0x1_0000_0000_0000,
{
    let hash = djb2(url);
    proof {
        assert(hash & 0x0000_FFFF_FFFF_FFFF < 0x1_0000_0000_0000) by (bit_vector);
    }
    hash & 0x0000_FFFF_FFFF_FFFF
}

/// Renders `n` in Base62.
pub fn to_base62(n: u64) -> (text: String)
    ensures
        encode_utf8(text@) == spec_base62(n as nat),
{
    let digits = numeral(n, 62);
    proof {
        lemma_digits_ascii(n as nat, 62);
        lemma_ascii_is_utf8(digits@);
    }
    string_of(digits.as_slice())
}

/// The short code of a text.
pub fn encode(text: &str) -> (code: String)
    ensures
        encode_utf8(code@) == spec_encode(text.spec_bytes()),
        is_short_code(encode_utf8(code@)),
{
    let all = to_base62(get_hash_prefix(text));
    proof {
        lemma_encode_is_short_code(text.spec_bytes());
        lemma_digits_ascii(spec_hash_prefix(text.spec_bytes()) as nat, 62);
    }
    let whole = all.as_str();
    if whole.as_bytes().len() > MAX_CODE_LEN {
        let head = substr(whole, 0, MAX_CODE_LEN);
        proof {
            assert(head.spec_bytes() == whole.spec_bytes().take(MAX_CODE_LEN as int));
        }
        head.to_owned()
    } else {
        all
    }
}

/// The candidate code for `url` at `attempt`.
pub fn shorten_url(url: &str, attempt: u32) -> (code: String)
    ensures
        encode_utf8(code@) == spec_short_code(url.spec_bytes(), attempt as nat),
        is_short_code(encode_utf8(code@)),
{
    if attempt == 0 {
        return encode(url);
    }
    let mut salted: Vec<u8> = Vec::new();
    append_bytes(&mut salted, url.as_bytes());
    salted.push(0x3A);
    let digits = numeral(attempt as u64, 10);
    append_bytes(&mut salted, digits.as_slice());
    proof {
        let tail = seq![0x3Au8] + digits@;
        lemma_digits_ascii(attempt as nat, 10);
        lemma_ascii_is_utf8(tail);
        encode_utf8_valid_utf8(url@);
        valid_utf8_concat(url.spec_bytes(), tail);
        assert(salted@ == url.spec_bytes() + tail);
        assert(salted@ == spec_salted(url.spec_bytes(), attempt as nat));
    }
    let text = str_from_utf8(salted.as_slice()).unwrap();
    encode(text)
}

} // verus!
