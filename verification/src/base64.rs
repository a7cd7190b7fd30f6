//! Decoding standard Base64.

use vstd::prelude::*;
use vstd::string::*;
use crate::text::{find_byte, index_of_byte};

verus! {

/// The value of a character of the alphabet `A-Z`, `a-z`, `0-9`, `+`, `/`;
/// `None` for any other byte.
pub open spec fn sextet(b: u8) -> Option<u8> {
    if 0x41 <= b <= 0x5A {
        Some((b - 0x41) as u8)
    } else if 0x61 <= b <= 0x7A {
        Some((b - 0x61 + 26) as u8)
    } else if 0x30 <= b <= 0x39 {
        Some((b - 0x30 + 52) as u8)
    } else if b == 0x2B {
        Some(62u8)
    } else if b == 0x2F {
        Some(63u8)
    } else {
        None
    }
}

/// What is decoded: the input up to its first `=`. Nothing after that `=`
/// is looked at.
pub open spec fn base64_payload(input: Seq<u8>) -> Seq<u8> {
    input.take(find_byte(input, 0x3D, 0))
}

/// Every byte is a character of the alphabet.
pub open spec fn is_base64(s: Seq<u8>) -> bool {
    forall|i: int| 0 <= i < s.len() ==> sextet(#[trigger] s[i]) is Some
}

/// How many whole bytes `n` characters hold.
pub open spec fn decoded_len(n: nat) -> nat {
    n * 6 / 8
}

/// Byte `k` of the decoded payload: the eight bits at bit `8 * k` of the
/// six-bit values laid end to end, which lie in two neighbouring characters.
pub open spec fn decoded_byte(payload: Seq<u8>, k: int) -> u8 {
    let i = k + k / 3;
    let a = sextet(payload[i])->0;
    let b = sextet(payload[i + 1])->0;
    if k % 3 == 0 {
        (a << 2) | (b >> 4)
    } else if k % 3 == 1 {
        ((a & 0x0F) << 4) | (b >> 2)
    } else {
        ((a & 0x03) << 6) | b
    }
}

/// The bytes that `input` encodes, or `None` where a byte before the first
/// `=` is outside the alphabet. Bits left over at the end are dropped.
pub open spec fn spec_base64_decode(input: Seq<u8>) -> Option<Seq<u8>> {
    let payload = base64_payload(input);
    if is_base64(payload) {
        Some(Seq::new(decoded_len(payload.len()), |k: int| decoded_byte(payload, k)))
    } else {
        None
    }
}

fn sextet_of(b: u8) -> (v: Option<u8>)
    ensures
        v == sextet(b),
        v matches Some(x) ==> x < 64,
{
    if 0x41 <= b && b <= 0x5A {
        Some(b - 0x41)
    } else if 0x61 <= b && b <= 0x7A {
        Some(b - 0x61 + 26)
    } else if 0x30 <= b && b <= 0x39 {
        Some(b - 0x30 + 52)
    } else if b == 0x2B {
        Some(62)
    } else if b == 0x2F {
        Some(63)
    } else {
        None
    }
}

/// Decodes `input`.
pub fn base64_decode(input: &str) -> (out: Option<Vec<u8>>)
    ensures
        match out {
            Some(bytes) => spec_base64_decode(input.spec_bytes()) == Some(bytes@),
            None => spec_base64_decode(input.spec_bytes()) is None,
        },
{
    let bytes = input.as_bytes();
    let end = index_of_byte(bytes, 0x3D, 0);
    let ghost payload = base64_payload(bytes@);
    let mut out: Vec<u8> = Vec::new();
    let mut prev: u8 = 0;
    let mut i: usize = 0;
    while i < end
        invariant
            i <= end <= bytes.len(),
            bytes@ == input.spec_bytes(),
            payload == base64_payload(bytes@),
            payload == bytes@.take(end as int),
            forall|j: int| 0 <= j < i ==> sextet(#[trigger] payload[j]) is Some,
            i > 0 ==> sextet(payload[i - 1]) == Some(prev),
            out@.len() == decoded_len(i as nat),
            forall|k: int| 0 <= k < out@.len() ==> out@[k] == decoded_byte(payload, k),
        decreases end - i,
    {
        let value = match sextet_of(bytes[i]) {
            Some(value) => value,
            None => {
                assert(sextet(payload[i as int]) is None);
                return None;
            },
        };
        let ghost k = out@.len() as int;
        if i % 4 == 1 {
            out.push((prev << 2) | (value >> 4));
            assert(out@[k] == decoded_byte(payload, k));
        } else if i % 4 == 2 {
            out.push(((prev & 0x0F) << 4) | (value >> 2));
            assert(out@[k] == decoded_byte(payload, k));
        } else if i % 4 == 3 {
            out.push(((prev & 0x03) << 6) | value);
            assert(out@[k] == decoded_byte(payload, k));
        }
        prev = value;
        i += 1;
    }
    proof {
        assert(out@ == Seq::new(decoded_len(payload.len()), |k: int| decoded_byte(payload, k)));
    }
    Some(out)
}

} // verus!
