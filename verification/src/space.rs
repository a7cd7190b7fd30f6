//! White space in UTF-8 text: trimming and splitting into tokens.
//!
//! White space is the Unicode property `White_Space`: the ASCII characters
//! U+0009 to U+000D and U+0020, and U+0085, U+00A0, U+1680, U+2000 to
//! U+200A, U+2028, U+2029, U+202F, U+205F and U+3000, each recognised here
//! by its UTF-8 encoding.

use vstd::prelude::*;
use vstd::string::*;
use vstd::utf8::*;
use crate::utf8::{is_cut, lemma_next_cut, substr};

verus! {

/// An ASCII white-space character.
pub open spec fn is_ascii_space(b: u8) -> bool {
    (0x09 <= b <= 0x0D) || b == 0x20
}

/// The two-byte encodings: U+0085 and U+00A0.
pub open spec fn is_space2(a: u8, b: u8) -> bool {
    a == 0xC2 && (b == 0x85 || b == 0xA0)
}

/// The three-byte encodings: U+1680, U+2000 to U+200A, U+2028, U+2029,
/// U+202F, U+205F and U+3000.
pub open spec fn is_space3(a: u8, b: u8, c: u8) -> bool {
    ||| (a == 0xE1 && b == 0x9A && c == 0x80)
    ||| (a == 0xE2 && b == 0x80 && ((0x80 <= c <= 0x8A) || c == 0xA8 || c == 0xA9 || c == 0xAF))
    ||| (a == 0xE2 && b == 0x81 && c == 0x9F)
    ||| (a == 0xE3 && b == 0x80 && c == 0x80)
}

/// The width in bytes of the white-space character that starts at `i`;
/// 0 where none starts there.
pub open spec fn space_width(s: Seq<u8>, i: int) -> int {
    if i < 0 || i >= s.len() {
        0
    } else if is_ascii_space(s[i]) {
        1
    } else if i + 1 < s.len() && is_space2(s[i], s[i + 1]) {
        2
    } else if i + 2 < s.len() && is_space3(s[i], s[i + 1], s[i + 2]) {
        3
    } else {
        0
    }
}

/// The width in bytes of the white-space character that ends just before
/// `j` and starts at `lo` or later; 0 where there is none.
pub open spec fn space_width_before(s: Seq<u8>, lo: int, j: int) -> int {
    if lo < 0 || j > s.len() {
        0
    } else if lo <= j - 1 && is_ascii_space(s[j - 1]) {
        1
    } else if lo <= j - 2 && is_space2(s[j - 2], s[j - 1]) {
        2
    } else if lo <= j - 3 && is_space3(s[j - 3], s[j - 2], s[j - 1]) {
        3
    } else {
        0
    }
}

/// The first position at or after `i` where no white space starts.
pub open spec fn skip_space(s: Seq<u8>, i: int) -> int
    decreases s.len() - i,
{
    if space_width(s, i) > 0 {
        skip_space(s, i + space_width(s, i))
    } else {
        i
    }
}

/// The first position at or after `i` where white space starts; the length
/// of `s` where none does.
pub open spec fn skip_to_space(s: Seq<u8>, i: int) -> int
    decreases s.len() - i,
{
    if i < 0 || i >= s.len() {
        s.len() as int
    } else if space_width(s, i) > 0 {
        i
    } else {
        skip_to_space(s, i + 1)
    }
}

/// The end of `s` once the white space that ends it, and starts at `lo` or
/// later, is dropped.
pub open spec fn drop_space_before(s: Seq<u8>, lo: int, j: int) -> int
    decreases j,
{
    if space_width_before(s, lo, j) > 0 {
        drop_space_before(s, lo, j - space_width_before(s, lo, j))
    } else {
        j
    }
}

/// `s` without the white space at its start.
pub open spec fn trimmed_start(s: Seq<u8>) -> Seq<u8> {
    s.skip(skip_space(s, 0))
}

/// `s` without the white space at its start and at its end.
pub open spec fn trimmed(s: Seq<u8>) -> Seq<u8> {
    let from = skip_space(s, 0);
    s.subrange(from, drop_space_before(s, from, s.len() as int))
}

/// The first token of `s`: what stands between the white space at its start
/// and the next white space. Empty where `s` is all white space.
pub open spec fn first_token(s: Seq<u8>) -> Seq<u8> {
    let from = skip_space(s, 0);
    s.subrange(from, skip_to_space(s, from))
}

/// What follows the first token of `s`.
pub open spec fn after_first_token(s: Seq<u8>) -> Seq<u8> {
    s.skip(skip_to_space(s, skip_space(s, 0)))
}

/// Skipping stays within `s`.
pub proof fn lemma_skips_in_range(s: Seq<u8>, i: int)
    requires
        0 <= i <= s.len(),
    ensures
        i <= skip_space(s, i) <= s.len(),
        i <= skip_to_space(s, i) <= s.len(),
    decreases s.len() - i,
{
    if space_width(s, i) > 0 {
        lemma_skips_in_range(s, i + space_width(s, i));
    }
    if i < s.len() && space_width(s, i) == 0 {
        lemma_skips_in_range(s, i + 1);
    }
}

/// In valid UTF-8 a white-space character that starts at a cut ends at one.
pub proof fn lemma_cut_after_space(s: Seq<u8>, i: int)
    requires
        valid_utf8(s),
        is_cut(s, i),
        space_width(s, i) > 0,
    ensures
        is_cut(s, i + space_width(s, i)),
{
    lemma_next_cut(s, i);
}

/// The width of the white-space character at `i`.
pub fn space_at(s: &[u8], i: usize) -> (width: usize)
    ensures
        width == space_width(s@, i as int),
        i + width <= s.len() || width == 0,
{
    if i >= s.len() {
        return 0;
    }
    let a = s[i];
    if (0x09 <= a && a <= 0x0D) || a == 0x20 {
        return 1;
    }
    if s.len() - i < 2 {
        return 0;
    }
    let b = s[i + 1];
    if a == 0xC2 && (b == 0x85 || b == 0xA0) {
        return 2;
    }
    if s.len() - i < 3 {
        return 0;
    }
    let c = s[i + 2];
    if (a == 0xE1 && b == 0x9A && c == 0x80) || (a == 0xE2 && b == 0x80 && ((0x80 <= c && c
        <= 0x8A) || c == 0xA8 || c == 0xA9 || c == 0xAF)) || (a == 0xE2 && b == 0x81 && c == 0x9F)
        || (a == 0xE3 && b == 0x80 && c == 0x80) {
        3
    } else {
        0
    }
}

/// The width of the white-space character that ends just before `j`.
pub fn space_before(s: &[u8], lo: usize, j: usize) -> (width: usize)
    requires
        lo <= j <= s.len(),
    ensures
        width == space_width_before(s@, lo as int, j as int),
        lo + width <= j,
{
    if j - lo < 1 {
        return 0;
    }
    let c = s[j - 1];
    if (0x09 <= c && c <= 0x0D) || c == 0x20 {
        return 1;
    }
    if j - lo < 2 {
        return 0;
    }
    let b = s[j - 2];
    if b == 0xC2 && (c == 0x85 || c == 0xA0) {
        return 2;
    }
    if j - lo < 3 {
        return 0;
    }
    let a = s[j - 3];
    if (a == 0xE1 && b == 0x9A && c == 0x80) || (a == 0xE2 && b == 0x80 && ((0x80 <= c && c
        <= 0x8A) || c == 0xA8 || c == 0xA9 || c == 0xAF)) || (a == 0xE2 && b == 0x81 && c == 0x9F)
        || (a == 0xE3 && b == 0x80 && c == 0x80) {
        3
    } else {
        0
    }
}

/// Skips the white space at the start of `s`: the position after it, which
/// is a cut.
fn leading_space(s: &str) -> (at: usize)
    ensures
        at == skip_space(s.spec_bytes(), 0),
        is_cut(s.spec_bytes(), at as int),
{
    let bytes = s.as_bytes();
    proof {
        encode_utf8_valid_utf8(s@);
    }
    let mut i: usize = 0;
    loop
        invariant
            bytes@ == s.spec_bytes(),
            valid_utf8(bytes@),
            is_cut(bytes@, i as int),
            skip_space(bytes@, 0) == skip_space(bytes@, i as int),
        ensures
            i == skip_space(bytes@, 0),
            is_cut(bytes@, i as int),
        decreases bytes.len() - i,
    {
        let width = space_at(bytes, i);
        if width == 0 {
            break;
        }
        proof {
            lemma_cut_after_space(bytes@, i as int);
        }
        i += width;
    }
    i
}

/// `s` without the white space at its start.
pub fn trim_start<'a>(s: &'a str) -> (out: &'a str)
    ensures
        out.spec_bytes() == trimmed_start(s.spec_bytes()),
{
    let from = leading_space(s);
    proof {
        lemma_skips_in_range(s.spec_bytes(), 0);
    }
    substr(s, from, s.as_bytes().len())
}

/// `s` without the white space at its start and at its end.
pub fn trim<'a>(s: &'a str) -> (out: &'a str)
    ensures
        out.spec_bytes() == trimmed(s.spec_bytes()),
{
    let from = leading_space(s);
    let bytes = s.as_bytes();
    proof {
        lemma_skips_in_range(bytes@, 0);
    }
    let mut to = bytes.len();
    loop
        invariant
            bytes@ == s.spec_bytes(),
            from <= to <= bytes.len(),
            is_cut(bytes@, to as int),
            drop_space_before(bytes@, from as int, bytes.len() as int) == drop_space_before(
                bytes@,
                from as int,
                to as int,
            ),
        ensures
            from <= to <= bytes.len(),
            is_cut(bytes@, to as int),
            to == drop_space_before(bytes@, from as int, bytes.len() as int),
        decreases to,
    {
        let width = space_before(bytes, from, to);
        if width == 0 {
            break;
        }
        to -= width;
    }
    substr(s, from, to)
}

/// Splits off the first token of `s`: the token, and what follows it.
pub fn next_token<'a>(s: &'a str) -> (out: (&'a str, &'a str))
    ensures
        out.0.spec_bytes() == first_token(s.spec_bytes()),
        out.1.spec_bytes() == after_first_token(s.spec_bytes()),
{
    let from = leading_space(s);
    let bytes = s.as_bytes();
    proof {
        lemma_skips_in_range(bytes@, 0);
    }
    let mut to = from;
    while to < bytes.len() && space_at(bytes, to) == 0
        invariant
            from <= to <= bytes.len(),
            skip_to_space(bytes@, from as int) == skip_to_space(bytes@, to as int),
        decreases bytes.len() - to,
    {
        to += 1;
    }
    (substr(s, from, to), substr(s, to, bytes.len()))
}

} // verus!
