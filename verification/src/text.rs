//! Byte-level text helpers: ASCII, numerals, appending.

use vstd::prelude::*;
use vstd::slice::slice_subrange;
use vstd::string::*;
use vstd::utf8::*;
use crate::utf8::str_from_utf8;

verus! {

/// Every byte is below 0x80.
pub open spec fn is_ascii_bytes(bytes: Seq<u8>) -> bool {
    forall|i: int| 0 <= i < bytes.len() ==> #[trigger] bytes[i] < 0x80
}

/// ASCII bytes are valid UTF-8.
pub proof fn lemma_ascii_is_utf8(bytes: Seq<u8>)
    requires
        is_ascii_bytes(bytes),
    ensures
        valid_utf8(bytes),
{
    assert(bytes.subrange(0, 0) == Seq::<u8>::empty());
    assert(partial_valid_utf8(bytes, 0));
    assert forall|i: int| 0 <= i < bytes.len() implies #[trigger] is_leading_byte_width_1(
        bytes[i],
    ) by {}
    partial_valid_utf8_extend_ascii_block(bytes, 0, bytes.len() as int);
    assert(bytes.subrange(0, bytes.len() as int) == bytes);
}

/// Appends `part` to `out`.
pub fn append_bytes(out: &mut Vec<u8>, part: &[u8])
    ensures
        final(out)@ == old(out)@ + part@,
{
    let mut i: usize = 0;
    while i < part.len()
        invariant
            i <= part.len(),
            out@ == old(out)@ + part@.take(i as int),
        decreases part.len() - i,
    {
        out.push(part[i]);
        i += 1;
    }
    proof {
        assert(part@.take(i as int) == part@);
    }
}

/// The string whose UTF-8 bytes are `bytes`.
pub fn string_of(bytes: &[u8]) -> (s: String)
    requires
        valid_utf8(bytes@),
    ensures
        encode_utf8(s@) == bytes@,
{
    let text = str_from_utf8(bytes).unwrap();
    text.to_owned()
}

/// Whether two byte strings are the same.
pub fn bytes_eq(a: &[u8], b: &[u8]) -> (same: bool)
    ensures
        same == (a@ == b@),
{
    if a.len() != b.len() {
        return false;
    }
    let mut i: usize = 0;
    while i < a.len()
        invariant
            i <= a.len(),
            a.len() == b.len(),
            a@.take(i as int) == b@.take(i as int),
        decreases a.len() - i,
    {
        if a[i] != b[i] {
            return false;
        }
        proof {
            assert(a@.take(i + 1) == a@.take(i as int).push(a@[i as int]));
            assert(b@.take(i + 1) == b@.take(i as int).push(b@[i as int]));
        }
        i += 1;
    }
    proof {
        assert(a@.take(i as int) == a@);
        assert(b@.take(i as int) == b@);
    }
    true
}

/// `s` begins with `prefix`.
pub open spec fn has_prefix(s: Seq<u8>, prefix: Seq<u8>) -> bool {
    prefix.len() <= s.len() && s.take(prefix.len() as int) == prefix
}

/// Whether `s` begins with `prefix`.
pub fn starts_with(s: &[u8], prefix: &[u8]) -> (yes: bool)
    ensures
        yes == has_prefix(s@, prefix@),
{
    if prefix.len() > s.len() {
        return false;
    }
    bytes_eq(slice_subrange(s, 0, prefix.len()), prefix)
}

/// The first position at or after `from` that holds `byte`; the length of
/// `s` where there is none.
pub open spec fn find_byte(s: Seq<u8>, byte: u8, from: int) -> int
    decreases s.len() - from,
{
    if from < 0 || from >= s.len() {
        s.len() as int
    } else if s[from] == byte {
        from
    } else {
        find_byte(s, byte, from + 1)
    }
}

/// What `find_byte` finds: a position not before `from` with no `byte`
/// between the two, and `byte` at it unless it is the end.
pub proof fn lemma_find_byte(s: Seq<u8>, byte: u8, from: int)
    requires
        0 <= from <= s.len(),
    ensures
        from <= find_byte(s, byte, from) <= s.len(),
        find_byte(s, byte, from) < s.len() ==> s[find_byte(s, byte, from)] == byte,
        forall|j: int| from <= j < find_byte(s, byte, from) ==> s[j] != byte,
    decreases s.len() - from,
{
    if from < s.len() && s[from] != byte {
        lemma_find_byte(s, byte, from + 1);
    }
}

/// Finds the first `byte` at or after `from`.
pub fn index_of_byte(s: &[u8], byte: u8, from: usize) -> (at: usize)
    requires
        from <= s.len(),
    ensures
        at == find_byte(s@, byte, from as int),
        from <= at <= s.len(),
        at < s.len() ==> s@[at as int] == byte,
        forall|j: int| from <= j < at ==> s@[j] != byte,
{
    proof {
        lemma_find_byte(s@, byte, from as int);
    }
    let mut i = from;
    while i < s.len() && s[i] != byte
        invariant
            from <= i <= s.len(),
            find_byte(s@, byte, from as int) == find_byte(s@, byte, i as int),
        decreases s.len() - i,
    {
        i += 1;
    }
    i
}

/// `pattern` stands in `s` at position `at`.
pub open spec fn occurs_at(s: Seq<u8>, pattern: Seq<u8>, at: int) -> bool {
    0 <= at && at + pattern.len() <= s.len() && s.subrange(at, at + pattern.len()) == pattern
}

/// The first position at or after `from` where `pattern` occurs in `s`; the
/// length of `s` where it does not occur.
pub open spec fn find_seq(s: Seq<u8>, pattern: Seq<u8>, from: int) -> int
    decreases s.len() - from,
{
    if from < 0 || from >= s.len() || from + pattern.len() > s.len() {
        s.len() as int
    } else if occurs_at(s, pattern, from) {
        from
    } else {
        find_seq(s, pattern, from + 1)
    }
}

/// What `find_seq` finds: the end, or a position not before `from` at which
/// `pattern` stands, with no occurrence between the two.
pub proof fn lemma_find_seq(s: Seq<u8>, pattern: Seq<u8>, from: int)
    requires
        0 <= from <= s.len(),
    ensures
        from <= find_seq(s, pattern, from) <= s.len(),
        find_seq(s, pattern, from) < s.len() ==> occurs_at(s, pattern, find_seq(s, pattern, from)),
        forall|j: int|
            from <= j < find_seq(s, pattern, from) ==> !#[trigger] occurs_at(s, pattern, j),
    decreases s.len() - from,
{
    if from < s.len() && from + pattern.len() <= s.len() && !occurs_at(s, pattern, from as int) {
        lemma_find_seq(s, pattern, from + 1);
    }
}

/// Finds the first occurrence of `pattern` at or after `from`.
pub fn index_of_seq(s: &[u8], pattern: &[u8], from: usize) -> (at: usize)
    requires
        from <= s.len(),
    ensures
        at == find_seq(s@, pattern@, from as int),
        at == s.len() || (from <= at && occurs_at(s@, pattern@, at as int)),
        forall|j: int| from <= j < at ==> !#[trigger] occurs_at(s@, pattern@, j),
{
    proof {
        lemma_find_seq(s@, pattern@, from as int);
    }
    if pattern.len() == 0 {
        proof {
            assert(s@.subrange(from as int, from as int) == pattern@);
        }
        return from;
    }
    if pattern.len() > s.len() {
        return s.len();
    }
    let last = s.len() - pattern.len();
    let mut i = from;
    while i <= last
        invariant
            from <= i,
            pattern.len() > 0,
            last == s.len() - pattern.len(),
            find_seq(s@, pattern@, from as int) == find_seq(s@, pattern@, i as int),
        decreases last + 1 - i,
    {
        if bytes_eq(slice_subrange(s, i, i + pattern.len()), pattern) {
            proof {
                lemma_find_seq(s@, pattern@, from as int);
            }
            return i;
        }
        i += 1;
    }
    s.len()
}

/// The lower-case form of an ASCII letter; any other byte unchanged.
pub open spec fn ascii_lower(b: u8) -> u8 {
    if 0x41 <= b <= 0x5A {
        (b + 0x20) as u8
    } else {
        b
    }
}

/// The upper-case form of an ASCII letter; any other byte unchanged.
pub open spec fn ascii_upper(b: u8) -> u8 {
    if 0x61 <= b <= 0x7A {
        (b - 0x20) as u8
    } else {
        b
    }
}

/// Equal but for the case of ASCII letters.
pub open spec fn eq_ignore_case(a: Seq<u8>, b: Seq<u8>) -> bool {
    &&& a.len() == b.len()
    &&& forall|i: int| 0 <= i < a.len() ==> ascii_lower(#[trigger] a[i]) == ascii_lower(b[i])
}

fn to_lower(b: u8) -> (l: u8)
    ensures
        l == ascii_lower(b),
{
    if 0x41 <= b && b <= 0x5A {
        b + 0x20
    } else {
        b
    }
}

/// Whether two byte strings are equal but for the case of ASCII letters.
pub fn eq_ignore_ascii_case(a: &[u8], b: &[u8]) -> (same: bool)
    ensures
        same == eq_ignore_case(a@, b@),
{
    if a.len() != b.len() {
        return false;
    }
    let mut i: usize = 0;
    while i < a.len()
        invariant
            i <= a.len(),
            a.len() == b.len(),
            forall|j: int| 0 <= j < i ==> ascii_lower(#[trigger] a@[j]) == ascii_lower(b@[j]),
        decreases a.len() - i,
    {
        if to_lower(a[i]) != to_lower(b[i]) {
            return false;
        }
        i += 1;
    }
    true
}

/// `s` with its ASCII letters in upper case.
pub open spec fn upper(s: Seq<u8>) -> Seq<u8> {
    Seq::new(s.len(), |i: int| ascii_upper(s[i]))
}

/// `s` with its ASCII letters in upper case.
pub fn to_ascii_uppercase(s: &[u8]) -> (out: Vec<u8>)
    ensures
        out@ == upper(s@),
{
    let mut out: Vec<u8> = Vec::new();
    let mut i: usize = 0;
    while i < s.len()
        invariant
            i <= s.len(),
            out@ == upper(s@.take(i as int)),
        decreases s.len() - i,
    {
        let b = s[i];
        let raised = if 0x61 <= b && b <= 0x7A {
            b - 0x20
        } else {
            b
        };
        out.push(raised);
        proof {
            assert(out@ == upper(s@.take(i + 1)));
        }
        i += 1;
    }
    proof {
        assert(s@.take(i as int) == s@);
    }
    out
}

/// The character for a digit value: `0`-`9`, then `a`-`z`, then `A`-`Z`.
pub open spec fn digit_char(d: nat) -> u8 {
    if d < 10 {
        (0x30 + d) as u8
    } else if d < 36 {
        (0x61 + d - 10) as u8
    } else {
        (0x41 + d - 36) as u8
    }
}

/// The digits of `n` in a `radix` of at least 2, most significant first;
/// none for zero.
pub open spec fn spec_digits(n: nat, radix: nat) -> Seq<u8>
    decreases n,
    when radix >= 2
    via lemma_digits_decreases
{
    if n == 0 {
        Seq::empty()
    } else {
        spec_digits(n / radix, radix).push(digit_char(n % radix))
    }
}

#[via_fn]
proof fn lemma_digits_decreases(n: nat, radix: nat) {
    if n != 0 {
        assert(n / radix < n) by (nonlinear_arith)
            requires
                n > 0,
                radix >= 2,
        ;
    }
}

/// The numeral of `n` in `radix`: its digits, or `0` for zero.
pub open spec fn spec_numeral(n: nat, radix: nat) -> Seq<u8> {
    if n == 0 {
        seq![0x30u8]
    } else {
        spec_digits(n, radix)
    }
}

/// The digit value that a character stands for; 62 for a byte that is no
/// digit character.
pub open spec fn digit_value(c: u8) -> nat {
    if 0x30 <= c <= 0x39 {
        (c - 0x30) as nat
    } else if 0x61 <= c <= 0x7A {
        (c - 0x61 + 10) as nat
    } else if 0x41 <= c <= 0x5A {
        (c - 0x41 + 36) as nat
    } else {
        62
    }
}

/// The number that `digits` write in `radix`, most significant digit first.
pub open spec fn numeral_value(digits: Seq<u8>, radix: nat) -> nat
    decreases digits.len(),
{
    if digits.len() == 0 {
        0
    } else {
        numeral_value(digits.drop_last(), radix) * radix + digit_value(digits.last())
    }
}

/// The digit character of `d`.
fn digit_of(d: u64) -> (c: u8)
    requires
        d < 62,
    ensures
        c == digit_char(d as nat),
        c < 0x80,
{
    if d < 10 {
        0x30 + d as u8
    } else if d < 36 {
        0x61 + (d - 10) as u8
    } else {
        0x41 + (d - 36) as u8
    }
}

/// Digits in a radix of at most 62 are ASCII.
pub proof fn lemma_digits_ascii(n: nat, radix: nat)
    requires
        2 <= radix <= 62,
    ensures
        is_ascii_bytes(spec_digits(n, radix)),
        is_ascii_bytes(spec_numeral(n, radix)),
    decreases n,
{
    if n != 0 {
        assert(n / radix < n && n % radix < radix) by (nonlinear_arith)
            requires
                n > 0,
                radix >= 2,
        ;
        lemma_digits_ascii(n / radix, radix);
    }
}

/// Renders `n` in `radix`.
pub fn numeral(n: u64, radix: u64) -> (out: Vec<u8>)
    requires
        2 <= radix <= 62,
    ensures
        out@ == spec_numeral(n as nat, radix as nat),
{
    let mut out: Vec<u8> = Vec::new();
    if n == 0 {
        out.push(0x30);
        return out;
    }
    let mut low_first: Vec<u8> = Vec::new();
    let mut rest = n;
    while rest > 0
        invariant
            2 <= radix <= 62,
            spec_digits(n as nat, radix as nat) == spec_digits(rest as nat, radix as nat)
                + low_first@.reverse(),
        decreases rest,
    {
        let ghost before = low_first@;
        proof {
            assert(rest / radix < rest && rest % radix < radix) by (nonlinear_arith)
                requires
                    rest > 0,
                    radix >= 2,
            ;
        }
        low_first.push(digit_of(rest % radix));
        proof {
            assert(low_first@.reverse() == seq![digit_char((rest % radix) as nat)]
                + before.reverse());
        }
        rest = rest / radix;
    }
    let mut i = low_first.len();
    while i > 0
        invariant
            i <= low_first.len(),
            out@ == low_first@.reverse().take(low_first.len() - i),
        decreases i,
    {
        i -= 1;
        out.push(low_first[i]);
    }
    proof {
        assert(low_first@.reverse().take(low_first.len() as int) == low_first@.reverse());
    }
    out
}

} // verus!
