//! Moving between byte sequences and strings.
//!
//! Text is modelled throughout by its UTF-8 bytes: the model of a string `s`
//! is `encode_utf8(s@)`.

use vstd::prelude::*;
use vstd::string::*;
use vstd::utf8::*;

verus! {

/// Where and how a byte sequence stops being UTF-8.
#[derive(Debug, Clone, Copy, PartialEq, Eq)]
pub struct Utf8Fault {
    /// Length of the longest prefix that is valid UTF-8.
    pub valid_up_to: usize,
    /// Length of the offending byte sequence, or `None` where the input
    /// ends in the middle of a character.
    pub error_len: Option<usize>,
}

/// What `Utf8Error::error_len` reports for a byte sequence that is not UTF-8.
pub uninterp spec fn utf8_error_len(bytes: Seq<u8>) -> Option<usize>;

/// The first `n` bytes are the longest prefix of `bytes` that is valid
/// UTF-8, and `bytes` goes on after them.
pub open spec fn stops_at(bytes: Seq<u8>, n: int) -> bool {
    &&& 0 <= n < bytes.len()
    &&& valid_utf8(bytes.take(n))
    &&& forall|longer: int| n < longer <= bytes.len() ==> !valid_utf8(#[trigger] bytes.take(longer))
}

/// `fault` is the fault of `bytes`.
pub open spec fn is_utf8_fault(bytes: Seq<u8>, fault: Utf8Fault) -> bool {
    stops_at(bytes, fault.valid_up_to as int) && fault.error_len == utf8_error_len(bytes)
}

/// The fault of a byte sequence that is not UTF-8.
pub open spec fn utf8_fault_of(bytes: Seq<u8>) -> Utf8Fault {
    choose|fault: Utf8Fault| is_utf8_fault(bytes, fault)
}

/// A byte sequence has at most one fault.
pub proof fn lemma_utf8_fault_unique(bytes: Seq<u8>, fault: Utf8Fault)
    requires
        is_utf8_fault(bytes, fault),
    ensures
        fault == utf8_fault_of(bytes),
{
    let other = utf8_fault_of(bytes);
    assert(is_utf8_fault(bytes, other));
    if fault.valid_up_to < other.valid_up_to {
        assert(!valid_utf8(bytes.take(other.valid_up_to as int)));
    } else if other.valid_up_to < fault.valid_up_to {
        assert(!valid_utf8(bytes.take(fault.valid_up_to as int)));
    }
}

/// Calls `core::str::from_utf8`. Trusted: the call succeeds exactly on valid
/// UTF-8 and then hands back the same bytes as a string; otherwise the
/// error's `valid_up_to` is the length of the longest valid prefix, and its
/// `error_len` goes by the name `utf8_error_len`.
#[verifier::external_body]
pub(crate) fn str_from_utf8(bytes: &[u8]) -> (res: Result<&str, Utf8Fault>)
    ensures
        res is Ok <==> valid_utf8(bytes@),
        res matches Ok(s) ==> s.spec_bytes() == bytes@,
        res matches Err(fault) ==> stops_at(bytes@, fault.valid_up_to as int),
        res matches Err(fault) ==> fault.error_len == utf8_error_len(bytes@),
{
    match core::str::from_utf8(bytes) {
        Ok(s) => Ok(s),
        Err(e) => Err(Utf8Fault { valid_up_to: e.valid_up_to(), error_len: e.error_len() }),
    }
}

/// A position at which a string may be cut: the end, or a byte that does not
/// continue a character.
pub open spec fn is_cut(bytes: Seq<u8>, i: int) -> bool {
    0 <= i <= bytes.len() && (i < bytes.len() ==> !is_continuation_byte(bytes[i]))
}

/// In valid UTF-8 the cuts are the character boundaries.
pub proof fn lemma_cut_is_boundary(bytes: Seq<u8>, i: int)
    requires
        valid_utf8(bytes),
        0 <= i <= bytes.len(),
    ensures
        is_cut(bytes, i) <==> is_char_boundary(bytes, i),
{
    if i < bytes.len() {
        is_char_boundary_iff_not_is_continuation_byte(bytes, i);
    } else {
        is_char_boundary_start_end_of_seq(bytes);
    }
}

/// In valid UTF-8 the character that starts at a cut ends at a cut.
pub proof fn lemma_next_cut(bytes: Seq<u8>, i: int)
    requires
        valid_utf8(bytes),
        is_cut(bytes, i),
        i < bytes.len(),
    ensures
        valid_first_scalar(bytes.skip(i)),
        is_cut(bytes, i + length_of_first_scalar(bytes.skip(i))),
    decreases bytes.len(),
{
    lemma_cut_is_boundary(bytes, i);
    let first = length_of_first_scalar(bytes);
    let rest = pop_first_scalar(bytes);
    if i == 0 {
        assert(bytes.skip(0) == bytes);
        assert(is_char_boundary(rest, 0));
        assert(is_char_boundary(bytes, first));
        lemma_cut_is_boundary(bytes, first);
    } else {
        assert(is_char_boundary(rest, i - first));
        assert(0 <= i - first < rest.len());
        lemma_cut_is_boundary(rest, i - first);
        lemma_next_cut(rest, i - first);
        assert(rest.skip(i - first) == bytes.skip(i));
        let next = i + length_of_first_scalar(bytes.skip(i));
        assert(is_cut(rest, next - first));
        lemma_cut_is_boundary(rest, next - first);
        assert(is_char_boundary(bytes, next));
        lemma_cut_is_boundary(bytes, next);
    }
}

/// In valid UTF-8 there is a cut after every ASCII byte.
pub proof fn lemma_cut_after_ascii(bytes: Seq<u8>, i: int)
    requires
        valid_utf8(bytes),
        0 <= i < bytes.len(),
        bytes[i] < 0x80,
    ensures
        is_cut(bytes, i + 1),
{
    lemma_next_cut(bytes, i);
}

/// The part of `s` between two cuts.
pub fn substr<'a>(s: &'a str, from: usize, to: usize) -> (part: &'a str)
    requires
        from <= to,
        is_cut(s.spec_bytes(), from as int),
        is_cut(s.spec_bytes(), to as int),
    ensures
        part.spec_bytes() == s.spec_bytes().subrange(from as int, to as int),
{
    proof {
        encode_utf8_valid_utf8(s@);
        lemma_cut_is_boundary(s.spec_bytes(), to as int);
    }
    let (head, _) = s.split_at(to);
    proof {
        encode_utf8_valid_utf8(head@);
        lemma_cut_is_boundary(head.spec_bytes(), from as int);
    }
    let (_, part) = head.split_at(from);
    proof {
        assert(part.spec_bytes() == s.spec_bytes().subrange(from as int, to as int));
    }
    part
}

} // verus!
