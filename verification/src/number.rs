//! Reading a decimal number.

use vstd::prelude::*;

verus! {

/// Why a text is not a number that fits.
#[derive(Debug, Clone, Copy, PartialEq, Eq, Structural)]
pub enum IntErrorKind {
    /// The text is empty.
    Empty,
    /// A character is no decimal digit, or the text is a lone sign.
    InvalidDigit,
    /// The number is larger than the largest `usize`.
    PosOverflow,
}

/// Reads the digits of `s` from `i` on, `acc` being the number read so far.
/// Going left to right, the first character that is no digit, or the first
/// digit that takes the number over `max`, decides the error.
pub open spec fn spec_parse_digits(s: Seq<u8>, i: int, acc: nat, max: nat) -> Result<
    nat,
    IntErrorKind,
>
    decreases s.len() - i,
{
    if i < 0 || i >= s.len() {
        Ok(acc)
    } else if !(0x30 <= s[i] <= 0x39) {
        Err(IntErrorKind::InvalidDigit)
    } else if acc * 10 + (s[i] - 0x30) > max {
        Err(IntErrorKind::PosOverflow)
    } else {
        spec_parse_digits(s, i + 1, (acc * 10 + (s[i] - 0x30)) as nat, max)
    }
}

/// The number that `s` writes: decimal digits, after an optional `+`.
/// Nothing else is accepted, neither white space nor `-`.
pub open spec fn spec_parse_usize(s: Seq<u8>) -> Result<nat, IntErrorKind> {
    if s.len() == 0 {
        Err(IntErrorKind::Empty)
    } else if s.len() == 1 && (s[0] == 0x2B || s[0] == 0x2D) {
        Err(IntErrorKind::InvalidDigit)
    } else {
        spec_parse_digits(
            s,
            if s[0] == 0x2B {
                1
            } else {
                0
            },
            0,
            usize::MAX as nat,
        )
    }
}

/// Reads `s` as a decimal number.
pub fn parse_usize(s: &[u8]) -> (out: Result<usize, IntErrorKind>)
    ensures
        match out {
            Ok(n) => spec_parse_usize(s@) == Ok::<nat, IntErrorKind>(n as nat),
            Err(kind) => spec_parse_usize(s@) == Err::<nat, IntErrorKind>(kind),
        },
{
    if s.len() == 0 {
        return Err(IntErrorKind::Empty);
    }
    if s.len() == 1 && (s[0] == 0x2B || s[0] == 0x2D) {
        return Err(IntErrorKind::InvalidDigit);
    }
    let start: usize = if s[0] == 0x2B {
        1
    } else {
        0
    };
    let mut i = start;
    let mut acc: usize = 0;
    while i < s.len()
        invariant
            start <= i <= s.len(),
            spec_parse_usize(s@) == spec_parse_digits(
                s@,
                i as int,
                acc as nat,
                usize::MAX as nat,
            ),
        decreases s.len() - i,
    {
        let c = s[i];
        if c < 0x30 || c > 0x39 {
            return Err(IntErrorKind::InvalidDigit);
        }
        let digit = (c - 0x30) as usize;
        acc = match acc.checked_mul(10) {
            Some(tens) => match tens.checked_add(digit) {
                Some(next) => next,
                None => {
                    return Err(IntErrorKind::PosOverflow);
                },
            },
            None => {
                return Err(IntErrorKind::PosOverflow);
            },
        };
        i += 1;
    }
    Ok(acc)
}

} // verus!
