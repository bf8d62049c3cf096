//! Hexadecimal integers, read as `u32::from_str_radix(s, 16)` reads them:
//! an optional `+`, then one or more hex digits of either case, with the
//! first failure met from left to right deciding the error.

use vstd::prelude::*;

verus! {

broadcast use vstd::slice::group_slice_axioms;

/// Why a string is not a `u32` in base 16.
#[derive(Clone, Copy, Debug, PartialEq, Eq, Structural)]
pub enum IntErrorKind {
    /// The string is empty.
    Empty,
    /// A character is not a hex digit (a lone sign counts as one).
    InvalidDigit,
    /// The number does not fit in a `u32`.
    PosOverflow,
}

/// The error of a failed parse.
#[derive(Clone, Copy, Debug, PartialEq, Eq, Structural)]
pub struct ParseIntError {
    pub kind: IntErrorKind,
}

/// The value of a hex digit of either case; `None` for any other character.
pub open spec fn hex_digit_value(c: char) -> Option<u32> {
    if '0' <= c <= '9' {
        Some((c as u32 - '0' as u32) as u32)
    } else if 'a' <= c <= 'f' {
        Some((c as u32 - 'a' as u32 + 10) as u32)
    } else if 'A' <= c <= 'F' {
        Some((c as u32 - 'A' as u32 + 10) as u32)
    } else {
        None
    }
}

/// Reads `digits` after the value `acc` already read, failing at the first
/// character that is no digit or the first digit that overflows.
pub open spec fn hex_accumulate(digits: Seq<char>, acc: int) -> Result<u32, ParseIntError>
    decreases digits.len(),
{
    if digits.len() == 0 {
        Ok(acc as u32)
    } else {
        match hex_digit_value(digits[0]) {
            None => Err(ParseIntError { kind: IntErrorKind::InvalidDigit }),
            Some(d) => if acc * 16 + d > u32::MAX {
                Err(ParseIntError { kind: IntErrorKind::PosOverflow })
            } else {
                hex_accumulate(digits.drop_first(), acc * 16 + d)
            },
        }
    }
}

/// `u32::from_str_radix(s, 16)` on the characters `s`.
pub open spec fn hex_u32(s: Seq<char>) -> Result<u32, ParseIntError> {
    if s.len() == 0 {
        Err(ParseIntError { kind: IntErrorKind::Empty })
    } else if s.len() == 1 && (s[0] == '+' || s[0] == '-') {
        Err(ParseIntError { kind: IntErrorKind::InvalidDigit })
    } else if s[0] == '+' {
        hex_accumulate(s.drop_first(), 0)
    } else {
        hex_accumulate(s, 0)
    }
}

/// The value of a hex digit, or `None`.
pub fn hex_digit(c: char) -> (r: Option<u32>)
    ensures
        r == hex_digit_value(c),
{
    if '0' <= c && c <= '9' {
        Some(c as u32 - '0' as u32)
    } else if 'a' <= c && c <= 'f' {
        Some(c as u32 - 'a' as u32 + 10)
    } else if 'A' <= c && c <= 'F' {
        Some(c as u32 - 'A' as u32 + 10)
    } else {
        None
    }
}

/// Reads `s[start..]` as digits only.
fn accumulate(s: &[char], start: usize) -> (r: Result<u32, ParseIntError>)
    requires
        start <= s@.len(),
    ensures
        r == hex_accumulate(s@.skip(start as int), 0),
{
    let mut acc: u32 = 0;
    let mut i: usize = start;
    assert(s@.skip(start as int) =~= s@.subrange(start as int, s@.len() as int));
    while i < s.len()
        invariant
            start <= i <= s@.len(),
            hex_accumulate(s@.skip(start as int), 0) == hex_accumulate(s@.skip(i as int), acc as int),
        decreases s@.len() - i,
    {
        let ghost rest = s@.skip(i as int);
        assert(rest[0] == s@[i as int]);
        assert(rest.drop_first() =~= s@.skip(i + 1));
        match hex_digit(s[i]) {
            None => {
                return Err(ParseIntError { kind: IntErrorKind::InvalidDigit });
            },
            Some(d) => {
                match acc.checked_mul(16) {
                    None => {
                        return Err(ParseIntError { kind: IntErrorKind::PosOverflow });
                    },
                    Some(m) => {
                        match m.checked_add(d) {
                            None => {
                                return Err(ParseIntError { kind: IntErrorKind::PosOverflow });
                            },
                            Some(n) => {
                                acc = n;
                            },
                        }
                    },
                }
            },
        }
        i = i + 1;
    }
    assert(s@.skip(i as int).len() == 0);
    Ok(acc)
}

/// `u32::from_str_radix(s, 16)`.
pub fn parse_hex_u32(s: &[char]) -> (r: Result<u32, ParseIntError>)
    ensures
        r == hex_u32(s@),
{
    if s.len() == 0 {
        return Err(ParseIntError { kind: IntErrorKind::Empty });
    }
    if s.len() == 1 && (s[0] == '+' || s[0] == '-') {
        return Err(ParseIntError { kind: IntErrorKind::InvalidDigit });
    }
    if s[0] == '+' {
        assert(s@.skip(1) =~= s@.drop_first());
        accumulate(s, 1)
    } else {
        assert(s@.skip(0) =~= s@);
        accumulate(s, 0)
    }
}

} // verus!
