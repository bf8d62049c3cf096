//! The clock's digits: the line the timer writes each second (`HHMMSS` and a
//! newline, in ASCII), how a line of input is read back into six digits, and
//! how long the timer sleeps until the next second.

use chrono::Timelike;
use crate::draw::{lemma_column_reads_back, nibble_bit};
use crate::hex::{hex_digit, hex_digit_value};
use crate::text::chars_of;
use vstd::prelude::*;

verus! {

broadcast use vstd::slice::group_slice_axioms;

/// The timer's line for the given time: each of hours, minutes and seconds
/// as two ASCII digits (tens, then units), then a newline.
pub open spec fn clock_line_of(hours: u8, minutes: u8, seconds: u8) -> Seq<u8> {
    seq![
        (48 + hours / 10) as u8,
        (48 + hours % 10) as u8,
        (48 + minutes / 10) as u8,
        (48 + minutes % 10) as u8,
        (48 + seconds / 10) as u8,
        (48 + seconds % 10) as u8,
        10u8,
    ]
}

/// The six decimal digits of a time, tens first.
pub open spec fn time_digits_of(hours: u8, minutes: u8, seconds: u8) -> Seq<u8> {
    seq![
        hours / 10,
        hours % 10,
        minutes / 10,
        minutes % 10,
        seconds / 10,
        seconds % 10,
    ]
}

/// The timer's line for the given time.
pub fn clock_line(hours: u8, minutes: u8, seconds: u8) -> (r: [u8; 7])
    ensures
        r@ == clock_line_of(hours, minutes, seconds),
{
    let mut digits: [u8; 7] = [0, 0, 0, 0, 0, 0, 0];
    digits[0] = hours / 10;
    digits[1] = hours % 10;
    digits[2] = minutes / 10;
    digits[3] = minutes % 10;
    digits[4] = seconds / 10;
    digits[5] = seconds % 10;
    let ghost line = clock_line_of(hours, minutes, seconds);
    let mut i: usize = 0;
    while i < 7
        invariant
            i <= 7,
            forall|j: int| 0 <= j < i && j < 6 ==> #[trigger] digits@[j] == line[j],
            forall|j: int| i <= j < 6 ==> #[trigger] digits@[j] + 48 == line[j],
            forall|j: int| i <= j < 6 ==> #[trigger] digits@[j] <= 25,
            i <= 6 ==> digits@[6] == 0,
        decreases 7 - i,
    {
        digits[i] = digits[i] + 48;
        i = i + 1;
    }
    digits[6] = 10;
    assert(digits@ =~= clock_line_of(hours, minutes, seconds));
    digits
}

/// `chrono::Local::now()`, read as hour, minute and second of the local
/// time. Which time it reads is not stated; chrono documents the ranges.
#[verifier::external_body]
fn local_hms() -> (t: (u32, u32, u32))
    ensures
        t.0 < 24,
        t.1 < 60,
        t.2 < 60,
{
    let now = chrono::offset::Local::now().time();
    (now.hour(), now.minute(), now.second())
}

/// The timer's line for the current local time.
pub fn time_digits() -> (r: [u8; 7])
    ensures
        exists|h: u8, m: u8, s: u8|
            h < 24 && m < 60 && s < 60 && r@ == #[trigger] clock_line_of(h, m, s),
{
    line_of_reading(local_hms())
}

/// The timer's line for a reading (hour, minute, second) of the clock, in
/// that order.
pub fn line_of_reading(reading: (u32, u32, u32)) -> (r: [u8; 7])
    requires
        reading.0 < 24,
        reading.1 < 60,
        reading.2 < 60,
    ensures
        r@ == clock_line_of(reading.0 as u8, reading.1 as u8, reading.2 as u8),
        (r@[0] - 48) * 10 + (r@[1] - 48) == reading.0,
        (r@[2] - 48) * 10 + (r@[3] - 48) == reading.1,
        (r@[4] - 48) * 10 + (r@[5] - 48) == reading.2,
{
    let hours = reading.0 as u8;
    let minutes = reading.1 as u8;
    let seconds = reading.2 as u8;
    proof {
        lemma_clock_line_order(hours, minutes, seconds);
    }
    clock_line(hours, minutes, seconds)
}

/// The timer's line is the hour, then the minute, then the second, each
/// as two decimal digits, then a newline: reading its digit pairs back
/// gives the time it was written for.
pub proof fn lemma_clock_line_order(hours: u8, minutes: u8, seconds: u8)
    requires
        hours < 24,
        minutes < 60,
        seconds < 60,
    ensures
        ({
            let l = clock_line_of(hours, minutes, seconds);
            &&& l.len() == 7
            &&& forall|i: int| 0 <= i < 6 ==> 48 <= #[trigger] l[i] <= 57
            &&& (l[0] - 48) * 10 + (l[1] - 48) == hours
            &&& (l[2] - 48) * 10 + (l[3] - 48) == minutes
            &&& (l[4] - 48) * 10 + (l[5] - 48) == seconds
            &&& l[6] == 10
        }),
{
}

/// Milliseconds from a point `subsec_millis` into a second to the next one.
pub fn tick_delay_millis(subsec_millis: u32) -> (r: u64)
    requires
        subsec_millis <= 1000,
    ensures
        r == 1000 - subsec_millis,
{
    1000 - subsec_millis as u64
}

/// Unicode's White_Space characters, which `str::trim` removes.
pub open spec fn is_white_space(c: char) -> bool {
    ||| '\t' <= c <= '\r'
    ||| c == ' '
    ||| c == '\u{85}'
    ||| c == '\u{a0}'
    ||| c == '\u{1680}'
    ||| '\u{2000}' <= c <= '\u{200a}'
    ||| c == '\u{2028}'
    ||| c == '\u{2029}'
    ||| c == '\u{202f}'
    ||| c == '\u{205f}'
    ||| c == '\u{3000}'
}

/// Whether `c` is Unicode white space, as `char::is_whitespace`.
pub fn is_whitespace(c: char) -> (r: bool)
    ensures
        r == is_white_space(c),
{
    ('\t' <= c && c <= '\r') || c == ' ' || c == '\u{85}' || c == '\u{a0}' || c == '\u{1680}' || (
    '\u{2000}' <= c && c <= '\u{200a}') || c == '\u{2028}' || c == '\u{2029}' || c == '\u{202f}'
        || c == '\u{205f}' || c == '\u{3000}'
}

/// `s` without its leading white space.
pub open spec fn trim_start(s: Seq<char>) -> Seq<char>
    decreases s.len(),
{
    if s.len() > 0 && is_white_space(s[0]) {
        trim_start(s.drop_first())
    } else {
        s
    }
}

/// `s` without its trailing white space.
pub open spec fn trim_end(s: Seq<char>) -> Seq<char>
    decreases s.len(),
{
    if s.len() > 0 && is_white_space(s.last()) {
        trim_end(s.drop_last())
    } else {
        s
    }
}

/// `s` without leading and trailing white space, as `str::trim` leaves it.
pub open spec fn trimmed(s: Seq<char>) -> Seq<char> {
    trim_end(trim_start(s))
}

/// `str::trim`: the characters of `s` without leading and trailing white space.
pub fn trim_chars(s: &[char]) -> (r: Vec<char>)
    ensures
        r@ == trimmed(s@),
{
    let n = s.len();
    let mut i: usize = 0;
    assert(s@.skip(0) =~= s@);
    while i < n && is_whitespace(s[i])
        invariant
            n == s@.len(),
            i <= n,
            trim_start(s@) == trim_start(s@.skip(i as int)),
        decreases n - i,
    {
        assert(s@.skip(i as int).drop_first() =~= s@.skip(i + 1));
        i = i + 1;
    }
    assert(trim_start(s@) == s@.skip(i as int));
    let mut j: usize = n;
    assert(s@.skip(i as int) =~= s@.subrange(i as int, j as int));
    while j > i && is_whitespace(s[j - 1])
        invariant
            n == s@.len(),
            i <= j <= n,
            trimmed(s@) == trim_end(s@.subrange(i as int, j as int)),
        decreases j,
    {
        assert(s@.subrange(i as int, j as int).drop_last() =~= s@.subrange(i as int, j - 1));
        j = j - 1;
    }
    assert(trimmed(s@) == s@.subrange(i as int, j as int));
    let mut r: Vec<char> = Vec::new();
    let mut k: usize = i;
    while k < j
        invariant
            i <= k <= j <= n,
            n == s@.len(),
            r@ == s@.subrange(i as int, k as int),
        decreases j - k,
    {
        r.push(s[k]);
        k = k + 1;
    }
    r
}

/// The six digits that a line of input shows: after trimming, exactly six
/// ASCII hex digits; `None` for any other line.
pub open spec fn clock_digits_of(line: Seq<char>) -> Option<Seq<u8>> {
    let t = trimmed(line);
    if t.len() == 6 && forall|i: int| 0 <= i < 6 ==> #[trigger] hex_digit_value(t[i]) is Some {
        Some(Seq::new(6, |i: int| hex_digit_value(t[i])->0 as u8))
    } else {
        None
    }
}

/// Reads a line of input into six digits.
pub fn parse_clock_line(line: &str) -> (r: Option<[u8; 6]>)
    ensures
        r is Some <==> clock_digits_of(line@) is Some,
        r matches Some(d) ==> d@ == clock_digits_of(line@)->0,
{
    let cs = chars_of(line);
    let t = trim_chars(&cs);
    if t.len() != 6 {
        return None;
    }
    let mut digits: [u8; 6] = [0, 0, 0, 0, 0, 0];
    let mut i: usize = 0;
    while i < 6
        invariant
            t@ == trimmed(line@),
            t@.len() == 6,
            i <= 6,
            forall|j: int| 0 <= j < i ==> #[trigger] hex_digit_value(t@[j]) is Some,
            forall|j: int| 0 <= j < i ==> digits@[j] == (hex_digit_value(#[trigger] t@[j])->0 as u8),
        decreases 6 - i,
    {
        match hex_digit(t[i]) {
            None => {
                return None;
            },
            Some(d) => {
                assert(d < 16);
                digits[i] = d as u8;
            },
        }
        i = i + 1;
    }
    assert(digits@ =~= clock_digits_of(line@)->0);
    Some(digits)
}

/// The digits to draw for a line of input: its six digits, or all zeros
/// when it does not hold six.
pub fn frame_digits(line: &str) -> (r: [u8; 6])
    ensures
        r@ == match clock_digits_of(line@) {
            Some(d) => d,
            None => seq![0u8, 0u8, 0u8, 0u8, 0u8, 0u8],
        },
{
    match parse_clock_line(line) {
        Some(d) => d,
        None => {
            let z: [u8; 6] = [0, 0, 0, 0, 0, 0];
            assert(z@ =~= seq![0u8, 0u8, 0u8, 0u8, 0u8, 0u8]);
            z
        },
    }
}

/// ASCII bytes read back as text, one character each.
pub open spec fn ascii_chars(bytes: Seq<u8>) -> Seq<char> {
    bytes.map_values(|b: u8| b as char)
}

/// The line the timer writes for a time of day, read back as input, shows
/// exactly that time's six decimal digits.
pub proof fn lemma_timer_line_reads_back(hours: u8, minutes: u8, seconds: u8)
    requires
        hours < 24,
        minutes < 60,
        seconds < 60,
    ensures
        clock_digits_of(ascii_chars(clock_line_of(hours, minutes, seconds))) == Some(
            time_digits_of(hours, minutes, seconds),
        ),
        ({
            let d = clock_digits_of(ascii_chars(clock_line_of(hours, minutes, seconds)))->0;
            &&& d.len() == 6
            &&& d[0] * 10 + d[1] == hours
            &&& d[2] * 10 + d[3] == minutes
            &&& d[4] * 10 + d[5] == seconds
        }),
{
    let line = ascii_chars(clock_line_of(hours, minutes, seconds));
    let body = line.drop_last();
    assert(line.len() == 7);
    assert(line[6] == '\n');
    assert(!is_white_space(line[0]));
    assert(trim_start(line) == line);
    assert(is_white_space(line.last()));
    assert(!is_white_space(body.last()));
    assert(trim_end(body) == body);
    assert(trim_end(line) == trim_end(body));
    let t = trimmed(line);
    assert(t == body);
    let expected = time_digits_of(hours, minutes, seconds);
    assert forall|i: int| 0 <= i < 6 implies #[trigger] hex_digit_value(t[i]) is Some && (
    hex_digit_value(t[i])->0 as u8) == expected[i] by {
        assert(t[i] == line[i]);
    }
    assert(Seq::new(6, |i: int| hex_digit_value(t[i])->0 as u8) =~= expected);
}

/// Every digit of a time of day is a decimal digit, so each column of cells
/// shows it whole: its four bits, top to bottom, read back as the digit.
pub proof fn lemma_time_shown(hours: u8, minutes: u8, seconds: u8)
    requires
        hours < 24,
        minutes < 60,
        seconds < 60,
    ensures
        forall|i: int|
            0 <= i < 6 ==> {
                let d = #[trigger] time_digits_of(hours, minutes, seconds)[i];
                &&& d < 10
                &&& nibble_bit(d, 0) * 8 + nibble_bit(d, 1) * 4 + nibble_bit(d, 2) * 2 + nibble_bit(
                    d,
                    3,
                ) == d
            },
{
    assert forall|i: int| 0 <= i < 6 implies {
        let d = #[trigger] time_digits_of(hours, minutes, seconds)[i];
        &&& d < 10
        &&& nibble_bit(d, 0) * 8 + nibble_bit(d, 1) * 4 + nibble_bit(d, 2) * 2 + nibble_bit(d, 3)
            == d
    } by {
        let d = time_digits_of(hours, minutes, seconds)[i];
        lemma_column_reads_back(d);
    }
}

} // verus!
