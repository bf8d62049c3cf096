use std::num::IntErrorKind as StdKind;
use wl_binclock::hex::{hex_digit, parse_hex_u32, IntErrorKind, ParseIntError};

fn ours(s: &str) -> Result<u32, ParseIntError> {
    let cs: Vec<char> = s.chars().collect();
    parse_hex_u32(&cs)
}

fn std_kind(s: &str) -> Result<u32, IntErrorKind> {
    u32::from_str_radix(s, 16).map_err(|e| match e.kind() {
        StdKind::Empty => IntErrorKind::Empty,
        StdKind::InvalidDigit => IntErrorKind::InvalidDigit,
        StdKind::PosOverflow => IntErrorKind::PosOverflow,
        other => panic!("unexpected kind {:?}", other),
    })
}

#[test]
fn parse_hex_agrees_with_from_str_radix() {
    let cases = [
        "", "+", "-", "0", "+0", "-0", "+ff", "-1", "ff", "FF", "fF", "00ff", "ffffffff",
        "100000000", "fffffffff", "ffffffffg", "fffffffffg", "g", "0x10", "é", " 1", "1 ",
        "12345678", "DEADBEEF", "deadbeef0", "000000000000000001", "++1", "+-1", "ff000000",
        "7fffffff", "80000000", "ＦＦ", "1_0",
    ];
    for s in cases {
        assert_eq!(ours(s).map_err(|e| e.kind), std_kind(s), "input {:?}", s);
    }
}

#[test]
fn parse_hex_agrees_on_many_numbers() {
    let mut v: u64 = 1;
    while v < (1u64 << 36) {
        for w in [v - 1, v, v + 1, v * 7 / 3] {
            for s in [format!("{:x}", w), format!("{:X}", w), format!("+{:08x}", w)] {
                assert_eq!(ours(&s).map_err(|e| e.kind), std_kind(&s), "input {:?}", s);
            }
        }
        v *= 3;
    }
}

#[test]
fn parse_hex_errors() {
    assert_eq!(ours(""), Err(ParseIntError { kind: IntErrorKind::Empty }));
    assert_eq!(ours("+"), Err(ParseIntError { kind: IntErrorKind::InvalidDigit }));
    assert_eq!(ours("xyz"), Err(ParseIntError { kind: IntErrorKind::InvalidDigit }));
    assert_eq!(ours("100000000"), Err(ParseIntError { kind: IntErrorKind::PosOverflow }));
    assert_eq!(ours("ffffffff"), Ok(u32::MAX));
}

#[test]
fn hex_digit_values() {
    for c in '\0'..='\u{ff}' {
        assert_eq!(hex_digit(c), c.to_digit(16).filter(|_| c.is_ascii()));
    }
}
