use wl_binclock::clock::{
    clock_line, frame_digits, is_whitespace, parse_clock_line, tick_delay_millis, time_digits,
    trim_chars,
};

#[test]
fn clock_line_writes_hhmmss() {
    assert_eq!(&clock_line(12, 34, 56), b"123456\n");
    assert_eq!(&clock_line(0, 0, 0), b"000000\n");
    assert_eq!(&clock_line(23, 59, 59), b"235959\n");
    assert_eq!(&clock_line(9, 5, 1), b"090501\n");
}

#[test]
fn time_digits_is_a_time_of_day() {
    let d = time_digits();
    assert_eq!(d[6], b'\n');
    assert!(d[..6].iter().all(|c| c.is_ascii_digit()));
    assert!((d[0] - b'0') * 10 + (d[1] - b'0') < 24);
    assert!((d[2] - b'0') * 10 + (d[3] - b'0') < 60);
    assert!((d[4] - b'0') * 10 + (d[5] - b'0') < 60);
}

#[test]
fn timer_lines_read_back_as_the_time() {
    for h in 0..24u8 {
        for m in 0..60u8 {
            for s in 0..60u8 {
                let line = String::from_utf8(clock_line(h, m, s).to_vec()).unwrap();
                assert_eq!(parse_clock_line(&line), Some([h / 10, h % 10, m / 10, m % 10, s / 10, s % 10]));
            }
        }
    }
}

#[test]
fn input_lines() {
    assert_eq!(parse_clock_line("123456\n"), Some([1, 2, 3, 4, 5, 6]));
    assert_eq!(parse_clock_line("abcdef"), Some([10, 11, 12, 13, 14, 15]));
    assert_eq!(parse_clock_line(" \t12AB34\r\n"), Some([1, 2, 10, 11, 3, 4]));
    assert_eq!(parse_clock_line("\u{3000}000000\u{a0}"), Some([0; 6]));
    assert_eq!(parse_clock_line("12345\n"), None);
    assert_eq!(parse_clock_line("1234567\n"), None);
    assert_eq!(parse_clock_line("12 456\n"), None);
    assert_eq!(parse_clock_line("12345g"), None);
    assert_eq!(parse_clock_line("１２３４５６"), None);
    assert_eq!(parse_clock_line(""), None);
}

#[test]
fn invalid_input_draws_zeros() {
    assert_eq!(frame_digits("hello\n"), [0; 6]);
    assert_eq!(frame_digits("987654\n"), [9, 8, 7, 6, 5, 4]);
}

#[test]
fn whitespace_is_unicode_white_space() {
    for c in (0..=0x10FFFFu32).filter_map(char::from_u32) {
        assert_eq!(is_whitespace(c), c.is_whitespace(), "{:?}", c);
    }
}

#[test]
fn trim_agrees_with_str_trim() {
    let cases = [
        "", " ", "  a  ", "\n123456\n", "\u{2028}x\u{2029}", "a b", "\t\r\n", "x\u{85}",
        "\u{200b}y\u{200b}", " \u{1680}z\u{205f} ",
    ];
    for s in cases {
        let cs: Vec<char> = s.chars().collect();
        let t: String = trim_chars(&cs).into_iter().collect();
        assert_eq!(t, s.trim(), "{:?}", s);
    }
}

#[test]
fn tick_sleeps_to_next_second() {
    assert_eq!(tick_delay_millis(0), 1000);
    assert_eq!(tick_delay_millis(250), 750);
    assert_eq!(tick_delay_millis(999), 1);
    assert_eq!(tick_delay_millis(1000), 0);
}
