use wl_binclock::text::{chars_of, contains_chars, decimal_chars, last_segment_chars, string_from_chars};

fn cs(s: &str) -> Vec<char> {
    s.chars().collect()
}

#[test]
fn decimal_digits() {
    for n in [0u32, 7, 10, 99, 100, 1234567890, u32::MAX] {
        assert_eq!(string_from_chars(&decimal_chars(n)), n.to_string());
    }
}

#[test]
fn substring_search_agrees_with_contains() {
    let hays = ["", "a", "abc", "20240101.jpg", "aaab", "héllo"];
    let needles = ["", "a", "ab", "bc", "c", "abcd", "0101", "aab", "él"];
    for h in hays {
        for n in needles {
            assert_eq!(contains_chars(&cs(h), &cs(n)), h.contains(n), "{:?} {:?}", h, n);
        }
    }
}

#[test]
fn last_segment_agrees_with_split() {
    for s in ["", ".", "a.b", "a.b.c", "abc", "abc.", ".abc", "x.é"] {
        let got: String = last_segment_chars(&cs(s)).into_iter().collect();
        assert_eq!(got, s.split('.').last().unwrap(), "{:?}", s);
    }
}

#[test]
fn chars_round_trip() {
    for s in ["", "abc", "é日本"] {
        assert_eq!(chars_of(s), cs(s));
        assert_eq!(string_from_chars(&chars_of(s)), s);
    }
}
