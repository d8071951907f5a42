//! The character-level helpers: whitespace, splitting, numbers.

use vyges_meas::text::{
    chars_of, find_char, is_white, lower_equals, parse_usize_range, push_decimal, push_escaped,
    split_bounds, string_of, trim_bounds, word_bounds,
};

fn parse(s: &str) -> Option<usize> {
    let cs = chars_of(s);
    parse_usize_range(&cs, 0, cs.len())
}

#[test]
fn usize_parsing_follows_from_str() {
    for s in ["0", "7", "+7", "0042", "18446744073709551615", "", "+", "-", "-0", "++1", "1 ", "1_0", "18446744073709551616", "٣"] {
        assert_eq!(parse(s), s.parse::<usize>().ok(), "{s:?}");
    }
}

#[test]
fn decimals_are_written_without_padding() {
    for n in [0usize, 9, 10, 99, 100, 65536, usize::MAX] {
        let mut s = String::from(">");
        push_decimal(&mut s, n);
        assert_eq!(s, format!(">{n}"));
    }
}

#[test]
fn whitespace_is_unicode_white_space() {
    for c in ['\t', '\n', '\u{b}', '\u{c}', '\r', ' ', '\u{85}', '\u{a0}', '\u{1680}', '\u{2000}', '\u{2005}', '\u{200a}', '\u{2028}', '\u{2029}', '\u{202f}', '\u{205f}', '\u{3000}', 'x', '\u{200b}', '\u{feff}', '0', '\u{1f}'] {
        assert_eq!(is_white(c), c.is_whitespace(), "{c:?}");
    }
}

#[test]
fn trimming_splitting_and_words_match_str() {
    let text = "\u{2003} a,b ,, c \t";
    let cs = chars_of(text);
    let (a, b) = trim_bounds(&cs, 0, cs.len());
    assert_eq!(string_of(&cs, a, b), text.trim());
    let pieces: Vec<String> = split_bounds(&cs, ',')
        .iter()
        .map(|&(x, y)| string_of(&cs, x, y))
        .collect();
    let expected: Vec<String> = text.split(',').map(|s| s.to_string()).collect();
    assert_eq!(pieces, expected);
    let words: Vec<String> = word_bounds(&cs, 0, cs.len())
        .iter()
        .map(|&(x, y)| string_of(&cs, x, y))
        .collect();
    let expected: Vec<String> = text.split_whitespace().map(|s| s.to_string()).collect();
    assert_eq!(words, expected);
    assert_eq!(find_char(&cs, 0, cs.len(), ','), 3);
    assert_eq!(find_char(&cs, 0, cs.len(), '#'), cs.len());
}

#[test]
fn names_compare_ignoring_ascii_case_only() {
    assert!(lower_equals("SNR", "snr"));
    assert!(lower_equals("Phase-Margin", "phase-margin"));
    assert!(!lower_equals("snr ", "snr"));
    assert!(!lower_equals("ſnr", "snr"));
    assert!(!lower_equals("", "x"));
    assert!(lower_equals("", ""));
}

#[test]
fn escaping_doubles_backslashes_and_guards_quotes() {
    let mut s = String::new();
    push_escaped(&mut s, "a\\b\"c\nd");
    assert_eq!(s, "a\\\\b\\\"c\nd");
}
