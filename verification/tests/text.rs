use reasonix_render::text::{
    byte_len, char_width_or_zero, contains_str, eq_ignore_ascii_case, find_char, is_whitespace,
    push_decimal, rfind_char, split_char, split_once_char, to_ascii_lower, trim, trim_end, trim_start,
    uppercase_each,
};
use unicode_width::UnicodeWidthChar;

const SAMPLES: [&str; 8] = ["", "  a b  ", "\t\nx\u{3000}", "日本語 テキスト", "a,b,,c", "ÄÖÜ straße", "\u{85}z\u{2028}", "no-space"];

#[test]
fn whitespace_is_the_unicode_property() {
    for u in 0..=0x10FFFFu32 {
        if let Some(c) = char::from_u32(u) {
            assert_eq!(is_whitespace(c), c.is_whitespace(), "U+{u:04X}");
        }
    }
}

#[test]
fn character_widths_follow_unicode_width() {
    for u in 0..=0x10FFFFu32 {
        if let Some(c) = char::from_u32(u) {
            assert_eq!(char_width_or_zero(c), UnicodeWidthChar::width(c).unwrap_or(0), "U+{u:04X}");
        }
    }
}

#[test]
fn ascii_case_helpers_match_std() {
    for u in 0..0x250u32 {
        let c = char::from_u32(u).unwrap();
        assert_eq!(to_ascii_lower(c), c.to_ascii_lowercase());
    }
    let a: Vec<char> = "HeLLo-Ä".chars().collect();
    let b: Vec<char> = "hello-Ä".chars().collect();
    let c: Vec<char> = "hello-ä".chars().collect();
    assert!(eq_ignore_ascii_case(&a, &b));
    assert!(!eq_ignore_ascii_case(&a, &c));
}

#[test]
fn trimming_and_splitting_match_std() {
    for s in SAMPLES {
        assert_eq!(trim(s), s.trim());
        assert_eq!(trim_start(s), s.trim_start());
        assert_eq!(trim_end(s), s.trim_end());
        assert_eq!(split_char(s, ','), s.split(',').map(String::from).collect::<Vec<_>>());
        assert_eq!(split_char(s, ' '), s.split(' ').map(String::from).collect::<Vec<_>>());
        assert_eq!(
            split_once_char(s, ' '),
            s.split_once(' ').map(|(a, b)| (a.to_string(), b.to_string()))
        );
        assert_eq!(byte_len(s), s.len());
        assert_eq!(uppercase_each(s), s.chars().flat_map(char::to_uppercase).collect::<String>());
        let cs: Vec<char> = s.chars().collect();
        assert_eq!(find_char(&cs, ' '), s.chars().position(|c| c == ' '));
        assert_eq!(rfind_char(&cs, ' '), cs.iter().rposition(|c| *c == ' '));
        assert_eq!(contains_str(s, "b"), s.contains('b'));
    }
}

#[test]
fn decimals_are_written_in_full() {
    for n in [0u64, 7, 10, 99, 1234567, u64::MAX] {
        let mut s = String::from("n=");
        push_decimal(&mut s, n);
        assert_eq!(s, format!("n={n}"));
    }
}
