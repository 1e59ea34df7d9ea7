use betwall::text::{
    after_last_chars, contains_chars, decimal_text, find_char, is_whitespace, parse_usize,
    same_text, split_chars, split_first_chars, starts_with_chars, strip_leading_chars,
    strip_trailing_chars, to_chars, to_text, trim_text, word_chars,
};
use betwall::unicode::{decode_utf16_units, encode_utf16_units, lower_ascii_chars};

#[test]
fn white_space_is_that_of_unicode() {
    for n in 0..=0x10ffffu32 {
        if let Some(c) = char::from_u32(n) {
            assert_eq!(is_whitespace(c), c.is_whitespace());
        }
    }
}

#[test]
fn trimming_takes_white_space_off_both_ends() {
    for s in ["", " ", " a b ", "\u{3000}x\u{85}", "\r\n\t", "x"] {
        assert_eq!(trim_text(s), s.trim());
    }
}

#[test]
fn words_are_runs_without_white_space() {
    let v = to_chars(" a  bc\u{2003}d\n");
    let words: Vec<String> = word_chars(&v).iter().map(|w| to_text(w)).collect();
    assert_eq!(words, vec!["a", "bc", "d"]);
    assert!(word_chars(&to_chars(" \n")).is_empty());
}

#[test]
fn splitting_keeps_empty_pieces() {
    let v = to_chars("a&&b&");
    let pieces: Vec<String> = split_chars(&v, '&').iter().map(|p| to_text(p)).collect();
    assert_eq!(pieces, vec!["a", "", "b", ""]);
    let v = to_chars("k=a=b");
    let (k, w) = split_first_chars(&v, '=').unwrap();
    assert_eq!((to_text(k), to_text(w)), ("k".to_string(), "a=b".to_string()));
    assert!(split_first_chars(&v, '?').is_none());
    assert_eq!(find_char(&v, '='), Some(1));
    assert_eq!(to_text(after_last_chars(&to_chars("a/b/c"), '/')), "c");
    assert_eq!(to_text(after_last_chars(&to_chars("abc"), '/')), "abc");
    assert_eq!(to_text(after_last_chars(&to_chars("a/"), '/')), "");
}

#[test]
fn parts_are_found_where_they_stand() {
    let s = to_chars("stake.com");
    assert!(contains_chars(&s, &to_chars("ke.c")));
    assert!(contains_chars(&s, &to_chars("")));
    assert!(contains_chars(&s, &to_chars("stake.com")));
    assert!(contains_chars(&s, &to_chars("m")));
    assert!(!contains_chars(&s, &to_chars("stake.comm")));
    assert!(!contains_chars(&s, &to_chars("kec")));
    assert!(starts_with_chars(&s, &to_chars("stake")));
    assert!(!starts_with_chars(&s, &to_chars("take")));
}

#[test]
fn repeated_ends_are_stripped() {
    assert_eq!(to_text(strip_leading_chars(&to_chars("www.www.x"), &to_chars("www."))), "x");
    assert_eq!(to_text(strip_leading_chars(&to_chars("abc"), &to_chars(""))), "abc");
    assert_eq!(to_text(strip_trailing_chars(&to_chars("a//"), '/')), "a");
    assert_eq!(to_text(strip_trailing_chars(&to_chars("//"), '/')), "");
}

#[test]
fn numbers_are_written_and_read() {
    for n in [0u128, 7, 10, 42, 65535, u64::MAX as u128, u128::MAX] {
        assert_eq!(decimal_text(n), format!("{n}"));
    }
    for s in ["0", "00", "12", "+5", "18446744073709551615", "18446744073709551616", "", "+", "-1", "1a", " 1", "٣"] {
        assert_eq!(parse_usize(&to_chars(s)), s.parse::<usize>().ok());
    }
}

#[test]
fn texts_are_the_same_letter_for_letter() {
    assert!(same_text("é", "é"));
    assert!(same_text("", ""));
    assert!(!same_text("a", "ab"));
    assert!(!same_text("a", "A"));
}

#[test]
fn ascii_capitals_are_lowered() {
    let s = "AZaz09É[@";
    assert_eq!(to_text(&lower_ascii_chars(&to_chars(s))), s.to_ascii_lowercase());
}

#[test]
fn utf16_is_read_back() {
    for s in ["", "chrome.exe", "é\u{ffff}", "\u{10000}x\u{10ffff}"] {
        let units: Vec<u16> = s.encode_utf16().collect();
        assert_eq!(encode_utf16_units(s), units);
        assert_eq!(decode_utf16_units(&units), s);
    }
}

#[test]
fn lone_surrogates_are_replaced() {
    for units in [
        vec![0xd800u16],
        vec![0xdc00, 0x41],
        vec![0xd800, 0x41],
        vec![0xd800, 0xd800, 0xdc00],
        vec![0xdbff, 0xdfff, 0xdc00, 0xd801],
    ] {
        assert_eq!(decode_utf16_units(&units), String::from_utf16_lossy(&units));
    }
}
