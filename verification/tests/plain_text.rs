use stellar_mixer_treepir_server::text::{
    contains_chars, chars_of, decimal_text, is_text_before, lower_chars, parse_number, same_text,
    signed_text, strip_prefix, trim, trim_prefixes, NumberError,
};

#[test]
fn numbers_are_read_back() {
    for n in [0, 7, 10, 99, 100, 429, 18446744073709551615] {
        let text = decimal_text(n);
        assert_eq!(text, n.to_string());
        assert_eq!(parse_number(&text, u64::MAX), Ok(n));
    }
    assert_eq!(parse_number("007", 7), Ok(7));
    assert_eq!(parse_number("8", 7), Err(NumberError::TooLarge));
    assert_eq!(parse_number("99x", 7), Err(NumberError::TooLarge));
    assert_eq!(parse_number("x99", 7), Err(NumberError::InvalidDigit));
    assert_eq!(parse_number("", 7), Err(NumberError::Empty));
    assert_eq!(parse_number("+", 7), Err(NumberError::InvalidDigit));
    assert_eq!(parse_number("++1", 7), Err(NumberError::InvalidDigit));
    assert_eq!(parse_number("\u{661}", 7), Err(NumberError::InvalidDigit));
}

#[test]
fn numbers_may_be_negative() {
    assert_eq!(signed_text(0), "0");
    assert_eq!(signed_text(-1), "-1");
    assert_eq!(signed_text(i64::MIN), i64::MIN.to_string());
    assert_eq!(signed_text(i64::MAX), i64::MAX.to_string());
}

#[test]
fn space_at_the_ends_is_cut_off() {
    for text in ["", " ", "a", " a b ", "\u{3000}\ta\u{85}", "\u{200b}a"] {
        assert_eq!(trim(text), text.trim(), "{text:?}");
    }
}

#[test]
fn prefixes_are_cut_off() {
    assert_eq!(strip_prefix("0x0xab", "0x"), "0xab");
    assert_eq!(strip_prefix("ab", "0x"), "ab");
    assert_eq!(trim_prefixes("0x0xab", "0x"), "ab");
    assert_eq!(trim_prefixes("0", "0x"), "0");
    assert_eq!(trim_prefixes("ab", ""), "ab");
}

#[test]
fn texts_are_searched() {
    let has = |hay: &str, needle: &str| contains_chars(&chars_of(hay), &chars_of(needle));
    assert!(has("a stale layout", "stale layout"));
    assert!(has("aab", "ab"));
    assert!(has("", ""));
    assert!(!has("ab", "abc"));
    assert!(!has("a b", "ab"));
    let lower: String = lower_chars("AzZ \u{c4}").into_iter().collect();
    assert_eq!(lower, "AzZ \u{c4}".to_ascii_lowercase());
}

#[test]
fn texts_are_ordered_by_their_bytes() {
    let texts = ["", "a", "ab", "b", "tx:10", "tx:2", "\u{e9}", "\u{ffff}", "\u{10000}"];
    for a in texts {
        for b in texts {
            assert_eq!(is_text_before(a, b), a < b, "{a:?} {b:?}");
            assert_eq!(same_text(a, b), a == b);
        }
    }
}
