use province_data::text::{
    ascii_whitespace, drop_trailing_whitespace, find, skip_whitespace, to_chars, to_string,
    token_end, whitespace,
};

fn chars(text: &str) -> Vec<char> {
    text.chars().collect()
}

#[test]
fn whitespace_is_the_unicode_property() {
    for code in 0..=0x10ffffu32 {
        if let Some(c) = char::from_u32(code) {
            assert_eq!(whitespace(c), c.is_whitespace(), "U+{:04X}", code);
        }
    }
}

#[test]
fn ascii_whitespace_is_five_characters() {
    for code in 0..=0x10ffffu32 {
        if let Some(c) = char::from_u32(code) {
            assert_eq!(ascii_whitespace(c), c.is_ascii_whitespace(), "U+{:04X}", code);
        }
    }
    assert!(!ascii_whitespace('\u{b}'));
    assert!(whitespace('\u{b}'));
}

#[test]
fn characters_and_strings_convert_both_ways() {
    let text = "a = { b }\n# çé 漢字 \u{1f600}";
    assert_eq!(to_chars(text), chars(text));
    assert_eq!(to_string(&chars(text)), text);
    assert_eq!(to_chars(""), Vec::<char>::new());
    assert_eq!(to_string(&[]), "");
}

#[test]
fn leading_whitespace_is_skipped() {
    assert_eq!(skip_whitespace(&chars(" \t\n\u{a0}\u{3000}x y ")), &chars("x y ")[..]);
    assert_eq!(skip_whitespace(&chars("x ")), &chars("x ")[..]);
    assert_eq!(skip_whitespace(&chars(" \n ")), &chars("")[..]);
    assert_eq!(skip_whitespace(&chars("")), &chars("")[..]);
}

#[test]
fn trailing_whitespace_is_dropped() {
    assert_eq!(drop_trailing_whitespace(&chars(" x y \t\r\n\u{2028}")), &chars(" x y")[..]);
    assert_eq!(drop_trailing_whitespace(&chars(" x")), &chars(" x")[..]);
    assert_eq!(drop_trailing_whitespace(&chars(" \n ")), &chars("")[..]);
    assert_eq!(drop_trailing_whitespace(&chars("")), &chars("")[..]);
}

#[test]
fn first_occurrence_is_found() {
    assert_eq!(find(&chars("a=b=c"), '='), Some(1));
    assert_eq!(find(&chars("=b"), '='), Some(0));
    assert_eq!(find(&chars("ab="), '='), Some(2));
    assert_eq!(find(&chars("abc"), '='), None);
    assert_eq!(find(&chars(""), '='), None);
}

#[test]
fn token_ends_at_ascii_whitespace() {
    assert_eq!(token_end(&chars("abc def")), 3);
    assert_eq!(token_end(&chars("abc\ndef")), 3);
    assert_eq!(token_end(&chars("abc\u{a0}def")), 7);
    assert_eq!(token_end(&chars(" abc")), 0);
    assert_eq!(token_end(&chars("abc")), 3);
    assert_eq!(token_end(&chars("")), 0);
}
