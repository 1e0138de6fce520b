use province_data::block::block;
use province_data::error::FormatError;

fn parts(inner: &str, tail: &str) -> Result<(String, String), FormatError> {
    Ok((inner.to_string(), tail.to_string()))
}

#[test]
fn block_with_balanced_inside() {
    assert_eq!(block("{a{b}c}tail"), parts("a{b}c", "tail"));
}

#[test]
fn block_without_inside_or_tail() {
    assert_eq!(block("{}"), parts("", ""));
}

#[test]
fn block_ends_at_first_return_to_depth_zero() {
    assert_eq!(block("{a}{b}"), parts("a", "{b}"));
    assert_eq!(block("{a}}"), parts("a", "}"));
}

#[test]
fn block_keeps_whitespace_and_line_feeds() {
    assert_eq!(block("{ 10 20\n30 }\nrest"), parts(" 10 20\n30 ", "\nrest"));
}

#[test]
fn deeply_nested_block() {
    assert_eq!(block("{{{{}}}}x"), parts("{{{}}}", "x"));
}

#[test]
fn one_unmatched_open_brace_is_reported() {
    assert_eq!(block("{a{b}c"), Err(FormatError::UnbalancedBlock { missing: 1 }));
}

#[test]
fn several_unmatched_open_braces_are_counted() {
    assert_eq!(block("{"), Err(FormatError::UnbalancedBlock { missing: 1 }));
    assert_eq!(block("{{{"), Err(FormatError::UnbalancedBlock { missing: 3 }));
    assert_eq!(block("{a{b{c}"), Err(FormatError::UnbalancedBlock { missing: 2 }));
}

#[test]
fn text_without_opening_brace_is_no_block() {
    assert_eq!(block(""), Err(FormatError::MissingOpeningBrace));
    assert_eq!(block("a{b}"), Err(FormatError::MissingOpeningBrace));
    assert_eq!(block(" {b}"), Err(FormatError::MissingOpeningBrace));
    assert_eq!(block("}"), Err(FormatError::MissingOpeningBrace));
}

#[test]
fn braces_inside_quotes_count_like_any_other() {
    assert_eq!(block("{\"}\"}"), parts("\"", "\"}"));
}
