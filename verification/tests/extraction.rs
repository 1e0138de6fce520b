use province_data::error::{ExtractError, FormatError};
use province_data::extract::parse_state_provinces;

fn missing(key: &str) -> Result<Vec<u32>, ExtractError> {
    Err(ExtractError::MissingKey { key: key.to_string() })
}

#[test]
fn provinces_of_a_state() {
    let text = "state={\n  id=1\n  provinces={ 10 20 30 }\n}";
    assert_eq!(parse_state_provinces(text), Ok(vec![10, 20, 30]));
}

#[test]
fn provinces_of_a_state_with_comments_and_whitespace() {
    let text = "# the state\n\nstate = { # opens\n  id = 1 # its number\n\n  provinces = {\n    10 # ten\n    20\n    30 # thirty\n  }\n} # closes";
    assert_eq!(parse_state_provinces(text), Ok(vec![10, 20, 30]));
}

#[test]
fn other_keys_are_passed_over() {
    let text = "version = 3\nstate = { name = x provinces = { 5 } history = { a = { b = 1 } } }\nstrategic = { 1 2 }";
    assert_eq!(parse_state_provinces(text), Ok(vec![5]));
}

#[test]
fn missing_provinces_is_a_missing_key() {
    let text = "state={\n  id=1\n}";
    assert_eq!(parse_state_provinces(text), missing("provinces"));
}

#[test]
fn missing_state_is_a_missing_key() {
    assert_eq!(parse_state_provinces("region = { provinces = { 1 } }"), missing("state"));
    assert_eq!(parse_state_provinces(""), missing("state"));
    assert_eq!(parse_state_provinces("# state = { provinces = { 1 } }"), missing("state"));
}

#[test]
fn bare_state_value_has_no_provinces() {
    assert_eq!(parse_state_provinces("state = 5"), Err(ExtractError::Format(FormatError::MissingAssignment)));
    assert_eq!(parse_state_provinces("state ="), missing("provinces"));
}

#[test]
fn bare_provinces_value_is_read_as_array() {
    assert_eq!(parse_state_provinces("state = { provinces = 12 }"), Ok(vec![12]));
}

#[test]
fn empty_provinces() {
    assert_eq!(parse_state_provinces("state = { provinces = { } }"), Ok(vec![]));
}

#[test]
fn fault_at_top_level_is_passed_on() {
    assert_eq!(
        parse_state_provinces("state = { provinces = { 1 }"),
        Err(ExtractError::Format(FormatError::UnbalancedBlock { missing: 1 }))
    );
    assert_eq!(
        parse_state_provinces("state = { } state = { }"),
        Err(ExtractError::Format(FormatError::DuplicateKey {
            key: "state".to_string(),
            first: " ".to_string(),
            second: " ".to_string(),
        }))
    );
}

#[test]
fn fault_inside_state_is_passed_on() {
    assert_eq!(
        parse_state_provinces("state = { provinces }"),
        Err(ExtractError::Format(FormatError::MissingAssignment))
    );
    assert_eq!(
        parse_state_provinces("state = { = 1 }"),
        Err(ExtractError::Format(FormatError::EmptyKey))
    );
}

#[test]
fn fault_inside_provinces_is_passed_on() {
    assert_eq!(
        parse_state_provinces("state = { provinces = { 1 two 3 } }"),
        Err(ExtractError::Format(FormatError::InvalidInteger { token: "two".to_string() }))
    );
}

#[test]
fn comment_that_swallows_a_brace_unbalances_the_block() {
    assert_eq!(
        parse_state_provinces("state = { provinces = { 1 } # }\n"),
        Err(ExtractError::Format(FormatError::UnbalancedBlock { missing: 1 }))
    );
}

#[test]
fn extraction_gives_the_same_result_each_time() {
    let text = "state = { provinces = { 3 1 2 } }";
    let first = parse_state_provinces(text);
    let second = parse_state_provinces(text);
    assert_eq!(first, second);
    assert_eq!(first, Ok(vec![3, 1, 2]));
    let bad = "state = { provinces = { 3 x } }";
    assert_eq!(parse_state_provinces(bad), parse_state_provinces(bad));
}

#[test]
fn comment_right_after_a_token_joins_it_to_the_next_line() {
    let text = "state={\n  id=1#c\nprovinces={ 10 20 30 }\n}";
    assert_eq!(
        parse_state_provinces(text),
        Err(ExtractError::Format(FormatError::MissingAssignment))
    );
}
