use appel::default_input;
use appel::parser::{transpile, ParseError};

fn lines(v: &[&str]) -> Vec<String> {
    v.iter().map(|s| s.to_string()).collect()
}

#[test]
fn example_full_output() {
    let input = lines(&["username alice", "level 3", "1 up", "5 up down"]);
    let out = transpile(&input).unwrap();
    assert_eq!(out, "12345696aliceǇǇ4Ǉ0Ǉ1Ǉ1Ǉ5Ǉ3");
}

#[test]
fn example_payload_char_count() {
    let payload = "aliceǇǇ4Ǉ0Ǉ1Ǉ1Ǉ5Ǉ3";
    assert_eq!(payload.chars().count(), 18);
    assert_eq!(18 + 12_345_678, 12_345_696);
}

#[test]
fn level_conversion_error() {
    let input = lines(&["username alice", "level abc"]);
    assert_eq!(transpile(&input), Err(ParseError::ConversionError(1)));
}

#[test]
fn frame_error_on_non_increasing_frame() {
    let input = lines(&["username alice", "level 3", "2 up", "2 down"]);
    assert_eq!(transpile(&input), Err(ParseError::FrameError(3)));
}

#[test]
fn body_line_with_one_token() {
    let input = lines(&["username alice", "level 3", "5"]);
    assert_eq!(transpile(&input), Err(ParseError::UnexpectedTokenError(2)));
}

#[test]
fn first_body_frame_zero_fails() {
    let input = lines(&["username alice", "level 3", "0 up"]);
    assert_eq!(transpile(&input), Err(ParseError::FrameError(2)));
}

#[test]
fn movement_order_is_irrelevant() {
    let a = transpile(&lines(&["username u", "level 1", "5 up down"])).unwrap();
    let b = transpile(&lines(&["username u", "level 1", "5 down up"])).unwrap();
    assert_eq!(a, b);
}

#[test]
fn movement_none_is_a_noop() {
    let a = transpile(&lines(&["username u", "level 1", "5 up none"])).unwrap();
    let b = transpile(&lines(&["username u", "level 1", "5 up"])).unwrap();
    assert_eq!(a, b);
}

#[test]
fn level_zero_encodes_as_one() {
    let out = transpile(&lines(&["username a", "level 0"])).unwrap();
    assert_eq!(out, "12345684aǇǇ1Ǉ0");
}

#[test]
fn level_255_encodes_as_256() {
    let out = transpile(&lines(&["username a", "level 255"])).unwrap();
    assert_eq!(out, "12345686aǇǇ256Ǉ0");
}

#[test]
fn length_prefix_round_trip() {
    let out = transpile(&lines(&["username alice", "level 3", "1 up", "5 up down"])).unwrap();
    // The username starts with a letter, so the prefix is exactly the
    // leading run of ASCII digits.
    let digits: String = out.chars().take_while(|c| c.is_ascii_digit()).collect();
    let payload: String = out.chars().skip(digits.chars().count()).collect();
    let prefix: usize = digits.parse().unwrap();
    assert_eq!(prefix, payload.chars().count() + 12_345_678);
    assert_eq!(format!("{}{}", prefix, payload), out);
}

#[test]
fn no_trailing_separator_with_records() {
    let out = transpile(&lines(&["username alice", "level 3", "1 up"])).unwrap();
    assert!(!out.ends_with('Ǉ'));
}

#[test]
fn no_trailing_separator_without_records() {
    let out = transpile(&lines(&["username alice", "level 3"])).unwrap();
    assert!(!out.ends_with('Ǉ'));
}

#[test]
fn blank_lines_are_ignored() {
    let with_blanks = transpile(&lines(&["", "username a", "   ", "level 1", "", "3 right", " "]))
        .unwrap();
    let without = transpile(&lines(&["username a", "level 1", "3 right"])).unwrap();
    assert_eq!(with_blanks, without);
    assert_eq!(with_blanks, "12345688aǇǇ2Ǉ0Ǉ3Ǉ8");
}

#[test]
fn unknown_header_keyword() {
    let input = lines(&["foo bar"]);
    assert_eq!(transpile(&input), Err(ParseError::UnexpectedTokenError(0)));
}

#[test]
fn header_username_without_value() {
    let input = lines(&["username"]);
    assert_eq!(transpile(&input), Err(ParseError::HeaderError(0)));
}

#[test]
fn header_level_without_value() {
    let input = lines(&["level"]);
    assert_eq!(transpile(&input), Err(ParseError::HeaderError(0)));
}

#[test]
fn input_ends_before_header_is_complete() {
    let input = lines(&["username a"]);
    assert_eq!(transpile(&input), Err(ParseError::HeaderError(1)));
}

#[test]
fn empty_input_fails_with_header_error() {
    let input: Vec<String> = Vec::new();
    assert_eq!(transpile(&input), Err(ParseError::HeaderError(0)));
}

#[test]
fn repeated_level_overwrites() {
    let out = transpile(&lines(&["level 1", "level 2", "username u"])).unwrap();
    assert_eq!(out, "12345684uǇǇ3Ǉ0");
}

#[test]
fn repeated_username_overwrites() {
    let out = transpile(&lines(&["username a", "username b", "level 0"])).unwrap();
    assert_eq!(out, "12345684bǇǇ1Ǉ0");
}

#[test]
fn leading_plus_sign_parses() {
    let out = transpile(&lines(&["username a", "level +3", "+7 up"])).unwrap();
    assert_eq!(out, "12345688aǇǇ4Ǉ0Ǉ7Ǉ1");
}

#[test]
fn level_out_of_range_is_conversion_error() {
    let input = lines(&["username a", "level 256"]);
    assert_eq!(transpile(&input), Err(ParseError::ConversionError(1)));
}

#[test]
fn frame_out_of_range_is_conversion_error() {
    let input = lines(&["username a", "level 1", "4294967296 up"]);
    assert_eq!(transpile(&input), Err(ParseError::ConversionError(2)));
}

#[test]
fn unknown_movement_keyword() {
    let input = lines(&["username a", "level 1", "1 up sideways"]);
    assert_eq!(transpile(&input), Err(ParseError::UnexpectedTokenError(2)));
}

#[test]
fn movement_keywords_are_case_sensitive() {
    let input = lines(&["username a", "level 1", "1 Up"]);
    assert_eq!(transpile(&input), Err(ParseError::UnexpectedTokenError(2)));
}

#[test]
fn unicode_username_is_counted_in_characters() {
    let out = transpile(&lines(&["username αβ", "level 1"])).unwrap();
    assert_eq!(out, "12345685αβǇǇ2Ǉ0");
}

#[test]
fn all_four_directions_accumulate() {
    let out = transpile(&lines(&["username a", "level 1", "1 up down left right"])).unwrap();
    assert_eq!(out, "12345689aǇǇ2Ǉ0Ǉ1Ǉ15");
}

#[test]
fn none_alone_gives_zero_bits() {
    let out = transpile(&lines(&["username a", "level 1", "1 none"])).unwrap();
    assert_eq!(out, "12345688aǇǇ2Ǉ0Ǉ1Ǉ0");
}

#[test]
fn repeated_movement_keywords_accumulate_once() {
    let a = transpile(&lines(&["username a", "level 1", "1 up up up"])).unwrap();
    let b = transpile(&lines(&["username a", "level 1", "1 up"])).unwrap();
    assert_eq!(a, b);
}

#[test]
fn tabs_separate_tokens() {
    let out = transpile(&lines(&["username\ta", "level\t1", "3\tright"])).unwrap();
    assert_eq!(out, "12345688aǇǇ2Ǉ0Ǉ3Ǉ8");
}

#[test]
fn extra_header_tokens_are_ignored() {
    let a = transpile(&lines(&["username a extra", "level 1 extra"])).unwrap();
    let b = transpile(&lines(&["username a", "level 1"])).unwrap();
    assert_eq!(a, b);
}

#[test]
fn username_may_contain_the_separator() {
    let out = transpile(&lines(&["username aǇb", "level 1"])).unwrap();
    assert_eq!(out, "12345686aǇbǇǇ2Ǉ0");
}

#[test]
fn default_input_path() {
    assert_eq!(default_input(), "appelinput.txt");
}
