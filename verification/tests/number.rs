use sush::utils::number::{int_to_string, parse_i128, parse_isize, parse_usize, IntError};
use sush::utils::param_name::is_param_name;
use sush::utils::text::{chars_of, glue, contains_char, join, remove_char, str_eq, string_of};

#[test]
fn numerals_are_read_with_and_without_sign() {
    assert_eq!(parse_isize("42"), Ok(42));
    assert_eq!(parse_isize("-7"), Ok(-7));
    assert_eq!(parse_isize("+5"), Ok(5));
    assert_eq!(parse_isize("007"), Ok(7));
    assert_eq!(parse_isize("0"), Ok(0));
    assert_eq!(parse_isize("-0"), Ok(0));
}

#[test]
fn malformed_numerals_are_refused() {
    assert_eq!(parse_isize(""), Err(IntError::Empty));
    assert_eq!(parse_isize("+"), Err(IntError::InvalidDigit));
    assert_eq!(parse_isize("-"), Err(IntError::InvalidDigit));
    assert_eq!(parse_isize("12a"), Err(IntError::InvalidDigit));
    assert_eq!(parse_isize(" 1"), Err(IntError::InvalidDigit));
    assert_eq!(parse_isize("1 "), Err(IntError::InvalidDigit));
    assert_eq!(parse_isize("--1"), Err(IntError::InvalidDigit));
    assert_eq!(parse_isize("1.5"), Err(IntError::InvalidDigit));
}

#[test]
fn numerals_outside_the_word_overflow() {
    assert_eq!(parse_isize(&isize::MAX.to_string()), Ok(isize::MAX));
    assert_eq!(parse_isize(&isize::MIN.to_string()), Ok(isize::MIN));
    assert_eq!(parse_isize("99999999999999999999999999"), Err(IntError::PosOverflow));
    assert_eq!(parse_isize("-99999999999999999999999999"), Err(IntError::NegOverflow));
}

#[test]
fn wide_numerals_reach_both_ends() {
    assert_eq!(parse_i128("170141183460469231731687303715884105727"), Ok(i128::MAX));
    assert_eq!(parse_i128("170141183460469231731687303715884105728"), Err(IntError::PosOverflow));
    assert_eq!(parse_i128("-170141183460469231731687303715884105728"), Ok(i128::MIN));
    assert_eq!(parse_i128("-170141183460469231731687303715884105729"), Err(IntError::NegOverflow));
    assert_eq!(
        parse_i128("99999999999999999999999999999999999999999999999999"),
        Err(IntError::PosOverflow)
    );
}

#[test]
fn positions_take_no_minus() {
    assert_eq!(parse_usize("3"), Ok(3));
    assert_eq!(parse_usize("+3"), Ok(3));
    assert_eq!(parse_usize("-0"), Err(IntError::InvalidDigit));
    assert_eq!(parse_usize("-3"), Err(IntError::InvalidDigit));
    assert_eq!(parse_usize(""), Err(IntError::Empty));
    assert_eq!(parse_usize("x"), Err(IntError::InvalidDigit));
}

#[test]
fn integers_are_written_as_numerals() {
    assert_eq!(int_to_string(0), "0");
    assert_eq!(int_to_string(7), "7");
    assert_eq!(int_to_string(-7), "-7");
    assert_eq!(int_to_string(10), "10");
    assert_eq!(int_to_string(1234567890), "1234567890");
    assert_eq!(int_to_string(-1000), "-1000");
    assert_eq!(int_to_string(i128::MAX), "170141183460469231731687303715884105727");
    assert_eq!(int_to_string(i128::MIN), "-170141183460469231731687303715884105728");
}

#[test]
fn writing_then_reading_gives_the_integer_back() {
    for n in [0i128, 1, -1, 9, 10, 99, 100, -12345, i128::MAX, i128::MIN] {
        assert_eq!(parse_i128(&int_to_string(n)), Ok(n));
    }
}

#[test]
fn parameter_names_follow_the_rules() {
    assert!(is_param_name("x"));
    assert!(is_param_name("_x1"));
    assert!(is_param_name("HOME"));
    assert!(is_param_name("$"));
    assert!(is_param_name("?"));
    assert!(is_param_name("@"));
    assert!(is_param_name("12"));
    assert!(!is_param_name(""));
    assert!(!is_param_name("1x"));
    assert!(!is_param_name("a-b"));
    assert!(!is_param_name("a b"));
    assert!(!is_param_name("$$"));
    assert!(!is_param_name("é"));
}

#[test]
fn text_helpers_keep_every_character() {
    assert_eq!(chars_of("añb"), vec!['a', 'ñ', 'b']);
    assert_eq!(string_of(&vec!['x', 'é', 'z']), "xéz");
    assert_eq!(glue("ab", "cd"), "abcd");
    assert!(str_eq("abc", "abc"));
    assert!(!str_eq("abc", "abd"));
    assert!(!str_eq("abc", "ab"));
    assert!(!str_eq("ab", "abc"));
    assert!(!str_eq("", "a"));
    assert!(str_eq("", ""));
    assert!(str_eq("\u{e9}t\u{e9}", "\u{e9}t\u{e9}"));
    assert!(!str_eq("\u{e9}", "e"));
    assert!(!str_eq("abc", "ab"));
    assert!(contains_char("irx", 'r'));
    assert!(!contains_char("ix", 'r'));
    assert_eq!(remove_char("iaixi", 'i'), "ax");
    assert_eq!(remove_char("", 'i'), "");
}

#[test]
fn join_puts_the_separator_between_neighbours() {
    let parts = vec!["a".to_string(), "b".to_string(), "c".to_string()];
    assert_eq!(join(&parts, " "), "a b c");
    assert_eq!(join(&parts, ""), "abc");
    assert_eq!(join(&parts, ", "), "a, b, c");
    assert_eq!(join(&vec!["x".to_string()], " "), "x");
    assert_eq!(join(&vec![], " "), "");
    assert_eq!(join(&vec!["".to_string(), "".to_string()], "-"), "-");
}
