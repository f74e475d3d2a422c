use algobench::fileio::{get_filename, ParseError};
use algobench::text::{decimal_string, parse_i64, separate_digits_by_groups};

#[test]
fn digits_are_grouped_by_three_from_the_right() {
    assert_eq!(separate_digits_by_groups(0), "0");
    assert_eq!(separate_digits_by_groups(999), "999");
    assert_eq!(separate_digits_by_groups(1000), "1 000");
    assert_eq!(separate_digits_by_groups(1234567), "1 234 567");
    assert_eq!(separate_digits_by_groups(12345), "12 345");
    assert_eq!(separate_digits_by_groups(1_000_000_000), "1 000 000 000");
}

#[test]
fn decimal_spelling() {
    assert_eq!(decimal_string(0), "0");
    assert_eq!(decimal_string(907), "907");
    assert_eq!(decimal_string(u128::MAX), u128::MAX.to_string());
}

#[test]
fn integers_parse_like_std() {
    assert_eq!(parse_i64("42"), Some(42));
    assert_eq!(parse_i64("-7"), Some(-7));
    assert_eq!(parse_i64("+5"), Some(5));
    assert_eq!(parse_i64("007"), Some(7));
    assert_eq!(parse_i64(""), None);
    assert_eq!(parse_i64("-"), None);
    assert_eq!(parse_i64("1a"), None);
    assert_eq!(parse_i64(" 1"), None);
    assert_eq!(parse_i64("9223372036854775807"), Some(i64::MAX));
    assert_eq!(parse_i64("9223372036854775808"), None);
    assert_eq!(parse_i64("-9223372036854775808"), Some(i64::MIN));
    assert_eq!(parse_i64("-9223372036854775809"), None);
    assert_eq!(parse_i64("123456789012345678901234567890"), None);
}

#[test]
fn file_name_is_the_last_component() {
    assert_eq!(get_filename("packs/p/csv/alg.csv"), Ok("alg.csv".to_string()));
    assert_eq!(get_filename("alg"), Ok("alg".to_string()));
    assert_eq!(get_filename("dir/"), Ok("dir".to_string()));
    assert_eq!(get_filename("/"), Err(ParseError));
    assert_eq!(get_filename("a/.."), Err(ParseError));
    assert_eq!(get_filename("./x"), Ok("x".to_string()));
    assert_eq!(get_filename("a/."), Ok("a".to_string()));
    assert_eq!(get_filename("a//./b"), Ok("b".to_string()));
    assert_eq!(get_filename("."), Err(ParseError));
    assert_eq!(get_filename(""), Err(ParseError));
}
