use grim_rs::find_char;
use grim_rs::format_i32;
use grim_rs::format_u32;
use grim_rs::parse_i32_str;

#[test]
fn integers_format_canonically() {
    assert_eq!(format_u32(0), "0");
    assert_eq!(format_u32(7), "7");
    assert_eq!(format_u32(1080), "1080");
    assert_eq!(format_u32(u32::MAX), "4294967295");
    assert_eq!(format_i32(-1), "-1");
    assert_eq!(format_i32(i32::MIN), "-2147483648");
    assert_eq!(format_i32(i32::MAX), "2147483647");
}

#[test]
fn integer_parsing_accepts_signs_and_checks_the_range() {
    assert_eq!(parse_i32_str("0"), Some(0));
    assert_eq!(parse_i32_str("+42"), Some(42));
    assert_eq!(parse_i32_str("-42"), Some(-42));
    assert_eq!(parse_i32_str("2147483647"), Some(i32::MAX));
    assert_eq!(parse_i32_str("-2147483648"), Some(i32::MIN));
    assert_eq!(parse_i32_str("2147483648"), None);
    assert_eq!(parse_i32_str("-2147483649"), None);
    assert_eq!(parse_i32_str("0000123"), Some(123));
    assert_eq!(parse_i32_str(""), None);
    assert_eq!(parse_i32_str("-"), None);
    assert_eq!(parse_i32_str("12a"), None);
    assert_eq!(parse_i32_str(" 1"), None);
}

#[test]
fn find_char_returns_the_first_occurrence_or_the_length() {
    assert_eq!(find_char("a,b,c", ','), 1);
    assert_eq!(find_char("abc", ','), 3);
    assert_eq!(find_char("", 'x'), 0);
    assert_eq!(find_char("xy", 'x'), 0);
}
