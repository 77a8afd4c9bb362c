use alexander::text::{parse_i32_or, parse_u32_or, u32_to_string};

#[test]
fn parse_unsigned_fields() {
    assert_eq!(parse_u32_or("42", 0), 42);
    assert_eq!(parse_u32_or("+10", 0), 10);
    assert_eq!(parse_u32_or("0", 9), 0);
    assert_eq!(parse_u32_or("4294967295", 0), u32::MAX);
    // unparsable text falls back to the default
    assert_eq!(parse_u32_or("", 7), 7);
    assert_eq!(parse_u32_or("abc", 7), 7);
    assert_eq!(parse_u32_or("12x", 7), 7);
    assert_eq!(parse_u32_or("-1", 7), 7);
    assert_eq!(parse_u32_or("+", 7), 7);
    assert_eq!(parse_u32_or("4294967296", 7), 7);
    assert_eq!(parse_u32_or("99999999999999999999", 7), 7);
}

#[test]
fn parse_signed_fields() {
    assert_eq!(parse_i32_or("-12", 0), -12);
    assert_eq!(parse_i32_or("+5", 0), 5);
    assert_eq!(parse_i32_or("17", 0), 17);
    assert_eq!(parse_i32_or("2147483647", 0), i32::MAX);
    assert_eq!(parse_i32_or("-2147483648", 0), i32::MIN);
    assert_eq!(parse_i32_or("2147483648", 3), 3);
    assert_eq!(parse_i32_or("-2147483649", 3), 3);
    assert_eq!(parse_i32_or("--3", 3), 3);
    assert_eq!(parse_i32_or("-", 3), 3);
    assert_eq!(parse_i32_or("", 3), 3);
}

#[test]
fn print_and_reparse() {
    assert_eq!(u32_to_string(0), String::from("0"));
    assert_eq!(u32_to_string(7), String::from("7"));
    assert_eq!(u32_to_string(10), String::from("10"));
    assert_eq!(u32_to_string(12345), String::from("12345"));
    assert_eq!(u32_to_string(u32::MAX), String::from("4294967295"));
    assert_eq!(parse_u32_or(&u32_to_string(987654), 0), 987654);
}
