use h4::text::{dec_text, parse_i32, text_of, texts_equal};

fn chars(s: &str) -> Vec<char> {
    s.chars().collect()
}

#[test]
fn parse_plain_number() {
    assert_eq!(parse_i32(&chars("123")), Some(123));
    assert_eq!(parse_i32(&chars("0")), Some(0));
}

#[test]
fn parse_signed_numbers() {
    assert_eq!(parse_i32(&chars("+5")), Some(5));
    assert_eq!(parse_i32(&chars("-7")), Some(-7));
    assert_eq!(parse_i32(&chars("-0")), Some(0));
}

#[test]
fn parse_rejects_malformed_text() {
    assert_eq!(parse_i32(&chars("")), None);
    assert_eq!(parse_i32(&chars("-")), None);
    assert_eq!(parse_i32(&chars("+")), None);
    assert_eq!(parse_i32(&chars("12a")), None);
    assert_eq!(parse_i32(&chars(" 3")), None);
}

#[test]
fn parse_at_the_32_bit_limits() {
    assert_eq!(parse_i32(&chars("2147483647")), Some(2147483647));
    assert_eq!(parse_i32(&chars("2147483648")), None);
    assert_eq!(parse_i32(&chars("-2147483648")), Some(-2147483648));
    assert_eq!(parse_i32(&chars("-2147483649")), None);
}

#[test]
fn parse_tolerates_leading_zeros() {
    assert_eq!(parse_i32(&chars("007")), Some(7));
    assert_eq!(parse_i32(&chars("00000000009")), Some(9));
    assert_eq!(parse_i32(&chars("99999999999")), None);
}

#[test]
fn decimal_rendering() {
    let show = |n: u64| -> String { dec_text(n).iter().collect() };
    assert_eq!(show(0), "0");
    assert_eq!(show(9), "9");
    assert_eq!(show(1234), "1234");
    assert_eq!(show(u64::MAX), "18446744073709551615");
}

#[test]
fn text_helpers() {
    assert_eq!(text_of("abc"), chars("abc"));
    assert!(texts_equal(&chars("abc"), &chars("abc")));
    assert!(!texts_equal(&chars("abc"), &chars("abd")));
    assert!(!texts_equal(&chars("abc"), &chars("ab")));
}
