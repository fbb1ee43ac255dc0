use satva_core::parse::{
    bool_error_message, float_error_message, i64_text, is_float, parse_bool, parse_i32, parse_i64,
    usize_text, IntErrorKind,
};

#[test]
fn parses_plain_and_signed_integers() {
    assert_eq!(parse_i64("42"), Ok(42));
    assert_eq!(parse_i64("+42"), Ok(42));
    assert_eq!(parse_i64("-42"), Ok(-42));
    assert_eq!(parse_i64("007"), Ok(7));
    assert_eq!(parse_i64("0"), Ok(0));
    assert_eq!(parse_i64("-0"), Ok(0));
}

#[test]
fn parses_the_ends_of_the_i64_range() {
    assert_eq!(parse_i64("9223372036854775807"), Ok(i64::MAX));
    assert_eq!(parse_i64("-9223372036854775808"), Ok(i64::MIN));
}

#[test]
fn reports_each_integer_error_kind() {
    assert_eq!(parse_i64(""), Err(IntErrorKind::Empty));
    assert_eq!(parse_i64("+"), Err(IntErrorKind::InvalidDigit));
    assert_eq!(parse_i64("-"), Err(IntErrorKind::InvalidDigit));
    assert_eq!(parse_i64("12a"), Err(IntErrorKind::InvalidDigit));
    assert_eq!(parse_i64(" 1"), Err(IntErrorKind::InvalidDigit));
    assert_eq!(parse_i64("1.5"), Err(IntErrorKind::InvalidDigit));
    assert_eq!(parse_i64("9223372036854775808"), Err(IntErrorKind::PosOverflow));
    assert_eq!(parse_i64("-9223372036854775809"), Err(IntErrorKind::NegOverflow));
}

#[test]
fn integer_errors_match_std() {
    for text in ["", "+", "x", "99999999999999999999", "-99999999999999999999", "1 "] {
        let expected = text.parse::<i64>().unwrap_err().to_string();
        let actual = parse_i64(text).unwrap_err().message();
        assert_eq!(actual, expected, "for {text:?}");
    }
}

#[test]
fn integer_values_match_std() {
    for text in ["0", "-1", "+17", "123456789", "-9223372036854775808", "0009"] {
        assert_eq!(parse_i64(text), Ok(text.parse::<i64>().unwrap()));
    }
}

#[test]
fn parses_i32_with_its_own_range() {
    assert_eq!(parse_i32("2147483647"), Ok(i32::MAX));
    assert_eq!(parse_i32("-2147483648"), Ok(i32::MIN));
    assert_eq!(parse_i32("2147483648"), Err(IntErrorKind::PosOverflow));
    assert_eq!(parse_i32("-2147483649"), Err(IntErrorKind::NegOverflow));
}

#[test]
fn parses_only_exact_booleans() {
    assert_eq!(parse_bool("true"), Some(true));
    assert_eq!(parse_bool("false"), Some(false));
    assert_eq!(parse_bool("True"), None);
    assert_eq!(parse_bool("yes"), None);
    assert_eq!(parse_bool(""), None);
    assert_eq!(
        bool_error_message(),
        "x".parse::<bool>().unwrap_err().to_string()
    );
}

#[test]
fn accepts_the_float_texts_std_accepts() {
    for text in [
        "1", "1.", ".5", "1.5", "-1.5", "+2", "1e5", "1E5", "1e-5", "2.5e+3", "inf", "-inf",
        "Infinity", "NaN", "nan", "+INF",
    ] {
        assert!(is_float(text), "{text:?} should be float text");
        assert!(text.parse::<f64>().is_ok(), "std disagrees on {text:?}");
    }
}

#[test]
fn rejects_the_float_texts_std_rejects() {
    for text in ["", ".", "e5", "1e", "1e+", "1.2.3", "--1", "abc", "1 ", "infinit", "+", "1,5"] {
        assert!(!is_float(text), "{text:?} should not be float text");
        assert!(text.parse::<f64>().is_err(), "std disagrees on {text:?}");
    }
    assert_eq!(
        float_error_message(),
        "x".parse::<f64>().unwrap_err().to_string()
    );
}

#[test]
fn writes_integers_as_display_does() {
    for value in [0i64, 7, -7, 10, 1234567890, i64::MAX, i64::MIN] {
        assert_eq!(i64_text(value), value.to_string());
    }
    for n in [0usize, 9, 10, 1000, usize::MAX] {
        assert_eq!(usize_text(n), n.to_string());
    }
}

#[test]
fn integer_text_reads_back() {
    for value in [0i64, 1, -1, 42, -99, i64::MAX, i64::MIN] {
        assert_eq!(parse_i64(&i64_text(value)), Ok(value));
        assert!(is_float(&i64_text(value)));
    }
}
