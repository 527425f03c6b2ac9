use spar::numeric::{chars_of, is_float_literal, long_text, parse_long, parse_ulong, ulong_text};
use spar::{unquote, FlagError, FlagValue};

fn cs(s: &str) -> Vec<char> {
    s.chars().collect()
}

#[test]
fn long_literals() {
    assert_eq!(parse_long(&cs("42")), Some(42));
    assert_eq!(parse_long(&cs("+42")), Some(42));
    assert_eq!(parse_long(&cs("-42")), Some(-42));
    assert_eq!(parse_long(&cs("007")), Some(7));
    assert_eq!(parse_long(&cs("9223372036854775807")), Some(i64::MAX));
    assert_eq!(parse_long(&cs("-9223372036854775808")), Some(i64::MIN));
    assert_eq!(parse_long(&cs("9223372036854775808")), None);
    assert_eq!(parse_long(&cs("-9223372036854775809")), None);
    assert_eq!(parse_long(&cs("99999999999999999999999")), None);
    assert_eq!(parse_long(&cs("")), None);
    assert_eq!(parse_long(&cs("-")), None);
    assert_eq!(parse_long(&cs("1 ")), None);
    assert_eq!(parse_long(&cs("1.0")), None);
}

#[test]
fn ulong_literals() {
    assert_eq!(parse_ulong(&cs("0")), Some(0));
    assert_eq!(parse_ulong(&cs("+5")), Some(5));
    assert_eq!(parse_ulong(&cs("18446744073709551615")), Some(u64::MAX));
    assert_eq!(parse_ulong(&cs("18446744073709551616")), None);
    assert_eq!(parse_ulong(&cs("-0")), None);
    assert_eq!(parse_ulong(&cs("+")), None);
}

#[test]
fn float_literals() {
    for ok in ["1.5", "1e3", "1E-3", ".5", "5.", "+0.25", "inf", "-Infinity", "NaN", "12"] {
        assert!(is_float_literal(&cs(ok)), "{ok}");
        assert!(ok.parse::<f64>().is_ok());
    }
    for bad in ["", ".", "e5", "1e", "1.2.3", "abc", "infin", "1e+", " 1", "--1"] {
        assert!(!is_float_literal(&cs(bad)), "{bad}");
        assert!(bad.parse::<f64>().is_err());
    }
}

#[test]
fn decimal_text() {
    assert_eq!(ulong_text(0), "0");
    assert_eq!(ulong_text(1230), "1230");
    assert_eq!(ulong_text(u64::MAX), "18446744073709551615");
    assert_eq!(long_text(-42), "-42");
    assert_eq!(long_text(i64::MIN), "-9223372036854775808");
    assert_eq!(chars_of("añb"), vec!['a', 'ñ', 'b']);
}

#[test]
fn value_text() {
    assert_eq!(FlagValue::Bool(true).to_string(), "true");
    assert_eq!(FlagValue::Bool(false).to_string(), "false");
    assert_eq!(FlagValue::Long(-7).to_string(), "-7");
    assert_eq!(FlagValue::ULong(15).to_string(), "15");
    assert_eq!(FlagValue::Double("2.5".to_string()).to_string(), "2.5");
    assert_eq!(FlagValue::String("a b".to_string()).to_string(), "\"a b\"");
}

#[test]
fn parse_from_keeps_value_on_failure() {
    let mut v = FlagValue::Long(3);
    assert_eq!(v.parse_from("x"), Err(FlagError::ParseFailure));
    assert!(matches!(v, FlagValue::Long(3)));
    assert_eq!(v.parse_from("-12"), Ok(()));
    assert!(matches!(v, FlagValue::Long(-12)));
}

#[test]
fn toggle_flips() {
    let mut v = FlagValue::Bool(false);
    assert!(v.is_bool());
    v.toggle();
    assert!(matches!(v, FlagValue::Bool(true)));
}

#[test]
fn unquoting() {
    assert_eq!(unquote("\"a b\""), "a b");
    assert_eq!(unquote("ab"), "ab");
    assert_eq!(unquote("\"ab"), "a");
    assert_eq!(unquote("\""), "");
    assert_eq!(unquote(""), "");
    assert_eq!(unquote("a\""), "a\"");
}
