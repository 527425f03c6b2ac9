use spar::{
    flag_bool, flag_bool_short, flag_double, flag_float, flag_long, flag_long_short, flag_string,
    flag_string_short, flag_ulong, parse_args, FlagError, FlagValue, Registry, CAPACITY,
};

fn args(items: &[&str]) -> Vec<String> {
    items.iter().map(|s| s.to_string()).collect()
}

fn long_of(v: &FlagValue) -> i64 {
    match v {
        FlagValue::Long(x) => *x,
        _ => panic!("not a long flag"),
    }
}

fn bool_of(v: &FlagValue) -> bool {
    match v {
        FlagValue::Bool(b) => *b,
        _ => panic!("not a boolean flag"),
    }
}

fn text_of(v: &FlagValue) -> String {
    match v {
        FlagValue::String(s) => s.clone(),
        FlagValue::Float(s) => s.clone(),
        FlagValue::Double(s) => s.clone(),
        _ => panic!("not a text-carrying flag"),
    }
}

#[test]
fn concrete_trace() {
    let mut reg = Registry::new();
    let verbose = flag_bool_short(&mut reg, "verbose", "v", false).unwrap();
    let count = flag_long(&mut reg, "count", 0).unwrap();
    assert_eq!(parse_args(&mut reg, &args(&["--verbose", "-count", "5"])), Ok(()));
    assert!(bool_of(reg.flag(verbose).value()));
    assert_eq!(long_of(reg.flag(count).value()), 5);
}

#[test]
fn defaults_survive_empty_command_line() {
    let mut reg = Registry::new();
    let b = flag_bool(&mut reg, "bool", true).unwrap();
    let l = flag_long(&mut reg, "long", -3).unwrap();
    let u = flag_ulong(&mut reg, "ulong", 7).unwrap();
    let f = flag_float(&mut reg, "float", "0.5").unwrap();
    let d = flag_double(&mut reg, "double", "2.25").unwrap();
    let s = flag_string(&mut reg, "string", "hi").unwrap();
    assert_eq!(parse_args(&mut reg, &args(&[])), Ok(()));
    assert!(bool_of(reg.flag(b).value()));
    assert_eq!(long_of(reg.flag(l).value()), -3);
    assert!(matches!(reg.flag(u).value(), FlagValue::ULong(7)));
    assert_eq!(text_of(reg.flag(f).value()), "0.5");
    assert_eq!(text_of(reg.flag(d).value()), "2.25");
    assert_eq!(text_of(reg.flag(s).value()), "hi");
}

#[test]
fn unmentioned_flag_keeps_default() {
    let mut reg = Registry::new();
    let count = flag_long(&mut reg, "count", 11).unwrap();
    let other = flag_long(&mut reg, "other", 0).unwrap();
    assert_eq!(parse_args(&mut reg, &args(&["--other", "4"])), Ok(()));
    assert_eq!(long_of(reg.flag(count).value()), 11);
    assert_eq!(long_of(reg.flag(other).value()), 4);
}

#[test]
fn toggle_twice_restores() {
    let mut reg = Registry::new();
    let verbose = flag_bool(&mut reg, "verbose", false).unwrap();
    assert_eq!(parse_args(&mut reg, &args(&["--verbose", "--verbose"])), Ok(()));
    assert!(!bool_of(reg.flag(verbose).value()));
}

#[test]
fn alias_and_name_agree() {
    let mut a = Registry::new();
    let va = flag_bool_short(&mut a, "verbose", "v", false).unwrap();
    let mut b = Registry::new();
    let vb = flag_bool_short(&mut b, "verbose", "v", false).unwrap();
    assert_eq!(parse_args(&mut a, &args(&["-v"])), Ok(()));
    assert_eq!(parse_args(&mut b, &args(&["--verbose"])), Ok(()));
    assert!(bool_of(a.flag(va).value()));
    assert_eq!(bool_of(a.flag(va).value()), bool_of(b.flag(vb).value()));
}

#[test]
fn default_alias_is_first_character() {
    let mut reg = Registry::new();
    let count = flag_long(&mut reg, "count", 0).unwrap();
    assert_eq!(reg.flag(count).short_alias(), "c");
    assert_eq!(reg.flag(count).name(), "count");
    assert_eq!(parse_args(&mut reg, &args(&["-c", "8"])), Ok(()));
    assert_eq!(long_of(reg.flag(count).value()), 8);
}

#[test]
fn ignore_mark_consumes_value_token() {
    let mut reg = Registry::new();
    let count = flag_long(&mut reg, "count", 0).unwrap();
    assert!(reg.ignore_mode());
    assert_eq!(parse_args(&mut reg, &args(&["--/count", "7", "--count", "9"])), Ok(()));
    assert_eq!(long_of(reg.flag(count).value()), 9);
}

#[test]
fn ignore_mark_keeps_boolean() {
    let mut reg = Registry::new();
    let verbose = flag_bool(&mut reg, "verbose", false).unwrap();
    assert_eq!(parse_args(&mut reg, &args(&["--/verbose"])), Ok(()));
    assert!(!bool_of(reg.flag(verbose).value()));
}

#[test]
fn ignore_mark_without_ignore_mode_applies() {
    let mut reg = Registry::new();
    let count = flag_long(&mut reg, "count", 0).unwrap();
    reg.set_ignore_mode(false);
    assert!(!reg.ignore_mode());
    assert_eq!(parse_args(&mut reg, &args(&["--/count", "7"])), Ok(()));
    assert_eq!(long_of(reg.flag(count).value()), 7);
}

#[test]
fn first_declared_wins() {
    let mut reg = Registry::new();
    let first = flag_long(&mut reg, "count", 1).unwrap();
    let second = flag_long(&mut reg, "count", 2).unwrap();
    assert_eq!(parse_args(&mut reg, &args(&["--count", "5", "-c", "6"])), Ok(()));
    assert_eq!(long_of(reg.flag(first).value()), 6);
    assert_eq!(long_of(reg.flag(second).value()), 2);
}

#[test]
fn string_quotes_are_stripped() {
    let mut reg = Registry::new();
    let label = flag_string(&mut reg, "label", "").unwrap();
    assert_eq!(parse_args(&mut reg, &args(&["--label", "\"a b\""])), Ok(()));
    assert_eq!(text_of(reg.flag(label).value()), "a b");
    assert_eq!(parse_args(&mut reg, &args(&["--label", "ab"])), Ok(()));
    assert_eq!(text_of(reg.flag(label).value()), "ab");
}

#[test]
fn string_with_only_opening_quote_loses_last_char() {
    let mut reg = Registry::new();
    let label = flag_string_short(&mut reg, "label", "L", "").unwrap();
    assert_eq!(parse_args(&mut reg, &args(&["-L", "\"abc"])), Ok(()));
    assert_eq!(text_of(reg.flag(label).value()), "ab");
}

#[test]
fn unknown_token_consumes_nothing() {
    let mut reg = Registry::new();
    let verbose = flag_bool(&mut reg, "verbose", false).unwrap();
    let count = flag_long_short(&mut reg, "count", "n", 3).unwrap();
    assert_eq!(parse_args(&mut reg, &args(&["--nope", "--verbose"])), Ok(()));
    assert!(bool_of(reg.flag(verbose).value()));
    assert_eq!(long_of(reg.flag(count).value()), 3);
}

#[test]
fn dashless_and_empty_tokens() {
    let mut reg = Registry::new();
    let verbose = flag_bool(&mut reg, "verbose", false).unwrap();
    assert_eq!(parse_args(&mut reg, &args(&["", "-", "---", "verbose"])), Ok(()));
    assert!(bool_of(reg.flag(verbose).value()));
}

#[test]
fn bad_value_is_parse_failure() {
    let mut reg = Registry::new();
    let verbose = flag_bool(&mut reg, "verbose", false).unwrap();
    let count = flag_long(&mut reg, "count", 4).unwrap();
    let r = parse_args(&mut reg, &args(&["--verbose", "--count", "abc", "--verbose"]));
    assert_eq!(r, Err(FlagError::ParseFailure));
    assert!(bool_of(reg.flag(verbose).value()));
    assert_eq!(long_of(reg.flag(count).value()), 4);
}

#[test]
fn missing_value_is_starved() {
    let mut reg = Registry::new();
    let count = flag_long(&mut reg, "count", 4).unwrap();
    assert_eq!(parse_args(&mut reg, &args(&["--count"])), Err(FlagError::StarvedValue));
    assert_eq!(long_of(reg.flag(count).value()), 4);
}

#[test]
fn ignored_value_still_needs_a_token() {
    let mut reg = Registry::new();
    flag_long(&mut reg, "count", 4).unwrap();
    assert_eq!(parse_args(&mut reg, &args(&["--/count"])), Err(FlagError::StarvedValue));
}

#[test]
fn numeric_kinds_parse() {
    let mut reg = Registry::new();
    let u = flag_ulong(&mut reg, "ulong", 0).unwrap();
    let f = flag_float(&mut reg, "float", "0").unwrap();
    let d = flag_double(&mut reg, "double", "0").unwrap();
    let r = parse_args(
        &mut reg,
        &args(&["--ulong", "18446744073709551615", "--float", "1.5e3", "--double", "-inf"]),
    );
    assert_eq!(r, Ok(()));
    assert!(matches!(reg.flag(u).value(), FlagValue::ULong(18446744073709551615)));
    assert_eq!(text_of(reg.flag(f).value()), "1.5e3");
    assert_eq!(text_of(reg.flag(d).value()), "-inf");
}

#[test]
fn negative_ulong_fails() {
    let mut reg = Registry::new();
    flag_ulong(&mut reg, "ulong", 0).unwrap();
    assert_eq!(parse_args(&mut reg, &args(&["--ulong", "-1"])), Err(FlagError::ParseFailure));
}

#[test]
fn bad_float_fails() {
    let mut reg = Registry::new();
    flag_double(&mut reg, "double", "0").unwrap();
    assert_eq!(parse_args(&mut reg, &args(&["--double", "1e"])), Err(FlagError::ParseFailure));
}

#[test]
fn capacity_is_enforced() {
    let mut reg = Registry::new();
    for i in 0..CAPACITY {
        let h = flag_bool(&mut reg, "f", false).unwrap();
        assert_eq!(h.index, i);
    }
    assert_eq!(reg.len(), 256);
    assert_eq!(flag_bool(&mut reg, "extra", false), Err(FlagError::CapacityExceeded));
    assert_eq!(reg.len(), 256);
}
