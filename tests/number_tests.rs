use browser_engine::number::parse_int;

fn p(s: &str) -> Option<i64> {
    parse_int(&s.to_string())
}

#[test]
fn parses_signed_integers() {
    assert_eq!(p("42"), Some(42));
    assert_eq!(p("-42"), Some(-42));
    assert_eq!(p("+7"), Some(7));
    assert_eq!(p("007"), Some(7));
    assert_eq!(p("9223372036854775807"), Some(i64::MAX));
    assert_eq!(p("-9223372036854775808"), Some(i64::MIN));
}

#[test]
fn rejects_what_is_not_an_integer() {
    assert_eq!(p(""), None);
    assert_eq!(p("-"), None);
    assert_eq!(p("12px"), None);
    assert_eq!(p("1.5"), None);
    assert_eq!(p("auto"), None);
    assert_eq!(p("9223372036854775808"), None);
    assert_eq!(p("-9223372036854775809"), None);
    assert_eq!(p("99999999999999999999999"), None);
}
