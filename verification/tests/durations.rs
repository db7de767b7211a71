use yggdrasil::duration::{duration_in_range, parse_duration_string, Duration};

#[test]
fn test_parse_duration_string_plain_seconds() {
    assert_eq!(parse_duration_string("300").unwrap(), Duration::from_secs(300));
    assert_eq!(parse_duration_string("0").unwrap(), Duration::from_secs(0));
    assert_eq!(parse_duration_string("4096").unwrap(), Duration::from_secs(4096));
}

#[test]
fn test_parse_duration_string_units() {
    assert_eq!(parse_duration_string("5m").unwrap(), Duration::from_secs(300));
    assert_eq!(parse_duration_string("1h").unwrap(), Duration::from_secs(3600));
    assert_eq!(parse_duration_string("30s").unwrap(), Duration::from_secs(30));
    assert_eq!(parse_duration_string("1h30m").unwrap(), Duration::from_secs(5400));
    assert_eq!(parse_duration_string("2h30m15s").unwrap(), Duration::from_secs(9015));
}

#[test]
fn test_parse_duration_string_invalid() {
    assert!(parse_duration_string("abc").is_err());
    assert!(parse_duration_string("5x").is_err());
    assert!(parse_duration_string("5m30").is_err()); // trailing number without unit
}

#[test]
fn duration_messages() {
    assert_eq!(parse_duration_string("abc").unwrap_err(), "invalid duration: abc");
    assert_eq!(parse_duration_string("5x").unwrap_err(), "invalid duration unit 'x' in: 5x");
    assert_eq!(
        parse_duration_string("5m30").unwrap_err(),
        "trailing number without unit in duration: 5m30"
    );
    assert_eq!(parse_duration_string("-5").unwrap_err(), "invalid duration: -5");
    assert_eq!(parse_duration_string("5mm").unwrap_err(), "invalid duration: 5mm");
}

#[test]
fn duration_edges() {
    // An empty text has no component and counts no seconds.
    assert_eq!(parse_duration_string("").unwrap(), Duration::from_secs(0));
    assert_eq!(parse_duration_string("+7").unwrap(), Duration::from_secs(7));
    assert_eq!(parse_duration_string("18446744073709551615").unwrap().as_secs(), u64::MAX);
    // One more than 64 bits hold is no plain number, and has no unit.
    assert_eq!(
        parse_duration_string("18446744073709551616").unwrap_err(),
        "invalid duration: 18446744073709551616"
    );
    assert_eq!(parse_duration_string("1s1s1s").unwrap(), Duration::from_secs(3));
}

#[test]
fn durations_out_of_range_are_told() {
    assert!(duration_in_range("5h"));
    assert!(duration_in_range("nonsense"));
    assert!(!duration_in_range("18446744073709551615h"));
    assert!(!duration_in_range("18446744073709551615s1s"));
}
