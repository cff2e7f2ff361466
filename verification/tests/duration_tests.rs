use fault_injection::duration::{parse_duration, Duration};

#[test]
fn seconds_suffix() {
    assert_eq!(parse_duration("5s"), Some(Duration { secs: 5, millis: 0 }));
    assert_eq!(parse_duration("0s"), Some(Duration { secs: 0, millis: 0 }));
    assert_eq!(parse_duration("1s"), Some(Duration { secs: 1, millis: 0 }));
}

#[test]
fn milliseconds_suffix() {
    assert_eq!(parse_duration("200ms"), Some(Duration { secs: 0, millis: 200 }));
    assert_eq!(parse_duration("1500ms"), Some(Duration { secs: 1, millis: 500 }));
    assert_eq!(parse_duration("1000ms"), Some(Duration { secs: 1, millis: 0 }));
    assert_eq!(parse_duration("0ms"), Some(Duration { secs: 0, millis: 0 }));
}

#[test]
fn bare_number_is_milliseconds() {
    assert_eq!(parse_duration("7"), Some(Duration { secs: 0, millis: 7 }));
    assert_eq!(parse_duration("2500"), Some(Duration { secs: 2, millis: 500 }));
}

#[test]
fn large_values() {
    assert_eq!(
        parse_duration("18446744073709551615s"),
        Some(Duration { secs: u64::MAX, millis: 0 })
    );
    // one past u64::MAX
    assert_eq!(parse_duration("18446744073709551616s"), None);
}

#[test]
fn rejects_empty() {
    assert_eq!(parse_duration(""), None);
}

#[test]
fn rejects_bare_suffixes() {
    assert_eq!(parse_duration("s"), None);
    assert_eq!(parse_duration("ms"), None);
}

#[test]
fn rejects_negative_numbers() {
    assert_eq!(parse_duration("-5"), None);
    assert_eq!(parse_duration("-5s"), None);
    assert_eq!(parse_duration("-200ms"), None);
}

#[test]
fn rejects_non_numeric_content() {
    assert_eq!(parse_duration("abc"), None);
    assert_eq!(parse_duration("5x"), None);
    assert_eq!(parse_duration("5.5s"), None);
    assert_eq!(parse_duration("+5s"), None);
    assert_eq!(parse_duration("5 s"), None);
    assert_eq!(parse_duration("5m"), None);
}

#[test]
fn from_millis_normalizes() {
    assert_eq!(Duration::from_millis(2500), Duration { secs: 2, millis: 500 });
    assert_eq!(Duration::from_secs(3), Duration { secs: 3, millis: 0 });
    assert!(Duration::from_millis(0).is_zero());
    assert!(!Duration::from_millis(1).is_zero());
}
