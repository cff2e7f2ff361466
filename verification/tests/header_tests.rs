use fault_injection::duration::Duration;
use fault_injection::header::{parse_fault_injection, parse_fault_injection_header, FaultOverride};

#[test]
fn splits_key_value_pairs() {
    let pairs = parse_fault_injection_header("delay=200ms,status=503");
    assert_eq!(
        pairs,
        vec![
            ("delay".to_string(), "200ms".to_string()),
            ("status".to_string(), "503".to_string()),
        ]
    );
}

#[test]
fn trims_whitespace_around_keys_and_values() {
    let pairs = parse_fault_injection_header("  delay = 200ms , status= 503 ");
    assert_eq!(
        pairs,
        vec![
            ("delay".to_string(), "200ms".to_string()),
            ("status".to_string(), "503".to_string()),
        ]
    );
}

#[test]
fn skips_malformed_pairs() {
    // missing '=', empty key, empty value: skipped, the rest kept
    let pairs = parse_fault_injection_header("nonsense,=5,delay=,status=503");
    assert_eq!(pairs, vec![("status".to_string(), "503".to_string())]);
}

#[test]
fn value_stops_at_second_equals() {
    let pairs = parse_fault_injection_header("a=b=c");
    assert_eq!(pairs, vec![("a".to_string(), "b".to_string())]);
}

#[test]
fn override_with_delay_and_status() {
    assert_eq!(
        parse_fault_injection("delay=200ms,status=503"),
        FaultOverride {
            delay: Some(Duration { secs: 0, millis: 200 }),
            status: Some(503),
        }
    );
}

#[test]
fn malformed_status_value_is_absent() {
    assert_eq!(
        parse_fault_injection("status=abc"),
        FaultOverride { delay: None, status: None }
    );
}

#[test]
fn unrecognized_keys_are_ignored() {
    assert_eq!(
        parse_fault_injection("foo=bar"),
        FaultOverride { delay: None, status: None }
    );
}

#[test]
fn delay_alone() {
    assert_eq!(
        parse_fault_injection("delay=3s"),
        FaultOverride {
            delay: Some(Duration { secs: 3, millis: 0 }),
            status: None,
        }
    );
}

#[test]
fn last_occurrence_of_a_key_decides() {
    assert_eq!(
        parse_fault_injection("status=503,status=404"),
        FaultOverride { delay: None, status: Some(404) }
    );
    assert_eq!(
        parse_fault_injection("status=503,status=abc"),
        FaultOverride { delay: None, status: None }
    );
}

#[test]
fn empty_header_value_carries_nothing() {
    assert_eq!(
        parse_fault_injection(""),
        FaultOverride { delay: None, status: None }
    );
    assert_eq!(parse_fault_injection_header(""), Vec::<(String, String)>::new());
}
