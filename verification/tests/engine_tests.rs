use fault_injection::config::ModuleConfig;
use fault_injection::duration::Duration;
use fault_injection::engine::{decide, find_override_header, handle_request, Action};
use fault_injection::net::Ipv4Net;

fn config() -> ModuleConfig {
    // enabled, delay 1s, status 500, network 10.0.0.0/8
    ModuleConfig {
        injection: true,
        delay: Duration::from_secs(1),
        status: 500,
        ip: Ipv4Net { addr: 0x0A000000, prefix: 8 },
    }
}

#[test]
fn injects_for_client_in_range() {
    assert_eq!(
        decide(&config(), "10.1.1.1", None, None),
        Action::Inject { delay: Duration::from_secs(1), status: 500 }
    );
}

#[test]
fn passes_through_client_out_of_range() {
    assert_eq!(decide(&config(), "192.168.1.1", None, None), Action::PassThrough);
}

#[test]
fn override_replaces_status_only() {
    assert_eq!(
        decide(&config(), "10.1.1.1", None, Some("status=418")),
        Action::Inject { delay: Duration::from_secs(1), status: 418 }
    );
}

#[test]
fn override_replaces_delay_only() {
    assert_eq!(
        decide(&config(), "10.1.1.1", None, Some("delay=250ms")),
        Action::Inject { delay: Duration { secs: 0, millis: 250 }, status: 500 }
    );
}

#[test]
fn disabled_scope_always_passes_through() {
    let c = ModuleConfig { injection: false, ..config() };
    assert_eq!(decide(&c, "10.1.1.1", None, Some("status=418")), Action::PassThrough);
    assert_eq!(decide(&c, "192.168.1.1", None, None), Action::PassThrough);
    assert_eq!(decide(&c, "not an address", None, None), Action::PassThrough);
}

#[test]
fn real_ip_header_takes_precedence() {
    // peer out of range, real client in range
    assert_eq!(
        decide(&config(), "192.168.1.1", Some("10.9.9.9"), None),
        Action::Inject { delay: Duration::from_secs(1), status: 500 }
    );
    // an empty real-IP header falls back to the peer address
    assert_eq!(
        decide(&config(), "10.1.1.1", Some(""), None),
        Action::Inject { delay: Duration::from_secs(1), status: 500 }
    );
}

#[test]
fn unparsable_address_passes_through() {
    assert_eq!(decide(&config(), "not an address", None, None), Action::PassThrough);
    assert_eq!(decide(&config(), "10.1.1.1", Some("bogus"), None), Action::PassThrough);
}

#[test]
fn invalid_effective_status_passes_through() {
    // status unset and no override: nothing valid to inject
    let c = ModuleConfig { status: 0, ..config() };
    assert_eq!(decide(&c, "10.1.1.1", None, None), Action::PassThrough);
    // an override below or above the three-digit range
    assert_eq!(decide(&c, "10.1.1.1", None, Some("status=99")), Action::PassThrough);
    assert_eq!(decide(&config(), "10.1.1.1", None, Some("status=1000")), Action::PassThrough);
}

#[test]
fn finds_first_override_header_case_insensitively() {
    let headers = vec![
        ("Accept".to_string(), "*/*".to_string()),
        ("x-fault-injection".to_string(), "status=418".to_string()),
        ("X-Fault-Injection".to_string(), "status=503".to_string()),
    ];
    assert_eq!(find_override_header(&headers), Some("status=418".to_string()));
    let none: Vec<(String, String)> = vec![("Accept".to_string(), "*/*".to_string())];
    assert_eq!(find_override_header(&none), None);
}

#[test]
fn handle_request_end_to_end() {
    let headers = vec![
        ("Host".to_string(), "example.test".to_string()),
        ("X-FAULT-INJECTION".to_string(), "delay=50ms,status=429".to_string()),
        ("X-Fault-Injection".to_string(), "status=503".to_string()),
    ];
    assert_eq!(
        handle_request(&config(), "10.1.1.1", None, &headers),
        Action::Inject { delay: Duration { secs: 0, millis: 50 }, status: 429 }
    );
    assert_eq!(
        handle_request(&config(), "11.0.0.1", None, &headers),
        Action::PassThrough
    );
}
