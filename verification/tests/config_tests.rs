use fault_injection::config::{apply_directive, ConfigError, ModuleConfig};
use fault_injection::duration::Duration;
use fault_injection::net::Ipv4Net;

fn base() -> ModuleConfig {
    ModuleConfig::default()
}

#[test]
fn default_configures_nothing() {
    let c = base();
    assert!(!c.injection);
    assert!(c.delay.is_zero());
    assert_eq!(c.status, 0);
    assert_eq!(c.ip, Ipv4Net { addr: 0, prefix: 0 });
}

#[test]
fn merge_inherits_unset_delay() {
    // child with delay unset resolves to the parent's 5s
    let mut child = base();
    let parent = ModuleConfig { delay: Duration::from_secs(5), ..base() };
    child.merge(&parent);
    assert_eq!(child.delay, Duration::from_secs(5));
}

#[test]
fn merge_keeps_explicit_delay() {
    // an explicit 2s wins over any parent
    let mut child = ModuleConfig { delay: Duration::from_secs(2), ..base() };
    let parent = ModuleConfig { delay: Duration::from_secs(5), ..base() };
    child.merge(&parent);
    assert_eq!(child.delay, Duration::from_secs(2));
}

#[test]
fn merge_inherits_status_and_ip() {
    let mut child = base();
    let parent = ModuleConfig {
        status: 503,
        ip: Ipv4Net { addr: 0x0A000000, prefix: 8 },
        ..base()
    };
    child.merge(&parent);
    assert_eq!(child.status, 503);
    assert_eq!(child.ip, Ipv4Net { addr: 0x0A000000, prefix: 8 });

    let mut child = ModuleConfig {
        status: 404,
        ip: Ipv4Net { addr: 0xC0A80100, prefix: 24 },
        ..base()
    };
    child.merge(&parent);
    assert_eq!(child.status, 404);
    assert_eq!(child.ip, Ipv4Net { addr: 0xC0A80100, prefix: 24 });
}

#[test]
fn merge_enabled_is_sticky_true() {
    let mut child = base();
    let parent = ModuleConfig { injection: true, ..base() };
    child.merge(&parent);
    assert!(child.injection);

    let mut child = ModuleConfig { injection: true, ..base() };
    child.merge(&base());
    assert!(child.injection);
}

#[test]
fn merge_is_idempotent() {
    let parent = ModuleConfig {
        injection: true,
        delay: Duration::from_secs(5),
        status: 500,
        ip: Ipv4Net { addr: 0x0A000000, prefix: 8 },
        ..base()
    };
    let child = ModuleConfig { delay: Duration::from_secs(2), ..base() };
    let mut once = child;
    once.merge(&parent);
    let mut twice = once;
    twice.merge(&parent);
    assert_eq!(twice, once);
}

#[test]
fn directives_set_fields() {
    let mut c = base();
    assert!(apply_directive(&mut c, "fault_injection", "on").is_ok());
    assert!(c.injection);
    assert!(apply_directive(&mut c, "fault_delay", "250ms").is_ok());
    assert_eq!(c.delay, Duration { secs: 0, millis: 250 });
    assert!(apply_directive(&mut c, "fault_status", "503").is_ok());
    assert_eq!(c.status, 503);
    assert!(apply_directive(&mut c, "fault_ip", "10.0.0.0/8").is_ok());
    assert_eq!(c.ip, Ipv4Net { addr: 0x0A000000, prefix: 8 });
}

#[test]
fn enable_directive_matches_on_loosely() {
    let mut c = base();
    assert!(apply_directive(&mut c, "fault_injection", "ON").is_ok());
    assert!(c.injection);
    let mut c = base();
    assert!(apply_directive(&mut c, "fault_injection", "off").is_ok());
    assert!(!c.injection);
    let mut c = base();
    assert!(apply_directive(&mut c, "fault_injection", "one").is_ok());
    assert!(!c.injection);
}

#[test]
fn bad_directive_values_are_load_errors() {
    let mut c = base();
    assert_eq!(
        apply_directive(&mut c, "fault_delay", "soon"),
        Err(ConfigError::InvalidDuration)
    );
    assert_eq!(
        apply_directive(&mut c, "fault_status", "teapot"),
        Err(ConfigError::InvalidStatus)
    );
    assert_eq!(
        apply_directive(&mut c, "fault_status", "70000"),
        Err(ConfigError::InvalidStatus)
    );
    assert_eq!(
        apply_directive(&mut c, "fault_ip", "10.0.0.0/40"),
        Err(ConfigError::InvalidCidr)
    );
    // errors leave the settings untouched
    assert_eq!(c, base());
}

#[test]
fn unknown_directives_are_ignored() {
    let mut c = base();
    assert!(apply_directive(&mut c, "fault_flavor", "sour").is_ok());
    assert_eq!(c, base());
}

#[test]
fn merge_with_itself_changes_nothing() {
    let node = ModuleConfig {
        injection: true,
        delay: Duration::from_millis(250),
        status: 503,
        ip: Ipv4Net { addr: 0x0A000000, prefix: 8 },
    };
    let mut merged = node;
    merged.merge(&node);
    assert_eq!(merged, node);
}
