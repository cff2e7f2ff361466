//! Per-scope fault-injection configuration and its inheritance rules.
//!
//! A scope's settings are merged with its enclosing scope's before use:
//! `injection` is sticky-true along the path, while `delay`, `status` and
//! `ip` inherit the parent's value exactly when the child's is unset (the
//! zero duration, status 0, and the all-addresses range respectively).

use vstd::prelude::*;
use crate::duration::{duration_of, parse_duration, parse_u16, parse_u16_spec, Duration};
use crate::net::{all_addresses, cidr_of, parse_ipv4_net, Ipv4Net};
use crate::strutil::{eq_ignore_case, eq_ignore_case_spec, str_eq};

verus! {

/// One configuration scope's fault-injection settings.
#[derive(Clone, Copy, Debug, PartialEq, Eq, Structural)]
pub struct ModuleConfig {
    /// Whether fault injection is active in this scope.
    pub injection: bool,
    /// Delay to apply; the zero duration means "unset".
    pub delay: Duration,
    /// Status code to force; 0 means "unset", never HTTP status 0.
    pub status: u16,
    /// Client-address range this rule applies to.
    pub ip: Ipv4Net,
}

/// The settings of a scope that configures nothing.
pub open spec fn default_config() -> ModuleConfig {
    ModuleConfig {
        injection: false,
        delay: Duration { secs: 0u64, millis: 0u32 },
        status: 0u16,
        ip: all_addresses(),
    }
}

/// The resolved settings of `child` inside `parent`.
pub open spec fn merge_spec(child: ModuleConfig, parent: ModuleConfig) -> ModuleConfig {
    ModuleConfig {
        injection: child.injection || parent.injection,
        delay: if child.delay.is_zero_spec() {
            parent.delay
        } else {
            child.delay
        },
        status: if child.status == 0 {
            parent.status
        } else {
            child.status
        },
        ip: if child.ip == all_addresses() {
            parent.ip
        } else {
            child.ip
        },
    }
}

impl Default for ModuleConfig {
    fn default() -> (r: Self)
        ensures
            r == default_config(),
    {
        ModuleConfig {
            injection: false,
            delay: Duration { secs: 0, millis: 0 },
            status: 0,
            ip: Ipv4Net::default_range(),
        }
    }
}

impl ModuleConfig {
    /// Resolves this scope's settings against the enclosing scope's.
    pub fn merge(&mut self, prev: &Self)
        ensures
            *final(self) == merge_spec(*old(self), *prev),
    {
        if prev.injection {
            self.injection = true;
        }
        if self.delay.is_zero() {
            self.delay = prev.delay;
        }
        if self.status == 0 {
            self.status = prev.status;
        }
        if self.ip == Ipv4Net::default_range() {
            self.ip = prev.ip;
        }
    }
}

/// Merging is idempotent: resolving against the same parent a second time
/// changes nothing, and resolving a scope against itself changes nothing.
pub proof fn lemma_merge_idempotent(child: ModuleConfig, parent: ModuleConfig)
    ensures
        merge_spec(merge_spec(child, parent), parent) == merge_spec(child, parent),
        merge_spec(child, child) == child,
{
}

/// Inheritance: an unset child delay resolves to the parent's delay, and an
/// explicit child delay wins over any parent; `status` and `ip` follow the
/// same rule with their own unset sentinels.
pub proof fn lemma_merge_inherits(child: ModuleConfig, parent: ModuleConfig)
    ensures
        child.delay.is_zero_spec() ==> merge_spec(child, parent).delay == parent.delay,
        !child.delay.is_zero_spec() ==> merge_spec(child, parent).delay == child.delay,
        child.status == 0 ==> merge_spec(child, parent).status == parent.status,
        child.status != 0 ==> merge_spec(child, parent).status == child.status,
        child.ip == all_addresses() ==> merge_spec(child, parent).ip == parent.ip,
        child.ip != all_addresses() ==> merge_spec(child, parent).ip == child.ip,
        (child.injection || parent.injection) == merge_spec(child, parent).injection,
{
}

/// A configuration directive that could not be applied; loading must fail.
#[derive(Clone, Copy, Debug, PartialEq, Eq, Structural)]
pub enum ConfigError {
    InvalidDuration,
    InvalidStatus,
    InvalidCidr,
}

/// What applying one raw directive to a scope's settings yields: the updated
/// settings, or the error that makes configuration loading fail.
pub open spec fn apply_directive_spec(c: ModuleConfig, name: Seq<char>, value: Seq<char>) -> Result<
    ModuleConfig,
    ConfigError,
> {
    if name == "fault_injection"@ {
        if eq_ignore_case_spec(value, "on"@) {
            Ok(ModuleConfig { injection: true, ..c })
        } else {
            Ok(c)
        }
    } else if name == "fault_delay"@ {
        match duration_of(value) {
            Some(d) => Ok(ModuleConfig { delay: d, ..c }),
            None => Err(ConfigError::InvalidDuration),
        }
    } else if name == "fault_status"@ {
        match parse_u16_spec(value) {
            Some(st) => Ok(ModuleConfig { status: st, ..c }),
            None => Err(ConfigError::InvalidStatus),
        }
    } else if name == "fault_ip"@ {
        match cidr_of(value) {
            Some(ap) => Ok(ModuleConfig { ip: Ipv4Net { addr: ap.0, prefix: ap.1 }, ..c }),
            None => Err(ConfigError::InvalidCidr),
        }
    } else {
        Ok(c)
    }
}

/// Applies one configuration directive, given as a raw name/value pair, to
/// this scope's settings; an unrecognized name changes nothing, and an
/// unparsable value leaves the settings unchanged and reports the error.
pub fn apply_directive(conf: &mut ModuleConfig, name: &str, value: &str) -> (r: Result<
    (),
    ConfigError,
>)
    ensures
        match apply_directive_spec(*old(conf), name@, value@) {
            Ok(c2) => r is Ok && *final(conf) == c2,
            Err(e) => r == Err::<(), ConfigError>(e) && *final(conf) == *old(conf),
        },
{
    if str_eq(name, "fault_injection") {
        if eq_ignore_case(value, "on") {
            conf.injection = true;
        }
        Ok(())
    } else if str_eq(name, "fault_delay") {
        match parse_duration(value) {
            Some(d) => {
                conf.delay = d;
                Ok(())
            },
            None => Err(ConfigError::InvalidDuration),
        }
    } else if str_eq(name, "fault_status") {
        match parse_u16(value) {
            Some(st) => {
                conf.status = st;
                Ok(())
            },
            None => Err(ConfigError::InvalidStatus),
        }
    } else if str_eq(name, "fault_ip") {
        match parse_ipv4_net(value) {
            Some(net) => {
                conf.ip = net;
                Ok(())
            },
            None => Err(ConfigError::InvalidCidr),
        }
    } else {
        Ok(())
    }
}

} // verus!
