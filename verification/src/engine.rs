//! The fault-injection decision: one pure function of the resolved
//! configuration, the request's client address, and its headers.
//!
//! Every per-request parse failure degrades to the safe default: the request
//! passes through unmodified. Injection never causes a request outage.

use vstd::prelude::*;
use crate::config::ModuleConfig;
use crate::header::{empty_override, override_of, parse_fault_injection, views_of, FaultOverride};
use crate::net::{in_net, ipv4_of, parse_ipv4};
use crate::strutil::{eq_ignore_case, eq_ignore_case_spec};
use crate::duration::Duration;

verus! {

/// What the host must do with a request: let it continue, or sleep `delay`
/// and answer with `status`.
#[derive(Clone, Copy, Debug, PartialEq, Eq, Structural)]
pub enum Action {
    PassThrough,
    Inject { delay: Duration, status: u16 },
}

/// A status code the engine is willing to inject: the conventional
/// three-digit HTTP range. In particular the unset sentinel 0 is not valid,
/// so a scope with no status configured and no override injects nothing.
pub open spec fn valid_status(s: u16) -> bool {
    100 <= s && s <= 999
}

pub open spec fn opt_view(o: Option<&str>) -> Option<Seq<char>> {
    match o {
        Some(s) => Some(s@),
        None => None,
    }
}

/// The address the decision is based on: the real-client-IP header value when
/// present and non-empty, else the transport-level peer address.
pub open spec fn effective_addr(client: Seq<char>, realip: Option<Seq<char>>) -> Seq<char> {
    match realip {
        Some(r) => if r.len() > 0 {
            r
        } else {
            client
        },
        None => client,
    }
}

/// The engine's whole decision. Disabled scopes, addresses that do not parse,
/// addresses outside the configured range, and effective status codes outside
/// the valid range all pass the request through; otherwise the configured
/// delay and status, each possibly replaced by the header override, are
/// injected.
pub open spec fn decide_spec(
    c: ModuleConfig,
    client: Seq<char>,
    realip: Option<Seq<char>>,
    hdr: Option<Seq<char>>,
) -> Action {
    if !c.injection {
        Action::PassThrough
    } else {
        match ipv4_of(effective_addr(client, realip)) {
            None => Action::PassThrough,
            Some(addr) => if !in_net(c.ip, addr) {
                Action::PassThrough
            } else {
                let ov = match hdr {
                    None => empty_override(),
                    Some(h) => override_of(h),
                };
                let delay = match ov.delay {
                    Some(d) => d,
                    None => c.delay,
                };
                let status = match ov.status {
                    Some(st) => st,
                    None => c.status,
                };
                if valid_status(status) {
                    Action::Inject { delay, status }
                } else {
                    Action::PassThrough
                }
            },
        }
    }
}

/// Decides the fault to inject for one request, from the resolved
/// configuration, the transport-level client address, the optional
/// real-client-IP header value, and the optional override header value.
pub fn decide(
    config: &ModuleConfig,
    client_addr: &str,
    real_ip: Option<&str>,
    override_header: Option<&str>,
) -> (a: Action)
    ensures
        a == decide_spec(*config, client_addr@, opt_view(real_ip), opt_view(override_header)),
{
    if !config.injection {
        return Action::PassThrough;
    }
    let effective = match real_ip {
        Some(r) => if r.unicode_len() > 0 {
            r
        } else {
            client_addr
        },
        None => client_addr,
    };
    let addr = match parse_ipv4(effective) {
        Some(addr) => addr,
        None => {
            return Action::PassThrough;
        },
    };
    if !config.ip.contains(addr) {
        return Action::PassThrough;
    }
    let ov = match override_header {
        Some(h) => parse_fault_injection(h),
        None => FaultOverride { delay: None, status: None },
    };
    let delay = match ov.delay {
        Some(d) => d,
        None => config.delay,
    };
    let status = match ov.status {
        Some(st) => st,
        None => config.status,
    };
    if 100 <= status && status <= 999 {
        Action::Inject { delay, status }
    } else {
        Action::PassThrough
    }
}

/// The name of the request header whose value carries per-request overrides,
/// matched case-insensitively.
pub open spec fn is_override_name(n: Seq<char>) -> bool {
    eq_ignore_case_spec(n, "X-Fault-Injection"@)
}

/// The value of the first header named `X-Fault-Injection`; later
/// occurrences are ignored.
pub open spec fn first_override(hs: Seq<(Seq<char>, Seq<char>)>) -> Option<Seq<char>>
    decreases hs.len(),
{
    if hs.len() == 0 {
        None
    } else if is_override_name(hs[0].0) {
        Some(hs[0].1)
    } else {
        first_override(hs.drop_first())
    }
}

pub open spec fn opt_string_view(o: Option<String>) -> Option<Seq<char>> {
    match o {
        Some(s) => Some(s@),
        None => None,
    }
}

/// Scans the request's headers, in order, for the first whose name matches
/// the override header name case-insensitively, and returns its value.
pub fn find_override_header(headers: &Vec<(String, String)>) -> (r: Option<String>)
    ensures
        opt_string_view(r) == first_override(views_of(headers@)),
{
    let ghost hs = views_of(headers@);
    let mut i: usize = 0;
    proof {
        assert(hs.skip(0) =~= hs);
    }
    while i < headers.len()
        invariant
            0 <= i <= headers.len(),
            hs == views_of(headers@),
            first_override(hs) == first_override(hs.skip(i as int)),
        decreases headers.len() - i,
    {
        let ghost rest = hs.skip(i as int);
        proof {
            assert(rest[0] == hs[i as int]);
            assert(rest.drop_first() =~= hs.skip(i + 1));
        }
        if eq_ignore_case(headers[i].0.as_str(), "X-Fault-Injection") {
            return Some(headers[i].1.clone());
        }
        i += 1;
    }
    proof {
        assert(hs.skip(headers@.len() as int) =~= Seq::<(Seq<char>, Seq<char>)>::empty());
    }
    None
}

/// Decides the fault for one request from its full header list: the first
/// override header found is the one that counts.
pub fn handle_request(
    config: &ModuleConfig,
    client_addr: &str,
    real_ip: Option<&str>,
    headers: &Vec<(String, String)>,
) -> (a: Action)
    ensures
        a == decide_spec(
            *config,
            client_addr@,
            opt_view(real_ip),
            first_override(views_of(headers@)),
        ),
{
    let hdr = find_override_header(headers);
    match hdr {
        Some(v) => decide(config, client_addr, real_ip, Some(v.as_str())),
        None => decide(config, client_addr, real_ip, None),
    }
}

/// A disabled scope always passes the request through, whatever the address
/// and headers say.
pub proof fn lemma_disabled_passes_through(
    c: ModuleConfig,
    client: Seq<char>,
    realip: Option<Seq<char>>,
    hdr: Option<Seq<char>>,
)
    requires
        !c.injection,
    ensures
        decide_spec(c, client, realip, hdr) == Action::PassThrough,
{
}

} // verus!
