//! IPv4 networks and subnet matching.
//!
//! A network is an address plus a prefix length; an address belongs to it
//! exactly when the two agree on the prefix-length leading bits. Client
//! addresses are parsed by a verified dotted-quad parser; CIDR configuration
//! literals are parsed through the `ipnetwork` crate.

use vstd::prelude::*;
use crate::strutil::{find_char, find_char_at};
use crate::duration::{all_digits, dec_val, lemma_dec_val_nonneg, parse_u64, parse_u64_spec};

verus! {

/// An IPv4 network range: an address and a prefix length of at most 32.
#[derive(Clone, Copy, Debug, PartialEq, Eq, Structural)]
pub struct Ipv4Net {
    pub addr: u32,
    pub prefix: u8,
}

/// The range that holds every address.
pub open spec fn all_addresses() -> Ipv4Net {
    Ipv4Net { addr: 0u32, prefix: 0u8 }
}

/// The bit mask with `prefix` leading ones.
pub open spec fn netmask(prefix: u8) -> u32 {
    if prefix == 0 {
        0u32
    } else if prefix >= 32 {
        0xffff_ffffu32
    } else {
        0xffff_ffffu32 << ((32 - prefix) as u32)
    }
}

/// Whether `addr`, masked to the network's prefix-length leading bits,
/// equals the network's masked address.
pub open spec fn in_net(net: Ipv4Net, addr: u32) -> bool {
    (addr & netmask(net.prefix)) == (net.addr & netmask(net.prefix))
}

impl Ipv4Net {
    pub open spec fn wf(self) -> bool {
        self.prefix <= 32
    }

    /// The default range, `0.0.0.0/0`, which every address matches.
    pub fn default_range() -> (r: Self)
        ensures
            r == all_addresses(),
            r.wf(),
    {
        Ipv4Net { addr: 0, prefix: 0 }
    }

    /// Subnet matching: true exactly when `addr` falls inside this range.
    pub fn contains(&self, addr: u32) -> (r: bool)
        ensures
            r == in_net(*self, addr),
    {
        let m = netmask_exec(self.prefix);
        (addr & m) == (self.addr & m)
    }
}

fn netmask_exec(prefix: u8) -> (m: u32)
    ensures
        m == netmask(prefix),
{
    if prefix == 0 {
        0
    } else if prefix >= 32 {
        0xffff_ffff
    } else {
        0xffff_ffffu32 << ((32 - prefix) as u32)
    }
}

/// The value of one dotted-quad group: one to three digits, no leading zero,
/// at most 255.
pub open spec fn octet_of(s: Seq<char>) -> Option<u32> {
    if s.len() > 0 && all_digits(s) && (s.len() > 1 ==> s[0] != '0') && dec_val(s) <= 255 {
        Some(dec_val(s) as u32)
    } else {
        None
    }
}

/// The address denoted by a dotted-quad literal `a.b.c.d`, with each group a
/// decimal octet, or `None` when `s` is not of that shape.
pub open spec fn ipv4_of(s: Seq<char>) -> Option<u32> {
    let i = find_char(s, '.');
    if !(0 <= i && i < s.len()) {
        None
    } else {
        let r1 = s.skip(i + 1);
        let j = find_char(r1, '.');
        if !(0 <= j && j < r1.len()) {
            None
        } else {
            let r2 = r1.skip(j + 1);
            let k = find_char(r2, '.');
            if !(0 <= k && k < r2.len()) {
                None
            } else {
                let r3 = r2.skip(k + 1);
                match (octet_of(s.take(i)), octet_of(r1.take(j)), octet_of(r2.take(k)), octet_of(r3)) {
                    (Some(a), Some(b), Some(c), Some(d)) => Some(
                        (a * 0x100_0000 + b * 0x1_0000 + c * 0x100 + d) as u32,
                    ),
                    _ => None,
                }
            }
        }
    }
}

/// Parses one dotted-quad group.
fn parse_octet(s: &str) -> (r: Option<u32>)
    ensures
        r == octet_of(s@),
{
    let n = s.unicode_len();
    match parse_u64(s) {
        Some(v) => {
            proof {
                lemma_dec_val_nonneg(s@);
            }
            if n > 1 && s.get_char(0) == '0' {
                return None;
            }
            if v > 255 {
                return None;
            }
            Some(v as u32)
        },
        None => {
            proof {
                if s@.len() > 0 && all_digits(s@) && dec_val(s@) <= 255 {
                    assert(parse_u64_spec(s@) is Some);
                }
            }
            None
        },
    }
}

/// Parses an IPv4 address literal `a.b.c.d` into its numeric value.
pub fn parse_ipv4(s: &str) -> (r: Option<u32>)
    ensures
        r == ipv4_of(s@),
{
    let n = s.unicode_len();
    let i = find_char_at(s, 0, '.');
    proof {
        assert(s@.skip(0) =~= s@);
    }
    if i == n {
        return None;
    }
    let j = find_char_at(s, i + 1, '.');
    let ghost r1 = s@.skip(i + 1);
    proof {
        assert forall|k: int| 0 <= k < j - (i + 1) implies r1[k] != '.' by {
            assert(r1[k] == s@[k + i + 1]);
        }
        if j < n {
            assert(r1[j - (i + 1)] == s@[j as int]);
        }
        crate::strutil::lemma_find_char_is(r1, '.', j - (i + 1));
    }
    if j == n {
        return None;
    }
    let k = find_char_at(s, j + 1, '.');
    let ghost r2 = r1.skip(j - i);
    proof {
        assert(r2 =~= s@.skip(j + 1));
        assert forall|t: int| 0 <= t < k - (j + 1) implies r2[t] != '.' by {
            assert(r2[t] == s@[t + j + 1]);
        }
        if k < n {
            assert(r2[k - (j + 1)] == s@[k as int]);
        }
        crate::strutil::lemma_find_char_is(r2, '.', k - (j + 1));
    }
    if k == n {
        return None;
    }
    let ghost r3 = r2.skip(k - j);
    proof {
        assert(r3 =~= s@.skip(k + 1));
    }
    let g1 = s.substring_char(0, i);
    let g2 = s.substring_char(i + 1, j);
    let g3 = s.substring_char(j + 1, k);
    let g4 = s.substring_char(k + 1, n);
    proof {
        assert(g1@ =~= s@.take(i as int));
        assert(g2@ =~= r1.take(j - (i + 1)));
        assert(g3@ =~= r2.take(k - (j + 1)));
        assert(g4@ =~= r3);
    }
    let a = parse_octet(g1);
    let b = parse_octet(g2);
    let c = parse_octet(g3);
    let d = parse_octet(g4);
    match (a, b, c, d) {
        (Some(a), Some(b), Some(c), Some(d)) => {
            proof {
                lemma_dec_val_nonneg(g1@);
                lemma_dec_val_nonneg(g2@);
                lemma_dec_val_nonneg(g3@);
                lemma_dec_val_nonneg(g4@);
                assert(a <= 255 && b <= 255 && c <= 255 && d <= 255);
            }
            Some(a * 0x100_0000 + b * 0x1_0000 + c * 0x100 + d)
        },
        _ => None,
    }
}

/// The network denoted by a CIDR literal, as `ipnetwork` reads it: an address
/// with an optional `/prefix` (a missing prefix means 32), or `None` when the
/// literal is invalid.
pub uninterp spec fn cidr_of(s: Seq<char>) -> Option<(u32, u8)>;

/// Relies on `ipnetwork::Ipv4Network::from_str` to parse a CIDR literal such
/// as `10.0.0.0/8`; the result depends on the text alone, and a parsed
/// network's prefix never exceeds 32.
#[verifier::external_body]
fn parse_cidr_raw(s: &str) -> (r: Option<(u32, u8)>)
    ensures
        r == cidr_of(s@),
        r is Some ==> r->Some_0.1 <= 32,
{
    match s.parse::<ipnetwork::Ipv4Network>() {
        Ok(network) => {
            let addr: u32 = network.ip().into();
            Some((addr, network.prefix()))
        },
        Err(_) => None,
    }
}

/// Parses a CIDR configuration literal into a network range.
pub fn parse_ipv4_net(s: &str) -> (r: Option<Ipv4Net>)
    ensures
        match cidr_of(s@) {
            Some(ap) => r == Some(Ipv4Net { addr: ap.0, prefix: ap.1 }) && r->Some_0.wf(),
            None => r is None,
        },
{
    match parse_cidr_raw(s) {
        Some((addr, prefix)) => Some(Ipv4Net { addr, prefix }),
        None => None,
    }
}

} // verus!
