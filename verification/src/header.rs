//! The per-request override header: a comma-separated list of `key=value`
//! pairs, e.g. `delay=200ms,status=503`.
//!
//! Parsing is deliberately tolerant: a pair without `=`, or with an empty key
//! or value, is skipped; an unrecognized key is ignored; a recognized key
//! whose value does not parse leaves that override absent. Each pair is read
//! independently, and for a repeated key the last occurrence decides.

use vstd::prelude::*;
use crate::duration::{duration_of, parse_duration, parse_u16, parse_u16_spec, Duration};
use crate::strutil::{find_char, find_char_at, lemma_find_char_is, str_eq, trim, trim_spec};

verus! {

/// The overrides carried by one request's header: each field is present only
/// when its key appeared with a parsable value.
#[derive(Clone, Copy, Debug, PartialEq, Eq)]
pub struct FaultOverride {
    pub delay: Option<Duration>,
    pub status: Option<u16>,
}

/// An override that carries nothing.
pub open spec fn empty_override() -> FaultOverride {
    FaultOverride { delay: None, status: None }
}

/// The key/value pair denoted by one comma-separated piece: the text before
/// the first `=` and the text between the first and second `=`, each with
/// surrounding whitespace removed; `None` when the `=` is missing or either
/// side is empty.
pub open spec fn pair_of(p: Seq<char>) -> Option<(Seq<char>, Seq<char>)> {
    let i = find_char(p, '=');
    if !(0 <= i && i < p.len()) {
        None
    } else {
        let rest = p.skip(i + 1);
        let j = find_char(rest, '=');
        let key = trim_spec(p.take(i));
        let val = trim_spec(rest.take(j));
        if key.len() == 0 || val.len() == 0 {
            None
        } else {
            Some((key, val))
        }
    }
}

pub open spec fn opt_pair_seq(o: Option<(Seq<char>, Seq<char>)>) -> Seq<(Seq<char>, Seq<char>)> {
    match o {
        None => Seq::empty(),
        Some(p) => seq![p],
    }
}

/// The well-formed key/value pairs of a header value, in order: the value is
/// split on commas and each piece is read by `pair_of`.
pub open spec fn header_pairs(s: Seq<char>) -> Seq<(Seq<char>, Seq<char>)>
    decreases s.len(),
{
    let i = find_char(s, ',');
    if !(0 <= i && i < s.len()) {
        opt_pair_seq(pair_of(s))
    } else {
        opt_pair_seq(pair_of(s.take(i))) + header_pairs(s.skip(i + 1))
    }
}

/// The views of a list of owned string pairs.
pub open spec fn views_of(ps: Seq<(String, String)>) -> Seq<(Seq<char>, Seq<char>)> {
    ps.map_values(|p: (String, String)| (p.0@, p.1@))
}

/// One pair applied to the overrides accumulated so far.
pub open spec fn apply_pair(acc: FaultOverride, k: Seq<char>, v: Seq<char>) -> FaultOverride {
    if k == "delay"@ {
        FaultOverride { delay: duration_of(v), status: acc.status }
    } else if k == "status"@ {
        FaultOverride { delay: acc.delay, status: parse_u16_spec(v) }
    } else {
        acc
    }
}

pub open spec fn override_fold(ps: Seq<(Seq<char>, Seq<char>)>, acc: FaultOverride) -> FaultOverride
    decreases ps.len(),
{
    if ps.len() == 0 {
        acc
    } else {
        override_fold(ps.drop_first(), apply_pair(acc, ps[0].0, ps[0].1))
    }
}

/// The override a whole header value carries.
pub open spec fn override_of(s: Seq<char>) -> FaultOverride {
    override_fold(header_pairs(s), empty_override())
}

/// Reads one comma-separated piece as a trimmed key/value pair, skipping
/// malformed pieces.
fn split_pair(p: &str) -> (r: Option<(String, String)>)
    ensures
        match pair_of(p@) {
            Some(kv) => r is Some && r->Some_0.0@ == kv.0 && r->Some_0.1@ == kv.1,
            None => r is None,
        },
{
    let n = p.unicode_len();
    let i = find_char_at(p, 0, '=');
    proof {
        assert(p@.skip(0) =~= p@);
    }
    if i == n {
        return None;
    }
    let j = find_char_at(p, i + 1, '=');
    let ghost rest = p@.skip(i + 1);
    proof {
        assert forall|k: int| 0 <= k < j - (i + 1) implies rest[k] != '=' by {
            assert(rest[k] == p@[k + i + 1]);
        }
        if j < n {
            assert(rest[j - (i + 1)] == p@[j as int]);
        }
        lemma_find_char_is(rest, '=', j - (i + 1));
    }
    let key_raw = p.substring_char(0, i);
    let val_raw = p.substring_char(i + 1, j);
    proof {
        assert(key_raw@ =~= p@.take(i as int));
        assert(val_raw@ =~= rest.take(j - (i + 1)));
    }
    let key = trim(key_raw);
    let val = trim(val_raw);
    if key.as_str().unicode_len() == 0 || val.as_str().unicode_len() == 0 {
        return None;
    }
    Some((key, val))
}

/// Splits a header value on commas into its well-formed, trimmed key/value
/// pairs, in order; malformed pieces are skipped.
pub fn parse_fault_injection_header(header_value: &str) -> (r: Vec<(String, String)>)
    ensures
        views_of(r@) == header_pairs(header_value@),
{
    let n = header_value.unicode_len();
    let mut out: Vec<(String, String)> = Vec::new();
    let mut p: usize = 0;
    proof {
        assert(header_value@.skip(0) =~= header_value@);
        assert(views_of(out@) =~= Seq::<(Seq<char>, Seq<char>)>::empty());
    }
    loop
        invariant
            p <= n,
            n == header_value@.len(),
            views_of(out@) + header_pairs(header_value@.skip(p as int)) == header_pairs(
                header_value@,
            ),
        decreases n - p,
    {
        let ghost suffix = header_value@.skip(p as int);
        let q = find_char_at(header_value, p, ',');
        proof {
            assert forall|k: int| 0 <= k < q - p implies suffix[k] != ',' by {
                assert(suffix[k] == header_value@[k + p]);
            }
            if q < n {
                assert(suffix[q - p] == header_value@[q as int]);
            }
            lemma_find_char_is(suffix, ',', q - p);
        }
        let piece = header_value.substring_char(p, q);
        proof {
            if q == n {
                assert(piece@ =~= suffix);
            } else {
                assert(piece@ =~= suffix.take(q - p));
            }
        }
        let pair = split_pair(piece);
        let ghost old_out = out@;
        match pair {
            Some(kv) => {
                out.push(kv);
            },
            None => {},
        }
        proof {
            assert(views_of(out@) =~= views_of(old_out) + opt_pair_seq(pair_of(piece@)));
        }
        if q == n {
            proof {
                assert(header_pairs(suffix) == opt_pair_seq(pair_of(piece@)));
                assert(views_of(out@) =~= views_of(old_out) + header_pairs(suffix));
                assert(views_of(out@) == header_pairs(header_value@));
            }
            return out;
        }
        proof {
            assert(header_pairs(suffix) == opt_pair_seq(pair_of(piece@)) + header_pairs(
                suffix.skip(q - p + 1),
            ));
            assert(suffix.skip(q - p + 1) =~= header_value@.skip(q + 1));
            assert(views_of(out@) + header_pairs(header_value@.skip(q + 1)) =~= (views_of(old_out)
                + opt_pair_seq(pair_of(piece@))) + header_pairs(header_value@.skip(q + 1)));
            assert((views_of(old_out) + opt_pair_seq(pair_of(piece@))) + header_pairs(
                header_value@.skip(q + 1),
            ) =~= views_of(old_out) + (opt_pair_seq(pair_of(piece@)) + header_pairs(
                header_value@.skip(q + 1),
            )));
        }
        p = q + 1;
    }
}

/// Parses a whole override header value into the overrides it carries.
pub fn parse_fault_injection(header_value: &str) -> (r: FaultOverride)
    ensures
        r == override_of(header_value@),
{
    let pairs = parse_fault_injection_header(header_value);
    let ghost ps = header_pairs(header_value@);
    let mut acc = FaultOverride { delay: None, status: None };
    let mut i: usize = 0;
    proof {
        assert(ps.skip(0) =~= ps);
    }
    while i < pairs.len()
        invariant
            0 <= i <= pairs.len(),
            views_of(pairs@) == ps,
            override_fold(ps, empty_override()) == override_fold(
                ps.skip(i as int),
                acc,
            ),
        decreases pairs.len() - i,
    {
        let ghost rest = ps.skip(i as int);
        proof {
            assert(rest[0] == ps[i as int]);
            assert(ps[i as int] == views_of(pairs@)[i as int]);
            assert(rest.drop_first() =~= ps.skip(i + 1));
        }
        let k = &pairs[i].0;
        let v = &pairs[i].1;
        if str_eq(k.as_str(), "delay") {
            acc = FaultOverride { delay: parse_duration(v.as_str()), status: acc.status };
        } else if str_eq(k.as_str(), "status") {
            acc = FaultOverride { delay: acc.delay, status: parse_u16(v.as_str()) };
        }
        i += 1;
    }
    proof {
        assert(ps.skip(pairs@.len() as int) =~= Seq::<(Seq<char>, Seq<char>)>::empty());
    }
    acc
}

} // verus!
