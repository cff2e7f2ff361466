//! Non-negative time quantities and duration-string parsing.
//!
//! A duration is written as `"<n>s"` (seconds), `"<n>ms"` (milliseconds), or
//! `"<n>"` (milliseconds), where `<n>` is a non-negative decimal integer.

use vstd::prelude::*;

verus! {

/// A non-negative time quantity, normalized so that `millis < 1000`.
#[derive(Clone, Copy, Debug, PartialEq, Eq, Structural)]
pub struct Duration {
    pub secs: u64,
    pub millis: u32,
}

impl Duration {
    /// The whole quantity in milliseconds.
    pub open spec fn total_millis(self) -> int {
        self.secs * 1000 + self.millis
    }

    pub open spec fn is_zero_spec(self) -> bool {
        self.secs == 0 && self.millis == 0
    }

    pub fn from_secs(n: u64) -> (r: Self)
        ensures
            r == (Duration { secs: n, millis: 0u32 }),
    {
        Duration { secs: n, millis: 0 }
    }

    pub fn from_millis(m: u64) -> (r: Self)
        ensures
            r == duration_from_millis(m),
    {
        Duration { secs: m / 1000, millis: (m % 1000) as u32 }
    }

    pub fn is_zero(&self) -> (r: bool)
        ensures
            r == self.is_zero_spec(),
    {
        self.secs == 0 && self.millis == 0
    }
}

/// The duration of `m` milliseconds, in normal form.
pub open spec fn duration_from_millis(m: u64) -> Duration {
    Duration { secs: (m / 1000) as u64, millis: (m % 1000) as u32 }
}

pub open spec fn is_digit(c: char) -> bool {
    '0' <= c && c <= '9'
}

pub open spec fn digit_val(c: char) -> int {
    c as int - '0' as int
}

pub open spec fn all_digits(s: Seq<char>) -> bool {
    forall|i: int| 0 <= i < s.len() ==> is_digit(s[i])
}

/// The value of `s` read as a decimal numeral.
pub open spec fn dec_val(s: Seq<char>) -> int
    decreases s.len(),
{
    if s.len() == 0 {
        0
    } else {
        dec_val(s.drop_last()) * 10 + digit_val(s.last())
    }
}

/// A non-empty, all-digit string whose value fits in a `u64` parses to that
/// value; anything else is rejected.
pub open spec fn parse_u64_spec(s: Seq<char>) -> Option<u64> {
    if s.len() > 0 && all_digits(s) && dec_val(s) <= u64::MAX {
        Some(dec_val(s) as u64)
    } else {
        None
    }
}

pub open spec fn parse_u16_spec(s: Seq<char>) -> Option<u16> {
    if s.len() > 0 && all_digits(s) && dec_val(s) <= u16::MAX {
        Some(dec_val(s) as u16)
    } else {
        None
    }
}

pub proof fn lemma_dec_val_nonneg(s: Seq<char>)
    requires
        all_digits(s),
    ensures
        dec_val(s) >= 0,
    decreases s.len(),
{
    if s.len() > 0 {
        assert(all_digits(s.drop_last()));
        lemma_dec_val_nonneg(s.drop_last());
        assert(is_digit(s.last()));
    }
}

/// Reading more digits never decreases a numeral's value.
pub proof fn lemma_dec_val_prefix(s: Seq<char>, i: int)
    requires
        all_digits(s),
        0 <= i <= s.len(),
    ensures
        dec_val(s.take(i)) <= dec_val(s),
    decreases s.len() - i,
{
    if i == s.len() {
        assert(s.take(i) =~= s);
    } else {
        let t = s.take(i + 1);
        assert(t.drop_last() =~= s.take(i));
        assert(t.last() == s[i]);
        assert(all_digits(s.take(i)));
        lemma_dec_val_nonneg(s.take(i));
        assert(dec_val(t) == dec_val(s.take(i)) * 10 + digit_val(s[i]));
        assert(is_digit(s[i]));
        lemma_dec_val_prefix(s, i + 1);
    }
}

/// Parses a non-negative decimal integer; rejects the empty string, any
/// non-digit character (including signs), and values above `u64::MAX`.
pub fn parse_u64(s: &str) -> (r: Option<u64>)
    ensures
        r == parse_u64_spec(s@),
{
    let n = s.unicode_len();
    if n == 0 {
        return None;
    }
    let mut acc: u64 = 0;
    let mut i: usize = 0;
    while i < n
        invariant
            0 <= i <= n,
            n == s@.len(),
            n > 0,
            all_digits(s@.take(i as int)),
            acc == dec_val(s@.take(i as int)),
        decreases n - i,
    {
        let c = s.get_char(i);
        if !(c >= '0' && c <= '9') {
            assert(!is_digit(s@[i as int]));
            return None;
        }
        let d: u64 = (c as u32 - '0' as u32) as u64;
        proof {
            let t = s@.take(i + 1);
            assert(t.drop_last() =~= s@.take(i as int));
            assert(t.last() == s@[i as int]);
            assert(all_digits(t));
        }
        if acc > (u64::MAX - d) / 10 {
            proof {
                let t = s@.take(i + 1);
                let q = (u64::MAX - d) / 10;
                assert(acc >= q + 1);
                assert(acc * 10 >= (q + 1) * 10) by (nonlinear_arith)
                    requires acc >= q + 1;
                assert(q * 10 + (u64::MAX - d) % 10 == u64::MAX - d);
                assert(dec_val(t) == acc * 10 + digit_val(s@[i as int]));
                assert(dec_val(t) > u64::MAX);
                if all_digits(s@) {
                    lemma_dec_val_prefix(s@, i + 1);
                    assert(dec_val(s@) > u64::MAX);
                }
            }
            return None;
        }
        proof {
            let q = (u64::MAX - d) / 10;
            assert(acc <= q);
            assert(acc * 10 <= q * 10) by (nonlinear_arith)
                requires acc <= q;
            assert(q * 10 + (u64::MAX - d) % 10 == u64::MAX - d);
            assert(acc * 10 + d <= u64::MAX);
        }
        acc = acc * 10 + d;
        i += 1;
    }
    proof {
        assert(s@.take(n as int) =~= s@);
    }
    Some(acc)
}

/// Parses a non-negative decimal integer that fits in a `u16`.
pub fn parse_u16(s: &str) -> (r: Option<u16>)
    ensures
        r == parse_u16_spec(s@),
{
    match parse_u64(s) {
        Some(v) => {
            proof {
                lemma_dec_val_nonneg(s@);
                assert(dec_val(s@) == v);
            }
            if v <= 65535 {
                Some(v as u16)
            } else {
                None
            }
        },
        None => {
            proof {
                if s@.len() > 0 && all_digits(s@) && dec_val(s@) <= u16::MAX {
                    assert(dec_val(s@) <= u64::MAX);
                }
            }
            None
        },
    }
}

/// The duration denoted by `s`: a decimal numeral with an optional trailing
/// unit, `ms` for milliseconds or `s` for seconds; a bare numeral is read as
/// milliseconds.
pub open spec fn duration_of(s: Seq<char>) -> Option<Duration> {
    if s.len() >= 2 && s[s.len() - 2] == 'm' && s[s.len() - 1] == 's' {
        match parse_u64_spec(s.take(s.len() - 2)) {
            Some(m) => Some(duration_from_millis(m)),
            None => None,
        }
    } else if s.len() >= 1 && s[s.len() - 1] == 's' {
        match parse_u64_spec(s.take(s.len() - 1)) {
            Some(n) => Some(Duration { secs: n, millis: 0u32 }),
            None => None,
        }
    } else {
        match parse_u64_spec(s) {
            Some(m) => Some(duration_from_millis(m)),
            None => None,
        }
    }
}

/// Parses a duration string; `None` when the numeric portion is absent, not
/// all digits, or too large.
pub fn parse_duration(value: &str) -> (r: Option<Duration>)
    ensures
        r == duration_of(value@),
{
    let n = value.unicode_len();
    if n >= 2 && value.get_char(n - 2) == 'm' && value.get_char(n - 1) == 's' {
        let num = value.substring_char(0, n - 2);
        assert(num@ =~= value@.take(n - 2));
        match parse_u64(num) {
            Some(m) => Some(Duration::from_millis(m)),
            None => None,
        }
    } else if n >= 1 && value.get_char(n - 1) == 's' {
        let num = value.substring_char(0, n - 1);
        assert(num@ =~= value@.take(n - 1));
        match parse_u64(num) {
            Some(sec) => Some(Duration::from_secs(sec)),
            None => None,
        }
    } else {
        match parse_u64(value) {
            Some(m) => Some(Duration::from_millis(m)),
            None => None,
        }
    }
}

/// For every non-negative integer numeral `n`, the strings `n + "s"`,
/// `n + "ms"` and `n` alone parse to `n` seconds, `n` milliseconds and
/// `n` milliseconds respectively.
pub proof fn lemma_duration_parses_units(s: Seq<char>)
    requires
        s.len() > 0,
        all_digits(s),
        dec_val(s) <= u64::MAX,
    ensures
        duration_of(s + seq!['s']) == Some(Duration { secs: dec_val(s) as u64, millis: 0u32 }),
        duration_of(s + seq!['m', 's']) == Some(duration_from_millis(dec_val(s) as u64)),
        duration_of(s) == Some(duration_from_millis(dec_val(s) as u64)),
{
    lemma_dec_val_nonneg(s);
    let t = s + seq!['s'];
    assert(t.len() >= 2);
    assert(t[t.len() - 2] == s[s.len() - 1]);
    assert(is_digit(s[s.len() - 1]));
    assert(t[t.len() - 2] != 'm');
    assert(t[t.len() - 1] == 's');
    assert(t.take(t.len() - 1) =~= s);

    let u = s + seq!['m', 's'];
    assert(u[u.len() - 2] == 'm' && u[u.len() - 1] == 's');
    assert(u.take(u.len() - 2) =~= s);

    assert(is_digit(s[s.len() - 1]));
    assert(s[s.len() - 1] != 's');
    if s.len() >= 2 {
        assert(is_digit(s[s.len() - 2]));
    }
}

/// Duration parsing rejects the empty string and any string that holds a
/// character that could be neither part of the numeral nor of a unit suffix
/// (in particular a minus sign, so negative numbers are rejected).
pub proof fn lemma_duration_rejects(s: Seq<char>)
    ensures
        s.len() == 0 ==> duration_of(s) is None,
        (exists|i: int| 0 <= i < s.len() && !is_digit(s[i]) && s[i] != 'm' && s[i] != 's')
            ==> duration_of(s) is None,
        (exists|i: int| 0 <= i < s.len() && s[i] == '-') ==> duration_of(s) is None,
{
    if s.len() == 0 {
        assert(duration_of(s) is None);
    }
    if exists|i: int| 0 <= i < s.len() && !is_digit(s[i]) && s[i] != 'm' && s[i] != 's' {
        let i = choose|i: int| 0 <= i < s.len() && !is_digit(s[i]) && s[i] != 'm' && s[i] != 's';
        if s.len() >= 2 && s[s.len() - 2] == 'm' && s[s.len() - 1] == 's' {
            assert(i < s.len() - 2);
            assert(s.take(s.len() - 2)[i] == s[i]);
            assert(!all_digits(s.take(s.len() - 2)));
        } else if s.len() >= 1 && s[s.len() - 1] == 's' {
            assert(i < s.len() - 1);
            assert(s.take(s.len() - 1)[i] == s[i]);
            assert(!all_digits(s.take(s.len() - 1)));
        } else {
            assert(!all_digits(s));
        }
    }
    if exists|i: int| 0 <= i < s.len() && s[i] == '-' {
        let i = choose|i: int| 0 <= i < s.len() && s[i] == '-';
        assert(!is_digit(s[i]) && s[i] != 'm' && s[i] != 's');
    }
}

} // verus!
