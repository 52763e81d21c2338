use vstd::prelude::*;
use vstd::string::*;
use crate::common::text::{
    CharSet, all_digits, chars_of, dec, dec_padded, digits_value, is_ascii_whitespace,
    is_ascii_digit, is_ascii_ws, is_digit, lower, parse_unsigned_exec, push_char, push_dec,
    push_dec_padded, to_lower, trim, trim_ws, eq_str, all_ascii_digits, digits_upto,
};

verus! {

/// A point in time: whole seconds and nanoseconds.
#[derive(Debug, Clone, Copy, PartialEq, Eq, Structural)]
pub struct Timestamp {
    pub seconds: i64,
    pub nanos: u32,
}

/// The decimal text of a signed integer.
pub open spec fn dec_signed(x: int) -> Seq<char> {
    if x < 0 {
        "-"@ + dec((-x) as nat)
    } else {
        dec(x as nat)
    }
}

impl Timestamp {
    /// A timestamp with nanoseconds carried into seconds; the seconds must not overflow.
    pub fn new(seconds: i64, nanos: u32) -> (r: Self)
        requires
            seconds + nanos / 1_000_000_000 <= i64::MAX,
        ensures
            r.seconds == seconds + nanos / 1_000_000_000,
            r.nanos == nanos % 1_000_000_000,
            r.nanos < 1_000_000_000,
            r.seconds * 1_000_000_000 + r.nanos == seconds * 1_000_000_000 + nanos,
    {
        let extra = nanos / 1_000_000_000;
        let n = nanos % 1_000_000_000;
        Timestamp { seconds: seconds + extra as i64, nanos: n }
    }

    /// The timestamp of a capture record: the fraction is in nanoseconds or in
    /// microseconds (multiplied up, saturating at `u32::MAX`).
    pub open spec fn spec_from_pcap(seconds: u32, micros_or_nanos: u32, nanos_resolution: bool) -> Self {
        let n: nat = if nanos_resolution {
            micros_or_nanos as nat
        } else if micros_or_nanos as nat * 1000 > u32::MAX {
            u32::MAX as nat
        } else {
            micros_or_nanos as nat * 1000
        };
        Timestamp { seconds: (seconds + n / 1_000_000_000) as i64, nanos: (n % 1_000_000_000) as u32 }
    }

    /// A timestamp from a capture record: the fraction is in nanoseconds or in
    /// microseconds (multiplied up, saturating).
    pub fn from_pcap(seconds: u32, micros_or_nanos: u32, nanos_resolution: bool) -> (r: Self)
        ensures
            r == Self::spec_from_pcap(seconds, micros_or_nanos, nanos_resolution),
    {
        if nanos_resolution {
            Self::new(seconds as i64, micros_or_nanos)
        } else {
            let n = match micros_or_nanos.checked_mul(1000) {
                Some(v) => v,
                None => u32::MAX,
            };
            Self::new(seconds as i64, n)
        }
    }

    /// `seconds.nnnnnnnnn`, the nanoseconds padded to nine digits.
    pub fn render_compact(&self) -> (r: String)
        ensures
            r@ == dec_signed(self.seconds as int) + "."@ + dec_padded(self.nanos as nat, 9),
    {
        let mut s = String::new();
        if self.seconds < 0 {
            s.append("-");
            let mag: u64 = ((-(self.seconds + 1)) as u64) + 1;
            push_dec(&mut s, mag);
        } else {
            push_dec(&mut s, self.seconds as u64);
        }
        s.append(".");
        push_dec_padded(&mut s, self.nanos as u64, 9);
        s
    }
}

/// The state after scanning duration text: digits so far and the (lower-cased) suffix, or
/// `None` once a digit followed the suffix.
pub open spec fn duration_scan(s: Seq<char>) -> Option<(Seq<char>, Seq<char>)>
    decreases s.len(),
{
    if s.len() == 0 {
        Some((Seq::empty(), Seq::empty()))
    } else {
        let c = s.last();
        match duration_scan(s.drop_last()) {
            None => None,
            Some((d, suf)) => if is_digit(c) {
                if suf.len() > 0 {
                    None
                } else {
                    Some((d.push(c), suf))
                }
            } else if !is_ascii_ws(c) {
                Some((d, suf.push(lower(c))))
            } else {
                Some((d, suf))
            },
        }
    }
}

/// Seconds per unit for a suffix, if it names a unit.
pub open spec fn duration_unit(suffix: Seq<char>) -> Option<nat> {
    if suffix == ""@ || suffix == "s"@ || suffix == "sec"@ || suffix == "secs"@ {
        Some(1)
    } else if suffix == "m"@ || suffix == "min"@ || suffix == "mins"@ {
        Some(60)
    } else if suffix == "h"@ || suffix == "hr"@ || suffix == "hrs"@ {
        Some(3600)
    } else if suffix == "d"@ || suffix == "day"@ || suffix == "days"@ {
        Some(86400)
    } else {
        None
    }
}

/// What `parse_duration_seconds` gives: digits then a unit suffix (case and ASCII spaces
/// ignored), the total in seconds if it fits in `u64`.
pub open spec fn spec_parse_duration(input: Seq<char>) -> Option<nat> {
    match duration_scan(trim(input)) {
        None => None,
        Some((d, suf)) => if d.len() == 0 || digits_value(d) > u64::MAX {
            None
        } else {
            match duration_unit(suf) {
                None => None,
                Some(k) => if digits_value(d) * k > u64::MAX {
                    None
                } else {
                    Some(digits_value(d) * k)
                },
            }
        },
    }
}

fn duration_unit_exec(suffix: &[char]) -> (r: Option<u64>)
    ensures
        match duration_unit(suffix@) {
            Some(k) => r == Some(k as u64),
            None => r is None,
        },
{
    if eq_str(suffix, "") || eq_str(suffix, "s") || eq_str(suffix, "sec") || eq_str(suffix, "secs") {
        Some(1)
    } else if eq_str(suffix, "m") || eq_str(suffix, "min") || eq_str(suffix, "mins") {
        Some(60)
    } else if eq_str(suffix, "h") || eq_str(suffix, "hr") || eq_str(suffix, "hrs") {
        Some(3600)
    } else if eq_str(suffix, "d") || eq_str(suffix, "day") || eq_str(suffix, "days") {
        Some(86400)
    } else {
        None
    }
}

/// Parses a duration such as `90`, `5m`, `2 hrs` or `1d` into seconds.
pub fn parse_duration_seconds(input: &str) -> (r: Option<u64>)
    ensures
        match spec_parse_duration(input@) {
            Some(v) => r == Some(v as u64),
            None => r is None,
        },
{
    let all = chars_of(input);
    let t = trim_ws(all.as_slice());
    let mut digits: Vec<char> = Vec::new();
    let mut suffix: Vec<char> = Vec::new();
    let mut i: usize = 0;
    while i < t.len()
        invariant
            i <= t@.len(),
            t@ == trim(input@),
            duration_scan(t@.take(i as int)) == Some((digits@, suffix@)),
        decreases t@.len() - i,
    {
        let ch = t[i];
        assert(t@.take(i + 1).drop_last() =~= t@.take(i as int));
        if is_ascii_digit(ch) {
            if suffix.len() > 0 {
                assert(t@.take(i + 1).last() == ch);
                assert(duration_scan(t@.take(i + 1)) is None);
                proof {
                    lemma_scan_stays_none(t@, i as int + 1);
                }
                return None;
            }
            digits.push(ch);
        } else if !is_ascii_whitespace(ch) {
            suffix.push(to_lower(ch));
        }
        i = i + 1;
    }
    assert(t@.take(t@.len() as int) =~= t@);
    if digits.len() == 0 {
        return None;
    }
    assert(all_digits(digits@)) by {
        lemma_scan_digits(t@);
    }
    let value = match digits_upto(digits.as_slice(), u64::MAX) {
        Some(v) => v,
        None => {
            return None;
        },
    };
    match duration_unit_exec(suffix.as_slice()) {
        None => None,
        Some(k) => value.checked_mul(k),
    }
}

proof fn lemma_scan_stays_none(s: Seq<char>, i: int)
    requires
        0 <= i <= s.len(),
        duration_scan(s.take(i)) is None,
    ensures
        duration_scan(s) is None,
    decreases s.len() - i,
{
    if i < s.len() {
        assert(s.take(i + 1).drop_last() =~= s.take(i));
        lemma_scan_stays_none(s, i + 1);
    } else {
        assert(s.take(i) =~= s);
    }
}

proof fn lemma_scan_digits(s: Seq<char>)
    ensures
        duration_scan(s) matches Some((d, suf)) ==> all_digits(d),
    decreases s.len(),
{
    if s.len() > 0 {
        lemma_scan_digits(s.drop_last());
    }
}

} // verus!
