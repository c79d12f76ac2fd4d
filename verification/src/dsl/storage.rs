//! Storage lifetimes: a TTL written as a count and a unit (`30s`, `5m`,
//! `2h`, `7d`), held as a number of seconds.

use vstd::prelude::*;
use crate::text::{chars_of, parse_unsigned, parse_unsigned_chars, int_text, nat_text, push_i128, lemma_nat_text, is_digit};

verus! {

/// A time to live, in seconds (never negative).
#[derive(Debug, Clone, Copy, PartialEq, Eq, Structural)]
pub struct Ttl {
    pub seconds: i64,
}

/// Snapshot and result lifetimes.
#[derive(Debug, Clone, Copy, PartialEq, Eq, Structural)]
pub struct StorageDef {
    pub snapshot_ttl: Option<Ttl>,
    pub result_ttl: Option<Ttl>,
}

/// Why a TTL text was refused.
#[derive(Debug, Clone, Copy, PartialEq, Eq, Structural)]
pub enum TtlError {
    /// Fewer than two characters.
    TooShort,
    /// The count is not a decimal `i64`.
    InvalidNumber,
    /// The count is negative.
    Negative,
    /// The unit is not one of `s`, `m`, `h`, `d`.
    InvalidUnit,
    /// The duration is out of the range of a time delta.
    Overflow,
}

/// The largest number of whole seconds a time delta can hold
/// (`i64::MAX` milliseconds).
pub open spec fn max_delta_seconds() -> int {
    9_223_372_036_854_775
}

/// `i64::from_str`: an optional sign, then at least one decimal digit, in range.
pub open spec fn parse_i64(s: Seq<char>) -> Option<int> {
    if s.len() > 0 && s[0] == '-' {
        let rest = s.drop_first();
        if rest.len() > 0 && rest[0] == '+' {
            None
        } else {
            match parse_unsigned(rest, 0x8000_0000_0000_0000) {
                Some(v) => Some(-v),
                None => None,
            }
        }
    } else {
        parse_unsigned(s, 0x7fff_ffff_ffff_ffff)
    }
}

/// Seconds per unit character.
pub open spec fn unit_seconds(u: char) -> int {
    if u == 's' {
        1
    } else if u == 'm' {
        60
    } else if u == 'h' {
        3600
    } else if u == 'd' {
        86400
    } else {
        0
    }
}

/// The TTL a text denotes, or why it is refused.
pub open spec fn ttl_spec(s: Seq<char>) -> Result<int, TtlError> {
    if s.len() < 2 {
        Err(TtlError::TooShort)
    } else {
        match parse_i64(s.drop_last()) {
            None => Err(TtlError::InvalidNumber),
            Some(n) => if n < 0 {
                Err(TtlError::Negative)
            } else if unit_seconds(s.last()) == 0 {
                Err(TtlError::InvalidUnit)
            } else if n * unit_seconds(s.last()) > max_delta_seconds() {
                Err(TtlError::Overflow)
            } else {
                Ok(n * unit_seconds(s.last()))
            },
        }
    }
}

/// `TimeDelta::try_seconds(n)`, as whole seconds.
#[verifier::external_body]
fn delta_seconds(n: i64) -> (r: Option<i64>)
    ensures
        r == (if -max_delta_seconds() <= n <= max_delta_seconds() {
            Some(n)
        } else {
            None::<i64>
        }),
{
    chrono::TimeDelta::try_seconds(n).map(|d| d.num_seconds())
}

/// `TimeDelta::try_minutes(n)`, as whole seconds.
#[verifier::external_body]
fn delta_minutes(n: i64) -> (r: Option<i64>)
    ensures
        r == (if -max_delta_seconds() <= n * 60 <= max_delta_seconds() {
            Some((n * 60) as i64)
        } else {
            None::<i64>
        }),
{
    chrono::TimeDelta::try_minutes(n).map(|d| d.num_seconds())
}

/// `TimeDelta::try_hours(n)`, as whole seconds.
#[verifier::external_body]
fn delta_hours(n: i64) -> (r: Option<i64>)
    ensures
        r == (if -max_delta_seconds() <= n * 3600 <= max_delta_seconds() {
            Some((n * 3600) as i64)
        } else {
            None::<i64>
        }),
{
    chrono::TimeDelta::try_hours(n).map(|d| d.num_seconds())
}

/// `TimeDelta::try_days(n)`, as whole seconds.
#[verifier::external_body]
fn delta_days(n: i64) -> (r: Option<i64>)
    ensures
        r == (if -max_delta_seconds() <= n * 86400 <= max_delta_seconds() {
            Some((n * 86400) as i64)
        } else {
            None::<i64>
        }),
{
    chrono::TimeDelta::try_days(n).map(|d| d.num_seconds())
}

/// Parses an `i64` written in decimal.
pub fn parse_i64_chars(cs: &Vec<char>, from: usize, to: usize) -> (r: Option<i64>)
    requires
        from <= to <= cs@.len(),
    ensures
        match r {
            Some(v) => parse_i64(cs@.subrange(from as int, to as int)) == Some(v as int),
            None => parse_i64(cs@.subrange(from as int, to as int)) is None,
        },
{
    let ghost s = cs@.subrange(from as int, to as int);
    if from < to && cs[from] == '-' {
        assert(s.drop_first() =~= cs@.subrange(from + 1, to as int));
        if from + 1 < to && cs[from + 1] == '+' {
            return None;
        }
        match parse_unsigned_chars(cs, from + 1, to, 0x8000_0000_0000_0000) {
            Some(v) => {
                if v == 0x8000_0000_0000_0000 {
                    Some(i64::MIN)
                } else {
                    Some(0 - (v as i64))
                }
            },
            None => None,
        }
    } else {
        match parse_unsigned_chars(cs, from, to, 0x7fff_ffff_ffff_ffff) {
            Some(v) => Some(v as i64),
            None => None,
        }
    }
}

impl Ttl {
    /// Reads a TTL such as `30s`, `5m`, `2h` or `7d`.
    pub fn parse(s: &str) -> (r: Result<Ttl, TtlError>)
        ensures
            match ttl_spec(s@) {
                Ok(v) => r == Ok::<Ttl, TtlError>(Ttl { seconds: v as i64 }),
                Err(e) => r == Err::<Ttl, TtlError>(e),
            },
    {
        let cs = chars_of(s);
        let n = cs.len();
        if n < 2 {
            return Err(TtlError::TooShort);
        }
        proof {
            assert(s@.drop_last() =~= cs@.subrange(0, n - 1));
        }
        let num = match parse_i64_chars(&cs, 0, n - 1) {
            Some(v) => v,
            None => {
                return Err(TtlError::InvalidNumber);
            },
        };
        if num < 0 {
            return Err(TtlError::Negative);
        }
        let unit = cs[n - 1];
        let delta = if unit == 's' {
            delta_seconds(num)
        } else if unit == 'm' {
            delta_minutes(num)
        } else if unit == 'h' {
            delta_hours(num)
        } else if unit == 'd' {
            delta_days(num)
        } else {
            return Err(TtlError::InvalidUnit);
        };
        match delta {
            Some(secs) => Ok(Ttl { seconds: secs }),
            None => Err(TtlError::Overflow),
        }
    }

    /// The TTL written with the largest unit that divides it exactly.
    pub fn to_text(&self) -> (r: String)
        requires
            self.seconds >= 0,
        ensures
            r@ == ttl_text(self.seconds as int),
    {
        let s = self.seconds;
        let mut out = String::new();
        if s % 86400 == 0 {
            push_i128(&mut out, (s / 86400) as i128);
            crate::text::push_char(&mut out, 'd');
        } else if s % 3600 == 0 {
            push_i128(&mut out, (s / 3600) as i128);
            crate::text::push_char(&mut out, 'h');
        } else if s % 60 == 0 {
            push_i128(&mut out, (s / 60) as i128);
            crate::text::push_char(&mut out, 'm');
        } else {
            push_i128(&mut out, s as i128);
            crate::text::push_char(&mut out, 's');
        }
        out
    }
}

/// The text of a TTL: days, hours, minutes or seconds, whichever is the
/// largest unit that divides it.
pub open spec fn ttl_text(s: int) -> Seq<char> {
    if s % 86400 == 0 {
        int_text(s / 86400) + seq!['d']
    } else if s % 3600 == 0 {
        int_text(s / 3600) + seq!['h']
    } else if s % 60 == 0 {
        int_text(s / 60) + seq!['m']
    } else {
        int_text(s) + seq!['s']
    }
}

/// Writing a TTL and reading it back gives the same TTL.
pub proof fn lemma_ttl_round_trip(s: int)
    requires
        0 <= s <= max_delta_seconds(),
    ensures
        ttl_spec(ttl_text(s)) == Ok::<int, TtlError>(s),
{
    let (n, u) = if s % 86400 == 0 {
        (s / 86400, 'd')
    } else if s % 3600 == 0 {
        (s / 3600, 'h')
    } else if s % 60 == 0 {
        (s / 60, 'm')
    } else {
        (s, 's')
    };
    assert(n >= 0 && n <= s);
    lemma_nat_text(n as nat);
    let t = ttl_text(s);
    assert(t == nat_text(n as nat) + seq![u]);
    assert(t.drop_last() =~= nat_text(n as nat));
    assert(t.last() == u);
    let d = nat_text(n as nat);
    assert(d[0] != '-' && d[0] != '+') by {
        assert(is_digit(d[0]));
    }
    assert(parse_unsigned(d, 0x7fff_ffff_ffff_ffff) == Some(n));
    assert(n * unit_seconds(u) == s);
}

} // verus!
