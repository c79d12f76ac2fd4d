//! The client's settings: command-line arguments and environment variables
//! merged into one `CliConfig`.

use vstd::prelude::*;
use std::time::Duration;
use crate::text::{chars_of, trim, trim_chars, slice_chars, parse_unsigned, parse_unsigned_chars, debug_quote, push_debug_quoted, push_str, to_string};

verus! {

/// The daemon's address when none is given.
pub const DEFAULT_BIND: &'static str = "127.0.0.1:9928";

/// How results are printed.
#[derive(Clone, Copy, Debug, PartialEq, Eq, Structural)]
pub enum OutputFormat {
    /// For people: pretty JSON, formatted lines.
    Text,
    /// For programs: compact one-line JSON.
    Json,
}

impl OutputFormat {
    pub fn is_json(self) -> (r: bool)
        ensures
            r == (self == OutputFormat::Json),
    {
        match self {
            OutputFormat::Json => true,
            OutputFormat::Text => false,
        }
    }
}

/// A duration's number and the milliseconds one unit of it stands for:
/// `ms`, `s`, `m`, `h`, or seconds when there is no unit.
pub open spec fn duration_parts(t: Seq<char>) -> (Seq<char>, int) {
    let n = t.len();
    if n >= 2 && t[n - 2] == 'm' && t[n - 1] == 's' {
        (t.take(n - 2), 1)
    } else if n >= 1 && t[n - 1] == 's' {
        (t.take(n - 1), 1000)
    } else if n >= 1 && t[n - 1] == 'm' {
        (t.take(n - 1), 60000)
    } else if n >= 1 && t[n - 1] == 'h' {
        (t.take(n - 1), 3600000)
    } else {
        (t, 1000)
    }
}

/// The milliseconds `"30s"`, `"500ms"`, `"5m"`, `"1h"` or a bare number of
/// seconds stand for, or the error: an empty text, a number that is not an
/// unsigned integer, or a duration past `u64::MAX` milliseconds.
pub open spec fn duration_ms(s: Seq<char>) -> Result<int, Seq<char>> {
    let t = trim(s);
    if t.len() == 0 {
        Err("empty duration"@)
    } else {
        let (num, mult) = duration_parts(t);
        match parse_unsigned(trim(num), 0xffff_ffff_ffff_ffff) {
            None => Err("invalid duration "@ + debug_quote(t) + " (expect e.g. 500ms, 30s, 5m, 1h)"@),
            Some(v) => if v * mult > 0xffff_ffff_ffff_ffff {
                Err("duration overflow: "@ + debug_quote(t))
            } else {
                Ok(v * mult)
            },
        }
    }
}

/// The number of milliseconds a duration text stands for (see `duration_ms`).
pub fn parse_duration_ms(s: &str) -> (r: Result<u64, String>)
    ensures
        match duration_ms(s@) {
            Ok(ms) => r matches Ok(x) && x as int == ms,
            Err(e) => r matches Err(m) && m@ == e,
        },
{
    let cs = chars_of(s);
    let t = trim_chars(&cs);
    let n = t.len();
    if n == 0 {
        return Err(to_string("empty duration"));
    }
    let (end, mult): (usize, u64) = if n >= 2 && t[n - 2] == 'm' && t[n - 1] == 's' {
        (n - 2, 1)
    } else if t[n - 1] == 's' {
        (n - 1, 1000)
    } else if t[n - 1] == 'm' {
        (n - 1, 60000)
    } else if t[n - 1] == 'h' {
        (n - 1, 3600000)
    } else {
        (n, 1000)
    };
    let num = slice_chars(&t, 0, end);
    assert(num@ =~= duration_parts(t@).0);
    let tn = trim_chars(&num);
    assert(tn@.subrange(0, tn@.len() as int) =~= tn@);
    match parse_unsigned_chars(&tn, 0, tn.len(), 0xffff_ffff_ffff_ffff) {
        None => {
            let mut m = String::new();
            push_str(&mut m, "invalid duration ");
            push_debug_quoted(&mut m, &t);
            push_str(&mut m, " (expect e.g. 500ms, 30s, 5m, 1h)");
            Err(m)
        },
        Some(v) => match v.checked_mul(mult) {
            Some(ms) => Ok(ms),
            None => {
                let mut m = String::new();
                push_str(&mut m, "duration overflow: ");
                push_debug_quoted(&mut m, &t);
                Err(m)
            },
        },
    }
}

/// The duration `Duration::from_millis` makes of a number of milliseconds.
pub uninterp spec fn from_millis(ms: u64) -> Duration;

/// `Duration::from_millis` (std): the duration of `ms` milliseconds.
#[verifier::external_body]
fn millis(ms: u64) -> (r: Duration)
    ensures
        r == from_millis(ms),
{
    Duration::from_millis(ms)
}

/// The duration a text stands for: a `Duration` of `parse_duration_ms`'s
/// milliseconds, or its error.
pub fn parse_duration(s: &str) -> (r: Result<Duration, String>)
    ensures
        r is Ok <==> duration_ms(s@) is Ok,
        match duration_ms(s@) {
            Ok(ms) => r matches Ok(d) && d == from_millis(ms as u64),
            Err(e) => r matches Err(m) && m@ == e,
        },
{
    match parse_duration_ms(s) {
        Ok(ms) => Ok(millis(ms)),
        Err(e) => Err(e),
    }
}

/// The client's settings.
#[derive(Debug)]
pub struct CliConfig {
    /// The daemon's address (`http://` optional, a trailing `/` removed).
    pub daemon: String,
    pub output: OutputFormat,
    /// The time allowed for an ordinary request.
    pub http_timeout: Duration,
    /// The time allowed to connect.
    pub connect_timeout: Duration,
    /// The time allowed to open a WebSocket (`run --watch`).
    pub ws_timeout: Duration,
    /// The time allowed for a prune (a full scan may be slow).
    pub prune_timeout: Duration,
    /// The time allowed for one fetch of the daemon's log.
    pub log_timeout: Duration,
    /// How often `daemon log -f` polls.
    pub log_poll: Duration,
}

impl CliConfig {
    pub fn is_json(&self) -> (r: bool)
        ensures
            r == (self.output == OutputFormat::Json),
    {
        self.output.is_json()
    }
}


/// The first position of `c` in `s` at or after `i`, if any.
pub open spec fn find_char(s: Seq<char>, c: char, i: int) -> Option<int>
    decreases s.len() - i,
{
    if i < 0 || i >= s.len() {
        None
    } else if s[i] == c {
        Some(i)
    } else {
        find_char(s, c, i + 1)
    }
}

/// What a `KEY=value` argument gives: the text before the first `=` and
/// the text after it; an error when there is no `=` or the key is empty.
pub open spec fn key_val(s: Seq<char>) -> Result<(Seq<char>, Seq<char>), Seq<char>> {
    match find_char(s, '=', 0) {
        None => Err("invalid KEY=value: "@ + s),
        Some(k) => if k == 0 {
            Err("empty key in KEY=value: "@ + s)
        } else {
            Ok((s.take(k), s.skip(k + 1)))
        },
    }
}

/// Reads a `KEY=value` argument (see `key_val`).
pub fn parse_key_val(s: &str) -> (r: Result<(String, String), String>)
    ensures
        match key_val(s@) {
            Ok(p) => r matches Ok(q) && q.0@ == p.0 && q.1@ == p.1,
            Err(e) => r matches Err(m) && m@ == e,
        },
{
    let cs = chars_of(s);
    let mut i: usize = 0;
    while i < cs.len()
        invariant
            i <= cs@.len(),
            cs@ == s@,
            find_char(s@, '=', 0) == find_char(s@, '=', i as int),
        decreases cs@.len() - i,
    {
        if cs[i] == '=' {
            if i == 0 {
                let mut m = to_string("empty key in KEY=value: ");
                push_str(&mut m, s);
                return Err(m);
            }
            let k = crate::text::string_from_range(&cs, 0, i);
            let v = crate::text::string_from_range(&cs, i + 1, cs.len());
            assert(cs@.subrange(0, i as int) =~= s@.take(i as int));
            assert(cs@.subrange(i + 1, cs@.len() as int) =~= s@.skip(i + 1));
            return Ok((k, v));
        }
        i = i + 1;
    }
    let mut m = to_string("invalid KEY=value: ");
    push_str(&mut m, s);
    Err(m)
}

} // verus!
