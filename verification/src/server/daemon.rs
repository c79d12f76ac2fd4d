//! Settings the daemon reads off a pipeline.

use vstd::prelude::*;
use crate::dsl::pipeline::PipelineDef;
use crate::text::{chars_of, string_from_range, to_string, push_str};
use crate::operator::builtin::http_client::IpAddress;

verus! {

/// How long a run's result is kept, in seconds: the pipeline's
/// `storage.result_ttl`, at least a minute; an hour when none is given.
pub fn result_ttl_secs(pipeline: &PipelineDef) -> (r: i64)
    ensures
        r == match pipeline.storage {
            Some(s) => match s.result_ttl {
                Some(t) => if t.seconds >= 60 { t.seconds } else { 60 },
                None => 3600,
            },
            None => 3600,
        },
{
    match &pipeline.storage {
        Some(s) => match s.result_ttl {
            Some(t) => if t.seconds >= 60 {
                t.seconds
            } else {
                60
            },
            None => 3600,
        },
        None => 3600,
    }
}


/// The last position of `c` in `s` before `n`, if any.
pub open spec fn rfind_char(s: Seq<char>, c: char, n: int) -> Option<int>
    decreases n,
{
    if n <= 0 {
        None
    } else if s[n - 1] == c {
        Some(n - 1)
    } else {
        rfind_char(s, c, n - 1)
    }
}

/// `s` without its leading `[` characters.
pub open spec fn skip_open(s: Seq<char>) -> Seq<char>
    decreases s.len(),
{
    if s.len() > 0 && s[0] == '[' {
        skip_open(s.skip(1))
    } else {
        s
    }
}

/// `s` without its trailing `]` characters.
pub open spec fn skip_close(s: Seq<char>) -> Seq<char>
    decreases s.len(),
{
    if s.len() > 0 && s.last() == ']' {
        skip_close(s.drop_last())
    } else {
        s
    }
}

/// The host of a bind address: what comes before its last `:`, without
/// surrounding brackets.
pub open spec fn host_of(addr: Seq<char>) -> Seq<char> {
    let h = match rfind_char(addr, ':', addr.len() as int) {
        Some(k) => addr.take(k),
        None => addr,
    };
    skip_close(skip_open(h))
}

pub open spec fn ascii_lower(c: char) -> char {
    if 'A' <= c <= 'Z' {
        ((c as u32) + 32) as char
    } else {
        c
    }
}

/// The host is `localhost`, in any mix of ASCII case.
pub open spec fn is_localhost(h: Seq<char>) -> bool {
    h.len() == 9 && h.map_values(|c: char| ascii_lower(c)) == "localhost"@
}

/// A loopback address: 127.0.0.0/8, or `::1`.
pub open spec fn is_loopback_ip(ip: IpAddress) -> bool {
    match ip {
        IpAddress::V4(a, _, _, _) => a == 127,
        IpAddress::V6(s0, s1, s2, s3, s4, s5, s6, s7) => s0 == 0 && s1 == 0 && s2 == 0 && s3 == 0 && s4 == 0 && s5 == 0
            && s6 == 0 && s7 == 1,
    }
}

proof fn lemma_skip_open(s: Seq<char>, i: int)
    requires
        0 <= i <= s.len(),
        forall|k: int| 0 <= k < i ==> s[k] == '[',
    ensures
        skip_open(s) == skip_open(s.skip(i)),
    decreases i,
{
    if i > 0 {
        assert(s.skip(1).skip(i - 1) =~= s.skip(i));
        lemma_skip_open(s.skip(1), i - 1);
    } else {
        assert(s.skip(0) =~= s);
    }
}

proof fn lemma_skip_close(s: Seq<char>, j: int)
    requires
        0 <= j <= s.len(),
        forall|k: int| j <= k < s.len() ==> s[k] == ']',
    ensures
        skip_close(s) == skip_close(s.take(j)),
    decreases s.len() - j,
{
    if j < s.len() {
        assert(s.drop_last().take(j) =~= s.take(j));
        lemma_skip_close(s.drop_last(), j);
    } else {
        assert(s.take(j) =~= s);
    }
}

/// The host of a bind address (see `host_of`).
pub fn bind_host(addr: &str) -> (r: String)
    ensures
        r@ == host_of(addr@),
{
    let cs = chars_of(addr);
    let n = cs.len();
    let mut e: usize = n;
    while e > 0
        invariant
            e <= n,
            n == cs@.len(),
            cs@ == addr@,
            rfind_char(addr@, ':', n as int) == rfind_char(addr@, ':', e as int),
        ensures
            e <= n,
            rfind_char(addr@, ':', n as int) == rfind_char(addr@, ':', e as int),
            e > 0 ==> cs@[e - 1] == ':',
        decreases e,
    {
        if cs[e - 1] == ':' {
            break;
        }
        e = e - 1;
    }
    let end: usize = if e > 0 {
        e - 1
    } else {
        n
    };
    let ghost h = addr@.take(end as int);
    assert(h == match rfind_char(addr@, ':', addr@.len() as int) {
        Some(k) => addr@.take(k),
        None => addr@,
    }) by {
        if e == 0 {
            assert(addr@.take(n as int) =~= addr@);
        }
    }
    let mut a: usize = 0;
    while a < end && cs[a] == '['
        invariant
            a <= end <= n,
            n == cs@.len(),
            cs@ == addr@,
            h == addr@.take(end as int),
            forall|k: int| 0 <= k < a ==> h[k] == '[',
        decreases end - a,
    {
        a = a + 1;
    }
    proof {
        lemma_skip_open(h, a as int);
    }
    let ghost g = h.skip(a as int);
    let mut b: usize = end;
    while b > a && cs[b - 1] == ']'
        invariant
            a <= b <= end <= n,
            n == cs@.len(),
            cs@ == addr@,
            h == addr@.take(end as int),
            g == h.skip(a as int),
            forall|k: int| (b - a) <= k < g.len() ==> g[k] == ']',
        decreases b - a,
    {
        b = b - 1;
    }
    proof {
        lemma_skip_close(g, (b - a) as int);
        assert(g.take((b - a) as int) =~= cs@.subrange(a as int, b as int));
    }
    string_from_range(&cs, a, b)
}

/// Whether a bind address is a loopback one: its host (see `host_of`) is
/// `localhost` in any case, or `ip` (the host read as an IP address, when
/// it reads as one) is a loopback address.
pub fn is_loopback_bind(addr: &str, ip: Option<IpAddress>) -> (r: bool)
    ensures
        r == (is_localhost(host_of(addr@)) || (ip matches Some(x) && is_loopback_ip(x))),
{
    let h = bind_host(addr);
    let cs = chars_of(h.as_str());
    let want = chars_of("localhost");
    proof {
        reveal_strlit("localhost");
    }
    assert(want@.len() == 9);
    let mut local = cs.len() == 9;
    if local {
        let mut i: usize = 0;
        while i < 9
            invariant
                i <= 9,
                cs@.len() == 9,
                want@.len() == 9,
                want@ == "localhost"@,
                cs@ == host_of(addr@),
                local == forall|k: int| 0 <= k < i ==> ascii_lower(#[trigger] cs@[k]) == want@[k],
            decreases 9 - i,
        {
            let c = cs[i];
            let lc = if 'A' <= c && c <= 'Z' {
                let b: u8 = (c as u32 + 32) as u8;
                b as char
            } else {
                c
            };
            if lc != want[i] {
                local = false;
            }
            i = i + 1;
        }
        proof {
            reveal_strlit("localhost");
            if local {
                assert(cs@.map_values(|c: char| ascii_lower(c)) =~= "localhost"@);
            } else {
                let k = choose|k: int| 0 <= k < 9 && ascii_lower(#[trigger] cs@[k]) != want@[k];
                assert(cs@.map_values(|c: char| ascii_lower(c))[k] != "localhost"@[k]);
            }
        }
    }
    if local {
        return true;
    }
    match ip {
        Some(IpAddress::V4(a, _, _, _)) => a == 127,
        Some(IpAddress::V6(s0, s1, s2, s3, s4, s5, s6, s7)) => s0 == 0 && s1 == 0 && s2 == 0 && s3 == 0 && s4 == 0
            && s5 == 0 && s6 == 0 && s7 == 1,
        None => false,
    }
}

/// Where a health check reaches a daemon bound at `bind`: a bind on every
/// IPv4 address (`0.0.0.0`) is checked on `127.0.0.1`, one on every IPv6
/// address (`[::]`) on `[::1]`, with the same port; any other as it is.
pub open spec fn check_address(bind: Seq<char>) -> Seq<char> {
    if bind.len() >= 7 && bind.take(7) == "0.0.0.0"@ {
        "127.0.0.1"@ + bind.skip(7)
    } else if bind.len() >= 4 && bind.take(4) == "[::]"@ {
        "[::1]"@ + bind.skip(4)
    } else {
        bind
    }
}

/// The URL a starting daemon's health is checked at (see `check_address`).
#[verifier::rlimit(40)]
pub fn health_check_url(bind: &str) -> (r: String)
    ensures
        r@ == "http://"@ + check_address(bind@) + "/system/operators"@,
{
    proof {
        reveal_strlit("0.0.0.0");
        reveal_strlit("[::]");
    }
    let cs = chars_of(bind);
    let n = cs.len();
    let mut r = to_string("http://");
    if n >= 7 && cs[0] == '0' && cs[1] == '.' && cs[2] == '0' && cs[3] == '.' && cs[4] == '0' && cs[5] == '.' && cs[6] == '0' {
        assert(bind@.take(7) =~= "0.0.0.0"@);
        push_str(&mut r, "127.0.0.1");
        let rest = string_from_range(&cs, 7, n);
        push_str(&mut r, rest.as_str());
        assert(rest@ =~= bind@.skip(7));
    } else if n >= 4 && cs[0] == '[' && cs[1] == ':' && cs[2] == ':' && cs[3] == ']' {
        assert(bind@.take(4) =~= "[::]"@);
        assert(!(bind@.len() >= 7 && bind@.take(7) == "0.0.0.0"@)) by {
            if bind@.len() >= 7 && bind@.take(7) == "0.0.0.0"@ {
                assert(bind@[0] == bind@.take(7)[0]);
            }
        }
        push_str(&mut r, "[::1]");
        let rest = string_from_range(&cs, 4, n);
        push_str(&mut r, rest.as_str());
        assert(rest@ =~= bind@.skip(4));
    } else {
        assert(!(bind@.len() >= 7 && bind@.take(7) == "0.0.0.0"@)) by {
            if bind@.len() >= 7 && bind@.take(7) == "0.0.0.0"@ {
                let t = bind@.take(7);
                assert(t[0] == '0' && t[1] == '.' && t[2] == '0' && t[3] == '.' && t[4] == '0' && t[5] == '.' && t[6] == '0');
                assert(cs@[0] == t[0] && cs@[1] == t[1] && cs@[2] == t[2] && cs@[3] == t[3]);
                assert(cs@[4] == t[4] && cs@[5] == t[5] && cs@[6] == t[6]);
            }
        }
        assert(!(bind@.len() >= 4 && bind@.take(4) == "[::]"@)) by {
            if bind@.len() >= 4 && bind@.take(4) == "[::]"@ {
                let t = bind@.take(4);
                assert(t[0] == '[' && t[1] == ':' && t[2] == ':' && t[3] == ']');
                assert(cs@[0] == t[0] && cs@[1] == t[1] && cs@[2] == t[2] && cs@[3] == t[3]);
            }
        }
        push_str(&mut r, bind);
    }
    push_str(&mut r, "/system/operators");
    r
}

/// What a starting daemon's start does after one look at it.
#[derive(Debug, Clone, Copy, PartialEq, Eq, Structural)]
pub enum HealthStep {
    /// The daemon answered the health check: it is up.
    Healthy,
    /// The daemon's process has ended, or its state cannot be read: the
    /// start fails.
    Exited,
    /// Five seconds have passed without an answer: the start fails.
    TimedOut,
    /// Look again after this many milliseconds.
    RetryAfter { wait_ms: u64 },
}

/// The health check after a daemon is spawned: give up after five seconds;
/// else fail at once when its process has ended (the port may answer for
/// another process); else it is up when it answers; else look again after
/// 200 ms.
pub fn health_step(elapsed_ms: u64, exited: bool, answered: bool) -> (r: HealthStep)
    ensures
        r == (if elapsed_ms >= 5000 {
            HealthStep::TimedOut
        } else if exited {
            HealthStep::Exited
        } else if answered {
            HealthStep::Healthy
        } else {
            HealthStep::RetryAfter { wait_ms: 200 }
        }),
{
    if elapsed_ms >= 5000 {
        HealthStep::TimedOut
    } else if exited {
        HealthStep::Exited
    } else if answered {
        HealthStep::Healthy
    } else {
        HealthStep::RetryAfter { wait_ms: 200 }
    }
}

} // verus!
