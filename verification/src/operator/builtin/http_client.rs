//! Limits and address checks for outgoing HTTP requests.

use vstd::prelude::*;
use crate::text::{to_string, chars_of, string_from_range};
use crate::operator::types::OperatorError;

verus! {

/// The largest response body read, in bytes (64 MiB).
pub const MAX_RESPONSE_BYTES: usize = 64 * 1024 * 1024;

/// The most output kept of a command's stdout or stderr, in bytes (10 MiB).
pub const MAX_STDIO_BYTES: usize = 10 * 1024 * 1024;

/// Whether a declared content length is acceptable: `None` when it exceeds
/// the limit.
pub fn check_content_length(content_length: Option<u64>) -> (r: Option<()>)
    ensures
        r is None <==> (content_length matches Some(len) && len as usize > MAX_RESPONSE_BYTES),
{
    match content_length {
        Some(len) => {
            if len as usize > MAX_RESPONSE_BYTES {
                None
            } else {
                Some(())
            }
        },
        None => Some(()),
    }
}

pub open spec fn body_limit_error() -> Seq<char> {
    "response body exceeds 64MB limit"@
}

/// Fails when a body of `len` bytes exceeds the limit.
pub fn check_body_size(len: usize) -> (r: Result<(), OperatorError>)
    ensures
        len > MAX_RESPONSE_BYTES ==> (r matches Err(OperatorError::Runtime(m)) && m@ == body_limit_error()),
        len <= MAX_RESPONSE_BYTES ==> r is Ok,
{
    if len > MAX_RESPONSE_BYTES {
        Err(OperatorError::Runtime(to_string("response body exceeds 64MB limit")))
    } else {
        Ok(())
    }
}

/// Appends a chunk of a response body that is read piece by piece, failing
/// (and appending nothing) once the total would exceed the limit.
pub fn append_chunk(buf: &mut Vec<u8>, chunk: &[u8]) -> (r: Result<(), OperatorError>)
    ensures
        old(buf)@.len() + chunk@.len() > MAX_RESPONSE_BYTES ==> (r matches Err(OperatorError::Runtime(m)) && m@
            == body_limit_error() && final(buf)@ == old(buf)@),
        old(buf)@.len() + chunk@.len() <= MAX_RESPONSE_BYTES ==> r is Ok && final(buf)@ == old(buf)@ + chunk@,
{
    if chunk.len() > MAX_RESPONSE_BYTES || buf.len() > MAX_RESPONSE_BYTES - chunk.len() {
        return Err(OperatorError::Runtime(to_string("response body exceeds 64MB limit")));
    }
    let mut i: usize = 0;
    let ghost start = buf@;
    while i < chunk.len()
        invariant
            i <= chunk@.len(),
            buf@ == start + chunk@.subrange(0, i as int),
        decreases chunk@.len() - i,
    {
        buf.push(chunk[i]);
        assert(chunk@.subrange(0, i + 1) =~= chunk@.subrange(0, i as int).push(chunk@[i as int]));
        i = i + 1;
    }
    assert(chunk@.subrange(0, chunk@.len() as int) =~= chunk@);
    Ok(())
}

/// An IP address: four octets, or eight 16-bit segments.
#[derive(Debug, Clone, Copy, PartialEq, Eq, Structural)]
pub enum IpAddress {
    V4(u8, u8, u8, u8),
    V6(u16, u16, u16, u16, u16, u16, u16, u16),
}

/// An IPv4-mapped IPv6 address (`::ffff:a.b.c.d`) stands for its IPv4
/// address; any other address stands for itself.
pub open spec fn normalized(ip: IpAddress) -> IpAddress {
    match ip {
        IpAddress::V6(0, 0, 0, 0, 0, 0xffff, hi, lo) => IpAddress::V4(
            (hi / 256) as u8,
            (hi % 256) as u8,
            (lo / 256) as u8,
            (lo % 256) as u8,
        ),
        _ => ip,
    }
}

/// The cloud metadata address 169.254.169.254.
pub open spec fn is_metadata(ip: IpAddress) -> bool {
    normalized(ip) == IpAddress::V4(169, 254, 169, 254)
}

/// Private, loopback, link-local, unspecified, shared (100.64.0.0/10) and
/// benchmarking (198.18.0.0/15) IPv4 addresses; loopback, unique local,
/// unicast link-local, multicast and unspecified IPv6 addresses.
pub open spec fn is_private(ip: IpAddress) -> bool {
    match normalized(ip) {
        IpAddress::V4(a, b, c, d) => {
            ||| a == 10
            ||| a == 172 && 16 <= b <= 31
            ||| a == 192 && b == 168
            ||| a == 127
            ||| a == 169 && b == 254
            ||| a == 0 && b == 0 && c == 0 && d == 0
            ||| a == 100 && 64 <= b <= 127
            ||| a == 198 && 18 <= b <= 19
        },
        IpAddress::V6(s0, s1, s2, s3, s4, s5, s6, s7) => {
            let zero_prefix = s0 == 0 && s1 == 0 && s2 == 0 && s3 == 0 && s4 == 0 && s5 == 0 && s6 == 0;
            ||| zero_prefix && s7 == 1
            ||| zero_prefix && s7 == 0
            ||| s0 / 512 == 0x7e
            ||| s0 / 64 == 0x3fa
            ||| s0 / 256 == 0xff
        },
    }
}

/// The IPv4 address an IPv4-mapped IPv6 address stands for.
pub fn normalize(ip: IpAddress) -> (r: IpAddress)
    ensures
        r == normalized(ip),
{
    match ip {
        IpAddress::V6(s0, s1, s2, s3, s4, s5, s6, s7) => {
            if s0 == 0 && s1 == 0 && s2 == 0 && s3 == 0 && s4 == 0 && s5 == 0xffff {
                IpAddress::V4((s6 / 256) as u8, (s6 % 256) as u8, (s7 / 256) as u8, (s7 % 256) as u8)
            } else {
                ip
            }
        },
        _ => ip,
    }
}

/// Whether the address is the cloud metadata address.
pub fn is_metadata_ip(ip: IpAddress) -> (r: bool)
    ensures
        r == is_metadata(ip),
{
    match normalize(ip) {
        IpAddress::V4(a, b, c, d) => a == 169 && b == 254 && c == 169 && d == 254,
        _ => false,
    }
}

/// Whether the address is private or internal (see `is_private`).
pub fn is_private_ip(ip: IpAddress) -> (r: bool)
    ensures
        r == is_private(ip),
{
    match normalize(ip) {
        IpAddress::V4(a, b, c, d) => {
            a == 10 || (a == 172 && 16 <= b && b <= 31) || (a == 192 && b == 168) || a == 127 || (a == 169
                && b == 254) || (a == 0 && b == 0 && c == 0 && d == 0) || (a == 100 && 64 <= b && b <= 127)
                || (a == 198 && 18 <= b && b <= 19)
        },
        IpAddress::V6(s0, s1, s2, s3, s4, s5, s6, s7) => {
            let zero_prefix = s0 == 0 && s1 == 0 && s2 == 0 && s3 == 0 && s4 == 0 && s5 == 0 && s6 == 0;
            (zero_prefix && s7 == 1) || (zero_prefix && s7 == 0) || s0 / 512 == 0x7e || s0 / 64 == 0x3fa || s0 / 256
                == 0xff
        },
    }
}

/// Why a request to an address is refused.
#[derive(Debug, Clone, Copy, PartialEq, Eq, Structural)]
pub enum IpVerdict {
    Allowed,
    /// The cloud metadata address, always refused.
    Metadata,
    /// A private or internal address, refused when private addresses are blocked.
    Private,
}

/// The verdict on one resolved address.
pub fn ip_verdict(ip: IpAddress, block_private: bool) -> (r: IpVerdict)
    ensures
        r == if is_metadata(ip) {
            IpVerdict::Metadata
        } else if block_private && is_private(ip) {
            IpVerdict::Private
        } else {
            IpVerdict::Allowed
        },
{
    if is_metadata_ip(ip) {
        IpVerdict::Metadata
    } else if block_private && is_private_ip(ip) {
        IpVerdict::Private
    } else {
        IpVerdict::Allowed
    }
}

/// The first address refused, in order, if any.
pub fn first_refused(ips: &Vec<IpAddress>, block_private: bool) -> (r: Option<(usize, IpVerdict)>)
    ensures
        match r {
            Some((i, v)) => i < ips@.len() && v != IpVerdict::Allowed && v == (if is_metadata(ips@[i as int]) {
                IpVerdict::Metadata
            } else {
                IpVerdict::Private
            }) && (v == IpVerdict::Private ==> block_private && is_private(ips@[i as int])) && forall|j: int|
                0 <= j < i ==> !is_metadata(#[trigger] ips@[j]) && !(block_private && is_private(ips@[j])),
            None => forall|j: int|
                0 <= j < ips@.len() ==> !is_metadata(#[trigger] ips@[j]) && !(block_private && is_private(ips@[j])),
        },
{
    let mut i: usize = 0;
    while i < ips.len()
        invariant
            i <= ips@.len(),
            forall|j: int| 0 <= j < i ==> !is_metadata(#[trigger] ips@[j]) && !(block_private && is_private(ips@[j])),
        decreases ips@.len() - i,
    {
        let v = ip_verdict(ips[i], block_private);
        if v != IpVerdict::Allowed {
            return Some((i, v));
        }
        i = i + 1;
    }
    None
}

/// What `url` reads in a URL: `None` when `Url::parse` refuses the text,
/// else the parsed URL's host text (`host_str`) and its port, or the
/// scheme's default port (`port_or_known_default`).
pub uninterp spec fn url_parts(text: Seq<char>) -> Option<(Option<Seq<char>>, Option<u16>)>;

/// url's `Url::parse`, then `host_str` and `port_or_known_default` of the
/// parsed URL. The result is named `url_parts` of the text: a function of
/// the text alone, which nothing here states further.
#[verifier::external_body]
fn parse_url_parts(text: &str) -> (r: Option<(Option<String>, Option<u16>)>)
    ensures
        match r {
            None => url_parts(text@) is None,
            Some((h, p)) => url_parts(text@) == Some((
                match h {
                    Some(x) => Some(x@),
                    None => None::<Seq<char>>,
                },
                p,
            )),
        },
{
    match url::Url::parse(text) {
        Ok(u) => Some((u.host_str().map(|h| h.to_string()), u.port_or_known_default())),
        Err(_) => None,
    }
}

/// A square bracket.
pub open spec fn is_bracket(c: char) -> bool {
    c == '[' || c == ']'
}

/// The first position from `i` on that holds no bracket.
pub open spec fn front_brackets(s: Seq<char>, i: int) -> int
    decreases s.len() - i,
{
    if 0 <= i < s.len() && is_bracket(s[i]) {
        front_brackets(s, i + 1)
    } else {
        i
    }
}

/// The end of `s` without the brackets before `j`, down to `a`.
pub open spec fn back_end(s: Seq<char>, a: int, j: int) -> int
    decreases j - a,
{
    if j > a && is_bracket(s[j - 1]) {
        back_end(s, a, j - 1)
    } else {
        j
    }
}

/// `s` without the `[` and `]` at its ends (`trim_matches(['[', ']'])`).
pub open spec fn trim_brackets(s: Seq<char>) -> Seq<char> {
    let a = front_brackets(s, 0);
    s.subrange(a, back_end(s, a, s.len() as int))
}

proof fn lemma_front_brackets(s: Seq<char>, i: int)
    requires
        0 <= i <= s.len(),
    ensures
        i <= front_brackets(s, i) <= s.len(),
    decreases s.len() - i,
{
    if i < s.len() && is_bracket(s[i]) {
        lemma_front_brackets(s, i + 1);
    }
}

/// The host and port of a URL: its host without surrounding brackets (an
/// IPv6 address is written `[::1]`), and its port or the scheme's default;
/// `None` when the URL does not parse, or has no host or no port.
pub open spec fn split_url_spec(text: Seq<char>) -> Option<(Seq<char>, u16)> {
    match url_parts(text) {
        Some((Some(h), Some(p))) => Some((trim_brackets(h), p)),
        _ => None,
    }
}

/// Splits a URL into the host and port a request goes to (see
/// `split_url_spec`).
pub fn split_url(url_str: &str) -> (r: Option<(String, u16)>)
    ensures
        match r {
            Some((h, p)) => split_url_spec(url_str@) == Some((h@, p)),
            None => split_url_spec(url_str@) is None,
        },
{
    let (host, port) = match parse_url_parts(url_str) {
        Some((Some(h), Some(p))) => (h, p),
        _ => {
            return None;
        },
    };
    let cs = chars_of(host.as_str());
    let n = cs.len();
    let ghost hs = host@;
    let mut a: usize = 0;
    while a < n && (cs[a] == '[' || cs[a] == ']')
        invariant
            cs@ == hs,
            n == hs.len(),
            a <= n,
            front_brackets(hs, 0) == front_brackets(hs, a as int),
        decreases n - a,
    {
        a = a + 1;
    }
    let mut b: usize = n;
    proof {
        lemma_front_brackets(hs, 0);
    }
    while b > a && (cs[b - 1] == '[' || cs[b - 1] == ']')
        invariant
            cs@ == hs,
            n == hs.len(),
            a <= b <= n,
            a == front_brackets(hs, 0),
            back_end(hs, a as int, n as int) == back_end(hs, a as int, b as int),
        decreases b - a,
    {
        b = b - 1;
    }
    let h = string_from_range(&cs, a, b);
    Some((h, port))
}

} // verus!
