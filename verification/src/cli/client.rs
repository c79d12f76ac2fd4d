//! The requests the client makes of the daemon: addresses, path segments,
//! status checks and request bodies.

use vstd::prelude::*;
use vstd::utf8::encode_utf8;
use crate::json::{Json, JsonV, jv, json_wf};
use crate::text::{chars_of, trim, trim_chars, string_from_chars, string_from_range, push_char, push_str, push_chars, push_u128, nat_text, to_string, is_ascii_alnum};
use crate::dsl::refs::{entries_jv, lemma_jv_object};
use crate::operator::builtin::merge::{merge_fold, entries_wf, put_entry};

verus! {

/// Bytes left as they are in a path segment: ASCII letters and digits,
/// `-`, `_`, `.`, `~`.
pub open spec fn unreserved(b: u8) -> bool {
    (48 <= b <= 57) || (65 <= b <= 90) || (97 <= b <= 122) || b == 45 || b == 95 || b == 46 || b == 126
}

/// An upper-case hexadecimal digit.
pub open spec fn upper_hex(d: int) -> char {
    if d < 10 {
        (48 + d) as char
    } else {
        (55 + d) as char
    }
}

/// One byte of a path segment: itself, or `%` and two hexadecimal digits.
pub open spec fn escape_byte(b: u8) -> Seq<char> {
    if unreserved(b) {
        seq![b as char]
    } else {
        seq!['%', upper_hex(b as int / 16), upper_hex(b as int % 16)]
    }
}

pub open spec fn escape_bytes(bs: Seq<u8>) -> Seq<char>
    decreases bs.len(),
{
    if bs.len() == 0 {
        Seq::empty()
    } else {
        escape_bytes(bs.drop_last()) + escape_byte(bs.last())
    }
}

fn hex_upper(d: u8) -> (c: char)
    requires
        d < 16,
    ensures
        c == upper_hex(d as int),
{
    if d < 10 {
        (48 + d) as char
    } else {
        (55 + d) as char
    }
}

/// A text escaped for one segment of a URL path: each byte of its UTF-8
/// form outside the unreserved set becomes `%XX`.
pub fn encode_segment(s: &str) -> (r: String)
    ensures
        r@ == escape_bytes(encode_utf8(s@)),
{
    let bytes = s.as_bytes();
    let mut r = String::new();
    let mut i: usize = 0;
    while i < bytes.len()
        invariant
            i <= bytes@.len(),
            bytes@ == encode_utf8(s@),
            r@ == escape_bytes(bytes@.subrange(0, i as int)),
        decreases bytes@.len() - i,
    {
        let b = bytes[i];
        let ghost before = r@;
        if (48 <= b && b <= 57) || (65 <= b && b <= 90) || (97 <= b && b <= 122) || b == 45 || b == 95 || b == 46
            || b == 126 {
            push_char(&mut r, b as char);
        } else {
            push_char(&mut r, '%');
            push_char(&mut r, hex_upper(b / 16));
            push_char(&mut r, hex_upper(b % 16));
        }
        assert(r@ =~= before + escape_byte(b));
        assert(bytes@.subrange(0, i + 1).drop_last() =~= bytes@.subrange(0, i as int));
        i = i + 1;
    }
    assert(bytes@.subrange(0, bytes@.len() as int) =~= bytes@);
    r
}

/// Without its trailing `/`s.
pub open spec fn strip_slashes(s: Seq<char>) -> Seq<char>
    decreases s.len(),
{
    if s.len() > 0 && s.last() == '/' {
        strip_slashes(s.drop_last())
    } else {
        s
    }
}

/// The scheme and host of a daemon address: `https://` or `http://` as
/// written (`http://` when none is), and the rest without trailing `/`s.
pub open spec fn daemon_addr(d: Seq<char>) -> (Seq<char>, Seq<char>) {
    if d.len() >= 8 && d.take(8) == "https://"@ {
        ("https://"@, strip_slashes(d.skip(8)))
    } else if d.len() >= 7 && d.take(7) == "http://"@ {
        ("http://"@, strip_slashes(d.skip(7)))
    } else {
        ("http://"@, strip_slashes(d))
    }
}

/// Whether `cs` begins with `p`.
fn has_prefix(cs: &Vec<char>, p: &str) -> (r: bool)
    ensures
        r == (cs@.len() >= p@.len() && cs@.take(p@.len() as int) == p@),
{
    let pc = chars_of(p);
    if pc.len() > cs.len() {
        return false;
    }
    let mut i: usize = 0;
    while i < pc.len()
        invariant
            i <= pc@.len() <= cs@.len(),
            pc@ == p@,
            forall|j: int| 0 <= j < i ==> cs@[j] == pc@[j],
        decreases pc@.len() - i,
    {
        if cs[i] != pc[i] {
            assert(cs@.take(p@.len() as int)[i as int] != p@[i as int]);
            return false;
        }
        i = i + 1;
    }
    assert(cs@.take(p@.len() as int) =~= p@);
    true
}

/// The end of `cs[from..]` without trailing `/`s.
fn strip_end(cs: &Vec<char>, from: usize) -> (end: usize)
    requires
        from <= cs@.len(),
    ensures
        from <= end <= cs@.len(),
        cs@.subrange(from as int, end as int) == strip_slashes(cs@.skip(from as int)),
{
    let mut end = cs.len();
    assert(cs@.subrange(from as int, end as int) =~= cs@.skip(from as int));
    while end > from && cs[end - 1] == '/'
        invariant
            from <= end <= cs@.len(),
            strip_slashes(cs@.subrange(from as int, end as int)) == strip_slashes(cs@.skip(from as int)),
        decreases end,
    {
        assert(cs@.subrange(from as int, end - 1) =~= cs@.subrange(from as int, end as int).drop_last());
        end = end - 1;
    }
    end
}

/// The scheme and host of a daemon address (see `daemon_addr`).
pub fn parse_daemon_addr(daemon: &str) -> (r: (String, String))
    ensures
        (r.0@, r.1@) == daemon_addr(daemon@),
{
    proof {
        reveal_strlit("https://");
        reveal_strlit("http://");
    }
    let cs = chars_of(daemon);
    let (scheme, from): (&str, usize) = if has_prefix(&cs, "https://") {
        ("https://", 8)
    } else if has_prefix(&cs, "http://") {
        ("http://", 7)
    } else {
        ("http://", 0)
    };
    assert(cs@.skip(0) =~= cs@);
    let end = strip_end(&cs, from);
    (to_string(scheme), string_from_range(&cs, from, end))
}

/// The URL of an API path on the daemon.
pub fn api_url(daemon: &str, path: &str) -> (r: String)
    ensures
        r@ == daemon_addr(daemon@).0 + daemon_addr(daemon@).1 + path@,
{
    let (scheme, host) = parse_daemon_addr(daemon);
    let mut r = String::new();
    push_str(&mut r, scheme.as_str());
    push_str(&mut r, host.as_str());
    push_str(&mut r, path);
    r
}

/// The message for a daemon that cannot be reached.
pub fn daemon_error(url: &str, e: &str) -> (r: String)
    ensures
        r@ == "无法连接 daemon ("@ + url@ + "): "@ + e@,
{
    let mut r = String::new();
    push_str(&mut r, "无法连接 daemon (");
    push_str(&mut r, url);
    push_str(&mut r, "): ");
    push_str(&mut r, e);
    r
}

/// Accepts a 2xx status; otherwise the status and the trimmed body.
pub fn check_http_status(status: u16, body: &str) -> (r: Result<(), String>)
    ensures
        200 <= status < 300 ==> r is Ok,
        !(200 <= status < 300) ==> (r matches Err(m) && m@ == "HTTP "@ + nat_text(status as nat) + ": "@ + trim(
            body@,
        )),
{
    if 200 <= status && status < 300 {
        Ok(())
    } else {
        let cs = chars_of(body);
        let t = trim_chars(&cs);
        let mut m = String::new();
        push_str(&mut m, "HTTP ");
        push_u128(&mut m, status as u128);
        push_str(&mut m, ": ");
        push_chars(&mut m, &t);
        Err(m)
    }
}

/// The body of a run request: `{"inputs": {...}, "pipeline": name}`, the
/// inputs keyed by name (a later value of a name replacing an earlier one).
pub fn run_body(name: &str, inputs: Vec<(String, Json)>) -> (r: Json)
    requires
        forall|i: int| 0 <= i < inputs@.len() ==> json_wf(#[trigger] inputs@[i].1),
    ensures
        jv(r) == JsonV::Object(
            seq![
                ("inputs"@, JsonV::Object(merge_fold(Seq::empty(), entries_jv(inputs@), inputs@.len() as int, false))),
                ("pipeline"@, JsonV::Str(name@)),
            ],
        ),
{
    let ghost rs = entries_jv(inputs@);
    let mut acc: Vec<(String, Json)> = Vec::new();
    let ghost all = inputs@;
    let mut i: usize = 0;
    let n = inputs.len();
    while i < n
        invariant
            i <= n == all.len(),
            rs == entries_jv(all),
            inputs@ == all,
            forall|k: int| 0 <= k < all.len() ==> json_wf(#[trigger] all[k].1),
            entries_wf(acc@),
            entries_jv(acc@) == merge_fold(Seq::empty(), rs, i as int, false),
        decreases n - i,
    {
        let k = inputs[i].0.clone();
        let v = crate::json::json_clone(&inputs[i].1);
        assert(rs[i as int] == (all[i as int].0@, jv(all[i as int].1)));
        put_entry(&mut acc, k, v);
        i = i + 1;
    }
    let inner = Json::Object(acc);
    proof {
        lemma_jv_object(inner);
    }
    let mut es: Vec<(String, Json)> = Vec::new();
    es.push((to_string("inputs"), inner));
    es.push((to_string("pipeline"), Json::Str(to_string(name))));
    let r = Json::Object(es);
    proof {
        lemma_jv_object(r);
        assert(entries_jv(es@) =~= seq![
            ("inputs"@, JsonV::Object(merge_fold(Seq::empty(), rs, n as int, false))),
            ("pipeline"@, JsonV::Str(name@)),
        ]);
    }
    r
}

} // verus!
