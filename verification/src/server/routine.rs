//! Why a push into a stream routine is refused.

use vstd::prelude::*;
use vstd::utf8::{encode_utf8, is_char_boundary};
use crate::json::{Json, JsonV, jv, json_clone, to_text, text_of};
use crate::text::{push_str, push_u128, nat_text};
use crate::server::push::buffer_accepts;

verus! {

/// Why a push is refused.
#[derive(Debug, Clone, Copy, PartialEq, Eq, Structural)]
pub enum PushError {
    NotFound,
    NotStream,
    Full { cap: usize, buffered: usize },
}

/// The outcome of pushing `n` items into a stream routine's buffer that
/// holds `prev` of at most `cap`: the new count, or `Full`.
pub fn push_outcome(prev: usize, n: usize, cap: usize) -> (r: Result<usize, PushError>)
    ensures
        prev + n <= cap ==> r == Ok::<usize, PushError>((prev + n) as usize),
        prev + n > cap ==> r == Err::<usize, PushError>(PushError::Full { cap, buffered: prev }),
{
    match buffer_accepts(prev, n, cap) {
        Some(total) => Ok(total),
        None => Err(PushError::Full { cap, buffered: prev }),
    }
}

/// The largest character boundary of `b` at or below `e`.
pub open spec fn boundary_floor(b: Seq<u8>, e: int) -> int
    decreases e,
{
    if e <= 0 || is_char_boundary(b, e) {
        if e <= 0 { 0 } else { e }
    } else {
        boundary_floor(b, e - 1)
    }
}

proof fn lemma_boundary_floor(b: Seq<u8>, e: int)
    requires
        0 <= e,
    ensures
        0 <= boundary_floor(b, e) <= e,
        is_char_boundary(b, boundary_floor(b, e)) || boundary_floor(b, e) == 0,
    decreases e,
{
    if e > 0 && !is_char_boundary(b, e) {
        lemma_boundary_floor(b, e - 1);
    }
}

/// The preview of a value: the value itself when its compact JSON fits in
/// `max_bytes`; otherwise a string of the longest head of that JSON that
/// fits and ends on a character boundary, marked with the total size.
pub open spec fn preview_ok(v: Json, max_bytes: int, r: Json) -> bool {
    let t = text_of(jv(v));
    let b = encode_utf8(t);
    if b.len() <= max_bytes {
        jv(r) == jv(v)
    } else {
        r matches Json::Str(s) && exists|head: Seq<char>| {
            &&& encode_utf8(head) == b.take(boundary_floor(b, max_bytes))
            &&& s@ == head + "…[truncated, "@ + nat_text(b.len()) + " bytes total]"@
        }
    }
}

/// A preview of a value (see `preview_ok`).
pub fn preview_value(v: &Json, max_bytes: usize) -> (r: Json)
    ensures
        preview_ok(*v, max_bytes as int, r),
{
    let t = to_text(v);
    let s = t.as_str();
    let bytes = s.as_bytes();
    let n = bytes.len();
    if n <= max_bytes {
        return json_clone(v);
    }
    let mut end = max_bytes;
    proof {
        vstd::utf8::encode_utf8_valid_utf8(t@);
    }
    while end > 0 && !s.is_char_boundary(end)
        invariant
            end <= max_bytes,
            boundary_floor(encode_utf8(s@), max_bytes as int) == boundary_floor(encode_utf8(s@), end as int),
        decreases end,
    {
        end = end - 1;
    }
    proof {
        lemma_boundary_floor(encode_utf8(s@), max_bytes as int);
        assert(boundary_floor(encode_utf8(s@), end as int) == end as int);
    }
    let (head, _) = s.split_at(end);
    let mut out = String::new();
    push_str(&mut out, head);
    push_str(&mut out, "…[truncated, ");
    push_u128(&mut out, n as u128);
    push_str(&mut out, " bytes total]");
    assert(encode_utf8(head@) == encode_utf8(s@).take(end as int));
    Json::Str(out)
}

} // verus!
