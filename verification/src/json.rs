//! JSON values as the pipeline engine reads and writes them.
//!
//! A number is an integer or a float. A float is held exactly, as
//! `mant * 2^exp`, together with the text by which JSON writes it.
//! An object holds its entries in increasing order of key, each key once
//! (the order of a JSON map).

use vstd::prelude::*;
use crate::number::{num_order, num_wf, compare_numbers, lemma_num_order_flip, lemma_num_order_trans, int_order};
use crate::text::{parse_unsigned, parse_unsigned_chars, split, split_chars, order_chars, lemma_str_order_flip, lemma_str_order_trans, lemma_str_order_equal, str_order, Order, int_text, hex_char, push_char, push_str, push_i128, hex_digit, chars_of};

verus! {

/// A finite float, held exactly: its value is `mant * 2^exp`; `text` is the
/// way JSON writes it (e.g. `2.5`).
#[derive(Debug, Clone, PartialEq)]
pub struct FloatNum {
    pub mant: i64,
    pub exp: i32,
    pub text: String,
}

/// A JSON number: an integer in the range of `i64` or `u64`, or a float.
#[derive(Debug, Clone, PartialEq)]
pub enum JsonNumber {
    Int(i128),
    Float(FloatNum),
}

/// A JSON value.
#[derive(Debug, PartialEq)]
pub enum Json {
    Null,
    Bool(bool),
    Number(JsonNumber),
    Str(String),
    Array(Vec<Json>),
    Object(Vec<(String, Json)>),
}

pub open spec fn int_in_range(n: int) -> bool {
    -0x8000_0000_0000_0000 <= n <= 0xffff_ffff_ffff_ffff
}

/// The keys of an object's entries.
pub open spec fn keys_of(es: Seq<(String, Json)>) -> Seq<Seq<char>> {
    es.map_values(|e: (String, Json)| e.0@)
}

/// Keys in strictly increasing order.
pub open spec fn keys_sorted(es: Seq<(String, Json)>) -> bool {
    forall|i: int, j: int|
        0 <= i < j < es.len() ==> str_order(#[trigger] es[i].0@, #[trigger] es[j].0@) == Order::Less
}

/// Well-formed: integers in range, object keys sorted and distinct, throughout.
pub open spec fn json_wf(j: Json) -> bool
    decreases j,
{
    match j {
        Json::Number(JsonNumber::Int(n)) => int_in_range(n as int),
        Json::Array(v) => forall|i: int| 0 <= i < v@.len() ==> json_wf(#[trigger] v@[i]),
        Json::Object(es) => keys_sorted(es@) && forall|i: int|
            0 <= i < es@.len() ==> json_wf(#[trigger] es@[i].1),
        _ => true,
    }
}

/// The mathematical value of a JSON value: strings as character sequences,
/// arrays and objects as sequences.
pub enum JsonV {
    Null,
    Bool(bool),
    Int(int),
    Float(int, int, Seq<char>),
    Str(Seq<char>),
    Array(Seq<JsonV>),
    Object(Seq<(Seq<char>, JsonV)>),
}

pub open spec fn jv(j: Json) -> JsonV
    decreases j,
{
    match j {
        Json::Null => JsonV::Null,
        Json::Bool(b) => JsonV::Bool(b),
        Json::Number(JsonNumber::Int(n)) => JsonV::Int(n as int),
        Json::Number(JsonNumber::Float(f)) => JsonV::Float(f.mant as int, f.exp as int, f.text@),
        Json::Str(s) => JsonV::Str(s@),
        Json::Array(v) => JsonV::Array(
            Seq::new(
                v@.len(),
                |i: int|
                    {
                        if 0 <= i < v@.len() {
                            jv(v@[i])
                        } else {
                            JsonV::Null
                        }
                    },
            ),
        ),
        Json::Object(es) => JsonV::Object(
            Seq::new(
                es@.len(),
                |i: int|
                    {
                        if 0 <= i < es@.len() {
                            (es@[i].0@, jv(es@[i].1))
                        } else {
                            (Seq::empty(), JsonV::Null)
                        }
                    },
            ),
        ),
    }
}

/// A copy of `j`.
#[verifier::loop_isolation(false)]
pub fn json_clone(j: &Json) -> (r: Json)
    ensures
        jv(r) == jv(*j),
        json_wf(*j) ==> json_wf(r),
    decreases j,
{
    match j {
        Json::Null => Json::Null,
        Json::Bool(b) => Json::Bool(*b),
        Json::Number(JsonNumber::Int(n)) => Json::Number(JsonNumber::Int(*n)),
        Json::Number(JsonNumber::Float(f)) => Json::Number(
            JsonNumber::Float(FloatNum { mant: f.mant, exp: f.exp, text: f.text.clone() }),
        ),
        Json::Str(s) => Json::Str(s.clone()),
        Json::Array(v) => {
            let mut r: Vec<Json> = Vec::new();
            let mut i: usize = 0;
            while i < v.len()
                invariant
                    i <= v@.len(),
                    r@.len() == i,
                    forall|k: int| 0 <= k < i ==> jv(#[trigger] r@[k]) == jv(v@[k]),
                    forall|k: int| 0 <= k < i ==> json_wf(v@[k]) ==> json_wf(#[trigger] r@[k]),
                decreases v@.len() - i,
            {
                proof {
                    assert(decreases_to!(v => v[i as int]));
                }
                let e = json_clone(&v[i]);
                r.push(e);
                i = i + 1;
            }
            let res = Json::Array(r);
            assert(jv(res) == jv(*j)) by {
                if let JsonV::Array(a) = jv(res) {
                    if let JsonV::Array(b) = jv(*j) {
                        assert(a =~= b);
                    }
                }
            }
            res
        },
        Json::Object(es) => {
            let mut r: Vec<(String, Json)> = Vec::new();
            let mut i: usize = 0;
            while i < es.len()
                invariant
                    i <= es@.len(),
                    r@.len() == i,
                    forall|k: int|
                        0 <= k < i ==> (#[trigger] r@[k]).0@ == es@[k].0@ && jv(r@[k].1) == jv(
                            es@[k].1,
                        ),
                    forall|k: int| 0 <= k < i ==> json_wf(es@[k].1) ==> json_wf((#[trigger] r@[k]).1),
                decreases es@.len() - i,
            {
                proof {
                    assert(decreases_to!(es => es[i as int]));
                    assert(decreases_to!(es[i as int] => es[i as int].1));
                }
                let k = es[i].0.clone();
                let e = json_clone(&es[i].1);
                r.push((k, e));
                i = i + 1;
            }
            let res = Json::Object(r);
            assert(json_wf(*j) ==> json_wf(res)) by {
                if json_wf(*j) {
                    assert forall|a: int, b: int| 0 <= a < b < r@.len() implies str_order(#[trigger] r@[a].0@, #[trigger] r@[b].0@) == Order::Less by {
                        assert(r@[a].0@ == es@[a].0@);
                        assert(r@[b].0@ == es@[b].0@);
                    }
                }
            }
            assert(jv(res) == jv(*j)) by {
                if let JsonV::Object(a) = jv(res) {
                    if let JsonV::Object(b) = jv(*j) {
                        assert(a =~= b);
                    }
                }
            }
            res
        },
    }
}

impl Clone for Json {
    fn clone(&self) -> (r: Self)
        ensures
            jv(r) == jv(*self),
    {
        json_clone(self)
    }
}


/// serde_json's escape of one character inside a string literal.
pub open spec fn escape_json_char(c: char) -> Seq<char> {
    let u = c as u32;
    if c == '"' {
        seq!['\\', '"']
    } else if c == '\\' {
        seq!['\\', '\\']
    } else if u == 8 {
        seq!['\\', 'b']
    } else if u == 9 {
        seq!['\\', 't']
    } else if u == 10 {
        seq!['\\', 'n']
    } else if u == 12 {
        seq!['\\', 'f']
    } else if u == 13 {
        seq!['\\', 'r']
    } else if u < 0x20 {
        seq!['\\', 'u', '0', '0', hex_char((u / 16) as int), hex_char((u % 16) as int)]
    } else {
        seq![c]
    }
}

pub open spec fn escape_json(s: Seq<char>) -> Seq<char>
    decreases s.len(),
{
    if s.len() == 0 {
        Seq::empty()
    } else {
        escape_json(s.drop_last()) + escape_json_char(s.last())
    }
}

/// A JSON string literal.
pub open spec fn quote_json(s: Seq<char>) -> Seq<char> {
    seq!['"'] + escape_json(s) + seq!['"']
}

/// The compact text of a JSON value, as `serde_json::to_string` writes it.
pub open spec fn text_of(v: JsonV) -> Seq<char>
    decreases v,
{
    match v {
        JsonV::Null => "null"@,
        JsonV::Bool(b) => if b { "true"@ } else { "false"@ },
        JsonV::Int(n) => int_text(n),
        JsonV::Float(_, _, t) => t,
        JsonV::Str(s) => quote_json(s),
        JsonV::Array(items) => seq!['['] + items_text(items) + seq![']'],
        JsonV::Object(es) => seq!['{'] + entries_text(es) + seq!['}'],
    }
}

pub open spec fn items_text(items: Seq<JsonV>) -> Seq<char>
    decreases items,
{
    if items.len() == 0 {
        Seq::empty()
    } else if items.len() == 1 {
        text_of(items[0])
    } else {
        items_text(items.drop_last()) + seq![','] + text_of(items[items.len() - 1])
    }
}

pub open spec fn entries_text(es: Seq<(Seq<char>, JsonV)>) -> Seq<char>
    decreases es,
{
    if es.len() == 0 {
        Seq::empty()
    } else if es.len() == 1 {
        quote_json(es[0].0) + seq![':'] + text_of(es[0].1)
    } else {
        entries_text(es.drop_last()) + seq![','] + quote_json(es[es.len() - 1].0) + seq![':']
            + text_of(es[es.len() - 1].1)
    }
}


/// Appends `quote_json(s@)` to `out`.
pub fn push_quoted_json(out: &mut String, s: &str)
    ensures
        final(out)@ == old(out)@ + quote_json(s@),
{
    let cs = chars_of(s);
    push_char(out, '"');
    let mut i: usize = 0;
    while i < cs.len()
        invariant
            i <= cs@.len(),
            cs@ == s@,
            out@ == old(out)@ + seq!['"'] + escape_json(cs@.subrange(0, i as int)),
        decreases cs@.len() - i,
    {
        let c = cs[i];
        let ghost before = out@;
        let u = c as u32;
        if c == '"' {
            push_char(out, '\\');
            push_char(out, '"');
        } else if c == '\\' {
            push_char(out, '\\');
            push_char(out, '\\');
        } else if u == 8 {
            push_char(out, '\\');
            push_char(out, 'b');
        } else if u == 9 {
            push_char(out, '\\');
            push_char(out, 't');
        } else if u == 10 {
            push_char(out, '\\');
            push_char(out, 'n');
        } else if u == 12 {
            push_char(out, '\\');
            push_char(out, 'f');
        } else if u == 13 {
            push_char(out, '\\');
            push_char(out, 'r');
        } else if u < 0x20 {
            push_char(out, '\\');
            push_char(out, 'u');
            push_char(out, '0');
            push_char(out, '0');
            push_char(out, hex_digit(u / 16));
            push_char(out, hex_digit(u % 16));
        } else {
            push_char(out, c);
        }
        assert(out@ =~= before + escape_json_char(c));
        assert(cs@.subrange(0, i + 1).drop_last() =~= cs@.subrange(0, i as int));
        i = i + 1;
    }
    assert(cs@.subrange(0, cs@.len() as int) =~= cs@);
    push_char(out, '"');
}

/// Appends the compact JSON text of `j` to `out`.
#[verifier::loop_isolation(false)]
pub fn push_json(out: &mut String, j: &Json)
    ensures
        final(out)@ == old(out)@ + text_of(jv(*j)),
    decreases j,
{
    match j {
        Json::Null => {
            push_str(out, "null");
            proof { reveal_strlit("null"); }
        },
        Json::Bool(b) => {
            if *b {
                push_str(out, "true");
                proof { reveal_strlit("true"); }
            } else {
                push_str(out, "false");
                proof { reveal_strlit("false"); }
            }
        },
        Json::Number(JsonNumber::Int(n)) => push_i128(out, *n),
        Json::Number(JsonNumber::Float(f)) => push_str(out, f.text.as_str()),
        Json::Str(s) => push_quoted_json(out, s.as_str()),
        Json::Array(v) => {
            let ghost items = match jv(*j) { JsonV::Array(x) => x, _ => Seq::empty() };
            push_char(out, '[');
            let mut i: usize = 0;
            while i < v.len()
                invariant
                    i <= v@.len(),
                    items.len() == v@.len(),
                    forall|k: int| 0 <= k < v@.len() ==> #[trigger] items[k] == jv(v@[k]),
                    out@ == old(out)@ + seq!['['] + items_text(items.subrange(0, i as int)),
                decreases v@.len() - i,
            {
                proof {
                    assert(decreases_to!(v => v[i as int]));
                }
                let ghost before = out@;
                if i > 0 {
                    push_char(out, ',');
                }
                push_json(out, &v[i]);
                proof {
                    let w = items.subrange(0, i + 1);
                    assert(w.drop_last() =~= items.subrange(0, i as int));
                    assert(w[w.len() - 1] == jv(v@[i as int]));
                    if i == 0 {
                        assert(w.len() == 1);
                        assert(out@ =~= old(out)@ + seq!['['] + items_text(w));
                    } else {
                        assert(out@ =~= old(out)@ + seq!['['] + items_text(w));
                    }
                }
                i = i + 1;
            }
            push_char(out, ']');
            assert(items.subrange(0, v@.len() as int) =~= items);
            assert(out@ =~= old(out)@ + text_of(jv(*j)));
        },
        Json::Object(es) => {
            let ghost ents = match jv(*j) { JsonV::Object(x) => x, _ => Seq::empty() };
            push_char(out, '{');
            let mut i: usize = 0;
            while i < es.len()
                invariant
                    i <= es@.len(),
                    ents.len() == es@.len(),
                    forall|k: int| 0 <= k < es@.len() ==> #[trigger] ents[k] == (es@[k].0@, jv(es@[k].1)),
                    out@ == old(out)@ + seq!['{'] + entries_text(ents.subrange(0, i as int)),
                decreases es@.len() - i,
            {
                proof {
                    assert(decreases_to!(es => es[i as int]));
                    assert(decreases_to!(es[i as int] => es[i as int].1));
                }
                let ghost before = out@;
                if i > 0 {
                    push_char(out, ',');
                }
                push_quoted_json(out, es[i].0.as_str());
                push_char(out, ':');
                push_json(out, &es[i].1);
                proof {
                    let w = ents.subrange(0, i + 1);
                    assert(w.drop_last() =~= ents.subrange(0, i as int));
                    assert(w[w.len() - 1] == (es@[i as int].0@, jv(es@[i as int].1)));
                    assert(out@ =~= old(out)@ + seq!['{'] + entries_text(w));
                }
                i = i + 1;
            }
            push_char(out, '}');
            assert(ents.subrange(0, es@.len() as int) =~= ents);
            assert(out@ =~= old(out)@ + text_of(jv(*j)));
        },
    }
}

/// The compact JSON text of `j` (`serde_json::to_string`).
pub fn to_text(j: &Json) -> (s: String)
    ensures
        s@ == text_of(jv(*j)),
{
    let mut s = String::new();
    push_json(&mut s, j);
    assert(s@ =~= text_of(jv(*j)));
    s
}


/// The index of the first entry with key `k`, searching from `i`.
pub open spec fn key_index_from(es: Seq<(String, Json)>, k: Seq<char>, i: int) -> Option<int>
    decreases es.len() - i,
{
    if i < 0 || i >= es.len() {
        None
    } else if es[i].0@ == k {
        Some(i)
    } else {
        key_index_from(es, k, i + 1)
    }
}

pub open spec fn key_index(es: Seq<(String, Json)>, k: Seq<char>) -> Option<int> {
    key_index_from(es, k, 0)
}

/// `Value::get(key)`: the value under `k` in an object; nothing for other values.
pub open spec fn get_field(j: Json, k: Seq<char>) -> Option<Json> {
    match j {
        Json::Object(es) => match key_index(es@, k) {
            Some(i) => Some(es@[i].1),
            None => None,
        },
        _ => None,
    }
}

pub proof fn lemma_key_index_from(es: Seq<(String, Json)>, k: Seq<char>, i: int)
    requires
        0 <= i <= es.len(),
    ensures
        key_index_from(es, k, i) matches Some(x) ==> i <= x < es.len() && es[x].0@ == k && forall|
            y: int,
        | i <= y < x ==> es[y].0@ != k,
        key_index_from(es, k, i) is None ==> forall|y: int| i <= y < es.len() ==> es[y].0@ != k,
    decreases es.len() - i,
{
    if i < es.len() && es[i].0@ != k {
        lemma_key_index_from(es, k, i + 1);
    }
}

/// The position of key `key` among the entries.
pub fn find_key(es: &Vec<(String, Json)>, key: &Vec<char>) -> (r: Option<usize>)
    ensures
        match r {
            Some(i) => key_index(es@, key@) == Some(i as int) && i < es@.len(),
            None => key_index(es@, key@) is None,
        },
{
    let mut i: usize = 0;
    while i < es.len()
        invariant
            i <= es@.len(),
            key_index(es@, key@) == key_index_from(es@, key@, i as int),
        decreases es@.len() - i,
    {
        let k = chars_of(es[i].0.as_str());
        if crate::text::chars_eq(&k, key) {
            return Some(i);
        }
        i = i + 1;
    }
    None
}

/// `Value::get(key)` for a key given as a string.
pub fn get<'a>(j: &'a Json, key: &str) -> (r: Option<&'a Json>)
    ensures
        match get_field(*j, key@) {
            Some(v) => r == Some(&v),
            None => r is None,
        },
{
    match j {
        Json::Object(es) => {
            let k = chars_of(key);
            match find_key(es, &k) {
                Some(i) => Some(&es[i].1),
                None => None,
            }
        },
        _ => None,
    }
}

/// One step of a dotted path: an array takes a decimal index, an object a
/// key; anything else, or a missing entry, gives `null`.
pub open spec fn step_into(j: Json, part: Seq<char>) -> Json {
    match j {
        Json::Array(v) => match parse_unsigned(part, 0xffff_ffff_ffff_ffff) {
            Some(i) => if i < v@.len() { v@[i] } else { Json::Null },
            None => Json::Null,
        },
        Json::Object(_) => match get_field(j, part) {
            Some(x) => x,
            None => Json::Null,
        },
        _ => Json::Null,
    }
}

pub open spec fn resolve_parts(j: Json, parts: Seq<Seq<char>>) -> Json
    decreases parts.len(),
{
    if parts.len() == 0 {
        j
    } else {
        step_into(resolve_parts(j, parts.drop_last()), parts.last())
    }
}

/// The value at a dotted path; the empty path gives the value itself.
pub open spec fn resolve_path(j: Json, path: Seq<char>) -> Json {
    if path.len() == 0 {
        j
    } else {
        resolve_parts(j, split(path, '.'))
    }
}

/// Follows the dotted `path` into `value` (see `resolve_path`).
#[verifier::loop_isolation(false)]
pub fn resolve_nested<'a>(value: &'a Json, path: &str) -> (r: Option<&'a Json>)
    ensures
        match resolve_path(*value, path@) {
            Json::Null => r is None || r == Some(&Json::Null),
            v => r == Some(&v),
        },
{
    let cs = chars_of(path);
    if cs.len() == 0 {
        return Some(value);
    }
    let pieces = split_chars(&cs, 0, cs.len(), '.');
    assert(cs@.subrange(0, cs@.len() as int) =~= cs@);
    let ghost parts = split(path@, '.');
    let mut cur: &Json = value;
    let mut i: usize = 0;
    while i < pieces.len()
        invariant
            i <= pieces@.len(),
            pieces@.map_values(|v: Vec<char>| v@) == parts,
            parts == split(path@, '.'),
            *cur == resolve_parts(*value, parts.subrange(0, i as int)),
        decreases pieces@.len() - i,
    {
        let part = &pieces[i];
        let ghost before = *cur;
        proof {
            assert(parts.subrange(0, i + 1).drop_last() =~= parts.subrange(0, i as int));
            assert(part@ == parts[i as int]);
        }
        proof {
            assert(resolve_parts(*value, parts.subrange(0, i + 1)) == step_into(before, parts[i as int]));
        }
        let next: Option<&Json> = match cur {
            Json::Array(v) => {
                assert(part@.subrange(0, part@.len() as int) =~= part@);
                match parse_unsigned_chars(part, 0, part.len(), 0xffff_ffff_ffff_ffff) {
                    Some(ix) => {
                        if ix < v.len() as u64 {
                            Some(&v[ix as usize])
                        } else {
                            assert(step_into(before, parts[i as int]) == Json::Null);
                            None
                        }
                    },
                    None => {
                        assert(step_into(before, parts[i as int]) == Json::Null);
                        None
                    },
                }
            },
            Json::Object(es) => match find_key(es, part) {
                Some(x) => Some(&es[x].1),
                None => {
                    assert(step_into(before, parts[i as int]) == Json::Null);
                    None
                },
            },
            _ => {
                assert(step_into(before, parts[i as int]) == Json::Null);
                None
            },
        };
        match next {
            Some(n) => {
                cur = n;
            },
            None => {
                proof {
                    lemma_resolve_null_stays(*value, parts, i as int + 1);
                }
                return None;
            },
        }
        i = i + 1;
    }
    assert(parts.subrange(0, parts.len() as int) =~= parts);
    Some(cur)
}

/// Once a path reaches `null`, it stays `null`.
pub proof fn lemma_resolve_null_stays(j: Json, parts: Seq<Seq<char>>, k: int)
    requires
        0 <= k <= parts.len(),
        resolve_parts(j, parts.subrange(0, k)) == Json::Null,
    ensures
        resolve_parts(j, parts) == Json::Null,
    decreases parts.len() - k,
{
    if k < parts.len() {
        assert(parts.subrange(0, k + 1).drop_last() =~= parts.subrange(0, k));
        lemma_resolve_null_stays(j, parts, k + 1);
    } else {
        assert(parts.subrange(0, k) =~= parts);
    }
}

/// A field of a well-formed value is well-formed.
pub proof fn lemma_get_field_wf(j: Json, k: Seq<char>)
    requires
        json_wf(j),
    ensures
        get_field(j, k) matches Some(v) ==> json_wf(v),
{
    if let Json::Object(es) = j {
        lemma_key_index_from(es@, k, 0);
    }
}

/// Following a path through a well-formed value gives a well-formed value.
pub proof fn lemma_resolve_parts_wf(j: Json, parts: Seq<Seq<char>>)
    requires
        json_wf(j),
    ensures
        json_wf(resolve_parts(j, parts)),
    decreases parts.len(),
{
    if parts.len() > 0 {
        lemma_resolve_parts_wf(j, parts.drop_last());
        let c = resolve_parts(j, parts.drop_last());
        lemma_get_field_wf(c, parts.last());
        if let Json::Array(v) = c {
            crate::text::lemma_parse_unsigned_nonneg(parts.last(), 0xffff_ffff_ffff_ffff);
            if let Some(i) = parse_unsigned(parts.last(), 0xffff_ffff_ffff_ffff) {
                if i < v@.len() {
                    assert(json_wf(v@[i]));
                }
            }
        }
    }
}

pub proof fn lemma_resolve_path_wf(j: Json, path: Seq<char>)
    requires
        json_wf(j),
    ensures
        json_wf(resolve_path(j, path)),
{
    if path.len() > 0 {
        lemma_resolve_parts_wf(j, split(path, '.'));
    }
}

/// The order of two dyadic numbers `m1 * 2^e1` and `m2 * 2^e2`.
pub open spec fn dyadic_order(m1: int, e1: int, m2: int, e2: int) -> Order {
    let base = crate::number::min_int(e1, e2);
    int_order(crate::number::scaled(m1, e1, base), crate::number::scaled(m2, e2, base))
}

/// `Value == Value`: integers equal as integers, floats by value, an
/// integer never equal to a float; arrays item by item; objects entry by
/// entry (in key order).
pub open spec fn jv_eq(a: JsonV, b: JsonV) -> bool
    decreases a,
{
    match a {
        JsonV::Null => b is Null,
        JsonV::Bool(x) => b matches JsonV::Bool(y) && x == y,
        JsonV::Int(x) => b matches JsonV::Int(y) && x == y,
        JsonV::Float(m1, e1, _) => b matches JsonV::Float(m2, e2, _) && dyadic_order(m1, e1, m2, e2) == Order::Equal,
        JsonV::Str(x) => b matches JsonV::Str(y) && x == y,
        JsonV::Array(xs) => match b {
            JsonV::Array(ys) => xs.len() == ys.len() && forall|i: int| 0 <= i < xs.len() ==> jv_eq(#[trigger] xs[i], ys[i]),
            _ => false,
        },
        JsonV::Object(es) => match b {
            JsonV::Object(fs) => es.len() == fs.len() && forall|i: int|
                0 <= i < es.len() ==> (#[trigger] es[i]).0 == fs[i].0 && jv_eq(es[i].1, fs[i].1),
            _ => false,
        },
    }
}

/// All numbers within range, throughout.
pub open spec fn jv_nums_wf(v: JsonV) -> bool
    decreases v,
{
    match v {
        JsonV::Int(n) => int_in_range(n),
        JsonV::Array(xs) => forall|i: int| 0 <= i < xs.len() ==> jv_nums_wf(#[trigger] xs[i]),
        JsonV::Object(es) => forall|i: int| 0 <= i < es.len() ==> jv_nums_wf((#[trigger] es[i]).1),
        _ => true,
    }
}

/// `a == b` on JSON values.
#[verifier::loop_isolation(false)]
pub fn json_eq(a: &Json, b: &Json) -> (r: bool)
    requires
        json_wf(*a),
        json_wf(*b),
    ensures
        r == jv_eq(jv(*a), jv(*b)),
    decreases a,
{
    match (a, b) {
        (Json::Null, Json::Null) => true,
        (Json::Bool(x), Json::Bool(y)) => *x == *y,
        (Json::Number(JsonNumber::Int(x)), Json::Number(JsonNumber::Int(y))) => *x == *y,
        (Json::Number(JsonNumber::Float(x)), Json::Number(JsonNumber::Float(y))) => {
            let na = JsonNumber::Float(FloatNum { mant: x.mant, exp: x.exp, text: String::new() });
            let nb = JsonNumber::Float(FloatNum { mant: y.mant, exp: y.exp, text: String::new() });
            match compare_numbers(&na, &nb) {
                Order::Equal => true,
                _ => false,
            }
        },
        (Json::Str(x), Json::Str(y)) => {
            let cx = chars_of(x.as_str());
            let cy = chars_of(y.as_str());
            crate::text::chars_eq(&cx, &cy)
        },
        (Json::Array(xs), Json::Array(ys)) => {
            proof {
                crate::dsl::refs::lemma_jv_array(*a);
                crate::dsl::refs::lemma_jv_array(*b);
            }
            if xs.len() != ys.len() {
                return false;
            }
            let mut i: usize = 0;
            while i < xs.len()
                invariant
                    i <= xs@.len(),
                    xs@.len() == ys@.len(),
                    forall|k: int| 0 <= k < i ==> jv_eq(jv(#[trigger] xs@[k]), jv(ys@[k])),
                decreases xs@.len() - i,
            {
                proof {
                    assert(decreases_to!(a => xs));
                    assert(decreases_to!(xs => xs[i as int]));
                }
                if !json_eq(&xs[i], &ys[i]) {
                    proof {
                        let ix = crate::dsl::refs::items_jv(xs@);
                        let iy = crate::dsl::refs::items_jv(ys@);
                        assert(ix[i as int] == jv(xs@[i as int]));
                        assert(iy[i as int] == jv(ys@[i as int]));
                        assert(!jv_eq(ix[i as int], iy[i as int]));
                    }
                    return false;
                }
                i = i + 1;
            }
            true
        },
        (Json::Object(es), Json::Object(fs)) => {
            proof {
                crate::dsl::refs::lemma_jv_object(*a);
                crate::dsl::refs::lemma_jv_object(*b);
            }
            if es.len() != fs.len() {
                return false;
            }
            let mut i: usize = 0;
            while i < es.len()
                invariant
                    i <= es@.len(),
                    es@.len() == fs@.len(),
                    forall|k: int| 0 <= k < i ==> (#[trigger] es@[k]).0@ == fs@[k].0@ && jv_eq(jv(es@[k].1), jv(fs@[k].1)),
                decreases es@.len() - i,
            {
                proof {
                    assert(decreases_to!(es => es[i as int]));
                    assert(decreases_to!(es[i as int] => es[i as int].1));
                }
                let ck = chars_of(es[i].0.as_str());
                let cf = chars_of(fs[i].0.as_str());
                proof {
                    let ex = crate::dsl::refs::entries_jv(es@);
                    let ey = crate::dsl::refs::entries_jv(fs@);
                    assert(ex[i as int] == (es@[i as int].0@, jv(es@[i as int].1)));
                    assert(ey[i as int] == (fs@[i as int].0@, jv(fs@[i as int].1)));
                }
                if !crate::text::chars_eq(&ck, &cf) {
                    return false;
                }
                if !json_eq(&es[i].1, &fs[i].1) {
                    return false;
                }
                i = i + 1;
            }
            true
        },
        _ => false,
    }
}

} // verus!
