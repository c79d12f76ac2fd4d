//! Reading the fields of a pipeline document: strings, flags, numbers and
//! input values, with the document's `{a.b}` references turned into
//! variable references.

use vstd::prelude::*;
use crate::json::{Json, JsonNumber, JsonV, jv, json_clone, get, get_field};
use crate::text::{to_string, push_str};
use crate::dsl::variable::{RefValue, VariablePath, parse_path};
use crate::dsl::refs::{items_jv, entries_jv, lemma_jv_array, lemma_jv_object};

verus! {

/// Why a document could not be read.
#[derive(Debug, Clone)]
pub enum ParseError {
    /// The document is malformed (the message says where).
    Yaml(String),
    /// An `iterate.over` that is not a `{...}` variable path.
    InvalidIterateOver(String),
}

/// The message of a parse error.
pub open spec fn parse_error_text(e: ParseError) -> Seq<char> {
    match e {
        ParseError::Yaml(m) => "YAML 解析失败: "@ + m@,
        ParseError::InvalidIterateOver(s) => "iterate.over 必须是 {...} 形式的变量路径: "@ + s@,
    }
}

impl ParseError {
    pub fn to_text(&self) -> (r: String)
        ensures
            r@ == parse_error_text(*self),
    {
        let mut s = String::new();
        match self {
            ParseError::Yaml(m) => {
                push_str(&mut s, "YAML 解析失败: ");
                push_str(&mut s, m.as_str());
            },
            ParseError::InvalidIterateOver(o) => {
                push_str(&mut s, "iterate.over 必须是 {...} 形式的变量路径: ");
                push_str(&mut s, o.as_str());
            },
        }
        s
    }
}

/// The iteration settings as the document writes them, before `over` is
/// read as a variable path.
#[derive(Debug, Clone)]
pub struct RawIterateConfig {
    pub over: String,
    pub as_name: String,
    pub max_workers: Option<u32>,
    pub batch: Option<crate::dsl::step::BatchConfig>,
}

/// The tag that stands for a `{a.b}` reference inside a literal:
/// `{"Ref": {"parts": [a, b]}}`.
pub open spec fn ref_tag_value(p: Seq<Seq<char>>) -> JsonV {
    JsonV::Object(
        seq![
            ("Ref"@, JsonV::Object(seq![("parts"@, JsonV::Array(p.map_values(|s: Seq<char>| JsonV::Str(s))))])),
        ],
    )
}

/// A value with every string that is a `{a.b}` reference replaced by its tag.
pub open spec fn tagged(v: JsonV) -> JsonV
    decreases v,
{
    match v {
        JsonV::Str(s) => match parse_path(s) {
            Some(p) => ref_tag_value(p),
            None => v,
        },
        JsonV::Array(items) => JsonV::Array(
            Seq::new(
                items.len(),
                |i: int|
                    if 0 <= i < items.len() {
                        tagged(items[i])
                    } else {
                        JsonV::Null
                    },
            ),
        ),
        JsonV::Object(es) => JsonV::Object(
            Seq::new(
                es.len(),
                |i: int|
                    if 0 <= i < es.len() {
                        (es[i].0, tagged(es[i].1))
                    } else {
                        (Seq::empty(), JsonV::Null)
                    },
            ),
        ),
        _ => v,
    }
}

/// The tag of a reference.
fn ref_tag(p: &VariablePath) -> (r: Json)
    ensures
        jv(r) == ref_tag_value(p.pv()),
{
    let mut items: Vec<Json> = Vec::new();
    let mut i: usize = 0;
    while i < p.parts.len()
        invariant
            i <= p.parts@.len(),
            items_jv(items@) == p.pv().subrange(0, i as int).map_values(|s: Seq<char>| JsonV::Str(s)),
        decreases p.parts@.len() - i,
    {
        let ghost before = items@;
        items.push(Json::Str(to_string(p.parts[i].as_str())));
        assert(items_jv(items@) =~= items_jv(before).push(JsonV::Str(p.pv()[i as int])));
        assert(p.pv().subrange(0, i + 1).map_values(|s: Seq<char>| JsonV::Str(s)) =~= p.pv().subrange(
            0,
            i as int,
        ).map_values(|s: Seq<char>| JsonV::Str(s)).push(JsonV::Str(p.pv()[i as int])));
        i = i + 1;
    }
    assert(p.pv().subrange(0, p.pv().len() as int) =~= p.pv());
    let arr = Json::Array(items);
    proof {
        lemma_jv_array(arr);
    }
    let mut inner: Vec<(String, Json)> = Vec::new();
    inner.push((to_string("parts"), arr));
    let inner_obj = Json::Object(inner);
    proof {
        lemma_jv_object(inner_obj);
        assert(entries_jv(inner@) =~= seq![("parts"@, jv(arr))]);
    }
    let mut outer: Vec<(String, Json)> = Vec::new();
    outer.push((to_string("Ref"), inner_obj));
    let r = Json::Object(outer);
    proof {
        lemma_jv_object(r);
        assert(entries_jv(outer@) =~= seq![("Ref"@, jv(inner_obj))]);
    }
    r
}

/// `v` with its references replaced by tags (see `tagged`).
#[verifier::loop_isolation(false)]
pub fn replace_template_strings(v: &Json) -> (r: Json)
    ensures
        jv(r) == tagged(jv(*v)),
    decreases v,
{
    match v {
        Json::Str(s) => match VariablePath::parse(s.as_str()) {
            Some(p) => ref_tag(&p),
            None => json_clone(v),
        },
        Json::Array(items) => {
            let mut out: Vec<Json> = Vec::new();
            let mut i: usize = 0;
            while i < items.len()
                invariant
                    i <= items@.len(),
                    out@.len() == i,
                    forall|k: int| 0 <= k < i ==> jv(#[trigger] out@[k]) == tagged(jv(items@[k])),
                decreases items@.len() - i,
            {
                proof {
                    assert(decreases_to!(v => items));
                    assert(decreases_to!(items => items[i as int]));
                }
                out.push(replace_template_strings(&items[i]));
                i = i + 1;
            }
            let r = Json::Array(out);
            proof {
                lemma_jv_array(r);
                lemma_jv_array(*v);
                assert(items_jv(out@) =~= match tagged(jv(*v)) {
                    JsonV::Array(t) => t,
                    _ => Seq::empty(),
                });
            }
            r
        },
        Json::Object(es) => {
            let mut out: Vec<(String, Json)> = Vec::new();
            let mut i: usize = 0;
            while i < es.len()
                invariant
                    i <= es@.len(),
                    out@.len() == i,
                    forall|k: int|
                        0 <= k < i ==> (#[trigger] out@[k]).0@ == es@[k].0@ && jv(out@[k].1) == tagged(jv(es@[k].1)),
                decreases es@.len() - i,
            {
                proof {
                    assert(decreases_to!(es => es[i as int]));
                    assert(decreases_to!(es[i as int] => es[i as int].1));
                }
                let k = to_string(es[i].0.as_str());
                let x = replace_template_strings(&es[i].1);
                out.push((k, x));
                i = i + 1;
            }
            let r = Json::Object(out);
            proof {
                lemma_jv_object(r);
                lemma_jv_object(*v);
                assert(entries_jv(out@) =~= match tagged(jv(*v)) {
                    JsonV::Object(t) => t,
                    _ => Seq::empty(),
                });
            }
            r
        },
        _ => json_clone(v),
    }
}

/// The input value a document value stands for: a string that is a
/// `{a.b}` reference is that reference; anything else is a literal, with
/// the references inside it replaced by tags.
pub open spec fn ref_rel(v: Json, r: RefValue) -> bool {
    match v {
        Json::Str(s) => match parse_path(s@) {
            Some(p) => r matches RefValue::Ref(vp) && vp.pv() == p,
            None => r matches RefValue::Literal(x) && jv(x) == jv(v),
        },
        _ => r matches RefValue::Literal(x) && jv(x) == tagged(jv(v)),
    }
}

/// The input value a document value stands for (see `ref_rel`).
pub fn yaml_to_refvalue(v: &Json) -> (r: RefValue)
    ensures
        ref_rel(*v, r),
{
    match v {
        Json::Str(s) => match VariablePath::parse(s.as_str()) {
            Some(p) => RefValue::Ref(p),
            None => RefValue::Literal(json_clone(v)),
        },
        _ => RefValue::Literal(replace_template_strings(v)),
    }
}

/// The message for a missing field.
pub open spec fn missing(k: Seq<char>) -> Seq<char> {
    "missing field `"@ + k + "`"@
}

/// The message for a field of the wrong type.
pub open spec fn wrong_type(k: Seq<char>, what: Seq<char>) -> Seq<char> {
    "invalid type for `"@ + k + "`: expected "@ + what
}

pub(crate) fn missing_msg(k: &str) -> (r: String)
    ensures
        r@ == missing(k@),
{
    let mut s = String::new();
    push_str(&mut s, "missing field `");
    push_str(&mut s, k);
    push_str(&mut s, "`");
    s
}

pub(crate) fn wrong_type_msg(k: &str, what: &str) -> (r: String)
    ensures
        r@ == wrong_type(k@, what@),
{
    let mut s = String::new();
    push_str(&mut s, "invalid type for `");
    push_str(&mut s, k);
    push_str(&mut s, "`: expected ");
    push_str(&mut s, what);
    s
}

/// The value under `k`, absent when missing or `null`.
pub open spec fn present(j: Json, k: Seq<char>) -> Option<Json> {
    match get_field(j, k) {
        Some(v) => if v is Null {
            None
        } else {
            Some(v)
        },
        None => None,
    }
}

/// An optional string field.
pub open spec fn str_field(j: Json, k: Seq<char>) -> Result<Option<Seq<char>>, Seq<char>> {
    match present(j, k) {
        None => Ok(None),
        Some(Json::Str(s)) => Ok(Some(s@)),
        Some(_) => Err(wrong_type(k, "a string"@)),
    }
}

/// A required string field.
pub open spec fn req_str_field(j: Json, k: Seq<char>) -> Result<Seq<char>, Seq<char>> {
    match str_field(j, k) {
        Ok(Some(s)) => Ok(s),
        Ok(None) => Err(missing(k)),
        Err(e) => Err(e),
    }
}

pub open spec fn bool_field(j: Json, k: Seq<char>) -> Result<Option<bool>, Seq<char>> {
    match present(j, k) {
        None => Ok(None),
        Some(Json::Bool(b)) => Ok(Some(b)),
        Some(_) => Err(wrong_type(k, "a boolean"@)),
    }
}

/// An optional unsigned integer field below `limit`.
pub open spec fn uint_field(j: Json, k: Seq<char>, limit: int) -> Result<Option<int>, Seq<char>> {
    match present(j, k) {
        None => Ok(None),
        Some(Json::Number(JsonNumber::Int(n))) => if 0 <= n < limit {
            Ok(Some(n as int))
        } else {
            Err(wrong_type(k, "an unsigned integer in range"@))
        },
        Some(_) => Err(wrong_type(k, "an unsigned integer in range"@)),
    }
}

pub open spec fn num_field(j: Json, k: Seq<char>) -> Result<Option<JsonNumber>, Seq<char>> {
    match present(j, k) {
        None => Ok(None),
        Some(Json::Number(n)) => Ok(Some(n)),
        Some(_) => Err(wrong_type(k, "a number"@)),
    }
}

/// An optional string field.
pub fn opt_string(j: &Json, k: &str) -> (r: Result<Option<String>, String>)
    ensures
        match str_field(*j, k@) {
            Ok(None) => r matches Ok(None),
            Ok(Some(s)) => r matches Ok(Some(x)) && x@ == s,
            Err(e) => r matches Err(m) && m@ == e,
        },
{
    match get(j, k) {
        None => Ok(None),
        Some(Json::Null) => Ok(None),
        Some(Json::Str(s)) => Ok(Some(to_string(s.as_str()))),
        Some(_) => Err(wrong_type_msg(k, "a string")),
    }
}

/// A required string field.
pub fn req_string(j: &Json, k: &str) -> (r: Result<String, String>)
    ensures
        match req_str_field(*j, k@) {
            Ok(s) => r matches Ok(x) && x@ == s,
            Err(e) => r matches Err(m) && m@ == e,
        },
{
    match opt_string(j, k) {
        Ok(Some(s)) => Ok(s),
        Ok(None) => Err(missing_msg(k)),
        Err(e) => Err(e),
    }
}

pub fn opt_bool(j: &Json, k: &str) -> (r: Result<Option<bool>, String>)
    ensures
        match bool_field(*j, k@) {
            Ok(b) => r matches Ok(x) && x == b,
            Err(e) => r matches Err(m) && m@ == e,
        },
{
    match get(j, k) {
        None => Ok(None),
        Some(Json::Null) => Ok(None),
        Some(Json::Bool(b)) => Ok(Some(*b)),
        Some(_) => Err(wrong_type_msg(k, "a boolean")),
    }
}

pub fn opt_u32(j: &Json, k: &str) -> (r: Result<Option<u32>, String>)
    ensures
        match uint_field(*j, k@, 0x1_0000_0000) {
            Ok(None) => r matches Ok(None),
            Ok(Some(n)) => r matches Ok(Some(x)) && x as int == n,
            Err(e) => r matches Err(m) && m@ == e,
        },
{
    match get(j, k) {
        None => Ok(None),
        Some(Json::Null) => Ok(None),
        Some(Json::Number(JsonNumber::Int(n))) => if 0 <= *n && *n < 0x1_0000_0000 {
            Ok(Some(*n as u32))
        } else {
            Err(wrong_type_msg(k, "an unsigned integer in range"))
        },
        Some(_) => Err(wrong_type_msg(k, "an unsigned integer in range")),
    }
}

pub fn opt_u64(j: &Json, k: &str) -> (r: Result<Option<u64>, String>)
    ensures
        match uint_field(*j, k@, 0x1_0000_0000_0000_0000) {
            Ok(None) => r matches Ok(None),
            Ok(Some(n)) => r matches Ok(Some(x)) && x as int == n,
            Err(e) => r matches Err(m) && m@ == e,
        },
{
    match get(j, k) {
        None => Ok(None),
        Some(Json::Null) => Ok(None),
        Some(Json::Number(JsonNumber::Int(n))) => if 0 <= *n && *n < 0x1_0000_0000_0000_0000 {
            Ok(Some(*n as u64))
        } else {
            Err(wrong_type_msg(k, "an unsigned integer in range"))
        },
        Some(_) => Err(wrong_type_msg(k, "an unsigned integer in range")),
    }
}

pub fn opt_number(j: &Json, k: &str) -> (r: Result<Option<JsonNumber>, String>)
    ensures
        match num_field(*j, k@) {
            Ok(None) => r matches Ok(None),
            Ok(Some(n)) => r matches Ok(Some(x)) && crate::json::jv(Json::Number(x)) == crate::json::jv(
                Json::Number(n),
            ),
            Err(e) => r matches Err(m) && m@ == e,
        },
{
    match get(j, k) {
        None => Ok(None),
        Some(Json::Null) => Ok(None),
        Some(Json::Number(n)) => Ok(Some(num_copy(n))),
        Some(_) => Err(wrong_type_msg(k, "a number")),
    }
}

/// A copy of a number.
fn num_copy(n: &JsonNumber) -> (r: JsonNumber)
    ensures
        jv(Json::Number(r)) == jv(Json::Number(*n)),
{
    match n {
        JsonNumber::Int(i) => JsonNumber::Int(*i),
        JsonNumber::Float(f) => JsonNumber::Float(crate::json::FloatNum { mant: f.mant, exp: f.exp, text: f.text.clone() }),
    }
}

/// An optional input value (any value but `null`).
pub fn opt_ref(j: &Json, k: &str) -> (r: Option<RefValue>)
    ensures
        match present(*j, k@) {
            None => r is None,
            Some(v) => r matches Some(x) && ref_rel(v, x),
        },
{
    match get(j, k) {
        None => None,
        Some(Json::Null) => None,
        Some(v) => Some(yaml_to_refvalue(v)),
    }
}

/// A required input value (`null` included).
pub fn req_ref(j: &Json, k: &str) -> (r: Result<RefValue, String>)
    ensures
        match get_field(*j, k@) {
            None => r matches Err(m) && m@ == missing(k@),
            Some(v) => r matches Ok(x) && ref_rel(v, x),
        },
{
    match get(j, k) {
        None => Err(missing_msg(k)),
        Some(v) => Ok(yaml_to_refvalue(v)),
    }
}

} // verus!
