//! `http`: an HTTP request. The library prepares the request and reads the
//! reply; sending it is left to the caller.

use vstd::prelude::*;
use vstd::utf8::encode_utf8;
use crate::json::{Json, JsonNumber, JsonV, jv, text_of, to_text, get, get_field};
use crate::text::{to_string, push_str};
use crate::dsl::refs::str_is;
use crate::dsl::validator::{uppercase, to_uppercase};
use crate::operator::types::{OperatorError, OperatorSpec};
use crate::operator::builtin::get_str;

verus! {

pub struct HttpOperator;

/// The methods the operator sends.
#[derive(Debug, Clone, Copy, PartialEq, Eq, Structural)]
pub enum HttpMethod {
    Get,
    Post,
    Put,
    Delete,
}

/// A request ready to send.
pub struct HttpRequest {
    pub url: String,
    /// The method as written in the inputs (`GET` when none is given).
    pub method: String,
    /// The body: a string's UTF-8 bytes, or any other value's compact JSON
    /// text; empty when there is none (or it is `null`).
    pub body: Vec<u8>,
    /// The headers whose values are strings, in key order.
    pub headers: Vec<(String, String)>,
}

pub open spec fn http_body_of(inputs: Json) -> Seq<u8> {
    match get_field(inputs, "body"@) {
        Some(Json::Str(s)) => encode_utf8(s@),
        Some(v) => if v is Null {
            Seq::empty()
        } else {
            encode_utf8(text_of(jv(v)))
        },
        None => Seq::empty(),
    }
}

/// The entries whose values are strings, as key and value.
pub open spec fn string_entries(es: Seq<(String, Json)>) -> Seq<(Seq<char>, Seq<char>)>
    decreases es.len(),
{
    if es.len() == 0 {
        Seq::empty()
    } else {
        let rest = string_entries(es.drop_last());
        match es.last().1 {
            Json::Str(v) => rest.push((es.last().0@, v@)),
            _ => rest,
        }
    }
}

pub open spec fn http_headers_of(inputs: Json) -> Seq<(Seq<char>, Seq<char>)> {
    match get_field(inputs, "headers"@) {
        Some(Json::Object(es)) => string_entries(es@),
        _ => Seq::empty(),
    }
}

pub open spec fn http_method_text(inputs: Json) -> Seq<char> {
    match get_str(inputs, "method"@) {
        Some(m) => m,
        None => "GET"@,
    }
}

pub open spec fn pairs_of(v: Seq<(String, String)>) -> Seq<(Seq<char>, Seq<char>)> {
    v.map_values(|p: (String, String)| (p.0@, p.1@))
}

/// The string entries of an object, in order.
fn string_headers(es: &Vec<(String, Json)>) -> (r: Vec<(String, String)>)
    ensures
        pairs_of(r@) == string_entries(es@),
{
    let mut r: Vec<(String, String)> = Vec::new();
    let mut i: usize = 0;
    while i < es.len()
        invariant
            i <= es@.len(),
            pairs_of(r@) == string_entries(es@.subrange(0, i as int)),
        decreases es@.len() - i,
    {
        assert(es@.subrange(0, i + 1).drop_last() =~= es@.subrange(0, i as int));
        let ghost before = r@;
        match &es[i].1 {
            Json::Str(v) => {
                r.push((to_string(es[i].0.as_str()), to_string(v.as_str())));
                assert(pairs_of(r@) =~= pairs_of(before).push((es@[i as int].0@, v@)));
            },
            _ => {},
        }
        i = i + 1;
    }
    assert(es@.subrange(0, es@.len() as int) =~= es@);
    r
}

/// `str::as_bytes`, copied.
fn bytes_of(s: &str) -> (r: Vec<u8>)
    ensures
        r@ == encode_utf8(s@),
{
    let b = s.as_bytes();
    let mut r: Vec<u8> = Vec::new();
    let mut i: usize = 0;
    while i < b.len()
        invariant
            i <= b@.len(),
            b@ == encode_utf8(s@),
            r@ == b@.subrange(0, i as int),
        decreases b@.len() - i,
    {
        r.push(b[i]);
        assert(b@.subrange(0, i + 1) =~= b@.subrange(0, i as int).push(b@[i as int]));
        i = i + 1;
    }
    assert(b@.subrange(0, b@.len() as int) =~= b@);
    r
}

impl HttpOperator {
    pub fn spec(&self) -> (r: OperatorSpec)
        ensures
            r.op_type@ == "http"@,
            r.description@ == "HTTP 请求"@,
            !r.iterate,
            !r.cache,
    {
        OperatorSpec::new("http", "HTTP 请求").with_cache(false)
    }

    /// The request the inputs describe; `url` is required.
    pub fn request(&self, inputs: &Json) -> (r: Result<HttpRequest, OperatorError>)
        ensures
            match get_str(*inputs, "url"@) {
                None => r matches Err(OperatorError::Config(m)) && m@ == "缺少 url"@,
                Some(u) => r matches Ok(q) && q.url@ == u && q.method@ == http_method_text(*inputs) && q.body@
                    == http_body_of(*inputs) && pairs_of(q.headers@) == http_headers_of(*inputs),
            },
    {
        let url = match get(inputs, "url") {
            Some(Json::Str(u)) => to_string(u.as_str()),
            _ => {
                return Err(OperatorError::Config(to_string("缺少 url")));
            },
        };
        let method = crate::operator::builtin::str_or(inputs, "method", "GET");
        let body: Vec<u8> = match get(inputs, "body") {
            Some(Json::Str(s)) => bytes_of(s.as_str()),
            Some(v) => {
                if matches!(v, Json::Null) {
                    Vec::new()
                } else {
                    let t = to_text(v);
                    bytes_of(t.as_str())
                }
            },
            None => Vec::new(),
        };
        let headers = match get(inputs, "headers") {
            Some(Json::Object(es)) => string_headers(es),
            _ => Vec::new(),
        };
        Ok(HttpRequest { url, method, body, headers })
    }

    /// The method to send: the given one in upper case, when it is one of
    /// `GET`, `POST`, `PUT` and `DELETE`. `GET` and `DELETE` send no body.
    pub fn method_of(&self, method: &str) -> (r: Result<HttpMethod, OperatorError>)
        ensures
            match r {
                Ok(m) => m == (if uppercase(method@) == "GET"@ {
                    HttpMethod::Get
                } else if uppercase(method@) == "POST"@ {
                    HttpMethod::Post
                } else if uppercase(method@) == "PUT"@ {
                    HttpMethod::Put
                } else {
                    HttpMethod::Delete
                }),
                Err(e) => e matches OperatorError::Config(m) && m@ == "不支持 HTTP 方法: "@ + method@,
            },
            r is Ok <==> (uppercase(method@) == "GET"@ || uppercase(method@) == "POST"@ || uppercase(method@)
                == "PUT"@ || uppercase(method@) == "DELETE"@),
    {
        let upper = to_uppercase(method);
        if str_is(upper.as_str(), "GET") {
            Ok(HttpMethod::Get)
        } else if str_is(upper.as_str(), "POST") {
            Ok(HttpMethod::Post)
        } else if str_is(upper.as_str(), "PUT") {
            Ok(HttpMethod::Put)
        } else if str_is(upper.as_str(), "DELETE") {
            Ok(HttpMethod::Delete)
        } else {
            let mut m = String::new();
            push_str(&mut m, "不支持 HTTP 方法: ");
            push_str(&mut m, method);
            Err(OperatorError::Config(m))
        }
    }

    /// The operator's output for a reply: `{"body": ..., "status": ...}`.
    pub fn output(&self, status: u16, body: String) -> (r: Json)
        ensures
            jv(r) == JsonV::Object(seq![("body"@, JsonV::Str(body@)), ("status"@, JsonV::Int(status as int))]),
    {
        let mut es: Vec<(String, Json)> = Vec::new();
        es.push((to_string("body"), Json::Str(body)));
        es.push((to_string("status"), Json::Number(JsonNumber::Int(status as i128))));
        let r = Json::Object(es);
        proof {
            crate::dsl::refs::lemma_jv_object(r);
            assert(crate::dsl::refs::entries_jv(es@) =~= seq![("body"@, JsonV::Str(body@)), ("status"@, JsonV::Int(status as int))]);
        }
        r
    }
}

} // verus!
