//! The built-in operators.

use vstd::prelude::*;
use crate::json::{Json, JsonNumber, JsonV, jv, json_wf, dyadic_order, get, get_field, find_key};
use crate::number::{compare_numbers, num_order};
use crate::text::{Order, chars_of, to_string};
use crate::dsl::refs::str_is;

pub mod filter;
pub mod sort;
pub mod dedup;
pub mod merge;
pub mod noop;
pub mod var;
pub mod split;
pub mod base64;
pub mod http_client;
pub mod http;
pub mod js;
pub mod file;
pub mod llm;
pub mod command;
pub mod fork;

verus! {

/// The built-in operators, by name.
#[derive(Debug, Clone, Copy, PartialEq, Eq, Structural)]
pub enum Builtin {
    Noop,
    Filter,
    Sort,
    Dedup,
    Merge,
    Base64,
    Http,
    Js,
    File,
    Command,
    Llm,
    Var,
}

pub open spec fn builtin_named(name: Seq<char>) -> Option<Builtin> {
    if name == "noop"@ {
        Some(Builtin::Noop)
    } else if name == "filter"@ {
        Some(Builtin::Filter)
    } else if name == "sort"@ {
        Some(Builtin::Sort)
    } else if name == "dedup"@ {
        Some(Builtin::Dedup)
    } else if name == "merge"@ {
        Some(Builtin::Merge)
    } else if name == "base64"@ {
        Some(Builtin::Base64)
    } else if name == "http"@ {
        Some(Builtin::Http)
    } else if name == "js"@ {
        Some(Builtin::Js)
    } else if name == "file"@ {
        Some(Builtin::File)
    } else if name == "command"@ {
        Some(Builtin::Command)
    } else if name == "llm"@ {
        Some(Builtin::Llm)
    } else if name == "var"@ {
        Some(Builtin::Var)
    } else {
        None
    }
}

/// The name of a built-in operator.
pub open spec fn builtin_name(b: Builtin) -> Seq<char> {
    match b {
        Builtin::Noop => "noop"@,
        Builtin::Filter => "filter"@,
        Builtin::Sort => "sort"@,
        Builtin::Dedup => "dedup"@,
        Builtin::Merge => "merge"@,
        Builtin::Base64 => "base64"@,
        Builtin::Http => "http"@,
        Builtin::Js => "js"@,
        Builtin::File => "file"@,
        Builtin::Command => "command"@,
        Builtin::Llm => "llm"@,
        Builtin::Var => "var"@,
    }
}

/// Looking up an operator by the name it is registered under gives it
/// back: `get_builtin(b.spec().op_type)` is `b`.
pub proof fn lemma_builtin_name_round_trip(b: Builtin)
    ensures
        builtin_named(builtin_name(b)) == Some(b),
{
    reveal_strlit("noop");
    reveal_strlit("filter");
    reveal_strlit("sort");
    reveal_strlit("dedup");
    reveal_strlit("merge");
    reveal_strlit("base64");
    reveal_strlit("http");
    reveal_strlit("js");
    reveal_strlit("file");
    reveal_strlit("command");
    reveal_strlit("llm");
    reveal_strlit("var");
    assert("noop"@.len() == 4 && "filter"@.len() == 6 && "sort"@.len() == 4 && "dedup"@.len() == 5);
    assert("merge"@.len() == 5 && "base64"@.len() == 6 && "http"@.len() == 4 && "js"@.len() == 2);
    assert("file"@.len() == 4 && "command"@.len() == 7 && "llm"@.len() == 3 && "var"@.len() == 3);
    assert("noop"@[0] == 'n' && "sort"@[0] == 's' && "http"@[0] == 'h' && "file"@[0] == 'f');
    assert("dedup"@[0] == 'd' && "merge"@[0] == 'm' && "filter"@[0] == 'f' && "base64"@[0] == 'b');
    assert("llm"@[0] == 'l' && "var"@[0] == 'v');
}

/// The description of a built-in operator.
pub open spec fn builtin_description(b: Builtin) -> Seq<char> {
    match b {
        Builtin::Noop => "直接透传输入"@,
        Builtin::Filter => "按条件过滤数组元素"@,
        Builtin::Sort => "按字段排序数组"@,
        Builtin::Dedup => "按字段去重数组"@,
        Builtin::Merge => "合并两个对象"@,
        Builtin::Base64 => "Base64 编解码"@,
        Builtin::Http => "HTTP 请求"@,
        Builtin::Js => "JS 自定义算子 (rquickjs)"@,
        Builtin::File => "读取本地文件或远程 URL，产出 JSON 对象"@,
        Builtin::Command => "执行 shell 命令"@,
        Builtin::Llm => "OpenAI 兼容的 LLM 推理，返回文本内容"@,
        Builtin::Var => "变量占位——将输入序列化输出，供下游引用"@,
    }
}

/// Whether a built-in operator's results are cached unless a step says
/// otherwise: all but those that reach outside (http, file, command, llm).
pub open spec fn builtin_caches(b: Builtin) -> bool {
    !(b is Http || b is File || b is Command || b is Llm)
}

impl Builtin {
    /// The operator's description: its `spec()`, whose type is the name it
    /// is registered under.
    pub fn spec(self) -> (r: crate::operator::types::OperatorSpec)
        ensures
            r.op_type@ == builtin_name(self),
            r.description@ == builtin_description(self),
            !r.iterate,
            r.cache == builtin_caches(self),
    {
        match self {
            Builtin::Noop => noop::NoopOperator.spec(),
            Builtin::Filter => filter::FilterOperator.spec(),
            Builtin::Sort => sort::SortOperator.spec(),
            Builtin::Dedup => dedup::DedupOperator.spec(),
            Builtin::Merge => merge::MergeOperator.spec(),
            Builtin::Base64 => base64::Base64Operator.spec(),
            Builtin::Http => http::HttpOperator.spec(),
            Builtin::Js => js::JsOperator.spec(),
            Builtin::File => file::FileOperator.spec(),
            Builtin::Command => command::CommandOperator.spec(),
            Builtin::Llm => llm::LlmOperator.spec(),
            Builtin::Var => var::VarOperator.spec(),
        }
    }
}

/// Whether a step's results are cached: as the step says, else as its
/// operator does by default (see `builtin_caches`).
pub fn step_caches(step_cache: Option<bool>, b: Builtin) -> (r: bool)
    ensures
        r == match step_cache {
            Some(c) => c,
            None => builtin_caches(b),
        },
{
    match step_cache {
        Some(c) => c,
        None => b.spec().cache,
    }
}

/// The built-in operator with the given name.
pub fn get_builtin(name: &str) -> (r: Option<Builtin>)
    ensures
        r == builtin_named(name@),
{
    if str_is(name, "noop") {
        Some(Builtin::Noop)
    } else if str_is(name, "filter") {
        Some(Builtin::Filter)
    } else if str_is(name, "sort") {
        Some(Builtin::Sort)
    } else if str_is(name, "dedup") {
        Some(Builtin::Dedup)
    } else if str_is(name, "merge") {
        Some(Builtin::Merge)
    } else if str_is(name, "base64") {
        Some(Builtin::Base64)
    } else if str_is(name, "http") {
        Some(Builtin::Http)
    } else if str_is(name, "js") {
        Some(Builtin::Js)
    } else if str_is(name, "file") {
        Some(Builtin::File)
    } else if str_is(name, "command") {
        Some(Builtin::Command)
    } else if str_is(name, "llm") {
        Some(Builtin::Llm)
    } else if str_is(name, "var") {
        Some(Builtin::Var)
    } else {
        None
    }
}

/// A string input, if the key holds a string.
pub open spec fn get_str(inputs: Json, k: Seq<char>) -> Option<Seq<char>> {
    match get_field(inputs, k) {
        Some(Json::Str(s)) => Some(s@),
        _ => None,
    }
}

/// The data: the `data` entry of an object (absent or null counts as
/// missing), or the inputs themselves when they are not an object.
pub open spec fn data_of(inputs: Json) -> Option<Json> {
    match inputs {
        Json::Object(_) => match get_field(inputs, "data"@) {
            Some(v) => if matches!(v, Json::Null) {
                None
            } else {
                Some(v)
            },
            None => None,
        },
        _ => Some(inputs),
    }
}

/// The elements: an array's items, or the single value.
pub open spec fn elements(data: Json) -> Seq<Json> {
    match data {
        Json::Array(v) => v@,
        _ => seq![data],
    }
}

/// The string under `key`, or `default` when there is none.
pub fn str_or(inputs: &Json, key: &str, default: &str) -> (r: String)
    ensures
        r@ == match get_str(*inputs, key@) {
            Some(s) => s,
            None => default@,
        },
{
    match get(inputs, key) {
        Some(Json::Str(s)) => to_string(s.as_str()),
        _ => to_string(default),
    }
}

/// Takes the data out of the inputs (see `data_of`).
pub fn take_data(inputs: Json) -> (r: Option<Json>)
    ensures
        r == data_of(inputs),
{
    match inputs {
        Json::Object(es) => {
            let mut es = es;
            let k = chars_of("data");
            match find_key(&es, &k) {
                Some(ix) => {
                    let (_, v) = es.remove(ix);
                    if matches!(v, Json::Null) {
                        None
                    } else {
                        Some(v)
                    }
                },
                None => None,
            }
        },
        other => Some(other),
    }
}

/// The items to work on: an array's items, or the single value.
pub fn into_items(data: Json) -> (r: Vec<Json>)
    ensures
        r@ == elements(data),
{
    match data {
        Json::Array(a) => a,
        other => vec![other],
    }
}

/// The exact order of two numbers; no order unless both are numbers.
pub open spec fn number_order(a: JsonV, b: JsonV) -> Option<Order> {
    match (a, b) {
        (JsonV::Int(x), JsonV::Int(y)) => Some(dyadic_order(x, 0, y, 0)),
        (JsonV::Int(x), JsonV::Float(m, e, _)) => Some(dyadic_order(x, 0, m, e)),
        (JsonV::Float(m, e, _), JsonV::Int(y)) => Some(dyadic_order(m, e, y, 0)),
        (JsonV::Float(m1, e1, _), JsonV::Float(m2, e2, _)) => Some(dyadic_order(m1, e1, m2, e2)),
        _ => None,
    }
}

/// Compares two numbers exactly (integers and floats alike, no rounding).
pub fn compare_json_numbers(a: &Json, b: &Json) -> (r: Option<Order>)
    requires
        json_wf(*a),
        json_wf(*b),
    ensures
        r == number_order(jv(*a), jv(*b)),
{
    match (a, b) {
        (Json::Number(x), Json::Number(y)) => Some(compare_numbers(x, y)),
        _ => None,
    }
}

} // verus!
