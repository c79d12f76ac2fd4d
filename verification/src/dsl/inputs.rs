//! Reading a step's operator and its inputs from a pipeline document.

use vstd::prelude::*;
use crate::json::{Json, JsonNumber, JsonV, jv, get, get_field};
use crate::text::to_string;
use crate::float::FloatValue;
use crate::dsl::refs::str_is;
use crate::dsl::variable::RefValue;
use crate::dsl::step::{StepOp, HttpInputs, JsInputs, FilterInputs, SortInputs, DedupInputs, MergeInputs, Base64Inputs, FileInputs, CommandInputs, LlmInputs, VarInputs};
use crate::dsl::raw::{ref_rel, present, str_field, req_str_field, bool_field, uint_field, num_field, missing, wrong_type, opt_string, req_string, opt_bool, opt_u64, opt_number, opt_ref, req_ref, yaml_to_refvalue};

verus! {

/// The first of two errors.
pub open spec fn first_err(a: Option<Seq<char>>, b: Option<Seq<char>>) -> Option<Seq<char>> {
    if a is Some {
        a
    } else {
        b
    }
}

pub open spec fn err_of<T>(r: Result<T, Seq<char>>) -> Option<Seq<char>> {
    match r {
        Err(e) => Some(e),
        Ok(_) => None,
    }
}

/// An optional input value read as `opt_ref` reads it.
pub open spec fn opt_rel(j: Json, k: Seq<char>, r: Option<RefValue>) -> bool {
    match present(j, k) {
        None => r is None,
        Some(v) => r matches Some(x) && ref_rel(v, x),
    }
}

/// An optional string read as `opt_string` reads it.
pub open spec fn ostr_rel(j: Json, k: Seq<char>, r: Option<String>) -> bool {
    match str_field(j, k) {
        Ok(Some(s)) => r matches Some(x) && x@ == s,
        _ => r is None,
    }
}

/// A string with a default.
pub open spec fn dstr_rel(j: Json, k: Seq<char>, d: Seq<char>, r: String) -> bool {
    match str_field(j, k) {
        Ok(Some(s)) => r@ == s,
        _ => r@ == d,
    }
}

/// An optional number as a float setting.
pub open spec fn onum_rel(n: Result<Option<JsonNumber>, Seq<char>>, r: Option<FloatValue>) -> bool {
    match n {
        Ok(Some(x)) => r matches Some(FloatValue::Finite(y)) && jv(Json::Number(y)) == jv(Json::Number(x)),
        _ => r is None,
    }
}

/// A timeout: `timeout_sec`, or its alias `timeout`.
pub open spec fn timeout_field(j: Json) -> Result<Option<JsonNumber>, Seq<char>> {
    if present(j, "timeout_sec"@) is Some {
        num_field(j, "timeout_sec"@)
    } else {
        num_field(j, "timeout"@)
    }
}

/// The header entries whose values are read as input values, in key order.
pub open spec fn headers_rel(es: Seq<(String, Json)>, r: Seq<(String, RefValue)>) -> bool {
    r.len() == es.len() && forall|i: int| 0 <= i < es.len() ==> (#[trigger] r[i]).0@ == es[i].0@ && ref_rel(es[i].1, r[i].1)
}

/// The error in a step's inputs for an operator, if any.
pub open spec fn inputs_err(t: Seq<char>, inp: Json) -> Option<Seq<char>> {
    if t == "http"@ {
        first_err(
            if get_field(inp, "url"@) is None { Some(missing("url"@)) } else { None },
            first_err(
                err_of(str_field(inp, "method"@)),
                match present(inp, "headers"@) {
                    Some(h) => if h is Object { None } else { Some(wrong_type("headers"@, "a mapping"@)) },
                    None => None,
                },
            ),
        )
    } else if t == "js"@ {
        first_err(
            if get_field(inp, "code"@) is None { Some(missing("code"@)) } else { None },
            err_of(timeout_field(inp)),
        )
    } else if t == "filter"@ {
        first_err(err_of(str_field(inp, "operator"@)), err_of(str_field(inp, "field"@)))
    } else if t == "sort"@ {
        first_err(err_of(str_field(inp, "field"@)), err_of(str_field(inp, "order"@)))
    } else if t == "dedup"@ {
        err_of(str_field(inp, "field"@))
    } else if t == "merge"@ {
        if get_field(inp, "b"@) is None { Some(missing("b"@)) } else { None }
    } else if t == "base64"@ {
        err_of(str_field(inp, "mode"@))
    } else if t == "command"@ {
        first_err(
            if get_field(inp, "command"@) is None { Some(missing("command"@)) } else { None },
            err_of(str_field(inp, "shell"@)),
        )
    } else if t == "llm"@ {
        first_err(
            if get_field(inp, "url"@) is None { Some(missing("url"@)) } else { None },
            first_err(
                err_of(req_str_field(inp, "model"@)),
                first_err(
                    if get_field(inp, "prompt"@) is None { Some(missing("prompt"@)) } else { None },
                    first_err(
                        err_of(str_field(inp, "image_type"@)),
                        first_err(
                            err_of(uint_field(inp, "max_tokens"@, 0x1_0000_0000_0000_0000)),
                            first_err(
                                err_of(num_field(inp, "temperature"@)),
                                err_of(bool_field(inp, "skip_vision_check"@)),
                            ),
                        ),
                    ),
                ),
            ),
        )
    } else {
        None
    }
}

/// The operator and inputs read from a step's inputs, for an operator.
pub open spec fn inputs_rel(t: Seq<char>, inp: Json, op: StepOp) -> bool {
    if t == "http"@ {
        op matches StepOp::Http(x) && ref_rel(get_field(inp, "url"@)->Some_0, x.url) && ostr_rel(inp, "method"@, x.method)
            && opt_rel(inp, "body"@, x.body) && match present(inp, "headers"@) {
            Some(Json::Object(es)) => x.headers matches Some(hs) && headers_rel(es@, hs@),
            _ => x.headers is None,
        }
    } else if t == "js"@ {
        op matches StepOp::Js(x) && ref_rel(get_field(inp, "code"@)->Some_0, x.code) && opt_rel(inp, "data"@, x.data)
            && onum_rel(timeout_field(inp), x.timeout_sec)
    } else if t == "filter"@ {
        op matches StepOp::Filter(x) && opt_rel(inp, "data"@, x.data) && dstr_rel(inp, "operator"@, "eq"@, x.operator)
            && ostr_rel(inp, "field"@, x.field) && opt_rel(inp, "value"@, x.value)
    } else if t == "sort"@ {
        op matches StepOp::Sort(x) && opt_rel(inp, "data"@, x.data) && ostr_rel(inp, "field"@, x.field) && dstr_rel(
            inp,
            "order"@,
            "asc"@,
            x.order,
        )
    } else if t == "dedup"@ {
        op matches StepOp::Dedup(x) && opt_rel(inp, "data"@, x.data) && ostr_rel(inp, "field"@, x.field)
    } else if t == "merge"@ {
        op matches StepOp::Merge(x) && ref_rel(get_field(inp, "b"@)->Some_0, x.b) && opt_rel(inp, "a"@, x.a)
    } else if t == "base64"@ {
        op matches StepOp::Base64(x) && opt_rel(inp, "data"@, x.data) && ostr_rel(inp, "mode"@, x.mode)
    } else if t == "noop"@ {
        op is Noop
    } else if t == "var"@ {
        op matches StepOp::Var(x) && opt_rel(inp, "value"@, x.value)
    } else if t == "file"@ {
        op matches StepOp::File(x) && opt_rel(inp, "path"@, x.path) && opt_rel(inp, "url"@, x.url)
    } else if t == "command"@ {
        op matches StepOp::Command(x) && ref_rel(get_field(inp, "command"@)->Some_0, x.command) && ostr_rel(
            inp,
            "shell"@,
            x.shell,
        ) && opt_rel(inp, "stdin"@, x.stdin)
    } else {
        op matches StepOp::Llm(x) && ref_rel(get_field(inp, "url"@)->Some_0, x.url) && Ok::<Seq<char>, Seq<char>>(x.model@)
            == req_str_field(inp, "model"@) && ref_rel(get_field(inp, "prompt"@)->Some_0, x.prompt) && opt_rel(
            inp,
            "system"@,
            x.system,
        ) && opt_rel(inp, "images_b64"@, x.images_b64) && ostr_rel(inp, "image_type"@, x.image_type)
            && x.max_tokens as int == match uint_field(inp, "max_tokens"@, 0x1_0000_0000_0000_0000) {
            Ok(Some(n)) => n,
            _ => 4096,
        } && onum_rel(num_field(inp, "temperature"@), x.temperature) && match bool_field(inp, "skip_vision_check"@) {
            Ok(b) => x.skip_vision_check == b,
            _ => false,
        } && opt_rel(inp, "api_key"@, x.api_key)
    }
}

/// The operator names.
pub open spec fn known_op(t: Seq<char>) -> bool {
    t == "http"@ || t == "js"@ || t == "filter"@ || t == "sort"@ || t == "dedup"@ || t == "merge"@ || t == "base64"@
        || t == "noop"@ || t == "var"@ || t == "file"@ || t == "command"@ || t == "llm"@
}

fn string_with_default(j: &Json, k: &str, d: &str) -> (r: String)
    requires
        str_field(*j, k@) is Ok,
    ensures
        dstr_rel(*j, k@, d@, r),
{
    match opt_string(j, k) {
        Ok(Some(s)) => s,
        _ => to_string(d),
    }
}

fn timeout_of(inp: &Json) -> (r: Result<Option<FloatValue>, String>)
    ensures
        match timeout_field(*inp) {
            Err(e) => r matches Err(m) && m@ == e,
            Ok(_) => r matches Ok(x) && onum_rel(timeout_field(*inp), x),
        },
{
    let key = match get(inp, "timeout_sec") {
        Some(Json::Null) | None => "timeout",
        Some(_) => "timeout_sec",
    };
    proof {
        reveal_strlit("timeout");
        reveal_strlit("timeout_sec");
    }
    match opt_number(inp, key) {
        Ok(Some(n)) => Ok(Some(FloatValue::Finite(n))),
        Ok(None) => Ok(None),
        Err(e) => Err(e),
    }
}

fn headers_of(es: &Vec<(String, Json)>) -> (r: Vec<(String, RefValue)>)
    ensures
        headers_rel(es@, r@),
{
    let mut r: Vec<(String, RefValue)> = Vec::new();
    let mut i: usize = 0;
    while i < es.len()
        invariant
            i <= es@.len(),
            r@.len() == i,
            forall|k: int| 0 <= k < i ==> (#[trigger] r@[k]).0@ == es@[k].0@ && ref_rel(es@[k].1, r@[k].1),
        decreases es@.len() - i,
    {
        r.push((to_string(es[i].0.as_str()), yaml_to_refvalue(&es[i].1)));
        i = i + 1;
    }
    r
}

fn need(j: &Json, k: &str) -> (r: Result<(), String>)
    ensures
        get_field(*j, k@) is None ==> (r matches Err(m) && m@ == missing(k@)),
        get_field(*j, k@) is Some ==> r is Ok,
{
    match req_ref(j, k) {
        Ok(_) => Ok(()),
        Err(e) => Err(e),
    }
}

/// Reads the inputs of a step whose operator is `t` (one of the known names).
pub fn read_inputs(t: &str, inp: &Json) -> (r: Result<StepOp, String>)
    requires
        known_op(t@),
    ensures
        match inputs_err(t@, *inp) {
            Some(e) => r matches Err(m) && m@ == e,
            None => r matches Ok(op) && inputs_rel(t@, *inp, op),
        },
{
    proof {
        reveal_strlit("noop");
        reveal_strlit("var");
        reveal_strlit("file");
        reveal_strlit("command");
        reveal_strlit("llm");
        assert("var"@[0] != "llm"@[0]);
        assert("noop"@.len() != "command"@.len() && "noop"@.len() != "llm"@.len());
        assert("file"@.len() != "command"@.len() && "file"@.len() != "llm"@.len());
        assert("var"@.len() != "command"@.len());
    }
    if str_is(t, "http") {
        let url = match req_ref(inp, "url") {
            Ok(v) => v,
            Err(e) => {
                return Err(e);
            },
        };
        let method = match opt_string(inp, "method") {
            Ok(v) => v,
            Err(e) => {
                return Err(e);
            },
        };
        let headers = match get(inp, "headers") {
            Some(Json::Null) | None => None,
            Some(Json::Object(es)) => Some(headers_of(es)),
            Some(_) => {
                return Err(crate::dsl::raw::wrong_type_msg("headers", "a mapping"));
            },
        };
        let body = opt_ref(inp, "body");
        Ok(StepOp::Http(HttpInputs { url, method, headers, body }))
    } else if str_is(t, "js") {
        let code = match req_ref(inp, "code") {
            Ok(v) => v,
            Err(e) => {
                return Err(e);
            },
        };
        let timeout_sec = match timeout_of(inp) {
            Ok(v) => v,
            Err(e) => {
                return Err(e);
            },
        };
        let data = opt_ref(inp, "data");
        Ok(StepOp::Js(JsInputs { code, data, timeout_sec }))
    } else if str_is(t, "filter") {
        let _ = match opt_string(inp, "operator") {
            Ok(v) => v,
            Err(e) => {
                return Err(e);
            },
        };
        let field = match opt_string(inp, "field") {
            Ok(v) => v,
            Err(e) => {
                return Err(e);
            },
        };
        let operator = string_with_default(inp, "operator", "eq");
        Ok(StepOp::Filter(FilterInputs { data: opt_ref(inp, "data"), operator, field, value: opt_ref(inp, "value") }))
    } else if str_is(t, "sort") {
        let field = match opt_string(inp, "field") {
            Ok(v) => v,
            Err(e) => {
                return Err(e);
            },
        };
        let _ = match opt_string(inp, "order") {
            Ok(v) => v,
            Err(e) => {
                return Err(e);
            },
        };
        let order = string_with_default(inp, "order", "asc");
        Ok(StepOp::Sort(SortInputs { data: opt_ref(inp, "data"), field, order }))
    } else if str_is(t, "dedup") {
        let field = match opt_string(inp, "field") {
            Ok(v) => v,
            Err(e) => {
                return Err(e);
            },
        };
        Ok(StepOp::Dedup(DedupInputs { data: opt_ref(inp, "data"), field }))
    } else if str_is(t, "merge") {
        let b = match req_ref(inp, "b") {
            Ok(v) => v,
            Err(e) => {
                return Err(e);
            },
        };
        Ok(StepOp::Merge(MergeInputs { b, a: opt_ref(inp, "a") }))
    } else if str_is(t, "base64") {
        let mode = match opt_string(inp, "mode") {
            Ok(v) => v,
            Err(e) => {
                return Err(e);
            },
        };
        Ok(StepOp::Base64(Base64Inputs { data: opt_ref(inp, "data"), mode }))
    } else if str_is(t, "noop") {
        Ok(StepOp::Noop)
    } else if str_is(t, "var") {
        Ok(StepOp::Var(VarInputs { value: opt_ref(inp, "value") }))
    } else if str_is(t, "file") {
        Ok(StepOp::File(FileInputs { path: opt_ref(inp, "path"), url: opt_ref(inp, "url") }))
    } else if str_is(t, "command") {
        let command = match req_ref(inp, "command") {
            Ok(v) => v,
            Err(e) => {
                return Err(e);
            },
        };
        let shell = match opt_string(inp, "shell") {
            Ok(v) => v,
            Err(e) => {
                return Err(e);
            },
        };
        Ok(StepOp::Command(CommandInputs { command, shell, stdin: opt_ref(inp, "stdin") }))
    } else {
        let url = match req_ref(inp, "url") {
            Ok(v) => v,
            Err(e) => {
                return Err(e);
            },
        };
        let model = match req_string(inp, "model") {
            Ok(v) => v,
            Err(e) => {
                return Err(e);
            },
        };
        let prompt = match req_ref(inp, "prompt") {
            Ok(v) => v,
            Err(e) => {
                return Err(e);
            },
        };
        let image_type = match opt_string(inp, "image_type") {
            Ok(v) => v,
            Err(e) => {
                return Err(e);
            },
        };
        let mt = match opt_u64(inp, "max_tokens") {
            Ok(v) => v,
            Err(e) => {
                return Err(e);
            },
        };
        let max_tokens = match mt {
            Some(n) => n,
            None => 4096,
        };
        let tn = match opt_number(inp, "temperature") {
            Ok(v) => v,
            Err(e) => {
                return Err(e);
            },
        };
        let temperature = match tn {
            Some(n) => Some(FloatValue::Finite(n)),
            None => None,
        };
        let skip_vision_check = match opt_bool(inp, "skip_vision_check") {
            Ok(v) => v,
            Err(e) => {
                return Err(e);
            },
        };
        Ok(
            StepOp::Llm(
                LlmInputs {
                    url,
                    model,
                    prompt,
                    system: opt_ref(inp, "system"),
                    images_b64: opt_ref(inp, "images_b64"),
                    image_type,
                    max_tokens,
                    temperature,
                    skip_vision_check,
                    api_key: opt_ref(inp, "api_key"),
                },
            ),
        )
    }
}

} // verus!
