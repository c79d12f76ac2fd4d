//! `js`: runs a user's JavaScript `run` function on the data. The library
//! reads the call from the inputs and reads back its outcome; the script
//! itself runs in the caller's JavaScript engine.

use vstd::prelude::*;
use crate::json::{Json, json_clone, jv, get, get_field};
use crate::text::{to_string, push_str};
use crate::operator::types::{OperatorError, OperatorSpec};
use crate::operator::builtin::get_str;

verus! {

pub struct JsOperator;

impl JsOperator {
    pub fn spec(&self) -> (r: OperatorSpec)
        ensures
            r.op_type@ == "js"@,
            r.description@ == "JS 自定义算子 (rquickjs)"@,
            !r.iterate,
            r.cache,
    {
        OperatorSpec::new("js", "JS 自定义算子 (rquickjs)")
    }

    /// The script and the data to call its `run` function with: `code` must
    /// be a string; `data` is `null` when absent.
    pub fn call(&self, inputs: &Json) -> (r: Result<(String, Json), OperatorError>)
        ensures
            match get_str(*inputs, "code"@) {
                None => r matches Err(OperatorError::Config(m)) && m@ == "JS code 字段缺失或不是字符串"@,
                Some(c) => r matches Ok((code, data)) && code@ == c && jv(data) == jv(
                    match get_field(*inputs, "data"@) {
                        Some(d) => d,
                        None => Json::Null,
                    },
                ),
            },
    {
        let code = match get(inputs, "code") {
            Some(Json::Str(c)) => to_string(c.as_str()),
            _ => {
                return Err(OperatorError::Config(to_string("JS code 字段缺失或不是字符串")));
            },
        };
        let data = match get(inputs, "data") {
            Some(d) => json_clone(d),
            None => Json::Null,
        };
        Ok((code, data))
    }

    /// The operator's result for what the script returned or the error it raised.
    pub fn outcome(&self, result: Result<Json, String>) -> (r: Result<Json, OperatorError>)
        ensures
            match result {
                Ok(v) => r == Ok::<Json, OperatorError>(v),
                Err(e) => r matches Err(OperatorError::Runtime(m)) && m@ == "JS: "@ + e@,
            },
    {
        match result {
            Ok(v) => Ok(v),
            Err(e) => {
                let mut m = String::new();
                push_str(&mut m, "JS: ");
                push_str(&mut m, e.as_str());
                Err(OperatorError::Runtime(m))
            },
        }
    }
}

} // verus!
