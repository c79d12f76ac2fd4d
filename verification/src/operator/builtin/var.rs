//! `var`: a variable placeholder; its inputs become its output, for later
//! steps to refer to.

use vstd::prelude::*;
use crate::json::Json;
use crate::operator::types::{OperatorError, OperatorSpec};

verus! {

pub struct VarOperator;

impl VarOperator {
    pub fn spec(&self) -> (r: OperatorSpec)
        ensures
            r.op_type@ == "var"@,
            r.description@ == "变量占位——将输入序列化输出，供下游引用"@,
            !r.iterate,
            r.cache,
    {
        OperatorSpec::new("var", "变量占位——将输入序列化输出，供下游引用")
    }

    pub fn run(&self, inputs: Json) -> (r: Result<Json, OperatorError>)
        ensures
            r == Ok::<Json, OperatorError>(inputs),
    {
        Ok(inputs)
    }
}

} // verus!
