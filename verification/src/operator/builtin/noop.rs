//! `noop`: hands its inputs on unchanged.

use vstd::prelude::*;
use crate::json::Json;
use crate::operator::types::{OperatorError, OperatorSpec};

verus! {

pub struct NoopOperator;

impl NoopOperator {
    pub fn spec(&self) -> (r: OperatorSpec)
        ensures
            r.op_type@ == "noop"@,
            r.description@ == "直接透传输入"@,
            !r.iterate,
            r.cache,
    {
        OperatorSpec::new("noop", "直接透传输入")
    }

    pub fn run(&self, inputs: Json) -> (r: Result<Json, OperatorError>)
        ensures
            r == Ok::<Json, OperatorError>(inputs),
    {
        Ok(inputs)
    }
}

} // verus!
