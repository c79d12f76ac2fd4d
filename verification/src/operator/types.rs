//! What an operator declares of itself, and how it fails.

use vstd::prelude::*;
use crate::text::to_string;

verus! {

/// An operator's type name, description and defaults.
#[derive(Debug, Clone)]
pub struct OperatorSpec {
    pub op_type: String,
    pub description: String,
    /// Whether the operator handles iteration itself.
    pub iterate: bool,
    /// Whether its results are cached by default.
    pub cache: bool,
}

impl OperatorSpec {
    /// A spec that does not iterate and caches.
    pub fn new(op_type: &str, description: &str) -> (r: OperatorSpec)
        ensures
            r.op_type@ == op_type@,
            r.description@ == description@,
            !r.iterate,
            r.cache,
    {
        OperatorSpec { op_type: to_string(op_type), description: to_string(description), iterate: false, cache: true }
    }

    pub fn with_iterate(self, yes: bool) -> (r: OperatorSpec)
        ensures
            r.op_type@ == self.op_type@,
            r.description@ == self.description@,
            r.iterate == yes,
            r.cache == self.cache,
    {
        OperatorSpec { iterate: yes, ..self }
    }

    pub fn with_cache(self, yes: bool) -> (r: OperatorSpec)
        ensures
            r.op_type@ == self.op_type@,
            r.description@ == self.description@,
            r.iterate == self.iterate,
            r.cache == yes,
    {
        OperatorSpec { cache: yes, ..self }
    }
}

/// Why an operator failed.
#[derive(Debug, Clone)]
pub enum OperatorError {
    /// The operator ran and failed.
    Runtime(String),
    /// The inputs were not usable.
    Config(String),
    /// The operator did not finish in time.
    Timeout,
}

pub open spec fn operator_error_text(e: OperatorError) -> Seq<char> {
    match e {
        OperatorError::Runtime(m) => "runtime error: "@ + m@,
        OperatorError::Config(m) => "config error: "@ + m@,
        OperatorError::Timeout => "operator timeout"@,
    }
}

impl OperatorError {
    /// The error's message.
    pub fn to_text(&self) -> (r: String)
        ensures
            r@ == operator_error_text(*self),
    {
        let mut s = String::new();
        match self {
            OperatorError::Runtime(m) => {
                crate::text::push_str(&mut s, "runtime error: ");
                crate::text::push_str(&mut s, m.as_str());
            },
            OperatorError::Config(m) => {
                crate::text::push_str(&mut s, "config error: ");
                crate::text::push_str(&mut s, m.as_str());
            },
            OperatorError::Timeout => crate::text::push_str(&mut s, "operator timeout"),
        }
        assert(s@ =~= operator_error_text(*self));
        s
    }
}

} // verus!
