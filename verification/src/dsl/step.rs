//! Step definitions: identity, dependencies, iteration, retry, timeout and
//! the operator with its inputs.

use vstd::prelude::*;
use crate::dsl::variable::{RefValue, VariablePath};
use crate::float::FloatValue;
use crate::text::{chars_of, chars_eq};

verus! {

/// A step identifier.
#[derive(Debug, Clone, PartialEq, Eq)]
pub struct StepId(pub String);

impl StepId {
    pub fn new(s: &str) -> (r: StepId)
        ensures
            r.0@ == s@,
    {
        StepId(crate::text::to_string(s))
    }

    pub fn as_str(&self) -> (r: &str)
        ensures
            r@ == self.0@,
    {
        self.0.as_str()
    }

    /// Same identifier.
    pub fn same(&self, other: &StepId) -> (r: bool)
        ensures
            r == (self.0@ == other.0@),
    {
        let a = chars_of(self.0.as_str());
        let b = chars_of(other.0.as_str());
        chars_eq(&a, &b)
    }
}

pub open spec fn ids_view(v: Seq<StepId>) -> Seq<Seq<char>> {
    v.map_values(|s: StepId| s.0@)
}

/// Retry back-off: a fixed delay, or one that doubles on each attempt.
#[derive(Debug, Clone, Copy, PartialEq, Eq, Structural)]
pub enum BackoffStrategy {
    Fixed,
    Exponential,
}

impl BackoffStrategy {
    /// The default back-off is `Fixed`.
    pub fn default_strategy() -> (r: BackoffStrategy)
        ensures
            r == BackoffStrategy::Fixed,
    {
        BackoffStrategy::Fixed
    }
}

/// Retry settings.
#[derive(Debug, Clone, Copy, PartialEq, Eq, Structural)]
pub struct RetryDef {
    pub max_attempts: u32,
    pub backoff: BackoffStrategy,
    pub delay_ms: u64,
}

/// One attempt unless told otherwise.
pub fn default_max_attempts() -> (r: u32)
    ensures
        r == 1,
{
    1
}

/// One second between attempts unless told otherwise.
pub fn default_delay_ms() -> (r: u64)
    ensures
        r == 1000,
{
    1000
}

/// Batching of iterated elements: `size` elements per operator call.
#[derive(Debug, Clone, Copy, PartialEq, Eq, Structural)]
pub struct BatchConfig {
    pub size: u32,
}

/// Iteration of a step over the elements of an array.
#[derive(Debug, Clone)]
pub struct IterateConfig {
    pub over: VariablePath,
    pub as_name: String,
    pub max_workers: Option<u32>,
    pub batch: Option<BatchConfig>,
}

#[derive(Debug, Clone)]
pub struct HttpInputs {
    pub url: RefValue,
    pub method: Option<String>,
    /// Header entries in increasing order of name, each name once.
    pub headers: Option<Vec<(String, RefValue)>>,
    pub body: Option<RefValue>,
}

#[derive(Debug, Clone)]
pub struct JsInputs {
    pub code: RefValue,
    pub data: Option<RefValue>,
    pub timeout_sec: Option<FloatValue>,
}

#[derive(Debug, Clone)]
pub struct FilterInputs {
    pub data: Option<RefValue>,
    pub operator: String,
    pub field: Option<String>,
    pub value: Option<RefValue>,
}

#[derive(Debug, Clone)]
pub struct SortInputs {
    pub data: Option<RefValue>,
    pub field: Option<String>,
    pub order: String,
}

#[derive(Debug, Clone)]
pub struct DedupInputs {
    pub data: Option<RefValue>,
    pub field: Option<String>,
}

#[derive(Debug, Clone)]
pub struct MergeInputs {
    pub b: RefValue,
    pub a: Option<RefValue>,
}

#[derive(Debug, Clone)]
pub struct Base64Inputs {
    pub data: Option<RefValue>,
    pub mode: Option<String>,
}

#[derive(Debug, Clone)]
pub struct FileInputs {
    pub path: Option<RefValue>,
    pub url: Option<RefValue>,
}

#[derive(Debug, Clone)]
pub struct CommandInputs {
    pub command: RefValue,
    pub shell: Option<String>,
    pub stdin: Option<RefValue>,
}

#[derive(Debug, Clone)]
pub struct LlmInputs {
    pub url: RefValue,
    pub model: String,
    pub prompt: RefValue,
    pub system: Option<RefValue>,
    pub images_b64: Option<RefValue>,
    pub image_type: Option<String>,
    pub max_tokens: u64,
    pub temperature: Option<FloatValue>,
    pub skip_vision_check: Option<bool>,
    pub api_key: Option<RefValue>,
}

#[derive(Debug, Clone)]
pub struct VarInputs {
    pub value: Option<RefValue>,
}

/// The operator of a step, with its inputs.
#[derive(Debug, Clone)]
pub enum StepOp {
    Http(HttpInputs),
    Js(JsInputs),
    Filter(FilterInputs),
    Sort(SortInputs),
    Dedup(DedupInputs),
    Merge(MergeInputs),
    Base64(Base64Inputs),
    Noop,
    Var(VarInputs),
    File(FileInputs),
    Command(CommandInputs),
    Llm(LlmInputs),
}

/// The operator's type name.
pub open spec fn op_type_name(op: StepOp) -> Seq<char> {
    match op {
        StepOp::Http(_) => "http"@,
        StepOp::Js(_) => "js"@,
        StepOp::Filter(_) => "filter"@,
        StepOp::Sort(_) => "sort"@,
        StepOp::Dedup(_) => "dedup"@,
        StepOp::Merge(_) => "merge"@,
        StepOp::Base64(_) => "base64"@,
        StepOp::Noop => "noop"@,
        StepOp::Var(_) => "var"@,
        StepOp::File(_) => "file"@,
        StepOp::Command(_) => "command"@,
        StepOp::Llm(_) => "llm"@,
    }
}

impl StepOp {
    pub fn op_type(&self) -> (r: &'static str)
        ensures
            r@ == op_type_name(*self),
    {
        match self {
            StepOp::Http(_) => "http",
            StepOp::Js(_) => "js",
            StepOp::Filter(_) => "filter",
            StepOp::Sort(_) => "sort",
            StepOp::Dedup(_) => "dedup",
            StepOp::Merge(_) => "merge",
            StepOp::Base64(_) => "base64",
            StepOp::Noop => "noop",
            StepOp::Var(_) => "var",
            StepOp::File(_) => "file",
            StepOp::Command(_) => "command",
            StepOp::Llm(_) => "llm",
        }
    }
}

/// A step of a pipeline.
#[derive(Debug, Clone)]
pub struct StepDef {
    pub id: StepId,
    pub after: Option<Vec<StepId>>,
    pub iterate: Option<IterateConfig>,
    pub cache: Option<bool>,
    pub retry: Option<RetryDef>,
    pub timeout_sec: Option<FloatValue>,
    pub op: StepOp,
}

} // verus!
