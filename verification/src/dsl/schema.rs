//! The earlier form of variable references, `{steps.id.output}`, used by the
//! runtime DAG.

use vstd::prelude::*;
use crate::text::{chars_of, chars_eq, trim_bounds, trim_chars, split_chars, split, trim, strs_view, string_from_chars, white, is_white};
use crate::json::{Json, jv, JsonV};

verus! {

/// A variable reference parsed at compile time, e.g. `{slots.name}` gives
/// `["slots", "name"]`.
#[derive(Debug, Clone, PartialEq)]
pub struct VariableRef {
    pub parts: Vec<String>,
}

impl VariableRef {
    pub open spec fn pv(&self) -> Seq<Seq<char>> {
        strs_view(self.parts@)
    }

    pub open spec fn spec_is_step_output(&self) -> bool {
        self.parts@.len() >= 3 && self.parts@[0]@ == "steps"@
    }

    /// Whether this refers to a step output: `steps.<id>.<field>...`.
    pub fn is_step_output(&self) -> (r: bool)
        ensures
            r == self.spec_is_step_output(),
    {
        if self.parts.len() < 3 {
            return false;
        }
        let a = chars_of(self.parts[0].as_str());
        let b = chars_of("steps");
        chars_eq(&a, &b)
    }

    /// The step id of a step-output reference.
    pub fn step_id(&self) -> (r: Option<&str>)
        ensures
            match r {
                Some(s) => self.spec_is_step_output() && s@ == self.parts@[1]@,
                None => !self.spec_is_step_output(),
            },
    {
        if self.is_step_output() {
            Some(self.parts[1].as_str())
        } else {
            None
        }
    }
}

/// A segment of a reference: nonempty and without whitespace.
pub open spec fn ref_segment_ok(p: Seq<char>) -> bool {
    p.len() > 0 && forall|k: int| 0 <= k < p.len() ==> !is_white(#[trigger] p[k])
}

/// What `parse_variable_ref` gives for `s`.
pub open spec fn parse_ref_spec(s: Seq<char>) -> Option<Seq<Seq<char>>> {
    let t = trim(s);
    if t.len() >= 2 && t[0] == '{' && t[t.len() - 1] == '}' {
        let inner = t.subrange(1, t.len() - 1);
        let parts = split(inner, '.').map_values(|p: Seq<char>| trim(p));
        if inner.len() > 0 && forall|i: int| 0 <= i < parts.len() ==> ref_segment_ok(#[trigger] parts[i]) {
            Some(parts)
        } else {
            None
        }
    } else {
        None
    }
}

fn check_ref_segment(cs: &Vec<char>) -> (r: bool)
    ensures
        r == ref_segment_ok(cs@),
{
    if cs.len() == 0 {
        return false;
    }
    let mut i: usize = 0;
    while i < cs.len()
        invariant
            i <= cs@.len(),
            forall|k: int| 0 <= k < i ==> !is_white(#[trigger] cs@[k]),
        decreases cs@.len() - i,
    {
        if white(cs[i]) {
            return false;
        }
        i = i + 1;
    }
    true
}

/// Parses `{a.b.c}` (surrounding whitespace allowed) into a reference.
#[verifier::loop_isolation(false)]
pub fn parse_variable_ref(s: &str) -> (r: Option<VariableRef>)
    ensures
        match r {
            Some(v) => parse_ref_spec(s@) == Some(v.pv()),
            None => parse_ref_spec(s@) is None,
        },
{
    let cs = chars_of(s);
    assert(cs@.subrange(0, cs@.len() as int) =~= cs@);
    let (a, b) = trim_bounds(&cs, 0, cs.len());
    let ghost t = cs@.subrange(a as int, b as int);
    if !(b - a >= 2 && cs[a] == '{' && cs[b - 1] == '}') {
        return None;
    }
    let ia = a + 1;
    let ib = b - 1;
    let ghost inner = cs@.subrange(ia as int, ib as int);
    assert(t.subrange(1, t.len() - 1) =~= inner);
    if ia == ib {
        return None;
    }
    let pieces = split_chars(&cs, ia, ib, '.');
    let ghost segs = split(inner, '.').map_values(|p: Seq<char>| trim(p));
    assert(segs.len() == pieces@.len());
    let mut parts: Vec<String> = Vec::new();
    let mut i: usize = 0;
    while i < pieces.len()
        invariant
            i <= pieces@.len(),
            segs.len() == pieces@.len(),
            pieces@.map_values(|v: Vec<char>| v@) == split(inner, '.'),
            strs_view(parts@) == segs.subrange(0, i as int),
            forall|k: int| 0 <= k < i ==> ref_segment_ok(#[trigger] segs[k]),
        decreases pieces@.len() - i,
    {
        let seg = trim_chars(&pieces[i]);
        assert(seg@ == segs[i as int]);
        if !check_ref_segment(&seg) {
            assert(!ref_segment_ok(segs[i as int]));
            return None;
        }
        let st = string_from_chars(&seg);
        let ghost before = parts@;
        parts.push(st);
        assert(strs_view(parts@) =~= segs.subrange(0, i + 1)) by {
            assert forall|k: int| 0 <= k < i + 1 implies #[trigger] strs_view(parts@)[k] == segs.subrange(0, i + 1)[k] by {
                if k < i {
                    assert(parts@[k] == before[k]);
                    assert(strs_view(before)[k] == segs.subrange(0, i as int)[k]);
                }
            }
        }
        i = i + 1;
    }
    assert(segs.subrange(0, segs.len() as int) =~= segs);
    Some(VariableRef { parts })
}

/// A parameter value: a literal or a variable reference.
#[derive(Debug, Clone, PartialEq)]
pub enum RefValue {
    Literal(Json),
    Ref(VariableRef),
}

/// A string that is a reference becomes `Ref`, any other a string literal.
pub fn parse_template(s: &str) -> (r: RefValue)
    ensures
        match parse_ref_spec(s@) {
            Some(p) => r matches RefValue::Ref(v) && v.pv() == p,
            None => r matches RefValue::Literal(j) && jv(j) == JsonV::Str(s@),
        },
{
    match parse_variable_ref(s) {
        Some(v) => RefValue::Ref(v),
        None => {
            let cs = chars_of(s);
            RefValue::Literal(Json::Str(string_from_chars(&cs)))
        },
    }
}

impl RefValue {
    /// A JSON string goes through `parse_template`; any other value is a literal.
    pub fn from_json(v: Json) -> (r: RefValue)
        ensures
            match v {
                Json::Str(s) => match parse_ref_spec(s@) {
                    Some(p) => r matches RefValue::Ref(x) && x.pv() == p,
                    None => r matches RefValue::Literal(j) && jv(j) == JsonV::Str(s@),
                },
                _ => r == RefValue::Literal(v),
            },
    {
        match v {
            Json::Str(s) => parse_template(s.as_str()),
            other => RefValue::Literal(other),
        }
    }

    /// A literal as it is; a reference as the string `{a.b}`.
    pub fn to_value(&self) -> (r: Json)
        ensures
            self matches RefValue::Literal(v) ==> jv(r) == jv(*v),
            self matches RefValue::Ref(x) ==> jv(r) == JsonV::Str(crate::dsl::variable::path_text(x.pv())),
    {
        match self {
            RefValue::Literal(v) => {
                let c = crate::json::json_clone(v);
                assert(jv(c) == jv(*v));
                c
            },
            RefValue::Ref(x) => {
                let mut out = String::new();
                crate::text::push_char(&mut out, '{');
                crate::text::push_joined(&mut out, &x.parts, '.');
                crate::text::push_char(&mut out, '}');
                assert(out@ =~= crate::dsl::variable::path_text(x.pv()));
                Json::Str(out)
            },
        }
    }
}

/// A pipeline in the earlier form, as the runtime reads it.
#[derive(Debug, Clone)]
pub struct PipelineDef {
    pub name: String,
    pub description: Option<String>,
    pub storage: Option<crate::dsl::storage::StorageDef>,
    pub slots: Vec<SlotDef>,
    pub steps: Vec<StepDef>,
    pub output: String,
}

/// An input slot and its JSON Schema.
#[derive(Debug, Clone)]
pub struct SlotDef {
    pub name: String,
    pub schema: Json,
}

/// A step in the earlier form: a type name, raw JSON inputs, and for JS
/// steps inline code (which may refer to `{{step.output}}`).
#[derive(Debug, Clone)]
pub struct StepDef {
    pub id: String,
    pub step_type: String,
    pub after: Option<Vec<String>>,
    pub iterate: Option<IterateConfig>,
    pub inputs: Option<Json>,
    pub cache: Option<bool>,
    pub retry: Option<RetryDef>,
    pub timeout: Option<u64>,
    pub code: Option<String>,
}

/// Retry settings, with an optional validator for the result.
#[derive(Debug, Clone)]
pub struct RetryDef {
    pub max_attempts: u32,
    pub backoff: crate::dsl::step::BackoffStrategy,
    pub delay_ms: u64,
    pub validator: Option<String>,
}

/// Iteration over the array a reference names.
#[derive(Debug, Clone)]
pub struct IterateConfig {
    pub over: String,
    pub as_name: String,
    pub max_workers: Option<u32>,
    pub batch: Option<crate::dsl::step::BatchConfig>,
}

} // verus!
