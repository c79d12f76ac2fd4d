//! What validation reads of a step: a `var` step's literal string is data,
//! and its text never changes what validation reports.

use vstd::prelude::*;
use crate::json::Json;
use crate::dsl::pipeline::PipelineDef;
use crate::dsl::step::{StepDef, StepOp};
use crate::dsl::variable::RefValue;
use crate::dsl::refs::{op_refs, refvalue_refs, lemma_literal_string_inert};
use crate::dsl::validator::{
    JsCheck,
    js_source,
    op_errors,
    step_ids,
    slot_names,
    steps_errors,
    steps_slot_errors,
    step_slot_errors,
    steps_after_ref_errors,
    schema_errors_upto,
    js_errors_upto,
    id_deps,
    preds_of,
    dep_graph,
    steps_slot_names,
    unused_slot_warnings,
    steps_referenced,
    orphan_warnings,
    id_has_deps,
    upstream_warnings,
    step_dep_names,
    input_ref_errors,
    unique_upto,
    validation_errors,
    validation_warnings,
    schema_outcomes,
};

verus! {

/// Two steps that validation cannot tell apart: the same identifier,
/// `after` list, iteration, retry and timeout, and operators with the same
/// references, the same findings and the same JS source.
pub open spec fn seen_alike(s1: StepDef, s2: StepDef) -> bool {
    &&& s1.id == s2.id
    &&& s1.after == s2.after
    &&& s1.iterate == s2.iterate
    &&& s1.retry == s2.retry
    &&& s1.timeout_sec == s2.timeout_sec
    &&& op_refs(s1.op) == op_refs(s2.op)
    &&& js_source(s1) == js_source(s2)
    &&& forall|id: Seq<char>| #[trigger] op_errors(id, s1.op) == op_errors(id, s2.op)
}

/// Two pipelines alike step by step, with the same name, slots and output.
pub open spec fn defs_alike(d1: PipelineDef, d2: PipelineDef) -> bool {
    &&& d1.name == d2.name
    &&& d1.slots == d2.slots
    &&& d1.output == d2.output
    &&& d1.steps@.len() == d2.steps@.len()
    &&& forall|j: int| 0 <= j < d1.steps@.len() ==> seen_alike(#[trigger] d1.steps@[j], d2.steps@[j])
}

/// A `var` operator whose value is a literal JSON string.
pub open spec fn literal_text_var(op: StepOp) -> bool {
    op matches StepOp::Var(v) && (v.value matches Some(RefValue::Literal(Json::Str(_))))
}

proof fn lemma_names(d1: PipelineDef, d2: PipelineDef)
    requires
        defs_alike(d1, d2),
    ensures
        step_ids(d1) == step_ids(d2),
        slot_names(d1) == slot_names(d2),
        schema_outcomes(d1) == schema_outcomes(d2),
{
    assert(step_ids(d1) =~= step_ids(d2)) by {
        assert forall|j: int| 0 <= j < d1.steps@.len() implies step_ids(d1)[j] == step_ids(d2)[j] by {
            assert(seen_alike(d1.steps@[j], d2.steps@[j]));
        }
    }
    assert(slot_names(d1) =~= slot_names(d2));
    assert(schema_outcomes(d1) =~= schema_outcomes(d2));
}

proof fn lemma_step_seen(d1: PipelineDef, d2: PipelineDef, j: int)
    requires
        defs_alike(d1, d2),
        0 <= j < d1.steps@.len(),
    ensures
        seen_alike(d1.steps@[j], d2.steps@[j]),
        step_dep_names(d1.steps@[j]) == step_dep_names(d2.steps@[j]),
{
    assert(seen_alike(d1.steps@[j], d2.steps@[j]));
}

#[verifier::rlimit(40)]
proof fn lemma_steps_errors(d1: PipelineDef, d2: PipelineDef, n: int)
    requires
        defs_alike(d1, d2),
        0 <= n <= d1.steps@.len(),
    ensures
        steps_errors(d1, n) == steps_errors(d2, n),
        steps_slot_errors(d1, n) == steps_slot_errors(d2, n),
        steps_after_ref_errors(d1, n) == steps_after_ref_errors(d2, n),
        steps_slot_names(d1, n) == steps_slot_names(d2, n),
        steps_referenced(d1, n) == steps_referenced(d2, n),
    decreases n,
{
    if n > 0 {
        lemma_steps_errors(d1, d2, n - 1);
        lemma_names(d1, d2);
        let s1 = d1.steps@[n - 1];
        let s2 = d2.steps@[n - 1];
        lemma_step_seen(d1, d2, n - 1);
        reveal(input_ref_errors);
        reveal(step_slot_errors);
        assert(op_errors(s1.id.0@, s1.op) == op_errors(s1.id.0@, s2.op));
        assert(input_ref_errors(s1, step_ids(d1)) == input_ref_errors(s2, step_ids(d2)));
        assert(step_slot_errors(slot_names(d1), s1) == step_slot_errors(slot_names(d2), s2));
    }
}

proof fn lemma_js_errors(d1: PipelineDef, d2: PipelineDef, js: Seq<JsCheck>, n: int)
    requires
        defs_alike(d1, d2),
        0 <= n <= d1.steps@.len(),
    ensures
        js_errors_upto(d1, js, n) == js_errors_upto(d2, js, n),
    decreases n,
{
    if n > 0 {
        lemma_js_errors(d1, d2, js, n - 1);
        lemma_step_seen(d1, d2, n - 1);
    }
}

proof fn lemma_schema_errors(d1: PipelineDef, d2: PipelineDef, res: Seq<Option<Seq<char>>>, n: int)
    requires
        defs_alike(d1, d2),
    ensures
        schema_errors_upto(d1, res, n) == schema_errors_upto(d2, res, n),
    decreases n,
{
    if n > 0 {
        lemma_schema_errors(d1, d2, res, n - 1);
    }
}

proof fn lemma_id_deps(d1: PipelineDef, d2: PipelineDef, id: Seq<char>, n: int)
    requires
        defs_alike(d1, d2),
        0 <= n <= d1.steps@.len(),
    ensures
        id_deps(d1, id, n) == id_deps(d2, id, n),
    decreases n,
{
    if n > 0 {
        lemma_id_deps(d1, d2, id, n - 1);
        lemma_step_seen(d1, d2, n - 1);
    }
}

proof fn lemma_preds(d1: PipelineDef, d2: PipelineDef, ids: Seq<Seq<char>>, u: Seq<int>, t: int, n: int)
    requires
        defs_alike(d1, d2),
    ensures
        preds_of(d1, ids, u, t, n) == preds_of(d2, ids, u, t, n),
    decreases n,
{
    if n > 0 {
        lemma_preds(d1, d2, ids, u, t, n - 1);
        lemma_id_deps(d1, d2, ids[u[t]], d1.steps@.len() as int);
    }
}

proof fn lemma_dep_graph(d1: PipelineDef, d2: PipelineDef)
    requires
        defs_alike(d1, d2),
    ensures
        dep_graph(d1) == dep_graph(d2),
{
    lemma_names(d1, d2);
    let ids = step_ids(d1);
    let u = unique_upto(ids, ids.len() as int);
    assert forall|t: int| 0 <= t < u.len() implies #[trigger] dep_graph(d1)[t] == dep_graph(d2)[t] by {
        lemma_preds(d1, d2, ids, u, t, u.len() as int);
    }
    assert(dep_graph(d1) =~= dep_graph(d2));
}

proof fn lemma_slot_warnings(d1: PipelineDef, d2: PipelineDef, n: int)
    requires
        defs_alike(d1, d2),
    ensures
        unused_slot_warnings(d1, n) == unused_slot_warnings(d2, n),
    decreases n,
{
    if n > 0 {
        lemma_slot_warnings(d1, d2, n - 1);
        lemma_steps_errors(d1, d2, d1.steps@.len() as int);
    }
}

#[verifier::rlimit(40)]
proof fn lemma_step_warnings(d1: PipelineDef, d2: PipelineDef, n: int)
    requires
        defs_alike(d1, d2),
        0 <= n <= d1.steps@.len(),
    ensures
        orphan_warnings(d1, n) == orphan_warnings(d2, n),
        upstream_warnings(d1, n) == upstream_warnings(d2, n),
    decreases n,
{
    if n > 0 {
        lemma_step_warnings(d1, d2, n - 1);
        lemma_steps_errors(d1, d2, d1.steps@.len() as int);
        lemma_step_seen(d1, d2, n - 1);
        let id = d1.steps@[n - 1].id.0@;
        assert(id_has_deps(d1, id) == id_has_deps(d2, id)) by {
            if id_has_deps(d1, id) {
                let i = choose|i: int| 0 <= i < d1.steps@.len() && d1.steps@[i].id.0@ == id && #[trigger] step_dep_names(d1.steps@[i]).len() > 0;
                lemma_step_seen(d1, d2, i);
            }
            if id_has_deps(d2, id) {
                let i = choose|i: int| 0 <= i < d2.steps@.len() && d2.steps@[i].id.0@ == id && #[trigger] step_dep_names(d2.steps@[i]).len() > 0;
                lemma_step_seen(d1, d2, i);
            }
        }
    }
}

/// Validation reads a step only through what `seen_alike` compares: two
/// pipelines alike step by step get the same errors and the same warnings.
pub proof fn lemma_alike_validate_alike(d1: PipelineDef, d2: PipelineDef, js: Seq<JsCheck>)
    requires
        defs_alike(d1, d2),
    ensures
        schema_outcomes(d1) == schema_outcomes(d2),
        validation_errors(d1, schema_outcomes(d1), js) == validation_errors(d2, schema_outcomes(d2), js),
        validation_warnings(d1) == validation_warnings(d2),
{
    let n = d1.steps@.len() as int;
    lemma_names(d1, d2);
    lemma_steps_errors(d1, d2, n);
    lemma_js_errors(d1, d2, js, n);
    lemma_schema_errors(d1, d2, schema_outcomes(d1), d1.slots@.len() as int);
    lemma_dep_graph(d1, d2);
    lemma_slot_warnings(d1, d2, d1.slots@.len() as int);
    lemma_step_warnings(d1, d2, n);
}

/// A literal string in a `var` step is never read as a reference, whatever
/// `{..}` text it holds: two pipelines that differ only in the text of
/// such a string (in any steps) get the same errors and warnings from
/// `validate`, so none of them comes from that text.
pub proof fn lemma_literal_text_unread(d1: PipelineDef, d2: PipelineDef, js: Seq<JsCheck>)
    requires
        d1.name == d2.name,
        d1.slots == d2.slots,
        d1.output == d2.output,
        d1.steps@.len() == d2.steps@.len(),
        forall|j: int|
            0 <= j < d1.steps@.len() ==> {
                let s1 = #[trigger] d1.steps@[j];
                let s2 = d2.steps@[j];
                s1 == s2 || (s1.id == s2.id && s1.after == s2.after && s1.iterate == s2.iterate && s1.retry == s2.retry
                    && s1.timeout_sec == s2.timeout_sec && literal_text_var(s1.op) && literal_text_var(s2.op))
            },
    ensures
        validation_errors(d1, schema_outcomes(d1), js) == validation_errors(d2, schema_outcomes(d2), js),
        validation_warnings(d1) == validation_warnings(d2),
{
    assert forall|j: int| 0 <= j < d1.steps@.len() implies seen_alike(#[trigger] d1.steps@[j], d2.steps@[j]) by {
        let s1 = d1.steps@[j];
        let s2 = d2.steps@[j];
        if s1 != s2 {
            lemma_literal_unread_op(s1.op);
            lemma_literal_unread_op(s2.op);
        }
    }
    lemma_alike_validate_alike(d1, d2, js);
}

/// A `var` operator holding a literal string has no reference, no finding
/// and no JS source.
proof fn lemma_literal_unread_op(op: StepOp)
    requires
        literal_text_var(op),
    ensures
        op_refs(op) == Seq::<(Seq<char>, Seq<char>)>::empty(),
        forall|id: Seq<char>| #[trigger] op_errors(id, op) == Seq::<(Seq<char>, Seq<char>)>::empty(),
{
    reveal(crate::dsl::refs::op_inputs);
    reveal(op_errors);
    match op {
        StepOp::Var(v) => match v.value {
            Some(rv) => match rv {
                RefValue::Literal(Json::Str(t)) => {
                    lemma_literal_string_inert(t@, Seq::empty());
                    assert(crate::dsl::refs::op_inputs(op) == seq![rv]);
                    assert(seq![rv].drop_last() =~= Seq::<RefValue>::empty());
                    assert(crate::json::jv(Json::Str(t)) == crate::json::JsonV::Str(t@));
                    assert(refvalue_refs(rv) =~= Seq::<(Seq<char>, Seq<char>)>::empty());
                    assert(crate::dsl::refs::rvs_refs(seq![rv]) == crate::dsl::refs::rvs_refs(seq![rv].drop_last())
                        + refvalue_refs(seq![rv].last()));
                    assert(op_refs(op) =~= Seq::<(Seq<char>, Seq<char>)>::empty());
                    assert forall|id: Seq<char>| #[trigger] op_errors(id, op) == Seq::<(Seq<char>, Seq<char>)>::empty() by {
                        assert(op_errors(id, op) =~= Seq::<(Seq<char>, Seq<char>)>::empty());
                    }
                },
                _ => {},
            },
            None => {},
        },
        _ => {},
    }
}

} // verus!
