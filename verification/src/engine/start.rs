//! The start of a run: the slots with their defaults, checked against
//! their schemas, then the steps laid out in layers. The run itself goes on
//! in `flow` (see `run_next`).

use vstd::prelude::*;
use crate::json::{Json, JsonV, jv, json_wf, text_of};
use crate::text::{to_string, push_str, chars_of, push_debug_quoted, debug_quote};
use crate::dsl::step::ids_view;
use crate::dsl::pipeline::{PipelineDef, SlotDef};
use crate::dsl::refs::{entries_jv, jlookup};
use crate::dsl::validator::{schema_compile_error, step_ids};
use crate::engine::dag::{Dag, DagError, first_dup_from, first_missing_after, names_of, preds_ok};
use crate::engine::runner::{with_defaults, apply_slot_defaults, check_slots, slot_ok, slot_error_ok, schema_accepts};
use crate::engine::flow::{RunState, layers_view, fresh_run};
use crate::graph::{layering_ok, has_cycle};
use crate::operator::builtin::merge::entries_wf;
use crate::error::WeaveflowError;

verus! {

/// Identifiers written as a list's `{:?}` writes them: `StepId("a")`, with
/// `, ` between them.
pub open spec fn ids_debug(ids: Seq<Seq<char>>) -> Seq<char>
    decreases ids.len(),
{
    if ids.len() == 0 {
        Seq::empty()
    } else if ids.len() == 1 {
        "StepId("@ + debug_quote(ids[0]) + ")"@
    } else {
        ids_debug(ids.drop_last()) + ", "@ + "StepId("@ + debug_quote(ids.last()) + ")"@
    }
}

/// The message of a DAG error.
pub open spec fn dag_error_text(e: DagError) -> Seq<char> {
    match e {
        DagError::CycleFound(v) => "cycle detected, remaining nodes: ["@ + ids_debug(ids_view(v@)) + "]"@,
        DagError::RefNotFound(id) => "after reference not found: "@ + id.0@,
        DagError::DuplicateStepId(id) => "duplicate step id: "@ + id.0@,
        DagError::EmptyGraph => "DAG has no steps"@,
    }
}

/// The run's error for a DAG error: `DAG: ` and its message.
#[verifier::rlimit(40)]
pub fn dag_failure(e: &DagError) -> (r: WeaveflowError)
    ensures
        r matches WeaveflowError::Internal(m) && m@ == "DAG: "@ + dag_error_text(*e),
{
    let mut m = to_string("DAG: ");
    match e {
        DagError::CycleFound(v) => {
            push_str(&mut m, "cycle detected, remaining nodes: [");
            let ghost head = m@;
            let ghost iv = ids_view(v@);
            let mut k: usize = 0;
            while k < v.len()
                invariant
                    k <= v@.len(),
                    iv == ids_view(v@),
                    m@ == head + ids_debug(iv.take(k as int)),
                decreases v@.len() - k,
            {
                assert(iv.take(k + 1).drop_last() =~= iv.take(k as int));
                if k > 0 {
                    push_str(&mut m, ", ");
                }
                push_str(&mut m, "StepId(");
                let cs = chars_of(v[k].0.as_str());
                push_debug_quoted(&mut m, &cs);
                push_str(&mut m, ")");
                assert(iv.take(k + 1).last() == v@[k as int].0@);
                if k == 0 {
                    assert(iv.take(0) =~= Seq::<Seq<char>>::empty());
                }
                assert(m@ =~= head + ids_debug(iv.take(k + 1)));
                k = k + 1;
            }
            assert(iv.take(v@.len() as int) =~= iv);
            push_str(&mut m, "]");
        },
        DagError::RefNotFound(id) => {
            push_str(&mut m, "after reference not found: ");
            push_str(&mut m, id.0.as_str());
        },
        DagError::DuplicateStepId(id) => {
            push_str(&mut m, "duplicate step id: ");
            push_str(&mut m, id.0.as_str());
        },
        DagError::EmptyGraph => {
            push_str(&mut m, "DAG has no steps");
        },
    }
    WeaveflowError::Internal(m)
}

/// A declared slot's value among `given` (by view), if there is one,
/// meets its schema, which compiles.
pub open spec fn slot_passes(d: SlotDef, given: Seq<(Seq<char>, JsonV)>) -> bool {
    match jlookup(given, d.name@) {
        None => true,
        Some(v) => schema_compile_error(text_of(jv(d.schema))) is None && schema_accepts(text_of(jv(d.schema)), text_of(v)),
    }
}

/// The first declared slot, from `k` on, whose value fails its check.
pub open spec fn first_failing_slot(defs: Seq<SlotDef>, given: Seq<(Seq<char>, JsonV)>, k: int) -> Option<int>
    decreases defs.len() - k,
{
    if k < 0 || k >= defs.len() {
        None
    } else if !slot_passes(defs[k], given) {
        Some(k)
    } else {
        first_failing_slot(defs, given, k + 1)
    }
}

/// The slots a run sees: those given, with the defaults of missing ones.
pub open spec fn run_slots(def: PipelineDef, given: Seq<(Seq<char>, JsonV)>) -> Seq<(Seq<char>, JsonV)> {
    with_defaults(def.slots@, given, def.slots@.len() as int)
}

/// Why the steps cannot form a graph, if they cannot: the message of the
/// DAG error (no steps, then a repeated identifier, then an `after` entry
/// naming no step).
pub open spec fn graph_refusal(def: PipelineDef) -> Option<Seq<char>> {
    let ids = step_ids(def);
    if def.steps@.len() == 0 {
        Some("DAG has no steps"@)
    } else if first_dup_from(ids, 0) is Some {
        Some("duplicate step id: "@ + ids[first_dup_from(ids, 0)->Some_0])
    } else if first_missing_after(def, ids, 0) is Some {
        Some("after reference not found: "@ + first_missing_after(def, ids, 0)->Some_0)
    } else {
        None
    }
}

/// A graph of `def`'s steps as `Dag::from_pipeline` builds it: each step
/// depends on its `after` entries, the steps its inputs refer to and the
/// step it iterates over (see `preds_ok`).
pub open spec fn built_from(d: Dag, def: PipelineDef) -> bool {
    &&& d.wf()
    &&& d.pipeline() == def
    &&& d.ids() == step_ids(def)
    &&& forall|i: int| 0 <= i < def.steps@.len() ==> preds_ok(def, step_ids(def), i, #[trigger] d.preds_of(i), d.after_count(i))
}

proof fn lemma_first_failing(defs: Seq<SlotDef>, given: Seq<(Seq<char>, JsonV)>, k: int)
    requires
        0 <= k <= defs.len(),
        forall|i: int| 0 <= i < k ==> slot_passes(#[trigger] defs[i], given),
    ensures
        match first_failing_slot(defs, given, k) {
            Some(j) => k <= j < defs.len() && !slot_passes(defs[j], given) && forall|i: int| 0 <= i < j ==> slot_passes(#[trigger] defs[i], given),
            None => forall|i: int| 0 <= i < defs.len() ==> slot_passes(#[trigger] defs[i], given),
        },
    decreases defs.len() - k,
{
    if k < defs.len() && slot_passes(defs[k], given) {
        lemma_first_failing(defs, given, k + 1);
    }
}

/// What laying out `def`'s steps gives: the DAG error when the steps
/// cannot form a graph; else, for the graph built from them, a run over
/// its layers (not started) exactly when it has no cycle, and otherwise the
/// cycle error naming the steps left unplaced.
pub open spec fn laid_out(def: PipelineDef, r: Result<RunState, WeaveflowError>) -> bool {
    match graph_refusal(def) {
        Some(m) => r matches Err(WeaveflowError::Internal(t)) && t@ == "DAG: "@ + m,
        None => exists|d: Dag| #[trigger] laid_out_by(d, def, r),
    }
}

/// `r` is what laying out the graph `d` of `def`'s steps gives.
pub open spec fn laid_out_by(d: Dag, def: PipelineDef, r: Result<RunState, WeaveflowError>) -> bool {
    &&& built_from(d, def)
    &&& (r is Ok <==> !has_cycle(d.edges()))
    &&& r matches Ok(st) ==> exists|layers: Seq<Seq<usize>>| {
        &&& layering_ok(d.edges(), layers, Seq::empty())
        &&& st@ == fresh_run(Seq::new(layers.len(), |k: int| names_of(d.ids(), layers[k])))
    }
    &&& r matches Err(e) ==> exists|rem: Seq<usize>| {
        &&& rem.len() > 0
        &&& e matches WeaveflowError::Internal(t) && t@ == "DAG: "@ + ("cycle detected, remaining nodes: ["@ + ids_debug(
            names_of(d.ids(), rem),
        ) + "]"@)
    }
}

/// Builds the graph of the steps and lays it out in layers (see
/// `laid_out`).
#[verifier::rlimit(40)]
pub fn lay_out(def: &PipelineDef) -> (r: Result<RunState, WeaveflowError>)
    ensures
        laid_out(*def, r),
{
    let dag = match Dag::from_pipeline(def) {
        Ok(d) => d,
        Err(e) => {
            return Err(dag_failure(&e));
        },
    };
    assert(built_from(dag, *def));
    match dag.topological_sort() {
        Ok(layers) => {
            let st = RunState::new(layers);
            let r: Result<RunState, WeaveflowError> = Ok(st);
            proof {
                let lw = choose|lw: Seq<Seq<usize>>, rem: Seq<usize>| {
                    &&& layering_ok(dag.edges(), lw, rem)
                    &&& rem.len() == 0 && layers@.len() == lw.len() && forall|k: int|
                        0 <= k < lw.len() ==> ids_view(#[trigger] layers@[k]@) == names_of(dag.ids(), lw[k])
                };
                assert(lw.1 =~= Seq::<usize>::empty());
                assert(layers_view(layers@) =~= Seq::new(lw.0.len(), |k: int| names_of(dag.ids(), lw.0[k])));
                assert(layering_ok(dag.edges(), lw.0, Seq::empty()));
                assert(st@ == fresh_run(Seq::new(lw.0.len(), |k: int| names_of(dag.ids(), lw.0[k]))));
                assert(laid_out_by(dag, *def, r));
            }
            r
        },
        Err(e) => {
            let r: Result<RunState, WeaveflowError> = Err(dag_failure(&e));
            proof {
                let w = choose|lw: Seq<Seq<usize>>, rem: Seq<usize>| {
                    &&& layering_ok(dag.edges(), lw, rem)
                    &&& match e {
                        DagError::CycleFound(v) => rem.len() > 0 && ids_view(v@) == names_of(dag.ids(), rem),
                        _ => false,
                    }
                };
                assert(w.1.len() > 0);
                assert(laid_out_by(dag, *def, r));
            }
            r
        },
    }
}

/// Starts a run: fills in the defaults of missing slots, checks each
/// declared slot's value against its schema, then builds the graph of the
/// steps and lays it out in layers. The slot checks come first: when one
/// fails, the start ends with that slot's error (the first failing slot,
/// in the order declared) and no graph is built, whatever the steps. A
/// DAG error becomes an internal error `DAG: ` and its message. On
/// success, the slots the run sees and a run over the layers, not started.
#[verifier::rlimit(40)]
pub fn start_run(def: &PipelineDef, slots: Vec<(String, Json)>) -> (r: Result<(Vec<(String, Json)>, RunState), WeaveflowError>)
    requires
        entries_wf(slots@),
        forall|i: int| 0 <= i < def.slots@.len() ==> json_wf(#[trigger] def.slots@[i].schema),
    ensures
        ({
            let given = run_slots(*def, entries_jv(slots@));
            match first_failing_slot(def.slots@, given, 0) {
                Some(k) => r matches Err(e) && slot_error_ok(def.slots@[k], e),
                None => {
                    &&& laid_out(
                        *def,
                        match r {
                            Ok((_, st)) => Ok(st),
                            Err(e) => Err(e),
                        },
                    )
                    &&& r matches Ok((f, _)) ==> entries_jv(f@) == given
                },
            }
        }),
{
    let filled = apply_slot_defaults(&def.slots, slots);
    let ghost given = entries_jv(filled@);
    proof {
        assert forall|i: int| 0 <= i < def.slots@.len() implies slot_ok(#[trigger] def.slots@[i], filled@) == slot_passes(def.slots@[i], given) by {}
        lemma_first_failing(def.slots@, given, 0);
    }
    match check_slots(&def.slots, &filled) {
        Err(e) => {
            proof {
                let k = choose|k: int|
                    0 <= k < def.slots@.len() && (forall|i: int| 0 <= i < k ==> slot_ok(#[trigger] def.slots@[i], filled@)) && !slot_ok(
                        def.slots@[k],
                        filled@,
                    ) && slot_error_ok(def.slots@[k], e);
                let j = first_failing_slot(def.slots@, given, 0)->Some_0;
                assert(slot_passes(def.slots@[j], given) == slot_ok(def.slots@[j], filled@));
                assert(slot_passes(def.slots@[k], given) == slot_ok(def.slots@[k], filled@));
                if j < k {
                    assert(slot_ok(def.slots@[j], filled@));
                } else if k < j {
                    assert(slot_passes(def.slots@[k], given));
                }
            }
            return Err(e);
        },
        Ok(()) => {},
    }
    match lay_out(def) {
        Ok(st) => Ok((filled, st)),
        Err(e) => Err(e),
    }
}

} // verus!
