//! The decisions of a pipeline run: slot defaults, which step's output is
//! the last, and how a layer's failures end the run.

use vstd::prelude::*;
use crate::json::{Json, JsonV, jv, json_wf, json_clone, get, get_field};
use crate::text::{to_string, push_str};
use crate::dsl::step::{StepId, ids_view};
use crate::dsl::pipeline::SlotDef;
use crate::dsl::variable::RefValue;
use crate::dsl::refs::{entries_jv, jlookup, lookup};
use crate::dsl::validator::schema_compile_error;
use crate::error::WeaveflowError;
use crate::json::{text_of, to_text};
use crate::engine::dag::Dag;
use crate::operator::builtin::merge::{put, entries_wf, put_entry, entries_sorted};

verus! {

/// The slots after defaults: for each declared slot in order that has no
/// value, the `default` of its schema, when there is one.
pub open spec fn with_defaults(defs: Seq<SlotDef>, given: Seq<(Seq<char>, JsonV)>, n: int) -> Seq<(Seq<char>, JsonV)>
    decreases n,
{
    if n <= 0 {
        given
    } else {
        let prev = with_defaults(defs, given, n - 1);
        let d = defs[n - 1];
        if crate::dsl::refs::jlookup(prev, d.name@) is None && get_field(d.schema, "default"@) is Some {
            put(prev, d.name@, jv(get_field(d.schema, "default"@)->Some_0))
        } else {
            prev
        }
    }
}

/// Fills in the defaults of missing slots (see `with_defaults`). The
/// slots are given in key order, each key once.
pub fn apply_slot_defaults(defs: &Vec<SlotDef>, slots: Vec<(String, Json)>) -> (r: Vec<(String, Json)>)
    requires
        entries_wf(slots@),
        forall|i: int| 0 <= i < defs@.len() ==> json_wf(#[trigger] defs@[i].schema),
    ensures
        entries_wf(r@),
        entries_jv(r@) == with_defaults(defs@, entries_jv(slots@), defs@.len() as int),
{
    let ghost start = entries_jv(slots@);
    let mut acc = slots;
    let mut i: usize = 0;
    while i < defs.len()
        invariant
            i <= defs@.len(),
            forall|k: int| 0 <= k < defs@.len() ==> json_wf(#[trigger] defs@[k].schema),
            entries_wf(acc@),
            entries_jv(acc@) == with_defaults(defs@, start, i as int),
        decreases defs@.len() - i,
    {
        let d = &defs[i];
        let present = crate::dsl::refs::lookup(&acc, d.name.as_str());
        if present.is_none() {
            match get(&d.schema, "default") {
                Some(v) => {
                    proof {
                        crate::json::lemma_get_field_wf(d.schema, "default"@);
                    }
                    let value = json_clone(v);
                    put_entry(&mut acc, to_string(d.name.as_str()), value);
                },
                None => {},
            }
        }
        i = i + 1;
    }
    acc
}

/// The step the output names, when the output is exactly one reference:
/// the first part of its path.
pub open spec fn output_ref_step(output: RefValue) -> Option<Seq<char>> {
    match output {
        RefValue::Ref(p) => if p.pv().len() > 0 { Some(p.pv()[0]) } else { None },
        RefValue::Literal(x) => match jv(x) {
            JsonV::Object(es) => if es.len() == 1 && es[0].0 == "Ref"@ {
                match es[0].1 {
                    JsonV::Object(fs) => match crate::dsl::refs::jlookup(fs, "parts"@) {
                        Some(JsonV::Array(ps)) => if ps.len() > 0 && (forall|i: int| 0 <= i < ps.len() ==> (#[trigger] ps[i]) is Str) {
                            Some(ps[0]->Str_0)
                        } else {
                            None
                        },
                        _ => None,
                    },
                    _ => None,
                }
            } else {
                None
            },
            _ => None,
        },
        _ => None,
    }
}

/// The step the output names, when it is exactly one reference.
pub fn single_output_ref(output: &RefValue) -> (r: Option<StepId>)
    ensures
        match output_ref_step(*output) {
            Some(s) => r matches Some(id) && id.0@ == s,
            None => r is None,
        },
{
    match output {
        RefValue::Ref(p) => {
            if p.parts.len() > 0 {
                Some(StepId::new(p.parts[0].as_str()))
            } else {
                None
            }
        },
        RefValue::Literal(x) => {
            match x {
                Json::Object(es) => {
                    proof {
                        crate::dsl::refs::lemma_jv_object(*x);
                    }
                    if es.len() == 1 && crate::dsl::refs::str_is(es[0].0.as_str(), "Ref") {
                        match &es[0].1 {
                            Json::Object(fs) => {
                                proof {
                                    crate::dsl::refs::lemma_jv_object(es@[0].1);
                                }
                                match crate::dsl::refs::lookup(fs, "parts") {
                                    Some(parts) => match parts {
                                        Json::Array(ps) => {
                                            proof {
                                                crate::dsl::refs::lemma_jv_array(*parts);
                                            }
                                            let ghost pv = crate::dsl::refs::items_jv(ps@);
                                            let mut all = true;
                                            let mut i: usize = 0;
                                            while i < ps.len()
                                                invariant
                                                    i <= ps@.len(),
                                                    pv == crate::dsl::refs::items_jv(ps@),
                                                    all == forall|k: int| 0 <= k < i ==> (#[trigger] pv[k]) is Str,
                                                decreases ps@.len() - i,
                                            {
                                                assert(pv[i as int] == jv(ps@[i as int]));
                                                if !matches!(&ps[i], Json::Str(_)) {
                                                    all = false;
                                                }
                                                i = i + 1;
                                            }
                                            if all && ps.len() > 0 {
                                                match &ps[0] {
                                                    Json::Str(x) => Some(StepId::new(x.as_str())),
                                                    _ => None,
                                                }
                                            } else {
                                                None
                                            }
                                        },
                                        _ => None,
                                    },
                                    None => None,
                                }
                            },
                            _ => None,
                        }
                    } else {
                        None
                    }
                },
                _ => None,
            }
        },
        _ => None,
    }
}

/// The first failure of a layer, as the run's error: `step <id> failed: <error>`.
pub open spec fn first_failure(outcomes: Seq<(StepId, Option<String>)>, n: int) -> Option<Seq<char>>
    decreases n,
{
    if n <= 0 {
        None
    } else {
        match first_failure(outcomes, n - 1) {
            Some(m) => Some(m),
            None => match outcomes[n - 1].1 {
                Some(e) => Some("step "@ + outcomes[n - 1].0.0@ + " failed: "@ + e@),
                None => None,
            },
        }
    }
}

/// The error that ends the run after a layer, if a step of it failed.
pub fn layer_failure(outcomes: &Vec<(StepId, Option<String>)>) -> (r: Option<String>)
    ensures
        match first_failure(outcomes@, outcomes@.len() as int) {
            Some(m) => r matches Some(s) && s@ == m,
            None => r is None,
        },
{
    let mut i: usize = 0;
    while i < outcomes.len()
        invariant
            i <= outcomes@.len(),
            first_failure(outcomes@, i as int) is None,
        decreases outcomes@.len() - i,
    {
        match &outcomes[i].1 {
            Some(e) => {
                let mut m = String::new();
                push_str(&mut m, "step ");
                push_str(&mut m, outcomes[i].0.0.as_str());
                push_str(&mut m, " failed: ");
                push_str(&mut m, e.as_str());
                proof {
                    lemma_first_failure_stays(outcomes@, i + 1, outcomes@.len() as int);
                }
                return Some(m);
            },
            None => {},
        }
        i = i + 1;
    }
    None
}

proof fn lemma_first_failure_stays(o: Seq<(StepId, Option<String>)>, m: int, n: int)
    requires
        0 <= m <= n,
        first_failure(o, m) is Some,
    ensures
        first_failure(o, n) == first_failure(o, m),
    decreases n - m,
{
    if n > m {
        lemma_first_failure_stays(o, m, n - 1);
    }
}


/// The step whose output is the run's last: the step the output names when
/// it is exactly one reference to a step of the pipeline, else the last
/// step of the last layer.
pub open spec fn last_step_of(output: RefValue, ids: Seq<Seq<char>>, layers: Seq<Seq<Seq<char>>>) -> Option<Seq<char>> {
    match output_ref_step(output) {
        Some(s) => if ids.contains(s) {
            Some(s)
        } else if layers.len() > 0 && layers.last().len() > 0 {
            Some(layers.last().last())
        } else {
            None
        },
        None => if layers.len() > 0 && layers.last().len() > 0 {
            Some(layers.last().last())
        } else {
            None
        },
    }
}

/// The step whose output is the run's last (see `last_step_of`).
pub fn last_step<'a>(output: &RefValue, dag: &Dag<'a>, layers: &Vec<Vec<StepId>>) -> (r: Option<StepId>)
    requires
        dag.wf(),
    ensures
        match last_step_of(*output, dag.ids(), layers@.map_values(|l: Vec<StepId>| ids_view(l@))) {
            Some(s) => r matches Some(id) && id.0@ == s,
            None => r is None,
        },
{
    let ghost lv = layers@.map_values(|l: Vec<StepId>| ids_view(l@));
    assert(lv.len() == layers@.len());
    let from_output = match single_output_ref(output) {
        Some(id) => {
            let st = dag.step(&id);
            if st.is_some() {
                Some(id)
            } else {
                None
            }
        },
        None => None,
    };
    match from_output {
        Some(id) => Some(id),
        None => {
            if layers.len() > 0 && layers[layers.len() - 1].len() > 0 {
                let last = &layers[layers.len() - 1];
                assert(lv.last() == ids_view(last@));
                assert(ids_view(last@).last() == last@[last@.len() - 1].0@);
                Some(StepId::new(last[last.len() - 1].0.as_str()))
            } else {
                None
            }
        },
    }
}


/// Whether `jsonschema` reports no error for the value read from
/// `value_text` against the schema read from `schema_text` (a value text
/// that is not JSON is not accepted).
pub uninterp spec fn schema_accepts(schema_text: Seq<char>, value_text: Seq<char>) -> bool;

/// `jsonschema::validator_for` on the schema read with
/// `serde_json::from_str`, then `Validator::iter_errors` on the value read
/// likewise: the compile error's text when the schema does not compile,
/// else the texts of the errors reported (none exactly when the value is
/// accepted; a value text that is not JSON gives its read error). Which
/// messages come, and in what order, is not stated: the validator walks
/// hash maps whose order the process seeds.
#[verifier::external_body]
fn check_value(schema_text: &str, value_text: &str) -> (r: Result<Vec<String>, String>)
    ensures
        match schema_compile_error(schema_text@) {
            Some(e) => r matches Err(m) && m@ == e,
            None => r matches Ok(v) && (v@.len() == 0 <==> schema_accepts(schema_text@, value_text@)),
        },
{
    let schema: serde_json::Value = match serde_json::from_str(schema_text) {
        Ok(v) => v,
        Err(e) => return Err(e.to_string()),
    };
    let validator = match jsonschema::validator_for(&schema) {
        Ok(v) => v,
        Err(e) => return Err(e.to_string()),
    };
    match serde_json::from_str::<serde_json::Value>(value_text) {
        Ok(value) => Ok(validator.iter_errors(&value).map(|e| e.to_string()).collect()),
        Err(e) => Ok(vec![e.to_string()]),
    }
}

/// A declared slot's value, if given, meets its schema (which compiles).
pub open spec fn slot_ok(d: SlotDef, slots: Seq<(String, Json)>) -> bool {
    match jlookup(entries_jv(slots), d.name@) {
        None => true,
        Some(v) => schema_compile_error(text_of(jv(d.schema))) is None && schema_accepts(text_of(jv(d.schema)), text_of(v)),
    }
}

/// The texts joined with `; `.
pub open spec fn semi_joined(parts: Seq<Seq<char>>) -> Seq<char>
    decreases parts.len(),
{
    if parts.len() == 0 {
        Seq::empty()
    } else if parts.len() == 1 {
        parts[0]
    } else {
        semi_joined(parts.drop_last()) + "; "@ + parts.last()
    }
}

pub open spec fn violation_prefix(name: Seq<char>) -> Seq<char> {
    "slot '"@ + name + "' validation failed: "@
}

/// The error that a slot's failed check gives.
pub open spec fn slot_error_ok(d: SlotDef, e: WeaveflowError) -> bool {
    match schema_compile_error(text_of(jv(d.schema))) {
        Some(ce) => e matches WeaveflowError::Internal(m) && m@ == "slot '"@ + d.name@ + "' schema compile error: "@ + ce,
        None => e matches WeaveflowError::BadRequest(m) && m@.len() >= violation_prefix(d.name@).len() && m@.take(
            violation_prefix(d.name@).len() as int,
        ) == violation_prefix(d.name@),
    }
}

/// The error for a slot value that its schema rejects: the slot and the
/// validator's messages, joined with `; `.
pub fn violation_error(name: &str, msgs: &Vec<String>) -> (r: WeaveflowError)
    ensures
        r matches WeaveflowError::BadRequest(m) && m@ == violation_prefix(name@) + semi_joined(crate::text::strs_view(msgs@)),
{
    let ghost mv = crate::text::strs_view(msgs@);
    let mut m = to_string("slot '");
    push_str(&mut m, name);
    push_str(&mut m, "' validation failed: ");
    let ghost head = m@;
    let mut k: usize = 0;
    while k < msgs.len()
        invariant
            k <= msgs@.len(),
            mv == crate::text::strs_view(msgs@),
            m@ == head + semi_joined(mv.take(k as int)),
        decreases msgs@.len() - k,
    {
        assert(mv.take(k + 1).drop_last() =~= mv.take(k as int));
        if k > 0 {
            push_str(&mut m, "; ");
        } else {
            assert(semi_joined(mv.take(0)) =~= Seq::<char>::empty());
        }
        push_str(&mut m, msgs[k].as_str());
        assert(mv[k as int] == msgs@[k as int]@);
        assert(m@ =~= head + semi_joined(mv.take(k + 1)));
        k = k + 1;
    }
    assert(mv.take(msgs@.len() as int) =~= mv);
    WeaveflowError::BadRequest(m)
}

/// Checks each given slot value against its declared schema, slots in the
/// order declared: the first slot whose schema does not compile, or whose
/// value the schema rejects, ends the check with its error.
pub fn check_slots(defs: &Vec<SlotDef>, slots: &Vec<(String, Json)>) -> (r: Result<(), WeaveflowError>)
    ensures
        r is Ok <==> forall|i: int| 0 <= i < defs@.len() ==> slot_ok(#[trigger] defs@[i], slots@),
        r matches Err(e) ==> exists|k: int|
            0 <= k < defs@.len() && (forall|i: int| 0 <= i < k ==> slot_ok(#[trigger] defs@[i], slots@)) && !slot_ok(
                defs@[k],
                slots@,
            ) && slot_error_ok(defs@[k], e),
{
    let mut i: usize = 0;
    while i < defs.len()
        invariant
            i <= defs@.len(),
            forall|j: int| 0 <= j < i ==> slot_ok(#[trigger] defs@[j], slots@),
        decreases defs@.len() - i,
    {
        let d = &defs[i];
        match lookup(slots, d.name.as_str()) {
            Some(v) => {
                let schema_text = to_text(&d.schema);
                let value_text = to_text(v);
                match check_value(schema_text.as_str(), value_text.as_str()) {
                    Err(ce) => {
                        let mut m = to_string("slot '");
                        push_str(&mut m, d.name.as_str());
                        push_str(&mut m, "' schema compile error: ");
                        push_str(&mut m, ce.as_str());
                        let e = WeaveflowError::Internal(m);
                        assert(!slot_ok(defs@[i as int], slots@));
                        assert(slot_error_ok(defs@[i as int], e));
                        return Err(e);
                    },
                    Ok(msgs) => {
                        if msgs.len() > 0 {
                            let e = violation_error(d.name.as_str(), &msgs);
                            assert(!slot_ok(defs@[i as int], slots@));
                            proof {
                                let p = violation_prefix(d.name@);
                                let m = e->BadRequest_0@;
                                assert(m.take(p.len() as int) =~= p);
                            }
                            assert(slot_error_ok(defs@[i as int], e));
                            return Err(e);
                        }
                    },
                }
            },
            None => {},
        }
        assert(slot_ok(defs@[i as int], slots@));
        i = i + 1;
    }
    Ok(())
}

} // verus!
