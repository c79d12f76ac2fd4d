use weaveflow::engine::start::start_run;
use weaveflow::dsl::pipeline::SlotDef;
use weaveflow::dsl::step::{BackoffStrategy, BatchConfig, IterateConfig, RetryDef, StepId};
use weaveflow::dsl::variable::{RefValue, VariablePath};
use weaveflow::engine::iterate::{check_batch, chunk_count, chunk_of, effective_max_workers, join_results, should_report};
use weaveflow::engine::retry::{after_attempt, max_attempts, retry_wait, RetryStep};
use weaveflow::dsl::pipeline::PipelineDef;
use weaveflow::dsl::step::{StepDef, StepOp};
use weaveflow::engine::dag::Dag;
use weaveflow::engine::flow::{iter_next, run_next, IterAction, IterEvent, IterState, RunAction, RunEvent, RunState};
use weaveflow::engine::runner::{check_slots, violation_error};
use weaveflow::engine::runner::{apply_slot_defaults, last_step, layer_failure, single_output_ref};
use weaveflow::error::WeaveflowError;
use weaveflow::json::{Json, JsonNumber};

fn i(n: i128) -> Json {
    Json::Number(JsonNumber::Int(n))
}

fn iterate_cfg(max_workers: Option<u32>, batch: Option<u32>) -> IterateConfig {
    IterateConfig {
        over: VariablePath::parse("{slots.items}").unwrap(),
        as_name: "item".into(),
        max_workers,
        batch: batch.map(|size| BatchConfig { size }),
    }
}

#[test]
fn effective_max_workers_none_uses_available_parallelism() {
    let cfg = iterate_cfg(None, None);
    assert_eq!(effective_max_workers(&cfg, Some(8)), 8);
    assert_eq!(effective_max_workers(&cfg, None), 4);
}

#[test]
fn effective_max_workers_zero_is_defensive_one() {
    let cfg = iterate_cfg(Some(0), None);
    assert_eq!(effective_max_workers(&cfg, Some(8)), 1);
}

#[test]
fn effective_max_workers_explicit_value() {
    let cfg = iterate_cfg(Some(3), None);
    assert_eq!(effective_max_workers(&cfg, Some(8)), 3);
}

#[test]
fn batch_size_zero_returns_error_not_panic() {
    let cfg = iterate_cfg(None, Some(0));
    match check_batch("s", &cfg) {
        Err(WeaveflowError::BadRequest(m)) => assert!(m.contains("batch.size"), "message: {m}"),
        other => panic!("expected a bad request, got {:?}", other.is_ok()),
    }
    assert!(check_batch("s", &iterate_cfg(None, Some(2))).is_ok());
}

#[test]
fn batched_chunks_cover_all_elements() {
    let cfg = iterate_cfg(None, Some(2));
    let over = Json::Array(vec![i(1), i(2), i(3)]);
    assert_eq!(chunk_count(&over, &cfg), 2);
    assert_eq!(chunk_of(&over, &cfg, 0), Json::Array(vec![i(1), i(2)]));
    assert_eq!(chunk_of(&over, &cfg, 1), Json::Array(vec![i(3)]));
    let plain = iterate_cfg(None, None);
    assert_eq!(chunk_count(&over, &plain), 3);
    assert_eq!(chunk_of(&over, &plain, 2), i(3));
    assert_eq!(chunk_count(&i(7), &plain), 1);
}

#[test]
fn batched_non_array_chunk_result_returns_error() {
    let r = join_results("s", true, vec![Json::Array(vec![i(1)]), i(2)]);
    assert!(r.is_err());
    let r = join_results("s", true, vec![Json::Array(vec![i(1)]), Json::Array(vec![i(2), i(3)])]);
    assert_eq!(r.unwrap(), Json::Array(vec![i(1), i(2), i(3)]));
    let r = join_results("s", false, vec![i(1), i(2)]);
    assert_eq!(r.unwrap(), Json::Array(vec![i(1), i(2)]));
}

#[test]
fn progress_reported_every_tenth_and_last() {
    assert!(should_report(10, 25));
    assert!(should_report(25, 25));
    assert!(!should_report(11, 25));
}

fn retry(max: u32, backoff: BackoffStrategy, delay: u64) -> Option<RetryDef> {
    Some(RetryDef { max_attempts: max, backoff, delay_ms: delay })
}

#[test]
fn retry_attempts_and_waits() {
    assert_eq!(max_attempts(&None), 1);
    assert_eq!(max_attempts(&retry(0, BackoffStrategy::Fixed, 10)), 1);
    assert_eq!(max_attempts(&retry(3, BackoffStrategy::Fixed, 10)), 3);
    assert_eq!(retry_wait(&retry(3, BackoffStrategy::Fixed, 250), 2), 250);
    let exp = retry(5, BackoffStrategy::Exponential, 1000);
    assert_eq!(retry_wait(&exp, 0), 1000);
    assert_eq!(retry_wait(&exp, 3), 8000);
    assert_eq!(retry_wait(&exp, 10), 60000);
    assert_eq!(retry_wait(&retry(5, BackoffStrategy::Exponential, u64::MAX), 30), 60000);
}

#[test]
fn retry_steps_through_attempts() {
    let r = retry(2, BackoffStrategy::Fixed, 100);
    assert_eq!(after_attempt(&r, 0, false), RetryStep::RetryAfter { wait_ms: 100 });
    assert_eq!(after_attempt(&r, 1, false), RetryStep::Failed { tries: 2 });
    assert_eq!(after_attempt(&r, 1, true), RetryStep::Succeeded { tries: 2 });
}

#[test]
fn slot_defaults_fill_missing_slots() {
    let schema = Json::Object(vec![("default".into(), i(5)), ("type".into(), Json::Str("number".into()))]);
    let defs = vec![
        SlotDef { name: "n".into(), schema },
        SlotDef { name: "m".into(), schema: Json::Object(vec![]) },
    ];
    let filled = apply_slot_defaults(&defs, vec![]);
    assert_eq!(filled, vec![("n".to_string(), i(5))]);
    let kept = apply_slot_defaults(&defs, vec![("n".to_string(), i(1))]);
    assert_eq!(kept, vec![("n".to_string(), i(1))]);
}

#[test]
fn output_ref_names_its_step() {
    let r = RefValue::Ref(VariablePath::parse("{fetch.output}").unwrap());
    assert_eq!(single_output_ref(&r), Some(StepId::new("fetch")));
    assert_eq!(single_output_ref(&RefValue::Literal(Json::Null)), None);
}

#[test]
fn layer_failure_reports_first_failed_step() {
    let outcomes = vec![(StepId::new("a"), None), (StepId::new("b"), Some("boom".to_string()))];
    let msg = layer_failure(&outcomes).expect("failure");
    assert!(msg.contains("b") && msg.contains("boom"));
    assert_eq!(layer_failure(&vec![(StepId::new("a"), None)]), None);
}

fn noop(id: &str, after: Vec<&str>) -> StepDef {
    StepDef {
        id: StepId::new(id),
        after: if after.is_empty() { None } else { Some(after.into_iter().map(StepId::new).collect()) },
        iterate: None,
        cache: None,
        retry: None,
        timeout_sec: None,
        op: StepOp::Noop,
    }
}

#[test]
fn last_step_prefers_the_output_reference() {
    let def = PipelineDef {
        name: "p".into(),
        description: None,
        storage: None,
        slots: vec![],
        steps: vec![noop("a", vec![]), noop("b", vec!["a"]), noop("c", vec!["a"])],
        output: RefValue::Ref(VariablePath::parse("{b.output}").unwrap()),
    };
    let dag = Dag::from_pipeline(&def).unwrap();
    let layers = dag.topological_sort().unwrap();
    assert_eq!(last_step(&def.output, &dag, &layers), Some(StepId::new("b")));
    let ghost_ref = RefValue::Ref(VariablePath::parse("{zz.output}").unwrap());
    let fallback = last_step(&ghost_ref, &dag, &layers);
    assert_eq!(fallback, layers.last().and_then(|l| l.last()).cloned());
    assert_eq!(last_step(&RefValue::Literal(Json::Null), &dag, &layers), fallback);
}

fn ids(xs: &[&str]) -> Vec<StepId> {
    xs.iter().map(|x| StepId::new(x)).collect()
}

#[test]
fn run_goes_layer_by_layer_and_finishes() {
    let s = RunState::new(vec![ids(&["a", "b"]), ids(&["c"])]);
    let (s, act) = run_next(s, &RunEvent::Start);
    assert!(matches!(act, RunAction::RunLayer { index: 0, ref steps } if *steps == ids(&["a", "b"])));
    let done = RunEvent::LayerDone(vec![(StepId::new("a"), None), (StepId::new("b"), None)]);
    let (s, act) = run_next(s, &done);
    assert!(matches!(act, RunAction::RunLayer { index: 1, ref steps } if *steps == ids(&["c"])));
    let (s, act) = run_next(s, &RunEvent::LayerDone(vec![(StepId::new("c"), None)]));
    assert!(matches!(act, RunAction::Finish));
    let (_, act) = run_next(s, &RunEvent::Start);
    assert!(matches!(act, RunAction::Idle));
}

#[test]
fn run_stops_at_first_failure_and_skips_later_layers() {
    let s = RunState::new(vec![ids(&["a", "b"]), ids(&["c", "d"]), ids(&["e"])]);
    let (s, _) = run_next(s, &RunEvent::Start);
    let done = RunEvent::LayerDone(vec![
        (StepId::new("a"), Some("boom".to_string())),
        (StepId::new("b"), Some("later".to_string())),
    ]);
    let (s, act) = run_next(s, &done);
    match act {
        RunAction::Fail { error, skipped } => {
            assert_eq!(error, "step a failed: boom");
            assert_eq!(skipped, ids(&["c", "d", "e"]));
        }
        _ => panic!("expected a failure"),
    }
    assert!(s.over);
}

#[test]
fn iteration_runs_in_waves_and_keeps_order() {
    let s = IterState::new(5, 2);
    let (s, act) = iter_next(s, &IterEvent::Start);
    assert!(matches!(act, IterAction::Dispatch { from: 0, to: 2, .. }));
    let (s, act) = iter_next(s, &IterEvent::WaveDone(vec![Ok((i(0), 1)), Ok((i(1), 3))]));
    assert!(matches!(act, IterAction::Dispatch { from: 2, to: 4, .. }));
    let (s, act) = iter_next(s, &IterEvent::WaveDone(vec![Ok((i(2), 1)), Ok((i(3), 1))]));
    assert!(matches!(act, IterAction::Dispatch { from: 4, to: 5, .. }));
    let (s, act) = iter_next(s, &IterEvent::WaveDone(vec![Ok((i(4), 2))]));
    match act {
        IterAction::Finish { reports } => assert_eq!(reports, vec![5]),
        _ => panic!("expected the end"),
    }
    assert_eq!(s.results, vec![i(0), i(1), i(2), i(3), i(4)]);
    assert_eq!(s.max_attempts, 3);
    assert_eq!(s.done, 5);
}

#[test]
fn iteration_fails_at_first_failed_chunk() {
    let s = IterState::new(3, 3);
    let (s, _) = iter_next(s, &IterEvent::Start);
    let wave = IterEvent::WaveDone(vec![
        Ok((i(0), 1)),
        Err((WeaveflowError::Operator("x".into()), 2)),
        Err((WeaveflowError::Operator("y".into()), 4)),
    ]);
    let (s, act) = iter_next(s, &wave);
    assert!(matches!(act, IterAction::Fail { chunk: 1, attempts: 2, .. }));
    assert_eq!(s.results, vec![i(0)]);
    assert!(s.over);
    let empty = IterState::new(0, 4);
    let (_, act) = iter_next(empty, &IterEvent::Start);
    assert!(matches!(act, IterAction::Finish { .. }));
}

#[test]
fn progress_reports_every_tenth_chunk() {
    let s = IterState::new(12, 12);
    let (s, _) = iter_next(s, &IterEvent::Start);
    let wave = IterEvent::WaveDone((0..12).map(|k| Ok((i(k), 1))).collect());
    let (_, act) = iter_next(s, &wave);
    match act {
        IterAction::Finish { reports } => assert_eq!(reports, vec![10, 12]),
        _ => panic!("expected the end"),
    }
}

fn slot(name: &str, schema: Json) -> SlotDef {
    SlotDef { name: name.into(), schema }
}

#[test]
fn slot_values_are_checked_against_their_schema() {
    let string_schema = Json::Object(vec![("type".into(), Json::Str("string".into()))]);
    let defs = vec![slot("url", string_schema)];
    assert!(check_slots(&defs, &vec![("url".to_string(), Json::Str("x".into()))]).is_ok());
    assert!(check_slots(&defs, &vec![]).is_ok());
    match check_slots(&defs, &vec![("url".to_string(), i(5))]) {
        Err(WeaveflowError::BadRequest(m)) => assert!(m.starts_with("slot 'url' validation failed: "), "{m}"),
        _ => panic!("expected a rejected value"),
    }
    let bad = vec![slot("n", Json::Object(vec![("type".into(), i(12))]))];
    match check_slots(&bad, &vec![("n".to_string(), i(1))]) {
        Err(WeaveflowError::Internal(m)) => assert!(m.starts_with("slot 'n' schema compile error: "), "{m}"),
        _ => panic!("expected a schema error"),
    }
}

#[test]
fn violation_messages_are_joined() {
    let e = violation_error("s", &vec!["a".to_string(), "b".to_string()]);
    assert!(matches!(e, WeaveflowError::BadRequest(m) if m == "slot 's' validation failed: a; b"));
}

fn noop_step(id: &str, after: &[&str]) -> StepDef {
    StepDef {
        id: StepId::new(id),
        after: if after.is_empty() { None } else { Some(ids(after)) },
        iterate: None,
        cache: None,
        retry: None,
        timeout_sec: None,
        op: StepOp::Noop,
    }
}

fn pipeline(slots: Vec<SlotDef>, steps: Vec<StepDef>) -> PipelineDef {
    PipelineDef {
        name: "p".into(),
        description: None,
        storage: None,
        slots,
        steps,
        output: RefValue::Literal(Json::Null),
    }
}

#[test]
fn start_checks_slots_before_building_the_graph() {
    let string_schema = Json::Object(vec![("type".into(), Json::Str("string".into()))]);
    // no steps at all, and a slot value its schema rejects: the slot error comes first
    let def = pipeline(vec![slot("url", string_schema.clone())], vec![]);
    match start_run(&def, vec![("url".to_string(), i(5))]) {
        Err(WeaveflowError::BadRequest(m)) => assert!(m.starts_with("slot 'url' validation failed: "), "{m}"),
        other => panic!("expected the slot error, got {:?}", other.err()),
    }
    // a default that fails its own schema is checked too
    let defaulted = Json::Object(vec![("default".into(), i(1)), ("type".into(), Json::Str("string".into()))]);
    let def = pipeline(vec![slot("n", defaulted)], vec![noop_step("a", &[])]);
    assert!(matches!(start_run(&def, vec![]), Err(WeaveflowError::BadRequest(_))));
    // slots pass: the DAG errors follow
    let def = pipeline(vec![slot("url", string_schema)], vec![]);
    match start_run(&def, vec![("url".to_string(), Json::Str("x".into()))]) {
        Err(WeaveflowError::Internal(m)) => assert_eq!(m, "DAG: DAG has no steps"),
        other => panic!("expected the DAG error, got {:?}", other.err()),
    }
}

#[test]
fn start_reports_dag_errors_in_their_words() {
    let dup = pipeline(vec![], vec![noop_step("a", &[]), noop_step("a", &[])]);
    assert!(matches!(start_run(&dup, vec![]), Err(WeaveflowError::Internal(m)) if m == "DAG: duplicate step id: a"));
    let missing = pipeline(vec![], vec![noop_step("a", &["zz"])]);
    assert!(matches!(start_run(&missing, vec![]), Err(WeaveflowError::Internal(m)) if m == "DAG: after reference not found: zz"));
    let cycle = pipeline(vec![], vec![noop_step("a", &["b"]), noop_step("b", &["a"])]);
    assert!(matches!(start_run(&cycle, vec![]),
        Err(WeaveflowError::Internal(m)) if m == "DAG: cycle detected, remaining nodes: [StepId(\"a\"), StepId(\"b\")]"));
}

#[test]
fn start_lays_out_the_run_with_defaults() {
    let defaulted = Json::Object(vec![("default".into(), i(3)), ("type".into(), Json::Str("integer".into()))]);
    let def = pipeline(vec![slot("n", defaulted)], vec![noop_step("b", &["a"]), noop_step("a", &[])]);
    let (slots, st) = start_run(&def, vec![]).expect("start");
    assert_eq!(slots.len(), 1);
    assert_eq!(slots[0].0, "n");
    assert!(matches!(slots[0].1, Json::Number(JsonNumber::Int(3))));
    assert_eq!(st.layers, vec![ids(&["a"]), ids(&["b"])]);
    assert_eq!(st.next, 0);
    assert!(!st.over);
}
