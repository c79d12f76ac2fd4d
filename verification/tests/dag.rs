use weaveflow::dsl::pipeline::PipelineDef;
use weaveflow::dsl::schema;
use weaveflow::dsl::step::{FilterInputs, HttpInputs, MergeInputs, StepDef, StepId, StepOp, VarInputs};
use weaveflow::dsl::variable::{RefValue, VariablePath};
use weaveflow::engine::dag::{Dag, DagError};
use weaveflow::json::Json;
use weaveflow::runtime::dag as rdag;

fn s(x: &str) -> Json {
    Json::Str(x.to_string())
}

fn obj(entries: Vec<(&str, Json)>) -> Json {
    let mut es: Vec<(String, Json)> = entries.into_iter().map(|(k, v)| (k.to_string(), v)).collect();
    es.sort_by(|a, b| a.0.cmp(&b.0));
    Json::Object(es)
}

fn ref_tag(parts: Vec<&str>) -> Json {
    obj(vec![("Ref", obj(vec![("parts", Json::Array(parts.into_iter().map(s).collect()))]))])
}

fn make_pipeline(steps: Vec<StepDef>) -> PipelineDef {
    PipelineDef {
        name: "test".to_string(),
        description: None,
        storage: None,
        slots: vec![],
        steps,
        output: RefValue::Literal(s("ok")),
    }
}

fn step(id: &str, after: Vec<&str>) -> StepDef {
    StepDef {
        id: StepId::new(id),
        after: if after.is_empty() { None } else { Some(after.into_iter().map(StepId::new).collect()) },
        iterate: None,
        cache: None,
        retry: None,
        timeout_sec: None,
        op: StepOp::Noop,
    }
}

fn with_op(id: &str, op: StepOp) -> StepDef {
    let mut st = step(id, vec![]);
    st.op = op;
    st
}

fn sid(x: &str) -> StepId {
    StepId::new(x)
}

fn r_pipeline(steps: Vec<schema::StepDef>) -> schema::PipelineDef {
    schema::PipelineDef {
        name: "test".to_string(),
        description: None,
        storage: None,
        slots: vec![],
        steps,
        output: "{}".into(),
    }
}

fn r_step(id: &str, after: Vec<&str>) -> schema::StepDef {
    schema::StepDef {
        id: id.into(),
        step_type: "noop".into(),
        after: if after.is_empty() { None } else { Some(after.into_iter().map(|x| x.to_string()).collect()) },
        iterate: None,
        inputs: None,
        cache: None,
        retry: None,
        timeout: None,
        code: None,
    }
}

fn r_step_inputs(id: &str, inputs: Json) -> schema::StepDef {
    let mut st = r_step(id, vec![]);
    st.inputs = Some(inputs);
    st
}

#[test]
fn string_field_with_brace_pattern_is_not_a_dep() {
    let s1 = with_op(
        "a",
        StepOp::Filter(FilterInputs { data: None, operator: "eq".into(), field: Some("{b.output}".into()), value: None }),
    );
    let s2 = with_op(
        "b",
        StepOp::Filter(FilterInputs { data: None, operator: "eq".into(), field: Some("{a.output}".into()), value: None }),
    );
    let p = make_pipeline(vec![s1, s2]);
    let dag = Dag::from_pipeline(&p).expect("no cycle from literal String fields");
    assert!(dag.predecessors(&sid("a")).unwrap().is_empty());
    assert!(dag.predecessors(&sid("b")).unwrap().is_empty());
}

#[test]
fn unparsable_ref_tag_falls_back_to_recursion() {
    let s1 = with_op(
        "a",
        StepOp::Var(VarInputs {
            value: Some(RefValue::Literal(obj(vec![("Ref", obj(vec![("nested", ref_tag(vec!["b", "output"]))]))]))),
        }),
    );
    let p = make_pipeline(vec![s1, step("b", vec![])]);
    let dag = Dag::from_pipeline(&p).unwrap();
    assert_eq!(dag.predecessors(&sid("a")).unwrap(), &vec![sid("b")]);
}

#[test]
fn dag_empty_graph_errors() {
    let p = make_pipeline(vec![]);
    assert!(matches!(Dag::from_pipeline(&p), Err(DagError::EmptyGraph)));
    let rp = r_pipeline(vec![]);
    assert!(matches!(rdag::Dag::from_pipeline(&rp), Err(rdag::DagError::EmptyGraph)));
}

#[test]
fn dag_single_step() {
    let p = make_pipeline(vec![step("a", vec![])]);
    let layers = Dag::from_pipeline(&p).unwrap().topological_sort().unwrap();
    assert_eq!(layers.len(), 1);
    assert_eq!(layers[0], vec![sid("a")]);

    let rp = r_pipeline(vec![r_step("a", vec![])]);
    let layers = rdag::Dag::from_pipeline(&rp).unwrap().topological_sort().unwrap();
    assert_eq!(layers.len(), 1);
    assert_eq!(layers[0], vec!["a"]);
}

#[test]
fn dag_linear_dag() {
    let p = make_pipeline(vec![step("a", vec![]), step("b", vec!["a"]), step("c", vec!["b"])]);
    let layers = Dag::from_pipeline(&p).unwrap().topological_sort().unwrap();
    assert_eq!(layers.len(), 3);
    assert_eq!(layers[0], vec![sid("a")]);
    assert_eq!(layers[1], vec![sid("b")]);
    assert_eq!(layers[2], vec![sid("c")]);

    let rp = r_pipeline(vec![r_step("a", vec![]), r_step("b", vec!["a"]), r_step("c", vec!["b"])]);
    let layers = rdag::Dag::from_pipeline(&rp).unwrap().topological_sort().unwrap();
    assert_eq!(layers.len(), 3);
    assert_eq!(layers[0], vec!["a"]);
    assert_eq!(layers[1], vec!["b"]);
    assert_eq!(layers[2], vec!["c"]);
}

#[test]
fn dag_parallel_layers() {
    let p = make_pipeline(vec![step("a", vec![]), step("b", vec![]), step("c", vec!["a", "b"])]);
    let layers = Dag::from_pipeline(&p).unwrap().topological_sort().unwrap();
    assert_eq!(layers.len(), 2);
    assert_eq!(layers[0].len(), 2);
    assert!(layers[0].contains(&sid("a")));
    assert!(layers[0].contains(&sid("b")));
    assert_eq!(layers[1], vec![sid("c")]);

    let rp = r_pipeline(vec![r_step("a", vec![]), r_step("b", vec![]), r_step("c", vec!["a", "b"])]);
    let layers = rdag::Dag::from_pipeline(&rp).unwrap().topological_sort().unwrap();
    assert_eq!(layers.len(), 2);
    assert_eq!(layers[0].len(), 2);
    assert!(layers[0].contains(&"a".to_string()));
    assert!(layers[0].contains(&"b".to_string()));
    assert_eq!(layers[1], vec!["c"]);
}

#[test]
fn dag_cycle_detected() {
    let p = make_pipeline(vec![step("a", vec!["c"]), step("b", vec!["a"]), step("c", vec!["b"])]);
    let dag = Dag::from_pipeline(&p).unwrap();
    assert!(dag.has_cycle());
    assert!(dag.topological_sort().is_err());

    let rp = r_pipeline(vec![r_step("a", vec!["c"]), r_step("b", vec!["a"]), r_step("c", vec!["b"])]);
    let dag = rdag::Dag::from_pipeline(&rp).unwrap();
    assert!(dag.has_cycle());
    assert!(dag.topological_sort().is_err());
}

#[test]
fn dag_ref_not_found() {
    let p = make_pipeline(vec![step("a", vec!["nonexistent"])]);
    assert!(matches!(Dag::from_pipeline(&p), Err(DagError::RefNotFound(x)) if x == sid("nonexistent")));
    let rp = r_pipeline(vec![r_step("a", vec!["nonexistent"])]);
    assert!(matches!(rdag::Dag::from_pipeline(&rp), Err(rdag::DagError::RefNotFound(x)) if x == "nonexistent"));
}

#[test]
fn dag_no_deps_parallel() {
    let p = make_pipeline(vec![step("a", vec![]), step("b", vec![]), step("c", vec![]), step("d", vec![])]);
    let layers = Dag::from_pipeline(&p).unwrap().topological_sort().unwrap();
    assert_eq!(layers.len(), 1);
    assert_eq!(layers[0].len(), 4);

    let rp = r_pipeline(vec![r_step("a", vec![]), r_step("b", vec![]), r_step("c", vec![]), r_step("d", vec![])]);
    let layers = rdag::Dag::from_pipeline(&rp).unwrap().topological_sort().unwrap();
    assert_eq!(layers.len(), 1);
    assert_eq!(layers[0].len(), 4);
}

#[test]
fn dag_implicit_dep_via_input_ref() {
    let s_e = with_op(
        "e",
        StepOp::Var(VarInputs { value: Some(RefValue::Ref(VariablePath::parse("{d.output.items}").unwrap())) }),
    );
    let p = make_pipeline(vec![step("d", vec![]), s_e]);
    let layers = Dag::from_pipeline(&p).unwrap().topological_sort().unwrap();
    assert_eq!(layers.len(), 2);
    assert_eq!(layers[0], vec![sid("d")]);
    assert_eq!(layers[1], vec![sid("e")]);

    let rp = r_pipeline(vec![r_step("d", vec![]), r_step_inputs("e", obj(vec![("data", s("{d.output.items}"))]))]);
    let layers = rdag::Dag::from_pipeline(&rp).unwrap().topological_sort().unwrap();
    assert_eq!(layers.len(), 2);
    assert_eq!(layers[0], vec!["d"]);
    assert_eq!(layers[1], vec!["e"]);
}

#[test]
fn dag_implicit_dep_via_input_ref_nested() {
    let s_b = with_op(
        "b",
        StepOp::Http(HttpInputs {
            url: RefValue::Ref(VariablePath::parse("{a.output.url}").unwrap()),
            method: None,
            headers: None,
            body: None,
        }),
    );
    let p = make_pipeline(vec![step("a", vec![]), s_b]);
    let layers = Dag::from_pipeline(&p).unwrap().topological_sort().unwrap();
    assert_eq!(layers[0], vec![sid("a")]);
    assert_eq!(layers[1], vec![sid("b")]);

    let rp = r_pipeline(vec![r_step("a", vec![]), r_step_inputs("b", obj(vec![("url", s("{a.output.url}"))]))]);
    let layers = rdag::Dag::from_pipeline(&rp).unwrap().topological_sort().unwrap();
    assert_eq!(layers[0], vec!["a"]);
    assert_eq!(layers[1], vec!["b"]);
}

#[test]
fn duplicate_step_id_errors() {
    let p = make_pipeline(vec![step("a", vec![]), step("a", vec![])]);
    let result = Dag::from_pipeline(&p);
    assert!(matches!(result, Err(DagError::DuplicateStepId(_))));
}

#[test]
fn implicit_dep_via_ref_tag_nested_in_literal_object() {
    let s_b = with_op(
        "b",
        StepOp::Merge(MergeInputs {
            b: RefValue::Literal(obj(vec![(
                "nested",
                obj(vec![("deep", Json::Array(vec![ref_tag(vec!["a", "output", "val"])]))]),
            )])),
            a: None,
        }),
    );
    let p = make_pipeline(vec![step("a", vec![]), s_b]);
    let layers = Dag::from_pipeline(&p).unwrap().topological_sort().unwrap();
    assert_eq!(layers[0], vec![sid("a")]);
    assert_eq!(layers[1], vec![sid("b")]);
}

#[test]
fn embedded_ref_in_string_literal_creates_no_ghost_edge() {
    let s_a = with_op("a", StepOp::Var(VarInputs { value: Some(RefValue::Literal(s("prefix {b.output} suffix"))) }));
    let s_b = with_op(
        "b",
        StepOp::Var(VarInputs { value: Some(RefValue::Ref(VariablePath::parse("{a.output}").unwrap())) }),
    );
    let p = make_pipeline(vec![s_a, s_b]);
    let dag = Dag::from_pipeline(&p).expect("no cycle from embedded literal");
    assert!(dag.predecessors(&sid("a")).unwrap().is_empty());
    let layers = dag.topological_sort().unwrap();
    assert_eq!(layers[0], vec![sid("a")]);
    assert_eq!(layers[1], vec![sid("b")]);
}

#[test]
fn dag_successors_mirror_predecessors() {
    let p = make_pipeline(vec![step("a", vec![]), step("b", vec!["a"]), step("c", vec!["a"])]);
    let dag = Dag::from_pipeline(&p).unwrap();
    let succ = dag.successors(&sid("a")).unwrap();
    assert_eq!(succ.len(), 2);
    assert!(succ.contains(&sid("b")) && succ.contains(&sid("c")));
    assert!(dag.successors(&sid("zzz")).is_none());
    assert_eq!(dag.step_ids().len(), 3);
}

#[test]
fn runtime_dag_cycle_names_unplaced_steps() {
    let rp = r_pipeline(vec![r_step("a", vec!["b"]), r_step("b", vec!["a"]), r_step("c", vec![])]);
    let dag = rdag::Dag::from_pipeline(&rp).unwrap();
    match dag.topological_sort() {
        Err(rdag::DagError::CycleFound(names)) => {
            assert_eq!(names.len(), 2);
            assert!(names.iter().all(|n| n.ends_with("(1)")));
        }
        other => panic!("expected a cycle, got {:?}", other.is_ok()),
    }
}
