use weaveflow::dsl::pipeline::{PipelineDef, SlotDef};
use weaveflow::dsl::step::{
    Base64Inputs, BackoffStrategy, BatchConfig, CommandInputs, FilterInputs, HttpInputs, IterateConfig, JsInputs,
    LlmInputs, RetryDef, SortInputs, StepDef, StepId, StepOp, VarInputs,
};
use weaveflow::dsl::validator::{check_iterate_config, validate, JsCheck, ValidationReport};
use weaveflow::dsl::variable::{RefValue, VariablePath};
use weaveflow::float::FloatValue;
use weaveflow::json::{Json, JsonNumber};

fn s(x: &str) -> Json {
    Json::Str(x.to_string())
}

fn obj(entries: Vec<(&str, Json)>) -> Json {
    let mut es: Vec<(String, Json)> = entries.into_iter().map(|(k, v)| (k.to_string(), v)).collect();
    es.sort_by(|a, b| a.0.cmp(&b.0));
    Json::Object(es)
}

fn arr(items: Vec<Json>) -> Json {
    Json::Array(items)
}

fn var_ref(x: &str) -> RefValue {
    RefValue::Ref(VariablePath::parse(x).unwrap())
}

fn literal(v: Json) -> RefValue {
    RefValue::Literal(v)
}

fn ref_tag(a: &str, b: &str) -> Json {
    obj(vec![("Ref", obj(vec![("parts", arr(vec![s(a), s(b)]))]))])
}

fn step_http(url: &str) -> StepDef {
    StepDef {
        id: StepId::new("fetch"),
        after: None,
        iterate: None,
        cache: None,
        retry: None,
        timeout_sec: None,
        op: StepOp::Http(HttpInputs { url: var_ref(url), method: None, headers: None, body: None }),
    }
}

fn step_noop(id: &str, after: Vec<&str>) -> StepDef {
    StepDef {
        id: StepId::new(id),
        after: if after.is_empty() { None } else { Some(after.into_iter().map(StepId::new).collect()) },
        iterate: None,
        cache: None,
        retry: None,
        timeout_sec: None,
        op: StepOp::Noop,
    }
}

fn step_var_ref(id: &str, r: &str) -> StepDef {
    StepDef {
        id: StepId::new(id),
        after: None,
        iterate: None,
        cache: None,
        retry: None,
        timeout_sec: None,
        op: StepOp::Var(VarInputs { value: Some(var_ref(r)) }),
    }
}

fn valid_def() -> PipelineDef {
    PipelineDef {
        name: "test".into(),
        description: None,
        storage: None,
        slots: vec![SlotDef { name: "url".into(), schema: obj(vec![("type", s("string"))]) }],
        steps: vec![step_http("{slots.url}")],
        output: var_ref("{fetch.output}"),
    }
}

fn check(def: &PipelineDef) -> ValidationReport {
    let js = vec![JsCheck::Passed; def.steps.len()];
    validate(def, &js)
}

fn has(report: &ValidationReport, code: &str) -> bool {
    report.errors.iter().any(|e| e.code == code)
}

fn iterate(over: &str, as_name: &str, max_workers: Option<u32>, batch: Option<BatchConfig>) -> Option<IterateConfig> {
    Some(IterateConfig { over: VariablePath::parse(over).unwrap(), as_name: as_name.into(), max_workers, batch })
}

fn llm(temperature: Option<FloatValue>, api_key: Option<RefValue>) -> StepOp {
    StepOp::Llm(LlmInputs {
        url: var_ref("{slots.url}"),
        model: "m".into(),
        prompt: literal(s("hi")),
        system: None,
        images_b64: None,
        image_type: None,
        max_tokens: 100,
        temperature,
        skip_vision_check: None,
        api_key,
    })
}

#[test]
fn valid_pipeline_passes() {
    let report = check(&valid_def());
    assert!(report.is_ok(), "expected no errors: {:?}", report.errors);
}

#[test]
fn empty_pipeline_name() {
    let mut def = valid_def();
    def.name = "".into();
    assert!(has(&check(&def), "empty_pipeline_name"));
}

#[test]
fn no_steps() {
    let mut def = valid_def();
    def.steps.clear();
    assert!(has(&check(&def), "no_steps"));
}

#[test]
fn empty_step_id() {
    let mut def = valid_def();
    def.steps[0].id = StepId::new("");
    assert!(has(&check(&def), "empty_step_id"));
}

#[test]
fn reserved_step_id_slots() {
    let mut def = valid_def();
    def.steps[0].id = StepId::new("slots");
    assert!(has(&check(&def), "reserved_step_id"));
}

#[test]
fn duplicate_step_id() {
    let mut def = valid_def();
    def.steps.push(def.steps[0].clone());
    assert!(has(&check(&def), "duplicate_step_id"));
}

#[test]
fn duplicate_slot_name() {
    let mut def = valid_def();
    def.slots.push(SlotDef { name: "url".into(), schema: obj(vec![("type", s("number"))]) });
    assert!(has(&check(&def), "duplicate_slot_name"));
}

#[test]
fn empty_slot_name() {
    let mut def = valid_def();
    def.slots[0].name = "".into();
    assert!(has(&check(&def), "empty_slot_name"));
}

#[test]
fn after_self_ref() {
    let mut def = valid_def();
    def.steps[0].after = Some(vec![StepId::new("fetch")]);
    assert!(has(&check(&def), "after_self_ref"));
}

#[test]
fn after_duplicate_entry() {
    let mut def = valid_def();
    def.steps.push(step_noop("step_b", vec!["fetch", "fetch"]));
    assert!(has(&check(&def), "duplicate_after_entry"));
}

#[test]
fn after_ref_not_found() {
    let mut def = valid_def();
    def.steps[0].after = Some(vec![StepId::new("nonexistent")]);
    assert!(has(&check(&def), "after_ref_not_found"));
}

#[test]
fn after_ref_found() {
    let mut def = valid_def();
    def.steps.push(step_noop("step_b", vec!["fetch"]));
    let report = check(&def);
    assert!(report.is_ok(), "expected no errors: {:?}", report.errors);
}

#[test]
fn variable_ref_not_found() {
    let mut def = valid_def();
    def.steps[0].op =
        StepOp::Http(HttpInputs { url: var_ref("{nonexistent.output}"), method: None, headers: None, body: None });
    assert!(has(&check(&def), "variable_ref_not_found"));
}

#[test]
fn output_ref_not_found() {
    let mut def = valid_def();
    def.output = var_ref("{nonexistent.output}");
    assert!(has(&check(&def), "output_ref_not_found"));
}

#[test]
fn slots_env_refs_are_not_checked() {
    let mut def = valid_def();
    def.slots.push(SlotDef { name: "source_url".into(), schema: obj(vec![("type", s("string"))]) });
    def.steps[0].op = StepOp::Http(HttpInputs {
        url: var_ref("{slots.source_url}"),
        method: None,
        headers: Some(vec![("Authorization".into(), var_ref("{env.API_KEY}"))]),
        body: None,
    });
    let report = check(&def);
    assert!(report.is_ok(), "expected no errors: {:?}", report.errors);
}

#[test]
fn empty_slots() {
    let mut def = valid_def();
    def.slots.clear();
    def.steps[0].op =
        StepOp::Http(HttpInputs { url: literal(s("https://example.com")), method: None, headers: None, body: None });
    assert!(check(&def).is_ok());
}

#[test]
fn invalid_iterate_config() {
    let mut def = valid_def();
    def.steps[0].iterate = iterate("{slots.url}", "item", Some(0), None);
    assert!(has(&check(&def), "invalid_iterate_config"));
}

#[test]
fn iterate_batch_size_zero_rejected() {
    let mut def = valid_def();
    def.steps[0].iterate = iterate("{slots.url}", "item", None, Some(BatchConfig { size: 0 }));
    assert!(has(&check(&def), "invalid_iterate_config"));
}

#[test]
fn iterate_as_name_reserved_prefix_rejected() {
    for reserved in ["slots", "env"] {
        let mut def = valid_def();
        def.steps[0].iterate = iterate("{slots.url}", reserved, None, None);
        assert!(has(&check(&def), "invalid_iterate_config"), "as_name '{reserved}' must be rejected");
    }
}

#[test]
fn iterate_as_name_step_id_conflict_rejected() {
    let mut def = valid_def();
    def.steps[0].iterate = iterate("{slots.url}", "fetch", None, None);
    assert!(has(&check(&def), "invalid_iterate_config"));
}

#[test]
fn iterate_as_name_ref_passthrough_allowed() {
    let mut def = valid_def();
    def.steps[0].iterate = iterate("{slots.url}", "item", None, None);
    def.steps[0].op = StepOp::Var(VarInputs { value: Some(var_ref("{item.name}")) });
    let report = check(&def);
    assert!(!has(&report, "variable_ref_not_found"), "as_name ref must not be flagged: {:?}", report.errors);
}

#[test]
fn retry_bounds_enforced() {
    let mut def = valid_def();
    def.steps[0].retry =
        Some(RetryDef { max_attempts: 101, backoff: BackoffStrategy::default_strategy(), delay_ms: 1000 });
    assert!(has(&check(&def), "invalid_retry_config"));

    let mut def = valid_def();
    def.steps[0].retry =
        Some(RetryDef { max_attempts: 3, backoff: BackoffStrategy::default_strategy(), delay_ms: u64::MAX });
    assert!(has(&check(&def), "invalid_retry_config"));
}

#[test]
fn base64_mode_whitelist() {
    let mut def = valid_def();
    def.steps[0].op = StepOp::Base64(Base64Inputs { data: Some(literal(s("x"))), mode: Some("rot13".into()) });
    assert!(has(&check(&def), "invalid_operator_config"));

    let mut def = valid_def();
    def.steps[0].op = StepOp::Base64(Base64Inputs { data: Some(literal(s("x"))), mode: Some("decode".into()) });
    let report = check(&def);
    assert!(report.is_ok(), "expected no errors: {:?}", report.errors);
}

#[test]
fn llm_temperature_must_be_finite() {
    let mut def = valid_def();
    def.steps[0].op = llm(Some(FloatValue::NaN), None);
    assert!(has(&check(&def), "invalid_operator_config"));
}

#[test]
fn llm_api_key_literal_rejected() {
    let mut def = valid_def();
    def.steps[0].op = llm(None, Some(literal(s("sk-plaintext"))));
    let report = check(&def);
    assert!(has(&report, "insecure_api_key"), "expected insecure_api_key error: {:?}", report.errors);
}

#[test]
fn llm_api_key_ref_accepted() {
    let mut def = valid_def();
    def.steps[0].op = llm(None, Some(var_ref("{env.OPENAI_API_KEY}")));
    let report = check(&def);
    assert!(!has(&report, "insecure_api_key"), "env ref api_key must be accepted: {:?}", report.errors);
}

#[test]
fn iterate_batch_size_nonzero_accepted() {
    let mut def = valid_def();
    def.steps[0].iterate = iterate("{slots.url}", "item", None, Some(BatchConfig { size: 8 }));
    let report = check(&def);
    assert!(report.is_ok(), "expected no errors: {:?}", report.errors);
}

#[test]
fn valid_iterate_config() {
    let mut def = valid_def();
    def.steps[0].iterate = iterate("{slots.url}", "item", Some(4), None);
    let report = check(&def);
    assert!(report.is_ok(), "expected no errors: {:?}", report.errors);
}

#[test]
fn json_schema_valid() {
    let mut def = valid_def();
    def.slots[0].schema = obj(vec![("type", s("string")), ("minLength", Json::Number(JsonNumber::Int(1)))]);
    assert!(check(&def).is_ok());
}

#[test]
fn nested_ref_in_object() {
    let mut def = valid_def();
    def.steps[0].op =
        StepOp::Var(VarInputs { value: Some(literal(obj(vec![("Authorization", ref_tag("nonexistent", "output"))]))) });
    assert!(has(&check(&def), "variable_ref_not_found"));
}

#[test]
fn multiple_errors_at_once() {
    let mut def = valid_def();
    def.steps.push(def.steps[0].clone());
    def.steps[0].after = Some(vec![StepId::new("ghost")]);
    def.output = var_ref("{ghost.output}");
    assert!(check(&def).errors.len() >= 2);
}

#[test]
fn retry_max_attempts_zero() {
    let mut def = valid_def();
    def.steps[0].retry =
        Some(RetryDef { max_attempts: 0, backoff: BackoffStrategy::default_strategy(), delay_ms: 1000 });
    assert!(has(&check(&def), "invalid_retry_config"));
}

#[test]
fn retry_max_attempts_one_passes() {
    let mut def = valid_def();
    def.steps[0].retry =
        Some(RetryDef { max_attempts: 1, backoff: BackoffStrategy::default_strategy(), delay_ms: 1000 });
    let report = check(&def);
    assert!(report.is_ok(), "expected no errors: {:?}", report.errors);
}

#[test]
fn embedded_ref_in_longer_string_not_flagged() {
    let mut def = valid_def();
    def.steps[0].op = StepOp::Var(VarInputs { value: Some(literal(s("prefix {nonexistent.output} suffix"))) });
    let report = check(&def);
    assert!(report.is_ok(), "embedded ref should not be flagged: {:?}", report.errors);
}

#[test]
fn whole_string_ref_inside_literal_not_flagged() {
    let mut def = valid_def();
    def.steps[0].op = StepOp::Var(VarInputs { value: Some(literal(s("{nonexistent.output}"))) });
    let report = check(&def);
    assert!(!has(&report, "variable_ref_not_found"), "literal string must not be flagged: {:?}", report.errors);
}

#[test]
fn embedded_ref_in_output_literal_not_flagged() {
    let mut def = valid_def();
    def.output = literal(s("prefix {ghost.output} suffix"));
    let report = check(&def);
    assert!(report.is_ok(), "embedded ref in output should not be flagged: {:?}", report.errors);
}

#[test]
fn cycle_via_after_detected() {
    let mut def = valid_def();
    def.steps = vec![step_noop("a", vec!["b"]), step_noop("b", vec!["a"])];
    def.output = var_ref("{a.output}");
    assert!(has(&check(&def), "cycle_detected"));
}

#[test]
fn cycle_via_input_refs_detected() {
    let mut def = valid_def();
    def.steps = vec![step_var_ref("a", "{b.output}"), step_var_ref("b", "{a.output}")];
    def.output = var_ref("{a.output}");
    assert!(has(&check(&def), "cycle_detected"));
}

#[test]
fn acyclic_pipeline_not_flagged() {
    let mut def = valid_def();
    def.steps.push(step_var_ref("b", "{fetch.output}"));
    def.output = var_ref("{b.output}");
    assert!(!has(&check(&def), "cycle_detected"));
}

#[test]
fn slot_ref_not_found() {
    let mut def = valid_def();
    def.steps[0].op = StepOp::Http(HttpInputs { url: var_ref("{slots.urll}"), method: None, headers: None, body: None });
    assert!(has(&check(&def), "slot_not_found"));
}

#[test]
fn iterate_over_undeclared_slot_not_found() {
    let mut def = valid_def();
    def.steps[0].iterate = iterate("{slots.items}", "item", None, None);
    assert!(has(&check(&def), "slot_not_found"));
}

#[test]
fn self_reference_in_inputs() {
    let mut def = valid_def();
    def.steps[0].op =
        StepOp::Http(HttpInputs { url: var_ref("{fetch.output.url}"), method: None, headers: None, body: None });
    assert!(has(&check(&def), "self_reference"));
}

#[test]
fn self_reference_in_iterate_over() {
    let mut def = valid_def();
    def.steps[0].iterate = iterate("{fetch.output}", "item", None, None);
    assert!(has(&check(&def), "self_reference"));
}

#[test]
fn invalid_pipeline_name_charset() {
    let mut def = valid_def();
    def.name = "bad/name?x".into();
    assert!(has(&check(&def), "invalid_name_charset"));
}

#[test]
fn pipeline_name_with_dot_dash_underscore_accepted() {
    let mut def = valid_def();
    def.name = "my-pipe_v1.2".into();
    let report = check(&def);
    assert!(report.is_ok(), "expected no errors: {:?}", report.errors);
}

#[test]
fn invalid_step_id_charset() {
    let mut def = valid_def();
    def.steps[0].id = StepId::new("bad.id");
    def.output = var_ref("{bad.output}");
    assert!(has(&check(&def), "invalid_name_charset"));
}

#[test]
fn slot_name_invalid_charset() {
    let mut def = valid_def();
    def.slots[0].name = "my.slot".into();
    assert!(has(&check(&def), "invalid_name_charset"));
}

#[test]
fn pipeline_name_all_dots_rejected() {
    let mut def = valid_def();
    def.name = "..".into();
    assert!(has(&check(&def), "invalid_pipeline_name"));
}

#[test]
fn iterate_max_workers_over_limit_rejected() {
    let mut def = valid_def();
    def.steps[0].iterate = iterate("{slots.url}", "item", Some(2048), None);
    assert!(has(&check(&def), "invalid_iterate_config"));
}

#[test]
fn filter_unknown_operator_rejected() {
    let mut def = valid_def();
    def.steps[0].op = StepOp::Filter(FilterInputs { data: None, operator: "like".into(), field: None, value: None });
    assert!(has(&check(&def), "invalid_operator_config"));
}

#[test]
fn filter_valid_operator_accepted() {
    let mut def = valid_def();
    def.steps[0].op =
        StepOp::Filter(FilterInputs { data: None, operator: "contains".into(), field: None, value: None });
    assert!(!has(&check(&def), "invalid_operator_config"));
}

#[test]
fn sort_unknown_order_rejected() {
    let mut def = valid_def();
    def.steps[0].op = StepOp::Sort(SortInputs { data: None, field: None, order: "ascending".into() });
    assert!(has(&check(&def), "invalid_operator_config"));
}

#[test]
fn multi_key_object_with_ref_key_not_treated_as_ref() {
    let mut def = valid_def();
    def.steps[0].op = StepOp::Var(VarInputs {
        value: Some(literal(obj(vec![
            ("Ref", obj(vec![("parts", arr(vec![s("ghost"), s("output")]))])),
            ("other", s("plain")),
        ]))),
    });
    let report = check(&def);
    assert!(report.is_ok(), "multi-key object with a Ref key is no ref tag: {:?}", report.errors);
}

#[test]
fn unparsable_ref_value_falls_through_to_sibling_check() {
    let mut def = valid_def();
    def.steps[0].op = StepOp::Var(VarInputs {
        value: Some(literal(obj(vec![
            ("Ref", Json::Number(JsonNumber::Int(123))),
            ("sibling", ref_tag("ghost", "output")),
        ]))),
    });
    assert!(has(&check(&def), "variable_ref_not_found"));
}

#[test]
fn embedded_slot_ref_in_command_string_not_flagged() {
    let mut def = valid_def();
    def.steps[0].op = StepOp::Command(CommandInputs {
        command: literal(s("curl -H 'Authorization: Bearer {slots.token}' https://api.example.com")),
        shell: None,
        stdin: None,
    });
    let report = check(&def);
    assert!(report.is_ok(), "embedded slot ref in a command string stays literal: {:?}", report.errors);
}

#[test]
fn embedded_slot_ref_in_js_code_not_flagged() {
    let mut def = valid_def();
    def.steps[0].op = StepOp::Js(JsInputs {
        code: literal(s("function run(data) { return data + '{slots.token}'; }")),
        data: None,
        timeout_sec: None,
    });
    let report = check(&def);
    assert!(report.is_ok(), "embedded slot ref in js code stays literal: {:?}", report.errors);
}

#[test]
fn multi_ref_whole_string_treated_as_literal() {
    let mut def = valid_def();
    def.steps[0].op = StepOp::Var(VarInputs { value: Some(literal(s("{a.output} {b.output}"))) });
    let report = check(&def);
    assert!(report.is_ok(), "whole string with several refs is a literal: {:?}", report.errors);
}

#[test]
fn js_runtime_error_passes_syntax_check() {
    let mut def = valid_def();
    def.steps[0].op =
        StepOp::Js(JsInputs { code: literal(s("nonexistent_function_call();")), data: None, timeout_sec: None });
    let report = validate(&def, &vec![JsCheck::Passed]);
    assert!(report.is_ok(), "a ReferenceError is a runtime error: {:?}", report.errors);
}

#[test]
fn js_syntax_error_rejected() {
    let mut def = valid_def();
    def.steps[0].op = StepOp::Js(JsInputs { code: literal(s("function run( {")), data: None, timeout_sec: None });
    let report = validate(&def, &vec![JsCheck::SyntaxError("SyntaxError: unexpected token".into())]);
    assert!(has(&report, "js_syntax_error"));
    assert!(report.errors.iter().any(|e| e.message.contains("fetch") && e.message.contains("SyntaxError")));
}

#[test]
fn js_check_ignored_for_non_js_steps() {
    let def = valid_def();
    let report = validate(&def, &vec![JsCheck::SyntaxError("SyntaxError: x".into())]);
    assert!(report.is_ok());
}

#[test]
fn invalid_json_schema_reported() {
    let mut def = valid_def();
    def.slots[0].schema = obj(vec![("type", Json::Number(JsonNumber::Int(12)))]);
    assert!(has(&check(&def), "invalid_json_schema"));
}

#[test]
fn http_method_checked_in_any_case() {
    let mut def = valid_def();
    def.steps[0].op =
        StepOp::Http(HttpInputs { url: var_ref("{slots.url}"), method: Some("post".into()), headers: None, body: None });
    assert!(check(&def).is_ok());
    def.steps[0].op =
        StepOp::Http(HttpInputs { url: var_ref("{slots.url}"), method: Some("fetch".into()), headers: None, body: None });
    assert!(has(&check(&def), "invalid_operator_config"));
}

fn step_literal(id: &str, text: &str) -> StepDef {
    StepDef {
        id: StepId::new(id),
        after: None,
        iterate: None,
        cache: None,
        retry: None,
        timeout_sec: None,
        op: StepOp::Var(VarInputs { value: Some(literal(s(text))) }),
    }
}

fn codes(report: &ValidationReport) -> (Vec<String>, Vec<String>) {
    (
        report.errors.iter().map(|e| format!("{}|{}", e.code, e.message)).collect(),
        report.warnings.iter().map(|w| format!("{}|{}", w.code, w.message)).collect(),
    )
}

#[test]
fn literal_string_text_changes_nothing_reported() {
    let mut plain = valid_def();
    plain.steps.push(step_literal("lit", "hello"));
    let base = codes(&check(&plain));
    for text in ["{nonexistent.output}", "prefix {nonexistent.output} suffix", "{a.output} {b.output}", "{lit.output}", "{slots.missing}"] {
        let mut def = valid_def();
        def.steps.push(step_literal("lit", text));
        assert_eq!(codes(&check(&def)), base, "text {text}");
    }
}

#[test]
fn iterate_config_check_appends_its_findings() {
    let ids = vec![StepId::new("fetch"), StepId::new("other")];
    let mut report = ValidationReport { errors: vec![], warnings: vec![] };
    check_iterate_config(None, &StepId::new("fetch"), &ids, &mut report);
    assert!(report.errors.is_empty() && report.warnings.is_empty());
    let ok = iterate("{slots.items}", "item", Some(4), Some(BatchConfig { size: 2 })).unwrap();
    check_iterate_config(Some(&ok), &StepId::new("fetch"), &ids, &mut report);
    assert!(report.errors.is_empty());
    for (as_name, workers, batch) in [
        ("", None, None),
        ("it-em", None, None),
        ("env", None, None),
        ("other", None, None),
        ("item", Some(0), None),
        ("item", Some(1025), None),
        ("item", None, Some(0)),
    ] {
        let cfg = iterate("{slots.items}", as_name, workers, batch.map(|size| BatchConfig { size })).unwrap();
        let mut r = ValidationReport { errors: vec![], warnings: vec![] };
        check_iterate_config(Some(&cfg), &StepId::new("fetch"), &ids, &mut r);
        assert!(has(&r, "invalid_iterate_config"), "{as_name} {workers:?} {batch:?}");
        assert!(r.warnings.is_empty());
    }
}
