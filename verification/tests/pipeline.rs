use sha2::{Digest, Sha256};
use weaveflow::dsl::parser::parse;
use weaveflow::dsl::pipeline::PipelineDef;
use weaveflow::dsl::raw::ParseError;
use weaveflow::dsl::step::{StepId, StepOp};
use weaveflow::dsl::storage::{Ttl, TtlError};
use weaveflow::dsl::variable::RefValue;
use weaveflow::engine::cache::compute_cache_key;
use weaveflow::error::WeaveflowError;
use weaveflow::float::FloatValue;
use weaveflow::json::{FloatNum, Json, JsonNumber};
use weaveflow::operator::builtin::http_client::IpAddress;
use weaveflow::server::daemon::{bind_host, health_check_url, health_step, is_loopback_bind, result_ttl_secs, HealthStep};

fn float_num(x: f64) -> FloatNum {
    let bits = x.to_bits();
    let neg = bits >> 63 == 1;
    let e = ((bits >> 52) & 0x7ff) as i32;
    let frac = bits & ((1u64 << 52) - 1);
    let (mut m, mut exp) = if e == 0 { (frac, -1074) } else { (frac | (1u64 << 52), e - 1075) };
    if m == 0 {
        exp = 0;
    }
    while m != 0 && m % 2 == 0 {
        m /= 2;
        exp += 1;
    }
    let mant = if neg { -(m as i64) } else { m as i64 };
    FloatNum { mant, exp, text: format!("{:?}", x) }
}

fn to_json(v: &rust_yaml::Value) -> Json {
    match v {
        rust_yaml::Value::Null => Json::Null,
        rust_yaml::Value::Bool(b) => Json::Bool(*b),
        rust_yaml::Value::Int(i) => Json::Number(JsonNumber::Int(*i as i128)),
        rust_yaml::Value::Float(f) => Json::Number(JsonNumber::Float(float_num(*f))),
        rust_yaml::Value::String(s) => Json::Str(s.clone()),
        rust_yaml::Value::Sequence(items) => Json::Array(items.iter().map(to_json).collect()),
        rust_yaml::Value::Mapping(m) => {
            let mut es: Vec<(String, Json)> = Vec::new();
            for (k, val) in m.iter() {
                let key = match k {
                    rust_yaml::Value::String(s) => s.clone(),
                    rust_yaml::Value::Int(i) => i.to_string(),
                    rust_yaml::Value::Bool(b) => b.to_string(),
                    _ => String::from("null"),
                };
                es.retain(|e| e.0 != key);
                es.push((key, to_json(val)));
            }
            es.sort_by(|a, b| a.0.cmp(&b.0));
            Json::Object(es)
        }
    }
}

fn parse_yaml(yaml: &str) -> Result<PipelineDef, ParseError> {
    match rust_yaml::Yaml::new().load_str(yaml) {
        Ok(v) => parse(&to_json(&v)),
        Err(e) => Err(ParseError::Yaml(e.to_string())),
    }
}

fn minimal_yaml() -> &'static str {
    r#"
name: minimal
steps:
  - id: fetch
    type: http
    inputs:
      url: "{slots.url}"
output: "{fetch.output}"
"#
}

#[test]
fn parse_minimal() {
    let def = parse_yaml(minimal_yaml()).unwrap();
    assert_eq!(def.name, "minimal");
    assert_eq!(def.steps.len(), 1);
    assert_eq!(def.steps[0].id, StepId::new("fetch"));
    assert_eq!(def.steps[0].op.op_type(), "http");
    assert!(matches!(def.output, RefValue::Ref(_)));
    let StepOp::Http(ref inputs) = def.steps[0].op else { panic!("expected http") };
    assert!(matches!(inputs.url, RefValue::Ref(_)));
}

#[test]
fn parse_with_iterate() {
    let yaml = r#"
name: iterate_demo
steps:
  - id: process
    type: http
    iterate:
      over: "{slots.data}"
      as: "item"
      max_workers: 8
    inputs:
      url: "{slots.data}"
output: "{process.output}"
"#;
    let def = parse_yaml(yaml).unwrap();
    let iter = def.steps[0].iterate.as_ref().unwrap();
    assert_eq!(iter.over.parts, vec!["slots", "data"]);
    assert_eq!(iter.as_name, "item");
    assert_eq!(iter.max_workers, Some(8));
}

#[test]
fn parse_with_retry() {
    let yaml = r#"
name: retry_test
steps:
  - id: s1
    type: http
    inputs:
      url: "https://api.example.com"
    retry:
      max_attempts: 3
      backoff: exponential
      delay_ms: 2000
    timeout: 60
output: "{s1.output}"
"#;
    let def = parse_yaml(yaml).unwrap();
    let step = &def.steps[0];
    assert!(matches!(step.timeout_sec, Some(FloatValue::Finite(JsonNumber::Int(60)))));
    let retry = step.retry.as_ref().unwrap();
    assert_eq!(retry.max_attempts, 3);
    assert_eq!(retry.delay_ms, 2000);
}

#[test]
fn parse_invalid_yaml() {
    let result = parse_yaml("name: \nsteps: [invalid");
    assert!(result.is_err());
}

#[test]
fn parse_with_slots() {
    let yaml = r#"
name: with_slots
slots:
  - name: url
    schema:
      type: string
      pattern: "^https?://"
steps:
  - id: fetch
    type: http
    inputs:
      url: "{slots.url}"
output: "{fetch.output}"
"#;
    let def = parse_yaml(yaml).unwrap();
    assert_eq!(def.slots.len(), 1);
    assert_eq!(def.slots[0].name, "url");
}

#[test]
fn parse_literal_inputs() {
    let yaml = r#"
name: literal_test
steps:
  - id: s
    type: var
    inputs:
      value: "static_value"
output: done
"#;
    let def = parse_yaml(yaml).unwrap();
    let StepOp::Var(ref v) = def.steps[0].op else { panic!("expected var") };
    assert!(matches!(v.value, Some(RefValue::Literal(_))));
    assert!(matches!(def.output, RefValue::Literal(_)));
}

#[test]
fn parse_rejects_unknown_operator_type() {
    let yaml = r#"
name: bad_type
steps:
  - id: s
    type: teleport
output: done
"#;
    assert!(matches!(parse_yaml(yaml), Err(ParseError::Yaml(_))));
}

#[test]
fn parse_rejects_non_path_iterate_over() {
    let yaml = r#"
name: bad_over
steps:
  - id: s
    type: noop
    iterate:
      over: "not a path"
      as: item
output: done
"#;
    assert!(matches!(parse_yaml(yaml), Err(ParseError::InvalidIterateOver(_))));
}

#[test]
fn parse_rejects_missing_name() {
    let yaml = r#"
steps:
  - id: s
    type: noop
output: done
"#;
    assert!(parse_yaml(yaml).is_err());
}

#[test]
fn result_ttl_secs_reads_pipeline_storage() {
    let yaml = r#"
name: ttl_pipe
storage:
  result_ttl: "2h"
steps:
  - id: s
    type: noop
output: "{s.output}"
"#;
    let def = parse_yaml(yaml).expect("parse");
    assert_eq!(result_ttl_secs(&def), 7200);

    let yaml_no_storage = r#"
name: ttl_default
steps:
  - id: s
    type: noop
output: "{s.output}"
"#;
    let def = parse_yaml(yaml_no_storage).expect("parse");
    assert_eq!(result_ttl_secs(&def), 3600);

    let yaml_tiny = r#"
name: ttl_tiny
storage:
  result_ttl: "30s"
steps:
  - id: s
    type: noop
output: "{s.output}"
"#;
    let def = parse_yaml(yaml_tiny).expect("parse");
    assert_eq!(result_ttl_secs(&def), 60);
}

#[test]
fn ttl_overflow_returns_error_not_panic() {
    assert!(Ttl::parse("200000000000d").is_err());
}

#[test]
fn ttl_negative_returns_error() {
    assert_eq!(Ttl::parse("-5m"), Err(TtlError::Negative));
}

#[test]
fn ttl_valid_units() {
    assert_eq!(Ttl::parse("30d").unwrap().seconds, 30 * 86400);
    assert_eq!(Ttl::parse("2h").unwrap().seconds, 7200);
    assert_eq!(Ttl::parse("5m").unwrap().seconds, 300);
    assert_eq!(Ttl::parse("45s").unwrap().seconds, 45);
}

#[test]
fn ttl_errors_by_kind() {
    assert_eq!(Ttl::parse("d"), Err(TtlError::TooShort));
    assert_eq!(Ttl::parse("xd"), Err(TtlError::InvalidNumber));
    assert_eq!(Ttl::parse("5w"), Err(TtlError::InvalidUnit));
    assert_eq!(Ttl::parse("200000000000d"), Err(TtlError::Overflow));
}

#[test]
fn ttl_text_round_trip() {
    let t = Ttl::parse("90m").unwrap();
    assert_eq!(Ttl::parse(&t.to_text()), Ok(t));
}

#[test]
fn cache_key_is_sha256_of_full_input() {
    let inputs = Json::Object(vec![("a".to_string(), Json::Number(JsonNumber::Int(1)))]);
    let key = compute_cache_key("noop", &inputs);
    assert_eq!(key.len(), 32);
    let expected = Sha256::digest(b"noop:{\"a\":1}");
    assert_eq!(key, expected.to_vec());
}

#[test]
fn cache_key_differs_by_op_and_inputs() {
    let a1 = Json::Object(vec![("a".to_string(), Json::Number(JsonNumber::Int(1)))]);
    let a2 = Json::Object(vec![("a".to_string(), Json::Number(JsonNumber::Int(2)))]);
    let k1 = compute_cache_key("noop", &a1);
    let k2 = compute_cache_key("noop", &a2);
    let k3 = compute_cache_key("var", &a1);
    assert_ne!(k1, k2);
    assert_ne!(k1, k3);
}

#[test]
fn error_status_codes() {
    assert_eq!(WeaveflowError::BadRequest("test".into()).status(), 400);
    assert_eq!(WeaveflowError::Parse("test".into()).status(), 400);
    assert_eq!(WeaveflowError::Validation("test".into()).status(), 400);
    assert_eq!(WeaveflowError::NotFound("test".into()).status(), 404);
    assert_eq!(WeaveflowError::Internal("test".into()).status(), 500);
    assert_eq!(WeaveflowError::Operator("test".into()).status(), 500);
    assert_eq!(WeaveflowError::Io("io".into()).status(), 500);
}

#[test]
fn error_response_body_contains_error() {
    let e = WeaveflowError::BadRequest("invalid task id: xyz".into());
    assert_eq!(e.status(), 400);
    assert!(e.reply().contains("invalid task id: xyz"));
}

#[test]
fn internal_error_masks_detail_in_body() {
    let e = WeaveflowError::Internal("secret redb corruption detail".into());
    assert_eq!(e.status(), 500);
    let body = e.reply();
    assert!(body.contains("internal server error"));
    assert!(!body.contains("secret"));
}

#[test]
fn loopback_bind_detection() {
    assert!(is_loopback_bind("127.0.0.1:9928", Some(IpAddress::V4(127, 0, 0, 1))));
    assert!(is_loopback_bind("127.0.0.2:9928", Some(IpAddress::V4(127, 0, 0, 2))));
    assert!(is_loopback_bind("localhost:9928", None));
    assert!(is_loopback_bind("LOCALHOST:9928", None));
    assert!(is_loopback_bind("[::1]:9928", Some(IpAddress::V6(0, 0, 0, 0, 0, 0, 0, 1))));
    assert!(!is_loopback_bind("0.0.0.0:9928", Some(IpAddress::V4(0, 0, 0, 0))));
    assert!(!is_loopback_bind("[::]:9928", Some(IpAddress::V6(0, 0, 0, 0, 0, 0, 0, 0))));
    assert!(!is_loopback_bind("192.168.1.10:9928", Some(IpAddress::V4(192, 168, 1, 10))));
    assert!(!is_loopback_bind("example.com:9928", None));
    assert_eq!(bind_host("[::1]:9928"), "::1");
    assert_eq!(bind_host("localhost"), "localhost");
    assert_eq!(bind_host("127.0.0.1:9928"), "127.0.0.1");
}

#[test]
fn health_check_reaches_wildcard_binds_on_loopback() {
    assert_eq!(health_check_url("0.0.0.0:7878"), "http://127.0.0.1:7878/system/operators");
    assert_eq!(health_check_url("[::]:7878"), "http://[::1]:7878/system/operators");
    assert_eq!(health_check_url("127.0.0.1:9000"), "http://127.0.0.1:9000/system/operators");
    assert_eq!(health_check_url("0.0.0"), "http://0.0.0/system/operators");
}

#[test]
fn health_check_polls_for_five_seconds() {
    assert_eq!(health_step(0, false, false), HealthStep::RetryAfter { wait_ms: 200 });
    assert_eq!(health_step(400, false, true), HealthStep::Healthy);
    assert_eq!(health_step(400, true, true), HealthStep::Exited);
    assert_eq!(health_step(5000, false, true), HealthStep::TimedOut);
    assert_eq!(health_step(4999, false, false), HealthStep::RetryAfter { wait_ms: 200 });
}
