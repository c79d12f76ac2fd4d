use weaveflow::json::{to_text, Json, JsonNumber};
use weaveflow::operator::builtin::llm::{safe_truncate, LlmOperator};
use weaveflow::operator::types::OperatorError;

#[test]
fn safe_truncate_ascii_boundary() {
    assert_eq!(safe_truncate("hello world", 5), "hello");
    assert_eq!(safe_truncate("hello world", 20), "hello world");
}

#[test]
fn safe_truncate_multibyte_utf8() {
    let s = "你好世界！这是中文。";
    let truncated = safe_truncate(s, 3);
    assert_eq!(truncated, "你好世");
    assert_eq!(truncated.chars().count(), 3);
}

#[test]
fn safe_truncate_does_not_panic_on_char_boundary() {
    let s = "😀😃😄😁😆";
    let truncated = safe_truncate(s, 3);
    assert_eq!(truncated.chars().count(), 3);
    assert_eq!(truncated, "😀😃😄");
}

#[test]
fn safe_truncate_zero() {
    assert_eq!(safe_truncate("hello", 0), "");
}

#[test]
fn safe_truncate_empty_string() {
    assert_eq!(safe_truncate("", 5), "");
}

fn obj(entries: Vec<(&str, Json)>) -> Json {
    let mut es: Vec<(String, Json)> = entries.into_iter().map(|(k, v)| (k.to_string(), v)).collect();
    es.sort_by(|a, b| a.0.cmp(&b.0));
    Json::Object(es)
}

fn s(x: &str) -> Json {
    Json::Str(x.to_string())
}

#[test]
fn llm_body_defaults_tokens_and_temperature() {
    let inputs = obj(vec![("url", s("http://x/v1")), ("model", s("m")), ("prompt", s("hi"))]);
    let q = LlmOperator.request(&inputs).expect("request");
    let body = LlmOperator.body(&q);
    assert_eq!(
        to_text(&body),
        "{\"max_tokens\":4096,\"messages\":[{\"content\":[{\"text\":\"hi\",\"type\":\"text\"}],\"role\":\"user\"}],\"model\":\"m\",\"temperature\":0.0}"
    );
}

#[test]
fn llm_body_carries_system_images_and_settings() {
    let inputs = obj(vec![
        ("url", s("http://x/v1")),
        ("model", s("m")),
        ("prompt", s("describe")),
        ("system", s("be brief")),
        ("images_b64", Json::Array(vec![s("QUJD")])),
        ("image_type", s("image/png")),
        ("max_tokens", Json::Number(JsonNumber::Int(100))),
        ("temperature", Json::Number(JsonNumber::Int(1))),
    ]);
    let q = LlmOperator.request(&inputs).expect("request");
    let text = to_text(&LlmOperator.body(&q));
    assert!(text.starts_with("{\"max_tokens\":100,\"messages\":[{\"content\":\"be brief\",\"role\":\"system\"}"));
    assert!(text.contains("data:image/png;base64,QUJD"));
    assert!(text.ends_with("\"model\":\"m\",\"temperature\":1.0}"));
}

#[test]
fn llm_request_needs_url_model_prompt() {
    let inputs = obj(vec![("url", s("http://x/v1")), ("prompt", s("hi"))]);
    assert!(matches!(LlmOperator.request(&inputs), Err(OperatorError::Config(m)) if m == "llm 缺少 model"));
}

#[test]
fn llm_outgoing_is_endpoint_and_body() {
    let inputs = obj(vec![("url", s("http://x/v1")), ("model", s("m")), ("prompt", s("hi"))]);
    let (url, body) = LlmOperator.outgoing(&inputs).expect("outgoing");
    assert_eq!(url, "http://x/v1");
    assert_eq!(
        to_text(&body),
        "{\"max_tokens\":4096,\"messages\":[{\"content\":[{\"text\":\"hi\",\"type\":\"text\"}],\"role\":\"user\"}],\"model\":\"m\",\"temperature\":0.0}"
    );
    let no_url = obj(vec![("model", s("m")), ("prompt", s("hi"))]);
    assert!(matches!(LlmOperator.outgoing(&no_url), Err(OperatorError::Config(m)) if m == "llm 缺少 url"));
    let bad_prompt = obj(vec![("url", s("http://x/v1")), ("model", s("m")), ("prompt", Json::Number(JsonNumber::Int(3)))]);
    assert!(matches!(LlmOperator.outgoing(&bad_prompt), Err(OperatorError::Config(m)) if m == "llm 缺少 prompt"));
}
