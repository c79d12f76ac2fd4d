use std::time::Duration;
use weaveflow::cli::config::{parse_duration, parse_duration_ms, parse_key_val, OutputFormat};

#[test]
fn parse_duration_units() {
    assert_eq!(parse_duration("500ms").unwrap(), Duration::from_millis(500));
    assert_eq!(parse_duration("30s").unwrap(), Duration::from_secs(30));
    assert_eq!(parse_duration("5m").unwrap(), Duration::from_secs(300));
    assert_eq!(parse_duration("1h").unwrap(), Duration::from_secs(3600));
    assert_eq!(parse_duration("42").unwrap(), Duration::from_secs(42));
    assert_eq!(parse_duration(" 10s ").unwrap(), Duration::from_secs(10));
}

#[test]
fn parse_duration_rejects_invalid() {
    for s in ["", "abc", "10x", "s", "1.5s", "-3s"] {
        assert!(parse_duration(s).is_err(), "input {s:?}");
    }
}

#[test]
fn parse_duration_overflow() {
    assert!(parse_duration(&format!("{}h", u64::MAX)).is_err());
}

#[test]
fn parse_duration_messages() {
    assert_eq!(parse_duration_ms("  ").unwrap_err(), "empty duration");
    assert_eq!(
        parse_duration_ms("abc").unwrap_err(),
        "invalid duration \"abc\" (expect e.g. 500ms, 30s, 5m, 1h)"
    );
    assert_eq!(parse_duration_ms(&format!("{}h", u64::MAX)).unwrap_err(), format!("duration overflow: \"{}h\"", u64::MAX));
    assert_eq!(parse_duration_ms("+7s").unwrap(), 7000);
    assert_eq!(parse_duration_ms("2 m").unwrap(), 120000);
}

#[test]
fn output_format_is_json() {
    assert!(OutputFormat::Json.is_json());
    assert!(!OutputFormat::Text.is_json());
}

#[test]
fn key_value_arguments_split_at_first_equals() {
    assert_eq!(parse_key_val("url=https://x?a=b"), Ok(("url".to_string(), "https://x?a=b".to_string())));
    assert_eq!(parse_key_val("k="), Ok(("k".to_string(), String::new())));
    assert_eq!(parse_key_val("novalue"), Err("invalid KEY=value: novalue".to_string()));
    assert_eq!(parse_key_val("=v"), Err("empty key in KEY=value: =v".to_string()));
}
