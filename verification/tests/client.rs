use weaveflow::cli::client::{check_http_status, encode_segment, parse_daemon_addr, api_url, daemon_error};

#[test]
fn encode_segment_ascii_passthrough() {
    assert_eq!(encode_segment("abc-DEF_123.txt~"), "abc-DEF_123.txt~");
}

#[test]
fn encode_segment_chinese() {
    // "中文" in UTF-8: E4 B8 AD E6 96 87
    assert_eq!(encode_segment("中文"), "%E4%B8%AD%E6%96%87");
}

#[test]
fn encode_segment_space() {
    assert_eq!(encode_segment("a b"), "a%20b");
}

#[test]
fn encode_segment_slash() {
    assert_eq!(encode_segment("a/b"), "a%2Fb");
}

#[test]
fn encode_segment_reserved_chars() {
    assert_eq!(encode_segment("?&=#%:+@"), "%3F%26%3D%23%25%3A%2B%40");
}

#[test]
fn encode_segment_mixed() {
    assert_eq!(encode_segment("管道 v1/测试"), "%E7%AE%A1%E9%81%93%20v1%2F%E6%B5%8B%E8%AF%95");
}

#[test]
fn check_http_status_accepts_2xx() {
    for status in [200, 201, 204, 299] {
        assert!(check_http_status(status, "{}").is_ok(), "status {status}");
    }
}

#[test]
fn check_http_status_rejects_error_status() {
    let body = r#"{"error":"pipeline foo not found"}"#;
    for status in [400, 404, 500] {
        let err = check_http_status(status, body).unwrap_err();
        assert!(err.starts_with(&format!("HTTP {status}:")), "err: {err}");
        assert!(err.contains("pipeline foo not found"), "err: {err}");
    }
}

#[test]
fn check_http_status_trims_body() {
    let err = check_http_status(404, "  not found\n").unwrap_err();
    assert_eq!(err, "HTTP 404: not found");
}

#[test]
fn check_http_status_boundaries() {
    assert!(check_http_status(199, "x").is_err());
    assert!(check_http_status(300, "x").is_err());
    assert_eq!(check_http_status(503, "\u{3000}busy\t").unwrap_err(), "HTTP 503: busy");
}

#[test]
fn daemon_addr_schemes_and_slashes() {
    assert_eq!(parse_daemon_addr("https://h:1//"), ("https://".to_string(), "h:1".to_string()));
    assert_eq!(parse_daemon_addr("http://h:2/"), ("http://".to_string(), "h:2".to_string()));
    assert_eq!(parse_daemon_addr("127.0.0.1:9928"), ("http://".to_string(), "127.0.0.1:9928".to_string()));
    assert_eq!(api_url("localhost:1/", "/runs"), "http://localhost:1/runs");
    assert_eq!(daemon_error("http://x", "refused"), "无法连接 daemon (http://x): refused");
}
