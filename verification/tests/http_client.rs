use weaveflow::operator::builtin::http_client::split_url;

#[test]
fn split_url_default_ports() {
    assert_eq!(split_url("http://example.com/path"), Some(("example.com".into(), 80)));
    assert_eq!(split_url("https://example.com"), Some(("example.com".into(), 443)));
    assert_eq!(split_url("http://example.com:8080/x"), Some(("example.com".into(), 8080)));
}

#[test]
fn split_url_userinfo_does_not_spoof_host() {
    assert_eq!(split_url("http://user@169.254.169.254/"), Some(("169.254.169.254".into(), 80)));
}

#[test]
fn split_url_bracketed_ipv6() {
    assert_eq!(split_url("http://[::1]:8080/"), Some(("::1".into(), 8080)));
    assert_eq!(split_url("http://[::1]/"), Some(("::1".into(), 80)));
}

#[test]
fn split_url_invalid_or_hostless() {
    assert_eq!(split_url("not a url"), None);
    assert_eq!(split_url("http://"), None);
}
