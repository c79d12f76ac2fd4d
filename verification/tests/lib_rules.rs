use weaveflow::build_code_mismatch;

#[test]
fn build_code_mismatch_rules() {
    assert!(build_code_mismatch("abc123", "def456"));
    assert!(!build_code_mismatch("abc123", "abc123"));
    assert!(!build_code_mismatch("unknown", "abc123"));
    assert!(!build_code_mismatch("abc123", "unknown"));
}
