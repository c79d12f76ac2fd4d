use weaveflow::operator::builtin::file::{detect_mimetype, extension_to_mimetype, is_allowed_path_with_roots, split_roots, FileOperator};

#[test]
fn is_allowed_path_with_roots_empty_allows_all() {
    assert!(is_allowed_path_with_roots("/etc/passwd", ""));
}

#[test]
fn is_allowed_path_with_roots_filters() {
    assert!(is_allowed_path_with_roots("/tmp/file.txt", "/tmp:/var/data"));
    assert!(is_allowed_path_with_roots("/var/data/file.txt", "/tmp:/var/data"));
    assert!(!is_allowed_path_with_roots("/etc/passwd", "/tmp:/var/data"));
}

#[test]
fn is_allowed_path_with_roots_ignores_empty_segments() {
    assert!(is_allowed_path_with_roots("/tmp/file.txt", "/tmp::/var/data:"));
    assert!(!is_allowed_path_with_roots("/etc/passwd", ":::"));
}

#[test]
fn detect_mimetype_works() {
    assert_eq!(detect_mimetype("test.txt"), "text/plain");
    assert_eq!(detect_mimetype("test.json"), "application/json");
    assert_eq!(detect_mimetype("test.unknown"), "application/octet-stream");
    assert_eq!(detect_mimetype("noext"), "application/octet-stream");
}

#[test]
fn mimetype_ignores_case_and_knows_aliases() {
    assert_eq!(extension_to_mimetype("JPEG"), "image/jpeg");
    assert_eq!(extension_to_mimetype("Yml"), "application/yaml");
    assert_eq!(detect_mimetype("/a/b.tar.gz"), "application/gzip");
    assert_eq!(detect_mimetype(".bashrc"), "application/octet-stream");
}

#[test]
fn split_roots_trims_and_counts_dropped() {
    let (kept, dropped) = split_roots(" /a : :/b::");
    assert_eq!(kept, vec!["/a".to_string(), "/b".to_string()]);
    assert_eq!(dropped, 3);
}

#[test]
fn roots_match_whole_components() {
    assert!(!is_allowed_path_with_roots("/tmpfoo/x", "/tmp"));
    assert!(is_allowed_path_with_roots("/tmp", "/tmp"));
}

#[test]
fn file_output_encodes_content() {
    let op = FileOperator;
    let out = op.output(&b"hi".to_vec(), "text/plain");
    let text = weaveflow::json::to_text(&out);
    assert_eq!(text, "{\"content\":\"aGk=\",\"mimetype\":\"text/plain\",\"size\":2}");
    let spec = op.spec();
    assert_eq!(spec.op_type, "file");
    assert!(!spec.cache);
}
