use weaveflow::dsl::variable::{RefValue, TemplatePart, VariablePath};
use weaveflow::json::Json;

#[test]
fn parse_valid_paths() {
    assert_eq!(VariablePath::parse("{step.output.field}").unwrap().parts, vec!["step", "output", "field"]);
    assert_eq!(VariablePath::parse("{env.API_KEY}").unwrap().parts, vec!["env", "API_KEY"]);
    assert_eq!(VariablePath::parse("{{a-b_c.d}}").unwrap().parts, vec!["a-b_c", "d"]);
}

#[test]
fn parse_rejects_adjacent_refs() {
    assert!(VariablePath::parse("{a.b}{c.d}").is_none());
}

#[test]
fn parse_rejects_illegal_part_chars() {
    assert!(VariablePath::parse("{a.b c}").is_none());
    assert!(VariablePath::parse("{a.b/c}").is_none());
    assert!(VariablePath::parse("{}").is_none());
}

#[test]
fn parse_rejects_non_template() {
    assert!(VariablePath::parse("plain").is_none());
    assert!(VariablePath::parse("prefix {a.b}").is_none());
}

#[test]
fn fstring_basic_parsing() {
    let parts = TemplatePart::parse_fstring("f\"https://{env.HOST}/api?q={slots.q}\"").unwrap().unwrap();
    assert_eq!(
        parts,
        vec![
            TemplatePart::Lit("https://".into()),
            TemplatePart::Ref(VariablePath::parse("{env.HOST}").unwrap()),
            TemplatePart::Lit("/api?q=".into()),
            TemplatePart::Ref(VariablePath::parse("{slots.q}").unwrap()),
        ]
    );
}

#[test]
fn fstring_not_template() {
    assert!(TemplatePart::parse_fstring("plain").unwrap().is_none());
    assert!(TemplatePart::parse_fstring("F\"{a.b}\"").unwrap().is_none());
    assert!(TemplatePart::parse_fstring("\"f{ a.b }\"").unwrap().is_none());
}

#[test]
fn fstring_malformed_is_error() {
    assert!(TemplatePart::parse_fstring("f\"abc").is_err());
    assert!(TemplatePart::parse_fstring("f\"").is_err());
    assert!(TemplatePart::parse_fstring("f\"{a.b\"").is_err());
    assert!(TemplatePart::parse_fstring("f\"{a b}\"").is_err());
    assert!(TemplatePart::parse_fstring("f\"a}b\"").is_err());
}

#[test]
fn fstring_escapes() {
    let parts = TemplatePart::parse_fstring("f\"a\\{b\\}c\"").unwrap().unwrap();
    assert_eq!(parts, vec![TemplatePart::Lit("a{b}c".into())]);
    let parts = TemplatePart::parse_fstring("f\"c:\\path\\{x\"").unwrap().unwrap();
    assert_eq!(parts, vec![TemplatePart::Lit("c:\\path{x".into())]);
}

#[test]
fn fstring_empty_and_no_ref() {
    assert_eq!(TemplatePart::parse_fstring("f\"\"").unwrap().unwrap(), vec![]);
    assert_eq!(TemplatePart::parse_fstring("f\"plain\"").unwrap().unwrap(), vec![TemplatePart::Lit("plain".into())]);
}

#[test]
fn reference_written_out_reads_back() {
    let p = VariablePath::parse("{step_1.output.items}").unwrap();
    let written = RefValue::Ref(p.clone()).to_value();
    let Json::Str(text) = written else { panic!("a reference is written as a string") };
    assert_eq!(text, "{step_1.output.items}");
    assert_eq!(VariablePath::parse(&text), Some(p));
}

#[test]
fn template_written_out_reads_back() {
    for text in ["f\"https://{env.HOST}/api?q={slots.q}\"", "f\"a\\{b\\}c{x.y}\"", "f\"{a.b}{c.d}\"", "f\"\"", "f\"c:\\path{x.y}\""] {
        let parts = TemplatePart::parse_fstring(text).unwrap().unwrap();
        let Json::Str(written) = RefValue::Template(parts.clone()).to_value() else { panic!("a template is written as a string") };
        assert_eq!(TemplatePart::parse_fstring(&written).unwrap().unwrap(), parts, "{text} -> {written}");
    }
}

#[test]
fn fstring_pieces_are_merged_and_never_empty() {
    let parts = TemplatePart::parse_fstring("f\"a\\{b{x.y}{z.w}c\\}\"").unwrap().unwrap();
    assert_eq!(
        parts,
        vec![
            TemplatePart::Lit("a{b".into()),
            TemplatePart::Ref(VariablePath::parse("{x.y}").unwrap()),
            TemplatePart::Ref(VariablePath::parse("{z.w}").unwrap()),
            TemplatePart::Lit("c}".into()),
        ]
    );
}

#[test]
fn template_with_backslash_before_reference_does_not_read_back() {
    let parts = vec![TemplatePart::Lit("a\\".into()), TemplatePart::Ref(VariablePath::parse("{x.y}").unwrap())];
    let Json::Str(written) = RefValue::Template(parts).to_value() else { panic!("a template is written as a string") };
    assert_eq!(written, "f\"a\\{x.y}\"");
    assert!(TemplatePart::parse_fstring(&written).is_err());
}
