use weaveflow::json::{get, resolve_nested, FloatNum, Json, JsonNumber};
use weaveflow::operator::builtin::base64::Base64Operator;
use weaveflow::operator::builtin::command::{capture_chunk, CommandOperator};
use weaveflow::operator::builtin::{compare_json_numbers, get_builtin, step_caches, Builtin};
use weaveflow::operator::builtin::dedup::DedupOperator;
use weaveflow::operator::builtin::filter::FilterOperator;
use weaveflow::operator::builtin::http_client::{is_metadata_ip, is_private_ip, IpAddress, MAX_STDIO_BYTES};
use weaveflow::operator::builtin::merge::MergeOperator;
use weaveflow::operator::builtin::sort::SortOperator;
use weaveflow::operator::types::OperatorError;
use weaveflow::server::routine::preview_value;
use weaveflow::text::Order;

fn float_num(x: f64) -> FloatNum {
    let bits = x.to_bits();
    let neg = bits >> 63 == 1;
    let e = ((bits >> 52) & 0x7ff) as i32;
    let frac = bits & ((1u64 << 52) - 1);
    let (mut m, mut exp) = if e == 0 { (frac, -1074) } else { (frac | (1u64 << 52), e - 1075) };
    if m == 0 {
        exp = 0;
    }
    while m != 0 && m % 2 == 0 {
        m /= 2;
        exp += 1;
    }
    let mant = if neg { -(m as i64) } else { m as i64 };
    FloatNum { mant, exp, text: format!("{:?}", x) }
}

fn i(n: i128) -> Json {
    Json::Number(JsonNumber::Int(n))
}

fn f(x: f64) -> Json {
    Json::Number(JsonNumber::Float(float_num(x)))
}

fn s(x: &str) -> Json {
    Json::Str(x.to_string())
}

fn arr(items: Vec<Json>) -> Json {
    Json::Array(items)
}

fn obj(entries: Vec<(&str, Json)>) -> Json {
    let mut es: Vec<(String, Json)> = entries.into_iter().map(|(k, v)| (k.to_string(), v)).collect();
    es.sort_by(|a, b| a.0.cmp(&b.0));
    Json::Object(es)
}

fn field<'a>(j: &'a Json, k: &str) -> &'a Json {
    get(j, k).expect("field")
}

#[test]
fn big_integer_gt_is_exact() {
    let inputs = obj(vec![
        ("data", arr(vec![i(9007199254740992), i(9007199254740993)])),
        ("operator", s("gt")),
        ("value", i(9007199254740992)),
    ]);
    let out = FilterOperator.run(inputs).expect("run");
    assert_eq!(out, arr(vec![i(9007199254740993)]));
}

#[test]
fn big_integer_lt_is_exact() {
    let inputs = obj(vec![
        ("data", arr(vec![i(9007199254740992), i(9007199254740993)])),
        ("operator", s("lt")),
        ("value", i(9007199254740993)),
    ]);
    let out = FilterOperator.run(inputs).expect("run");
    assert_eq!(out, arr(vec![i(9007199254740992)]));
}

#[test]
fn float_fallback_still_works() {
    let inputs = obj(vec![("data", arr(vec![f(1.5), f(2.5), f(3.5)])), ("operator", s("gt")), ("value", f(2.0))]);
    let out = FilterOperator.run(inputs).expect("run");
    assert_eq!(out, arr(vec![f(2.5), f(3.5)]));
}

#[test]
fn in_with_non_array_value_returns_config_error() {
    let inputs = obj(vec![("data", arr(vec![i(1), i(2), i(3)])), ("operator", s("in")), ("value", i(2))]);
    let err = FilterOperator.run(inputs).expect_err("must fail");
    assert!(matches!(err, OperatorError::Config(_)));
}

#[test]
fn contains_with_non_string_value_returns_config_error() {
    let inputs = obj(vec![("data", arr(vec![s("ab")])), ("operator", s("contains")), ("value", i(1))]);
    let err = FilterOperator.run(inputs).expect_err("must fail");
    assert!(matches!(err, OperatorError::Config(_)));
}

#[test]
fn unknown_operator_returns_config_error() {
    let inputs = obj(vec![("data", arr(vec![i(1), i(2)])), ("operator", s("like")), ("value", i(1))]);
    let err = FilterOperator.run(inputs).expect_err("must fail");
    assert!(matches!(err, OperatorError::Config(_)));
}

#[test]
fn filter_missing_data_returns_config_error() {
    let err = FilterOperator.run(obj(vec![("operator", s("eq")), ("value", i(1))])).expect_err("must fail");
    assert!(matches!(err, OperatorError::Config(_)));
    let err = FilterOperator
        .run(obj(vec![("data", Json::Null), ("operator", s("eq")), ("value", i(1))]))
        .expect_err("must fail");
    assert!(matches!(err, OperatorError::Config(_)));
}

#[test]
fn filter_in_and_contains_select_items() {
    let inputs = obj(vec![
        ("data", arr(vec![obj(vec![("k", s("apple"))]), obj(vec![("k", s("pear"))])])),
        ("field", s("k")),
        ("operator", s("contains")),
        ("value", s("pp")),
    ]);
    let out = FilterOperator.run(inputs).expect("run");
    assert_eq!(out, arr(vec![obj(vec![("k", s("apple"))])]));
    let inputs =
        obj(vec![("data", arr(vec![i(1), i(2), i(3)])), ("operator", s("in")), ("value", arr(vec![i(3), i(1)]))]);
    assert_eq!(FilterOperator.run(inputs).expect("run"), arr(vec![i(1), i(3)]));
}

fn sort(data: Json) -> Json {
    SortOperator.run(obj(vec![("data", data)])).expect("run")
}

fn mixed() -> Json {
    arr(vec![
        s("s"),
        i(3),
        Json::Null,
        Json::Bool(true),
        arr(vec![i(2)]),
        obj(vec![("k", i(1))]),
        Json::Bool(false),
        i(-1),
        s("a"),
        arr(vec![]),
        obj(vec![]),
        f(2.5),
    ])
}

#[test]
fn mixed_type_sort_is_total_and_deterministic() {
    let first = sort(mixed());
    let second = sort(mixed());
    assert_eq!(first, second);
    assert_eq!(
        first,
        arr(vec![
            Json::Null,
            Json::Bool(false),
            Json::Bool(true),
            i(-1),
            f(2.5),
            i(3),
            s("a"),
            s("s"),
            arr(vec![i(2)]),
            arr(vec![]),
            obj(vec![("k", i(1))]),
            obj(vec![]),
        ])
    );
}

#[test]
fn same_type_ordering_preserved() {
    assert_eq!(sort(arr(vec![i(3), i(1), i(2)])), arr(vec![i(1), i(2), i(3)]));
    assert_eq!(sort(arr(vec![s("b"), s("a")])), arr(vec![s("a"), s("b")]));
    assert_eq!(
        sort(arr(vec![Json::Bool(true), Json::Bool(false), Json::Bool(true)])),
        arr(vec![Json::Bool(false), Json::Bool(true), Json::Bool(true)])
    );
}

#[test]
fn big_integer_sort_is_exact() {
    let data = arr(vec![i(9007199254740993), i(9007199254740992), i(9007199254740994)]);
    assert_eq!(sort(data), arr(vec![i(9007199254740992), i(9007199254740993), i(9007199254740994)]));
}

#[test]
fn unknown_order_returns_config_error() {
    let err =
        SortOperator.run(obj(vec![("data", arr(vec![i(1), i(2)])), ("order", s("ascending"))])).expect_err("must fail");
    assert!(matches!(err, OperatorError::Config(_)));
}

#[test]
fn sort_missing_data_returns_config_error() {
    let err = SortOperator.run(obj(vec![("field", s("x"))])).expect_err("must fail");
    assert!(matches!(err, OperatorError::Config(_)));
    let err = SortOperator.run(obj(vec![("data", Json::Null)])).expect_err("must fail");
    assert!(matches!(err, OperatorError::Config(_)));
}

#[test]
fn sort_by_field_desc_is_stable() {
    let data = arr(vec![
        obj(vec![("k", i(1)), ("n", s("a"))]),
        obj(vec![("k", i(2)), ("n", s("b"))]),
        obj(vec![("k", i(1)), ("n", s("c"))]),
    ]);
    let out = SortOperator.run(obj(vec![("data", data), ("field", s("k")), ("order", s("desc"))])).expect("run");
    assert_eq!(
        out,
        arr(vec![
            obj(vec![("k", i(2)), ("n", s("b"))]),
            obj(vec![("k", i(1)), ("n", s("a"))]),
            obj(vec![("k", i(1)), ("n", s("c"))]),
        ])
    );
}

#[test]
fn missing_field_items_are_kept_not_collapsed() {
    let inputs = obj(vec![
        (
            "data",
            arr(vec![
                obj(vec![("id", i(1)), ("name", s("a"))]),
                obj(vec![("name", s("no_id_1"))]),
                obj(vec![("name", s("no_id_2"))]),
                obj(vec![("id", i(1)), ("name", s("a_dup"))]),
            ]),
        ),
        ("field", s("id")),
    ]);
    let out = DedupOperator.run(inputs).expect("run");
    let Json::Array(items) = out else { panic!("array") };
    assert_eq!(items.len(), 3);
    assert_eq!(field(&items[1], "name"), &s("no_id_1"));
    assert_eq!(field(&items[2], "name"), &s("no_id_2"));
}

#[test]
fn present_field_still_dedups() {
    let inputs = obj(vec![
        ("data", arr(vec![obj(vec![("id", i(1))]), obj(vec![("id", i(2))]), obj(vec![("id", i(1))])])),
        ("field", s("id")),
    ]);
    let out = DedupOperator.run(inputs).expect("run");
    let Json::Array(items) = out else { panic!("array") };
    assert_eq!(items.len(), 2);
}

#[test]
fn dedup_keeps_first_of_each_key() {
    let inputs = obj(vec![
        (
            "data",
            arr(vec![
                obj(vec![("id", i(2)), ("v", s("first"))]),
                obj(vec![("id", i(2)), ("v", s("second"))]),
                obj(vec![("id", i(3))]),
            ]),
        ),
        ("field", s("id")),
    ]);
    let out = DedupOperator.run(inputs).expect("run");
    assert_eq!(out, arr(vec![obj(vec![("id", i(2)), ("v", s("first"))]), obj(vec![("id", i(3))])]));
}

#[test]
fn shallow_merge_overwrites_nested_by_default() {
    let inputs = obj(vec![
        ("a", obj(vec![("cfg", obj(vec![("x", i(1)), ("y", i(2))]))])),
        ("b", obj(vec![("cfg", obj(vec![("y", i(3))]))])),
    ]);
    let out = MergeOperator.run(inputs).expect("run");
    assert_eq!(field(&out, "cfg"), &obj(vec![("y", i(3))]));
}

#[test]
fn deep_merge_recurses_into_objects() {
    let inputs = obj(vec![
        ("a", obj(vec![("cfg", obj(vec![("x", i(1)), ("y", i(2))])), ("name", s("weave"))])),
        ("b", obj(vec![("cfg", obj(vec![("y", i(3)), ("z", i(4))]))])),
        ("deep", Json::Bool(true)),
    ]);
    let out = MergeOperator.run(inputs).expect("run");
    assert_eq!(field(&out, "cfg"), &obj(vec![("x", i(1)), ("y", i(3)), ("z", i(4))]));
    assert_eq!(field(&out, "name"), &s("weave"));
}

#[test]
fn deep_merge_b_overwrites_arrays_and_scalars() {
    let inputs = obj(vec![
        ("a", obj(vec![("list", arr(vec![i(1), i(2), i(3)])), ("n", i(1))])),
        ("b", obj(vec![("list", arr(vec![i(9)])), ("n", i(2))])),
        ("deep", Json::Bool(true)),
    ]);
    let out = MergeOperator.run(inputs).expect("run");
    assert_eq!(field(&out, "list"), &arr(vec![i(9)]));
    assert_eq!(field(&out, "n"), &i(2));
}

#[test]
fn merge_requires_objects() {
    let err = MergeOperator.run(obj(vec![("a", i(1)), ("b", obj(vec![]))])).expect_err("must fail");
    assert!(matches!(err, OperatorError::Config(_)));
    let err = MergeOperator.run(obj(vec![("a", obj(vec![]))])).expect_err("must fail");
    assert!(matches!(err, OperatorError::Config(_)));
}

#[test]
fn decode_invalid_utf8_returns_error() {
    let err = Base64Operator.run(obj(vec![("data", s("/w==")), ("mode", s("decode"))])).expect_err("must fail");
    let msg = err.to_text();
    assert!(msg.contains("UTF-8"), "unexpected error: {msg}");
    assert!(msg.contains('1'), "error should carry byte length: {msg}");
}

#[test]
fn decode_valid_utf8_roundtrip() {
    let out = Base64Operator.run(obj(vec![("data", s("aGVsbG8=")), ("mode", s("decode"))])).expect("run");
    assert_eq!(out, s("hello"));
}

#[test]
fn base64_missing_data_returns_config_error() {
    let err = Base64Operator.run(obj(vec![("mode", s("encode"))])).expect_err("must fail");
    assert!(matches!(err, OperatorError::Config(_)));
    let err = Base64Operator.run(obj(vec![("data", Json::Null), ("mode", s("encode"))])).expect_err("must fail");
    assert!(matches!(err, OperatorError::Config(_)));
}

#[test]
fn unknown_mode_returns_config_error() {
    let err = Base64Operator.run(obj(vec![("data", s("x")), ("mode", s("rot13"))])).expect_err("must fail");
    assert!(matches!(err, OperatorError::Config(_)));
}

#[test]
fn base64_encode_then_decode_gives_back_text() {
    let enc = Base64Operator.run(obj(vec![("data", s("hello, 世界"))])).expect("encode");
    assert_eq!(enc, s("aGVsbG8sIOS4lueVjA=="));
    let dec = Base64Operator.run(obj(vec![("data", enc), ("mode", s("decode"))])).expect("decode");
    assert_eq!(dec, s("hello, 世界"));
}

#[test]
fn base64_encodes_non_string_as_json_text() {
    let out = Base64Operator.run(obj(vec![("data", i(12))])).expect("encode");
    assert_eq!(out, s("MTI="));
}

#[test]
fn resolve_nested_array_index() {
    let v = obj(vec![("items", arr(vec![obj(vec![("name", s("a"))]), obj(vec![("name", s("b"))])]))]);
    assert_eq!(resolve_nested(&v, "items.1.name"), Some(&s("b")));
    assert_eq!(resolve_nested(&v, "items.0.name"), Some(&s("a")));
}

#[test]
fn resolve_nested_array_index_out_of_bounds_is_null() {
    let v = obj(vec![("items", arr(vec![i(1), i(2)]))]);
    assert!(matches!(resolve_nested(&v, "items.5"), None | Some(Json::Null)));
    assert!(matches!(resolve_nested(&v, "items.name"), None | Some(Json::Null)));
}

#[test]
fn compare_json_numbers_big_integers_exact() {
    let a = i(9007199254740992);
    let b = i(9007199254740993);
    assert_eq!(compare_json_numbers(&a, &b), Some(Order::Less));
    assert_eq!(compare_json_numbers(&b, &a), Some(Order::Greater));
}

#[test]
fn compare_json_numbers_mixed_int_float_total_order() {
    let c = i(9007199254740992);
    let a = i(9007199254740993);
    let b = f(9007199254740992.0);
    assert_eq!(compare_json_numbers(&a, &b), Some(Order::Greater));
    assert_eq!(compare_json_numbers(&b, &a), Some(Order::Less));
    assert_eq!(compare_json_numbers(&c, &b), Some(Order::Equal));
    assert_eq!(compare_json_numbers(&b, &c), Some(Order::Equal));
    assert_eq!(compare_json_numbers(&i(3), &f(3.5)), Some(Order::Less));
    assert_eq!(compare_json_numbers(&i(4), &f(3.5)), Some(Order::Greater));
    assert_eq!(compare_json_numbers(&i(-4), &f(-3.5)), Some(Order::Less));
    assert_eq!(compare_json_numbers(&i(-3), &f(-3.5)), Some(Order::Greater));
    let big = i(u64::MAX as i128);
    assert_eq!(compare_json_numbers(&big, &f(1.0)), Some(Order::Greater));
    assert_eq!(compare_json_numbers(&f(1.0), &big), Some(Order::Less));
    assert_eq!(compare_json_numbers(&i(-1), &f(1.5)), Some(Order::Less));
    assert_eq!(compare_json_numbers(&s("1"), &i(1)), None);
}

#[test]
fn metadata_ip_detected() {
    assert!(is_metadata_ip(IpAddress::V4(169, 254, 169, 254)));
    assert!(is_metadata_ip(IpAddress::V6(0, 0, 0, 0, 0, 0xffff, 0xa9fe, 0xa9fe)));
    assert!(!is_metadata_ip(IpAddress::V4(169, 254, 169, 253)));
    assert!(!is_metadata_ip(IpAddress::V4(8, 8, 8, 8)));
}

#[test]
fn private_ip_detection() {
    assert!(is_private_ip(IpAddress::V4(10, 0, 0, 1)));
    assert!(is_private_ip(IpAddress::V4(192, 168, 1, 1)));
    assert!(is_private_ip(IpAddress::V4(127, 0, 0, 1)));
    assert!(is_private_ip(IpAddress::V4(169, 254, 1, 1)));
    assert!(is_private_ip(IpAddress::V4(0, 0, 0, 0)));
    assert!(is_private_ip(IpAddress::V4(100, 64, 0, 1)));
    assert!(is_private_ip(IpAddress::V4(198, 18, 0, 1)));
    assert!(is_private_ip(IpAddress::V6(0, 0, 0, 0, 0, 0, 0, 1)));
    assert!(is_private_ip(IpAddress::V6(0xfc00, 0, 0, 0, 0, 0, 0, 1)));
    assert!(is_private_ip(IpAddress::V6(0, 0, 0, 0, 0, 0xffff, 0x7f00, 0x0001)));
    assert!(is_private_ip(IpAddress::V6(0, 0, 0, 0, 0, 0xffff, 0x0a00, 0x0001)));
    assert!(!is_private_ip(IpAddress::V6(0, 0, 0, 0, 0, 0xffff, 0x0808, 0x0808)));
    assert!(!is_private_ip(IpAddress::V4(8, 8, 8, 8)));
}

#[test]
fn oversized_output_truncates_and_completes() {
    let mut buf: Vec<u8> = Vec::new();
    let mut total: usize = 0;
    let chunk = vec![b'a'; 1 << 20];
    for _ in 0..11 {
        capture_chunk(&mut buf, &mut total, &chunk, MAX_STDIO_BYTES);
    }
    assert_eq!(buf.len(), MAX_STDIO_BYTES);
    assert_eq!(total, 11 << 20);
    let out = CommandOperator.output(&buf, total, &Vec::new(), 0, Some(0), true);
    assert_eq!(field(&out, "truncated"), &Json::Bool(true));
    assert_eq!(field(&out, "success"), &Json::Bool(true));
    let Json::Str(stdout) = field(&out, "stdout") else { panic!("stdout string") };
    assert!(stdout.contains("truncated at 10MB"));
    assert!(stdout.len() <= MAX_STDIO_BYTES + 64);
}

#[test]
fn exactly_at_limit_is_not_truncated() {
    let mut buf: Vec<u8> = Vec::new();
    let mut total: usize = 0;
    let chunk = vec![b'a'; MAX_STDIO_BYTES];
    capture_chunk(&mut buf, &mut total, &chunk, MAX_STDIO_BYTES);
    let out = CommandOperator.output(&buf, total, &Vec::new(), 0, Some(0), true);
    assert_eq!(field(&out, "truncated"), &Json::Bool(false));
}

#[test]
fn small_output_not_truncated() {
    let mut buf: Vec<u8> = Vec::new();
    let mut total: usize = 0;
    capture_chunk(&mut buf, &mut total, b"hi\n", MAX_STDIO_BYTES);
    let out = CommandOperator.output(&buf, total, &Vec::new(), 0, Some(0), true);
    assert_eq!(field(&out, "truncated"), &Json::Bool(false));
    assert_eq!(field(&out, "stdout"), &s("hi\n"));
}

#[test]
fn preview_value_truncates_and_marks() {
    let small = obj(vec![("a", i(1))]);
    assert_eq!(preview_value(&small, 2048), obj(vec![("a", i(1))]));

    let big = obj(vec![("data", s(&"x".repeat(10_000)))]);
    let preview = preview_value(&big, 100);
    let Json::Str(text) = preview else { panic!("string preview") };
    assert!(text.contains("truncated"), "preview: {text}");
    assert!(text.len() < 200, "preview len: {}", text.len());
    let wide = obj(vec![("data", s(&"汉".repeat(1000)))]);
    let Json::Str(text) = preview_value(&wide, 50) else { panic!("string preview") };
    assert!(text.contains("truncated"));
}

#[test]
fn builtins_are_found_by_their_type() {
    for b in [Builtin::Noop, Builtin::Filter, Builtin::Sort, Builtin::Llm, Builtin::Var, Builtin::Command] {
        let spec = b.spec();
        assert_eq!(get_builtin(&spec.op_type), Some(b));
    }
    assert_eq!(get_builtin("nope"), None);
}

#[test]
fn builtin_specs_say_which_cache() {
    for name in ["noop", "filter", "sort", "dedup", "merge", "base64", "http", "js", "file", "command", "llm", "var"] {
        let b = get_builtin(name).expect("registered");
        let spec = b.spec();
        assert_eq!(spec.op_type, name);
        assert!(!spec.iterate);
        assert_eq!(spec.cache, !["http", "file", "command", "llm"].contains(&name), "{name}");
    }
    for name in ["fork", "split", "NOOP"] {
        assert!(get_builtin(name).is_none());
    }
    assert!(!step_caches(None, Builtin::Http));
    assert!(step_caches(None, Builtin::Sort));
    assert!(step_caches(Some(true), Builtin::Llm));
    assert!(!step_caches(Some(false), Builtin::Noop));
}
