use weaveflow::cli::watch::{json_event, status_of, text_event, tui_counts_line, tui_layout, watch_outcome, TextWatch, TuiLine, WatchLine};
use weaveflow::json::{Json, JsonNumber};

fn s(x: &str) -> Json {
    Json::Str(x.to_string())
}

fn n(v: i128) -> Json {
    Json::Number(JsonNumber::Int(v))
}

fn obj(entries: Vec<(&str, Json)>) -> Json {
    let mut es: Vec<(String, Json)> = entries.into_iter().map(|(k, v)| (k.to_string(), v)).collect();
    es.sort_by(|a, b| a.0.cmp(&b.0));
    Json::Object(es)
}

fn step(id: &str, state: Json) -> Json {
    obj(vec![("step_id", s(id)), ("state", state)])
}

fn completed(ms: i128) -> Json {
    obj(vec![("Completed", obj(vec![("duration_ms", n(ms))]))])
}

fn snapshot(status: Json, steps: Vec<Json>, extra: Vec<(&str, Json)>) -> Json {
    let layers = Json::Array(vec![
        obj(vec![("index", n(0)), ("step_ids", Json::Array(vec![s("a"), s("b")]))]),
        obj(vec![("index", n(1)), ("step_ids", Json::Array(vec![s("c")]))]),
    ]);
    let mut entries = vec![("status", status), ("layers", layers), ("steps", Json::Array(steps))];
    entries.extend(extra);
    obj(entries)
}

fn texts(lines: &[WatchLine]) -> Vec<(bool, String)> {
    lines.iter().map(|l| (l.to_stderr, l.text.clone())).collect()
}

#[test]
fn finished_layer_is_printed_once() {
    let steps = vec![step("a", completed(5)), step("b", completed(7)), step("c", obj(vec![("Running", obj(vec![]))]))];
    let status = obj(vec![("Running", obj(vec![("steps", Json::Array(steps))]))]);
    let data = snapshot(status, vec![], vec![]);
    let mut w = TextWatch::new();
    let lines = text_event(&mut w, &data);
    assert_eq!(texts(&lines), vec![(false, "[weaveflow] Layer 1 (parallel): a ✓ (5ms), b ✓ (7ms)".to_string())]);
    assert!(!w.finished);
    let again = text_event(&mut w, &data);
    assert!(again.is_empty());
    assert_eq!(w.completed, vec![0]);
}

#[test]
fn completed_task_prints_output_and_progress() {
    let steps = vec![step("a", completed(5)), step("b", completed(7)), step("c", obj(vec![("Failed", obj(vec![("error", s("boom"))]))]))];
    let status = obj(vec![("Completed", obj(vec![("steps", Json::Array(steps))]))]);
    let progress = vec![
        step("a", obj(vec![("Completed", obj(vec![("cached", Json::Bool(true)), ("duration_ms", n(5))]))])),
        step("c", obj(vec![("Skipped", Json::Null)])),
    ];
    let data = snapshot(status, progress, vec![("total_duration_ms", n(42))]);
    let mut w = TextWatch::new();
    let lines = texts(&text_event(&mut w, &data));
    assert_eq!(lines[0].1, "[weaveflow] Layer 1 (parallel): a ✓ (5ms), b ✓ (7ms)");
    assert_eq!(lines[1].1, "[weaveflow] Layer 2: c ✗ (boom)");
    assert_eq!(lines[2].1, "[weaveflow] output: {\"steps\":[{\"state\":{\"Completed\":{\"duration_ms\":5}},\"step_id\":\"a\"},{\"state\":{\"Completed\":{\"duration_ms\":7}},\"step_id\":\"b\"},{\"state\":{\"Failed\":{\"error\":\"boom\"}},\"step_id\":\"c\"}]}");
    assert_eq!(lines[3].1, "[weaveflow] step progress:");
    assert_eq!(lines[4].1, "  a: ✓ (5ms ♻)");
    assert_eq!(lines[5].1, "  c: —");
    assert_eq!(lines[6], (false, "[weaveflow] completed in 42ms".to_string()));
    assert!(w.finished);
    assert_eq!(watch_outcome(&w), Ok(()));
}

#[test]
fn long_text_output_is_cut_at_200_chars() {
    let data = obj(vec![("status", obj(vec![("Completed", s(&"é".repeat(250)))]))]);
    let mut w = TextWatch::new();
    let lines = texts(&text_event(&mut w, &data));
    assert_eq!(lines.len(), 1);
    assert_eq!(lines[0].1, format!("[weaveflow] output: {}... (250 chars)", "é".repeat(200)));
}

#[test]
fn binary_output_shows_its_size() {
    let out = obj(vec![("_binary", Json::Bool(true)), ("_size", n(1024))]);
    let data = obj(vec![("status", obj(vec![("Completed", out)]))]);
    let mut w = TextWatch::new();
    let lines = texts(&text_event(&mut w, &data));
    assert_eq!(lines, vec![(false, "[weaveflow] output: [binary 1024 bytes]".to_string())]);
}

#[test]
fn failed_task_reports_error_and_fails_the_watch() {
    let data = obj(vec![("status", obj(vec![("Failed", s("step c failed: boom"))]))]);
    let mut w = TextWatch::new();
    let lines = texts(&text_event(&mut w, &data));
    assert_eq!(lines, vec![(true, "[weaveflow] error: step c failed: boom".to_string())]);
    assert_eq!(watch_outcome(&w), Err("task failed: step c failed: boom".to_string()));
}

#[test]
fn watch_without_final_snapshot_is_an_error() {
    let w = TextWatch::new();
    assert_eq!(watch_outcome(&w), Err("connection to daemon lost before task completion".to_string()));
    assert_eq!(status_of(&obj(vec![])), "unknown");
}

#[test]
fn json_stream_prints_each_snapshot() {
    let data = obj(vec![("status", obj(vec![("Failed", Json::Null)]))]);
    let mut w = TextWatch::new();
    assert_eq!(json_event(&mut w, &data), "{\"status\":{\"Failed\":null}}");
    assert_eq!(watch_outcome(&w), Err("task failed: unknown error".to_string()));
}

#[test]
fn full_screen_layout_lists_layers_and_counts() {
    let steps = vec![
        step("a", completed(5)),
        step("b", obj(vec![("Running", obj(vec![]))])),
        step("c", obj(vec![("Pending", Json::Null)])),
    ];
    let data = snapshot(obj(vec![("Running", obj(vec![]))]), steps, vec![]);
    let (lines, counts) = tui_layout(&data);
    let text: Vec<String> = lines
        .iter()
        .map(|l| match l {
            TuiLine::Text(t) => t.clone(),
            TuiLine::Step { indent, icon, id, detail } => {
                format!("{indent}{icon} {id} {}", detail.clone().unwrap_or_else(|| "<state>".to_string()))
            }
        })
        .collect();
    assert_eq!(
        text,
        vec![
            "  Layer 1:",
            "  {",
            "    ✓ a <state>",
            "    ● b <state>",
            "  }",
            "  Layer 2:",
            "  ○ c pending",
        ]
    );
    assert_eq!(
        tui_counts_line(&counts),
        "● 1 running  ◐ 0 iterating  ✓ 1 done  — 0 skipped  ○ 1 pending  ✗ 0 failed"
    );
}
