use spruce_grove::json::{Json, JsonNumber};
use spruce_grove::ledger::{
    append_row, clamp, keep_last, ledger_path, ledger_row, ledger_text, tail_limit, tail_payload,
    LEDGER_KEEP,
};

/// The compact JSON text of a value, members in the order they were built.
fn to_json_text(j: &Json) -> String {
    match j {
        Json::Null => "null".to_string(),
        Json::Bool(b) => b.to_string(),
        Json::Number(JsonNumber::PosInt(u)) => u.to_string(),
        Json::Number(JsonNumber::NegInt(i)) => i.to_string(),
        Json::Number(JsonNumber::Float(t)) => t.clone(),
        Json::Str(s) => serde_json::Value::String(s.clone()).to_string(),
        Json::Array(a) => format!("[{}]", a.iter().map(to_json_text).collect::<Vec<_>>().join(",")),
        Json::Object(m) => {
            let members: Vec<String> = m
                .iter()
                .map(|x| format!("{}:{}", serde_json::Value::String(x.key.clone()), to_json_text(&x.value)))
                .collect();
            format!("{{{}}}", members.join(","))
        }
    }
}

#[test]
fn clamp_truncates_with_ellipsis() {
    assert_eq!(clamp("abc", 10), "abc");
    assert_eq!(clamp("abcdefghij", 5), "abcd…");
}

#[test]
fn clamp_counts_chars_not_bytes() {
    // multibyte must not split a codepoint
    let s = "héllo wörld";
    assert_eq!(clamp(s, 5).chars().count(), 5);
}

#[test]
fn clamp_edges() {
    assert_eq!(clamp("abcde", 5), "abcde");
    assert_eq!(clamp("ab", 0), "…");
    assert_eq!(clamp("", 0), "");
    assert_eq!(clamp("héllo wörld", 5), "héll…");
}

#[test]
fn ledger_rows_are_clamped_and_ordered() {
    let long = "x".repeat(300);
    let row = ledger_row("2024-01-01T00:00:00Z", "tool", "/tmp", &long, "completed");
    let text = to_json_text(&row);
    assert!(text.starts_with("{\"at\":\"2024-01-01T00:00:00Z\",\"cwd\":\"/tmp\",\"kind\":\"tool\",\"outcome\":\"completed\",\"summary\":\""));
    let summary = format!("{}…", "x".repeat(239));
    assert!(text.ends_with(&format!("{summary}\"}}")));
}

#[test]
fn the_ledger_stays_bounded() {
    let mut rows: Vec<Json> = Vec::new();
    for i in 0..(LEDGER_KEEP as u64 + 5) {
        rows = append_row(rows, Json::uint(i));
    }
    assert_eq!(rows.len(), LEDGER_KEEP);
    assert_eq!(to_json_text(&rows[0]), "5");
    assert_eq!(to_json_text(&rows[LEDGER_KEEP - 1]), (LEDGER_KEEP as u64 + 4).to_string());
}

#[test]
fn tail_keeps_the_newest() {
    let rows: Vec<u32> = (0..10).collect();
    assert_eq!(keep_last(rows.clone(), 3), vec![7, 8, 9]);
    assert_eq!(keep_last(rows.clone(), 20), rows);
    assert_eq!(tail_limit(None), 120);
    assert_eq!(tail_limit(Some(5)), 5);
    assert_eq!(tail_limit(Some(100_000)), 2000);
}

#[test]
fn ledger_text_is_jsonl() {
    assert_eq!(ledger_text(&vec![]), "\n");
    assert_eq!(ledger_text(&vec!["1".to_string(), "true".to_string()]), "1\ntrue\n");
    assert_eq!(
        to_json_text(&tail_payload(vec![Json::Null], "/d/action-ledger.jsonl")),
        "{\"entries\":[null],\"path\":\"/d/action-ledger.jsonl\"}"
    );
    assert_eq!(ledger_path("/d"), "/d/action-ledger.jsonl");
}
