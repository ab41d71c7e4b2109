use xiaokui_alive::json::{Json, JsonNumber};
use xiaokui_alive::sessions::{
    build_thread_list, build_thread_list_from_index, catalog_entry_from_lines,
    catalog_entry_from_text, catalog_insert, extract_title_from_user_text,
    thread_history_from_text,
    finish_catalog_entry, is_jsonl_file_name, is_meta_user_message, missing_session_message,
    session_file_matches, thread_history_json, thread_list_json, SessionCatalogEntry,
};

fn to_json(v: &serde_json::Value) -> Json {
    match v {
        serde_json::Value::Null => Json::Null,
        serde_json::Value::Bool(b) => Json::Bool(*b),
        serde_json::Value::Number(n) => {
            if let Some(u) = n.as_u64() {
                Json::Number(JsonNumber::PosInt(u))
            } else if let Some(i) = n.as_i64() {
                Json::Number(JsonNumber::NegInt(i))
            } else {
                Json::Number(JsonNumber::Float(n.to_string()))
            }
        }
        serde_json::Value::String(s) => Json::Str(s.clone()),
        serde_json::Value::Array(a) => Json::Array(a.iter().map(to_json).collect()),
        serde_json::Value::Object(m) => {
            Json::Object(m.iter().map(|(k, v)| (k.clone(), to_json(v))).collect())
        }
    }
}

fn from_json(j: &Json) -> serde_json::Value {
    match j {
        Json::Null => serde_json::Value::Null,
        Json::Bool(b) => serde_json::Value::Bool(*b),
        Json::Number(JsonNumber::PosInt(u)) => serde_json::Value::from(*u),
        Json::Number(JsonNumber::NegInt(i)) => serde_json::Value::from(*i),
        Json::Number(JsonNumber::Float(s)) => serde_json::from_str(s).unwrap(),
        Json::Str(s) => serde_json::Value::String(s.clone()),
        Json::Array(a) => serde_json::Value::Array(a.iter().map(from_json).collect()),
        Json::Object(e) => {
            let mut m = serde_json::Map::new();
            for (k, v) in e {
                m.insert(k.clone(), from_json(v));
            }
            serde_json::Value::Object(m)
        }
    }
}

fn j(text: &str) -> Json {
    to_json(&serde_json::from_str::<serde_json::Value>(text).unwrap())
}

fn v(text: &str) -> serde_json::Value {
    serde_json::from_str(text).unwrap()
}

fn lines(text: &str) -> Vec<Option<Json>> {
    text.lines()
        .map(|l| serde_json::from_str::<serde_json::Value>(l).ok().map(|v| to_json(&v)))
        .collect()
}

fn user_line(text: &str) -> String {
    format!(
        r#"{{"type":"response_item","payload":{{"type":"message","role":"user","content":[{{"type":"input_text","text":{}}}]}}}}"#,
        serde_json::to_string(text).unwrap()
    )
}

fn entry(id: &str, title: &str, modified: &str) -> SessionCatalogEntry {
    SessionCatalogEntry {
        id: id.to_string(),
        cwd: String::new(),
        originator: String::new(),
        modified: modified.to_string(),
        title: title.to_string(),
    }
}

#[test]
fn meta_messages_are_recognised() {
    assert!(is_meta_user_message("  # AGENTS.md instructions for /repo"));
    assert!(is_meta_user_message("<environment_context>\n<cwd>/x</cwd>"));
    assert!(is_meta_user_message("<INSTRUCTIONS>"));
    assert!(is_meta_user_message("\n<SYSTEM> x"));
    assert!(is_meta_user_message("# Current Workspace Directory"));
    assert!(!is_meta_user_message("Please fix # AGENTS.md instructions"));
    assert!(!is_meta_user_message(""));
}

#[test]
fn title_is_the_start_of_the_message() {
    assert_eq!(extract_title_from_user_text("  Fix the login bug  "), "Fix the login bug");
    let long: String = std::iter::repeat('a').take(100).collect();
    assert_eq!(extract_title_from_user_text(&long).chars().count(), 60);
    assert_eq!(extract_title_from_user_text("   \n\t "), "");
    assert_eq!(extract_title_from_user_text("<environment_context>x"), "");
}

#[test]
fn title_of_a_discord_notification_is_its_body() {
    let text = "📩 Discord 通知\n來自：someone\n訊息內容：\n\n  幫我看一下 build  \n請用 Discord 回覆";
    assert_eq!(extract_title_from_user_text(text), "幫我看一下 build");
    let closed = "📩 Discord 通知\n訊息內容：\n請用 Discord 回覆\n不是標題";
    assert_eq!(extract_title_from_user_text(closed), "📩 Discord 通知\n訊息內容：\n請用 Discord 回覆\n不是標題");
    let no_body = "📩 Discord 通知\n沒有內容標記";
    assert_eq!(extract_title_from_user_text(no_body), no_body);
    let crlf = "📩 Discord 通知\r\n訊息內容：\r\nhello there\r\n";
    assert_eq!(extract_title_from_user_text(crlf), "hello there");
}

#[test]
fn catalog_entry_from_a_log() {
    let log = [
        r#"{"type":"session_meta","payload":{"id":"s-1","cwd":"/repo","originator":"codex_cli","timestamp":"2025-01-02T03:04:05.000Z"}}"#.to_string(),
        "not json".to_string(),
        user_line("<environment_context>ctx"),
        user_line("  Add tests  "),
        user_line("Second message"),
    ]
    .join("\n");
    let e = catalog_entry_from_lines(&lines(&log));
    assert_eq!(e.id, "s-1");
    assert_eq!(e.cwd, "/repo");
    assert_eq!(e.originator, "codex_cli");
    assert_eq!(e.modified, "2025-01-02T03:04:05.000Z");
    assert_eq!(e.title, "Add tests");
}

#[test]
fn catalog_reads_only_the_first_80_lines() {
    let mut log: Vec<String> = vec![r#"{"type":"session_meta","payload":{"id":"s-2"}}"#.to_string()];
    for _ in 0..79 {
        log.push(r#"{"type":"event_msg","payload":{}}"#.to_string());
    }
    log.push(user_line("too late"));
    let e = catalog_entry_from_lines(&lines(&log.join("\n")));
    assert_eq!(e.id, "s-2");
    assert_eq!(e.title, "");
}

#[test]
fn catalog_entries_need_an_id_and_get_a_time() {
    assert!(finish_catalog_entry(entry("", "t", "x"), Some((0, 0))).is_none());
    let kept = finish_catalog_entry(entry("a", "t", "2024"), Some((0, 0))).unwrap();
    assert_eq!(kept.modified, "2024");
    let dated = finish_catalog_entry(entry("a", "t", ""), Some((0, 0))).unwrap();
    assert_eq!(dated.modified, "1970-01-01T00:00:00.000Z");
    let dated = finish_catalog_entry(entry("a", "t", ""), Some((1_700_000_000, 123_456_789))).unwrap();
    assert_eq!(dated.modified, "2023-11-14T22:13:20.123Z");
    let undated = finish_catalog_entry(entry("a", "t", ""), None).unwrap();
    assert_eq!(undated.modified, "");
}

#[test]
fn catalog_keeps_one_entry_per_session() {
    let mut c = Vec::new();
    catalog_insert(&mut c, entry("a", "first", "1"));
    catalog_insert(&mut c, entry("b", "other", "2"));
    catalog_insert(&mut c, entry("a", "second", "3"));
    assert_eq!(c.len(), 2);
    assert_eq!(c[0].title, "second");
    assert_eq!(c[1].id, "b");
}

#[test]
fn thread_list_merges_and_sorts() {
    let catalog = vec![
        entry("s1", "From catalog", "2025-01-01"),
        entry("s2", "", "2025-03-01"),
        entry("s3", "Old", "2024-01-01"),
    ];
    let loaded = j(r#"{"threads":[{"id":"s1","name":"Renamed","updatedAt":"2025-05-01"},{"id":"s4","name":"  ","updatedAt":""},{"name":"no id"}]}"#);
    let index = lines(&[
        r#"{"id":"s2","thread_name":"Indexed","updated_at":"2020"}"#,
        r#"{"id":"s3","thread_name":"Ignored","updated_at":"2020"}"#,
        "",
        r#"{"id":"","thread_name":"x"}"#,
        r#"{"id":"s5","thread_name":"Only index","updated_at":"2025-02-01"}"#,
    ].join("\n"));
    let rows = build_thread_list(&catalog, Some(&loaded), &index);
    let got: Vec<(String, String, String)> = rows
        .iter()
        .map(|r| (r.session_id.clone(), r.title.clone(), r.modified.clone()))
        .collect();
    assert_eq!(
        got,
        vec![
            ("s1".to_string(), "Renamed".to_string(), "2025-05-01".to_string()),
            ("s2".to_string(), "Indexed".to_string(), "2025-03-01".to_string()),
            ("s5".to_string(), "Only index".to_string(), "2025-02-01".to_string()),
            ("s3".to_string(), "Old".to_string(), "2024-01-01".to_string()),
            ("s4".to_string(), "(unnamed)".to_string(), "".to_string()),
        ]
    );
    for r in &rows {
        assert_eq!(r.display_label, r.session_id);
    }
}

#[test]
fn equal_times_are_ordered_by_title() {
    let catalog = vec![entry("x", "beta", "2025"), entry("y", "alpha", "2025"), entry("z", "Zed", "2025")];
    let rows = build_thread_list(&catalog, None, &Vec::new());
    let titles: Vec<&str> = rows.iter().map(|r| r.title.as_str()).collect();
    assert_eq!(titles, vec!["Zed", "alpha", "beta"]);
}

#[test]
fn thread_list_as_json() {
    let rows = build_thread_list(&vec![entry("s1", "T", "M")], None, &Vec::new());
    assert_eq!(
        from_json(&thread_list_json(&rows)),
        v(r#"{"sessions":[{"sessionId":"s1","title":"T","modified":"M","displayLabel":"s1"}]}"#)
    );
}

#[test]
fn history_keeps_user_and_assistant_messages() {
    let log = [
        user_line("<INSTRUCTIONS>hidden"),
        r#"{"type":"response_item","payload":{"type":"message","role":"developer","content":[{"type":"input_text","text":"dev"}]}}"#.to_string(),
        user_line("📩 Discord 通知\nhello"),
        r#"{"type":"response_item","payload":{"type":"message","role":"assistant","content":[{"type":"output_text","text":"answer"}]}}"#.to_string(),
        r#"{"type":"response_item","payload":{"type":"message","role":"assistant","content":[]}}"#.to_string(),
        r#"{"type":"response_item","payload":{"type":"function_call","name":"shell"}}"#.to_string(),
        r#"{"type":"event_msg","payload":{"type":"task_complete"}}"#.to_string(),
        "broken".to_string(),
    ]
    .join("\n");
    assert_eq!(
        from_json(&thread_history_json(&lines(&log))),
        v(r#"{"messages":[{"role":"user","text":"📩 Discord 通知\nhello","source":"discord"},{"role":"assistant","text":"answer","source":"gui"}]}"#)
    );
}

#[test]
fn history_texts_are_cut_at_1000_characters() {
    let long: String = std::iter::repeat('x').take(1500).collect();
    let h = from_json(&thread_history_json(&lines(&user_line(&long))));
    assert_eq!(h["messages"][0]["text"].as_str().unwrap().chars().count(), 1000);
}

#[test]
fn session_files_are_found_by_name() {
    assert!(is_jsonl_file_name("rollout-2025-abc.jsonl"));
    assert!(!is_jsonl_file_name("notes.json"));
    assert!(!is_jsonl_file_name(".jsonl"));
    assert!(!is_jsonl_file_name("jsonl"));
    assert!(is_jsonl_file_name("a.b.jsonl"));
    assert!(session_file_matches("rollout-2025-01-01T00-00-00-abc123.jsonl", "abc123"));
    assert!(!session_file_matches("rollout-abc123x.jsonl", "abc123"));
    assert!(!session_file_matches("rollout-abc123.json", "abc123"));
    assert!(session_file_matches("abc.jsonl", ""));
    assert_eq!(missing_session_message("t-9"), "找不到 thread t-9 的 session 檔案");
}

#[test]
fn the_index_only_fills_gaps() {
    let catalog = vec![entry("a", "Kept", "2024-06-01"), entry("b", "", "")];
    let index = lines(&[
        r#"{"id":"a","thread_name":"Other","updated_at":"2025-01-01"}"#,
        r#"{"id":"b","thread_name":"Named","updated_at":"2025-01-02"}"#,
        r#"{"id":"b","thread_name":"Later","updated_at":"2025-01-03"}"#,
    ].join("\n"));
    let rows = build_thread_list(&catalog, None, &index);
    let got: Vec<(String, String, String)> = rows
        .iter()
        .map(|r| (r.session_id.clone(), r.title.clone(), r.modified.clone()))
        .collect();
    assert_eq!(
        got,
        vec![
            ("b".to_string(), "Named".to_string(), "2025-01-02".to_string()),
            ("a".to_string(), "Kept".to_string(), "2024-06-01".to_string()),
        ]
    );
}

#[test]
fn a_failed_thread_list_lists_like_an_empty_one() {
    let catalog = vec![entry("a", "A", "2025-01-01"), entry("b", "", "2024-01-01")];
    let index = lines(r#"{"id":"c","thread_name":"C","updated_at":"2023"}"#);
    let rows_of = |loaded: Option<&Json>| -> Vec<(String, String, String)> {
        build_thread_list(&catalog, loaded, &index)
            .iter()
            .map(|r| (r.session_id.clone(), r.title.clone(), r.modified.clone()))
            .collect()
    };
    let empty = rows_of(Some(&j(r#"{"threads":[]}"#)));
    assert_eq!(empty.len(), 3);
    assert_eq!(rows_of(None), empty);
    assert_eq!(rows_of(Some(&j(r#"{}"#))), empty);
    assert_eq!(rows_of(Some(&j(r#"{"threads":"none"}"#))), empty);
    assert_eq!(rows_of(Some(&j(r#"[1,2]"#))), empty);
}

#[test]
fn logs_are_read_from_their_text() {
    let log = [
        r#"{"type":"session_meta","payload":{"id":"s-1","cwd":"/repo","originator":"codex_cli","timestamp":"2025-01-02T03:04:05.000Z"}}"#.to_string(),
        "not json".to_string(),
        String::new(),
        user_line("<environment_context>ctx"),
        user_line("  Add tests  "),
        r#"{"type":"response_item","payload":{"type":"message","role":"assistant","content":[{"type":"output_text","text":"done"}]}}"#.to_string(),
    ]
    .join("\r\n");
    let e = catalog_entry_from_text(&log);
    assert_eq!(e.id, "s-1");
    assert_eq!(e.cwd, "/repo");
    assert_eq!(e.title, "Add tests");
    assert_eq!(
        from_json(&thread_history_from_text(&log)),
        v(r#"{"messages":[{"role":"user","text":"  Add tests  ","source":"gui"},{"role":"assistant","text":"done","source":"gui"}]}"#)
    );
    let mut late = vec![String::from("x"); 80];
    late.push(r#"{"type":"session_meta","payload":{"id":"late"}}"#.to_string());
    assert_eq!(catalog_entry_from_text(&late.join("\n")).id, "");
}

#[test]
fn thread_list_from_the_index_text() {
    let catalog = vec![entry("a", "", "2024")];
    let index = [
        r#"{"id":"a","thread_name":"Named","updated_at":"2025"}"#,
        "",
        "garbage",
        r#"{"id":"b","thread_name":"B","updated_at":"2023"}"#,
    ]
    .join("\n");
    let rows = build_thread_list_from_index(&catalog, None, &index);
    let got: Vec<(String, String, String)> =
        rows.iter().map(|r| (r.session_id.clone(), r.title.clone(), r.modified.clone())).collect();
    assert_eq!(
        got,
        vec![
            ("a".to_string(), "Named".to_string(), "2024".to_string()),
            ("b".to_string(), "B".to_string(), "2023".to_string()),
        ]
    );
}

#[test]
fn rows_tied_on_time_and_title_follow_their_ids() {
    let catalog = vec![entry("z", "Same", "2025"), entry("m", "Same", "2025"), entry("a", "Same", "2025")];
    let rows = build_thread_list(&catalog, None, &Vec::new());
    let ids: Vec<&str> = rows.iter().map(|r| r.session_id.as_str()).collect();
    assert_eq!(ids, vec!["a", "m", "z"]);
}
