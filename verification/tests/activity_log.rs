use xiaokui_alive::activity::{
    extract_text_content, process_discord_jsonl, process_discord_line, process_discord_lines,
    DiscordActivity,
};
use xiaokui_alive::json::{Json, JsonNumber};

fn to_json(v: &serde_json::Value) -> Json {
    match v {
        serde_json::Value::Null => Json::Null,
        serde_json::Value::Bool(b) => Json::Bool(*b),
        serde_json::Value::Number(n) => {
            if let Some(u) = n.as_u64() {
                Json::Number(JsonNumber::PosInt(u))
            } else if let Some(i) = n.as_i64() {
                Json::Number(JsonNumber::NegInt(i))
            } else {
                Json::Number(JsonNumber::Float(n.to_string()))
            }
        }
        serde_json::Value::String(s) => Json::Str(s.clone()),
        serde_json::Value::Array(a) => Json::Array(a.iter().map(to_json).collect()),
        serde_json::Value::Object(m) => {
            Json::Object(m.iter().map(|(k, v)| (k.clone(), to_json(v))).collect())
        }
    }
}

fn from_json(j: &Json) -> serde_json::Value {
    match j {
        Json::Null => serde_json::Value::Null,
        Json::Bool(b) => serde_json::Value::Bool(*b),
        Json::Number(JsonNumber::PosInt(u)) => serde_json::Value::from(*u),
        Json::Number(JsonNumber::NegInt(i)) => serde_json::Value::from(*i),
        Json::Number(JsonNumber::Float(s)) => serde_json::from_str(s).unwrap(),
        Json::Str(s) => serde_json::Value::String(s.clone()),
        Json::Array(a) => serde_json::Value::Array(a.iter().map(from_json).collect()),
        Json::Object(e) => {
            let mut m = serde_json::Map::new();
            for (k, v) in e {
                m.insert(k.clone(), from_json(v));
            }
            serde_json::Value::Object(m)
        }
    }
}

fn j(text: &str) -> Json {
    to_json(&serde_json::from_str::<serde_json::Value>(text).unwrap())
}

fn v(text: &str) -> serde_json::Value {
    serde_json::from_str(text).unwrap()
}

fn message(role: &str, text: &str) -> Json {
    let t = serde_json::to_string(text).unwrap();
    j(&format!(
        r#"{{"type":"response_item","payload":{{"type":"message","role":"{}","content":[{{"type":"input_text","text":{}}}]}}}}"#,
        role, t
    ))
}

#[test]
fn text_content_joins_text_items() {
    let payload = j(r#"{"content":[{"type":"input_text","text":"a"},{"type":"image","url":"x"},{"type":"output_text","text":"b"},{"type":"input_text"}]}"#);
    assert_eq!(extract_text_content(&payload), "a\nb");
    assert_eq!(extract_text_content(&j(r#"{"content":"plain"}"#)), "");
    assert_eq!(extract_text_content(&j(r#"{}"#)), "");
    assert_eq!(extract_text_content(&j(r#"{"content":[]}"#)), "");
}

#[test]
fn discord_turn_is_followed() {
    let mut in_turn = false;
    assert!(process_discord_jsonl(&message("assistant", "ignored"), &mut in_turn).is_none());
    assert!(!in_turn);
    match process_discord_jsonl(&message("user", "📩 Discord 通知\nhi"), &mut in_turn) {
        Some(DiscordActivity::UserMessage { text }) => assert_eq!(text, "📩 Discord 通知\nhi"),
        other => panic!("unexpected {:?}", other),
    }
    assert!(in_turn);
    match process_discord_jsonl(&message("assistant", "reply"), &mut in_turn) {
        Some(DiscordActivity::BotResponse { text }) => assert_eq!(text, "reply"),
        other => panic!("unexpected {:?}", other),
    }
    let call = j(r#"{"type":"response_item","payload":{"type":"function_call","name":"shell"}}"#);
    match process_discord_jsonl(&call, &mut in_turn) {
        Some(DiscordActivity::ToolCall { name }) => assert_eq!(name, "shell"),
        other => panic!("unexpected {:?}", other),
    }
    let unnamed = j(r#"{"type":"response_item","payload":{"type":"function_call"}}"#);
    match process_discord_jsonl(&unnamed, &mut in_turn) {
        Some(DiscordActivity::ToolCall { name }) => assert_eq!(name, "unknown"),
        other => panic!("unexpected {:?}", other),
    }
    let done = j(r#"{"type":"event_msg","payload":{"type":"task_complete"}}"#);
    assert!(matches!(process_discord_jsonl(&done, &mut in_turn), Some(DiscordActivity::TurnComplete)));
    assert!(!in_turn);
    assert!(process_discord_jsonl(&done, &mut in_turn).is_none());
    assert!(process_discord_jsonl(&call, &mut in_turn).is_none());
}

#[test]
fn ordinary_user_message_is_not_discord() {
    let mut in_turn = false;
    assert!(process_discord_jsonl(&message("user", "Discord without the mark"), &mut in_turn).is_none());
    assert!(process_discord_jsonl(&message("user", "📩 only the mark"), &mut in_turn).is_none());
    assert!(!in_turn);
    let mut in_turn = true;
    assert!(process_discord_jsonl(&message("user", "plain"), &mut in_turn).is_none());
    assert!(in_turn);
}

#[test]
fn empty_assistant_reply_is_not_shown() {
    let mut in_turn = true;
    let empty = j(r#"{"type":"response_item","payload":{"type":"message","role":"assistant","content":[]}}"#);
    assert!(process_discord_jsonl(&empty, &mut in_turn).is_none());
    assert!(in_turn);
}

#[test]
fn shown_texts_are_cut_at_500_characters() {
    let long: String = std::iter::repeat('字').take(700).collect();
    let mut in_turn = false;
    let text = format!("📩 Discord {}", long);
    match process_discord_jsonl(&message("user", &text), &mut in_turn) {
        Some(DiscordActivity::UserMessage { text }) => {
            assert_eq!(text.chars().count(), 500);
            assert!(text.starts_with("📩 Discord 字"));
        }
        other => panic!("unexpected {:?}", other),
    }
    match process_discord_jsonl(&message("assistant", &long), &mut in_turn) {
        Some(DiscordActivity::BotResponse { text }) => assert_eq!(text.chars().count(), 500),
        other => panic!("unexpected {:?}", other),
    }
}

#[test]
fn other_records_change_nothing() {
    let mut in_turn = true;
    assert!(process_discord_jsonl(&j(r#"{"type":"session_meta","payload":{}}"#), &mut in_turn).is_none());
    assert!(process_discord_jsonl(&j(r#"{"type":"event_msg","payload":{"type":"token_count"}}"#), &mut in_turn).is_none());
    assert!(process_discord_jsonl(&j("[]"), &mut in_turn).is_none());
    assert!(in_turn);
}

#[test]
fn session_log_lines_are_parsed_then_applied() {
    let user = serde_json::to_string(&from_json(&message("user", "📩 Discord 通知\nhi"))).unwrap();
    let reply = serde_json::to_string(&from_json(&message("assistant", "reply"))).unwrap();
    let done = r#"{"type":"event_msg","payload":{"type":"task_complete"}}"#.to_string();
    let mut in_turn = true;
    assert!(process_discord_line("not json", &mut in_turn).is_none());
    assert!(in_turn);
    in_turn = false;
    let lines = vec![reply.clone(), user, "{broken".to_string(), reply, done];
    let shown = process_discord_lines(&lines, &mut in_turn);
    assert_eq!(shown.len(), 3);
    assert!(matches!(&shown[0], DiscordActivity::UserMessage { text } if text == "📩 Discord 通知\nhi"));
    assert!(matches!(&shown[1], DiscordActivity::BotResponse { text } if text == "reply"));
    assert!(matches!(shown[2], DiscordActivity::TurnComplete));
    assert!(!in_turn);
}
