use xiaokui_alive::codex::{
    apply_model, app_server_args, frame_action, initialize_params, listen_port, next_connect_step,
    normalize_model, notification_event, notification_message, thread_resume_params,
    thread_start_params, turn_id_of, turn_start_params, ws_url, CodexEvent, CodexProcess,
    ConnectStep, FrameAction, Reply, Routed, SocketFrame, CONNECT_ATTEMPTS, DEFAULT_PORT,
};
use xiaokui_alive::json::{Json, JsonNumber};

fn to_json(v: &serde_json::Value) -> Json {
    match v {
        serde_json::Value::Null => Json::Null,
        serde_json::Value::Bool(b) => Json::Bool(*b),
        serde_json::Value::Number(n) => {
            if let Some(u) = n.as_u64() {
                Json::Number(JsonNumber::PosInt(u))
            } else if let Some(i) = n.as_i64() {
                Json::Number(JsonNumber::NegInt(i))
            } else {
                Json::Number(JsonNumber::Float(n.to_string()))
            }
        }
        serde_json::Value::String(s) => Json::Str(s.clone()),
        serde_json::Value::Array(a) => Json::Array(a.iter().map(to_json).collect()),
        serde_json::Value::Object(m) => {
            Json::Object(m.iter().map(|(k, v)| (k.clone(), to_json(v))).collect())
        }
    }
}

fn from_json(j: &Json) -> serde_json::Value {
    match j {
        Json::Null => serde_json::Value::Null,
        Json::Bool(b) => serde_json::Value::Bool(*b),
        Json::Number(JsonNumber::PosInt(u)) => serde_json::Value::from(*u),
        Json::Number(JsonNumber::NegInt(i)) => serde_json::Value::from(*i),
        Json::Number(JsonNumber::Float(s)) => serde_json::from_str(s).unwrap(),
        Json::Str(s) => serde_json::Value::String(s.clone()),
        Json::Array(a) => serde_json::Value::Array(a.iter().map(from_json).collect()),
        Json::Object(e) => {
            let mut m = serde_json::Map::new();
            for (k, v) in e {
                m.insert(k.clone(), from_json(v));
            }
            serde_json::Value::Object(m)
        }
    }
}

fn j(text: &str) -> Json {
    to_json(&serde_json::from_str::<serde_json::Value>(text).unwrap())
}

fn v(text: &str) -> serde_json::Value {
    serde_json::from_str(text).unwrap()
}

fn channel() -> (tokio::sync::oneshot::Sender<Reply>, tokio::sync::oneshot::Receiver<Reply>) {
    tokio::sync::oneshot::channel()
}

#[test]
fn default_state_is_empty() {
    let p = CodexProcess::default();
    assert_eq!(p.next_request_id, 0);
    assert!(p.pending_requests.is_empty());
    assert!(p.current_thread_id.is_none());
    assert_eq!(p.port, 45888);
    assert_eq!(DEFAULT_PORT, 45888);
}

#[test]
fn requests_get_increasing_ids_and_the_message() {
    let mut p = CodexProcess::new();
    let (tx1, _rx1) = channel();
    let (tx2, _rx2) = channel();
    let (id1, msg1) = p.begin_request(tx1, "thread/list", j("{}"), true).unwrap();
    let (id2, msg2) = p.begin_request(tx2, "turn/start", j(r#"{"a":1}"#), true).unwrap();
    assert_eq!(id1, 1);
    assert_eq!(id2, 2);
    assert_eq!(v(&msg1), v(r#"{"id":1,"method":"thread/list","params":{}}"#));
    assert_eq!(v(&msg2), v(r#"{"id":2,"method":"turn/start","params":{"a":1}}"#));
    assert_eq!(p.pending_requests.len(), 2);
}

#[test]
fn request_without_socket_fails_but_stays_registered() {
    let mut p = CodexProcess::new();
    let (tx, _rx) = channel();
    let r = p.begin_request(tx, "initialize", j("{}"), false);
    assert_eq!(r.err().unwrap(), "WebSocket 尚未連線");
    assert_eq!(p.next_request_id, 1);
    assert!(p.pending_requests.contains_key(&1));
}

#[test]
fn response_resolves_its_request_once() {
    let mut p = CodexProcess::new();
    let (tx, mut rx) = channel();
    p.begin_request(tx, "thread/start", j("{}"), true).unwrap();
    let msg = j(r#"{"id":1,"result":{"thread":{"id":"t-1"}}}"#);
    match p.handle_message(&msg) {
        Routed::Reply { id, tx, reply } => {
            assert_eq!(id, 1);
            tx.send(reply).unwrap();
        }
        _ => panic!("expected a reply"),
    }
    let got = rx.try_recv().unwrap().unwrap();
    assert_eq!(from_json(&got), v(r#"{"thread":{"id":"t-1"}}"#));
    assert!(p.pending_requests.is_empty());
    assert!(matches!(p.handle_message(&msg), Routed::Ignored));
}

#[test]
fn error_response_gives_its_message() {
    let mut p = CodexProcess::new();
    let (tx, _rx) = channel();
    p.begin_request(tx, "turn/start", j("{}"), true).unwrap();
    match p.handle_message(&j(r#"{"id":1,"error":{"code":-1,"message":"bad thread"}}"#)) {
        Routed::Reply { reply, .. } => assert_eq!(reply.err().unwrap(), "bad thread"),
        _ => panic!("expected a reply"),
    }
    let (tx, _rx) = channel();
    p.begin_request(tx, "turn/start", j("{}"), true).unwrap();
    match p.handle_message(&j(r#"{"id":2,"error":{"code":-1}}"#)) {
        Routed::Reply { reply, .. } => assert_eq!(reply.err().unwrap(), "unknown error"),
        _ => panic!("expected a reply"),
    }
}

#[test]
fn response_without_result_gives_null() {
    let mut p = CodexProcess::new();
    let (tx, _rx) = channel();
    p.begin_request(tx, "thread/resume", j("{}"), true).unwrap();
    match p.handle_message(&j(r#"{"id":1}"#)) {
        Routed::Reply { reply, .. } => assert!(matches!(reply.unwrap(), Json::Null)),
        _ => panic!("expected a reply"),
    }
}

#[test]
fn unknown_response_is_dropped() {
    let mut p = CodexProcess::new();
    let (tx, _rx) = channel();
    p.begin_request(tx, "thread/list", j("{}"), true).unwrap();
    assert!(matches!(p.handle_message(&j(r#"{"id":7,"result":{}}"#)), Routed::Ignored));
    assert_eq!(p.pending_requests.len(), 1);
}

fn event(msg: &str) -> Routed {
    let mut p = CodexProcess::new();
    p.handle_message(&j(msg))
}

#[test]
fn thread_started_notification() {
    match event(r#"{"method":"thread/started","params":{"thread":{"id":"abc"}}}"#) {
        Routed::Event(CodexEvent::ThreadReady { thread_id }) => assert_eq!(thread_id, "abc"),
        _ => panic!("expected ThreadReady"),
    }
    assert!(matches!(event(r#"{"method":"thread/started","params":{}}"#), Routed::Ignored));
}

#[test]
fn delta_notification() {
    match event(r#"{"method":"item/agentMessage/delta","params":{"delta":"Hel"}}"#) {
        Routed::Event(CodexEvent::TextDelta { delta }) => assert_eq!(delta, "Hel"),
        _ => panic!("expected TextDelta"),
    }
}

#[test]
fn item_started_skips_agent_messages() {
    assert!(matches!(
        event(r#"{"method":"item/started","params":{"item":{"type":"agentMessage","id":"i1"}}}"#),
        Routed::Ignored
    ));
    match event(r#"{"method":"item/started","params":{"item":{"type":"commandExecution","id":"i2","command":"ls"}}}"#) {
        Routed::Event(CodexEvent::ItemStarted { item_type, item_id, details }) => {
            assert_eq!(item_type, "commandExecution");
            assert_eq!(item_id, "i2");
            assert_eq!(from_json(&details), v(r#"{"type":"commandExecution","id":"i2","command":"ls"}"#));
        }
        _ => panic!("expected ItemStarted"),
    }
    match event(r#"{"method":"item/started","params":{}}"#) {
        Routed::Event(CodexEvent::ItemStarted { item_type, item_id, details }) => {
            assert_eq!(item_type, "unknown");
            assert_eq!(item_id, "");
            assert!(matches!(details, Json::Null));
        }
        _ => panic!("expected ItemStarted"),
    }
}

#[test]
fn item_completed_notification() {
    match event(r#"{"method":"item/completed","params":{"item":{"type":"agentMessage","id":"m","text":"Done."}}}"#) {
        Routed::Event(CodexEvent::TextComplete { text }) => assert_eq!(text, "Done."),
        _ => panic!("expected TextComplete"),
    }
    match event(r#"{"method":"item/completed","params":{"item":{"type":"agentMessage"}}}"#) {
        Routed::Event(CodexEvent::TextComplete { text }) => assert_eq!(text, ""),
        _ => panic!("expected TextComplete"),
    }
    match event(r#"{"method":"item/completed","params":{"item":{"type":"fileChange","id":"f"}}}"#) {
        Routed::Event(CodexEvent::ItemCompleted { item_type, item_id, text, details }) => {
            assert_eq!(item_type, "fileChange");
            assert_eq!(item_id, "f");
            assert!(text.is_none());
            assert_eq!(from_json(&details), v(r#"{"type":"fileChange","id":"f"}"#));
        }
        _ => panic!("expected ItemCompleted"),
    }
}

#[test]
fn turn_completed_and_error_notifications() {
    match event(r#"{"method":"turn/completed","params":{"turn":{"id":"t9"}}}"#) {
        Routed::Event(CodexEvent::TurnComplete { turn_id }) => assert_eq!(turn_id, "t9"),
        _ => panic!("expected TurnComplete"),
    }
    match event(r#"{"method":"turn/completed"}"#) {
        Routed::Event(CodexEvent::TurnComplete { turn_id }) => assert_eq!(turn_id, ""),
        _ => panic!("expected TurnComplete"),
    }
    match event(r#"{"method":"error","params":{"message":"boom"}}"#) {
        Routed::Event(CodexEvent::Error { message }) => assert_eq!(message, r#"{"message":"boom"}"#),
        _ => panic!("expected Error"),
    }
    match event(r#"{"method":"error","params":{"z":[1,true,null],"a":"é\n"}}"#) {
        Routed::Event(CodexEvent::Error { message }) => {
            assert_eq!(v(&message), v(r#"{"a":"é\n","z":[1,true,null]}"#));
            assert!(!message.contains(' '));
        }
        _ => panic!("expected Error"),
    }
    match event(r#"{"method":"error"}"#) {
        Routed::Event(CodexEvent::Error { message }) => assert_eq!(message, "null"),
        _ => panic!("expected Error"),
    }
    assert!(matches!(
        event(r#"{"method":"mcpServer/startupStatus/updated","params":{"name":"x","status":"ok"}}"#),
        Routed::Ignored
    ));
    assert!(matches!(event(r#"{"method":"something/else"}"#), Routed::Ignored));
    assert!(matches!(event(r#"{"params":{}}"#), Routed::Ignored));
}

#[test]
fn notification_with_string_id_is_still_a_notification() {
    match event(r#"{"id":"x","method":"item/agentMessage/delta","params":{"delta":"d"}}"#) {
        Routed::Event(CodexEvent::TextDelta { delta }) => assert_eq!(delta, "d"),
        _ => panic!("expected TextDelta"),
    }
    match notification_event("item/agentMessage/delta", j(r#"{"delta":"z"}"#)) {
        Routed::Event(CodexEvent::TextDelta { delta }) => assert_eq!(delta, "z"),
        _ => panic!("expected TextDelta"),
    }
}

#[test]
fn shutdown_answers_every_waiting_request() {
    let mut p = CodexProcess::new();
    let (tx1, mut rx1) = channel();
    let (tx2, mut rx2) = channel();
    p.begin_request(tx1, "a", j("{}"), true).unwrap();
    p.begin_request(tx2, "b", j("{}"), true).unwrap();
    p.thread_resumed("t");
    let replies = p.shutdown();
    assert_eq!(replies.len(), 2);
    let mut ids: Vec<u64> = replies.iter().map(|r| r.id).collect();
    ids.sort();
    assert_eq!(ids, vec![1, 2]);
    for r in replies {
        r.tx.send(r.reply).unwrap();
    }
    assert_eq!(rx1.try_recv().unwrap().err().unwrap(), "app-server 已停止");
    assert_eq!(rx2.try_recv().unwrap().err().unwrap(), "app-server 已停止");
    assert!(p.pending_requests.is_empty());
    assert!(p.current_thread_id.is_none());
    assert_eq!(p.next_request_id, 2);
}

#[test]
fn begin_session_resets() {
    let mut p = CodexProcess::new();
    let (tx, _rx) = channel();
    p.begin_request(tx, "a", j("{}"), true).unwrap();
    p.thread_resumed("t");
    p.begin_session(50000);
    assert_eq!(p.port, 50000);
    assert_eq!(p.next_request_id, 0);
    assert!(p.pending_requests.is_empty());
    assert!(p.current_thread_id.is_none());
}

#[test]
fn created_thread_becomes_current() {
    let mut p = CodexProcess::new();
    assert_eq!(p.thread_created(&j(r#"{"thread":{"id":"th-1"}}"#)).unwrap(), "th-1");
    assert_eq!(p.current_thread_id.as_deref(), Some("th-1"));
    assert_eq!(
        p.thread_created(&j(r#"{"thread":{}}"#)).err().unwrap(),
        "thread/start 回應中沒有 thread.id"
    );
    assert_eq!(p.current_thread_id.as_deref(), Some("th-1"));
}

#[test]
fn model_is_trimmed_and_blank_is_ignored() {
    let mut params = j(r#"{"cwd":"/w"}"#);
    apply_model(&mut params, Some("  gpt-5  "));
    assert_eq!(from_json(&params), v(r#"{"cwd":"/w","model":"gpt-5"}"#));
    apply_model(&mut params, Some("o3"));
    assert_eq!(from_json(&params), v(r#"{"cwd":"/w","model":"o3"}"#));
    let before = from_json(&params);
    apply_model(&mut params, Some("   "));
    apply_model(&mut params, None);
    assert_eq!(from_json(&params), before);
    let mut not_object = j("[1]");
    apply_model(&mut not_object, Some("o3"));
    assert_eq!(from_json(&not_object), v("[1]"));
}

#[test]
fn applying_model_twice_is_applying_it_once() {
    let mut once = j(r#"{"cwd":"/w","model":"old"}"#);
    apply_model(&mut once, Some(" m "));
    let mut twice = j(r#"{"cwd":"/w","model":"old"}"#);
    apply_model(&mut twice, Some(" m "));
    apply_model(&mut twice, Some(" m "));
    assert_eq!(from_json(&once), from_json(&twice));
}

#[test]
fn model_choice_for_session() {
    assert_eq!(normalize_model(Some(" gpt ".to_string())).as_deref(), Some("gpt"));
    assert_eq!(normalize_model(Some("   ".to_string())), None);
    assert_eq!(normalize_model(None), None);
    assert_eq!(listen_port(None), 45888);
    assert_eq!(listen_port(Some(1234)), 1234);
}

#[test]
fn thread_parameters() {
    assert_eq!(
        from_json(&thread_start_params("/repo", Some("gpt-5"))),
        v(r#"{"cwd":"/repo","approvalPolicy":"never","sandbox":"danger-full-access","model":"gpt-5"}"#)
    );
    assert_eq!(
        from_json(&thread_resume_params("t1", "/repo", None)),
        v(r#"{"threadId":"t1","cwd":"/repo","approvalPolicy":"never","sandbox":"danger-full-access"}"#)
    );
}

#[test]
fn turn_parameters_with_text_and_images() {
    let images = vec!["/tmp/a.png".to_string(), "/tmp/b.png".to_string()];
    let p = turn_start_params("t1", "hello", &images, "/repo", Some("m")).unwrap();
    assert_eq!(
        from_json(&p),
        v(r#"{"threadId":"t1","input":[{"type":"text","text":"hello"},{"type":"localImage","path":"/tmp/a.png"},{"type":"localImage","path":"/tmp/b.png"}],"cwd":"/repo","approvalPolicy":"never","sandboxPolicy":{"type":"dangerFullAccess"},"model":"m"}"#)
    );
    let only_images = turn_start_params("t1", "  \n", &images[..1].to_vec(), "/repo", None).unwrap();
    assert_eq!(
        from_json(&only_images)["input"],
        v(r#"[{"type":"localImage","path":"/tmp/a.png"}]"#)
    );
}

#[test]
fn empty_prompt_is_refused() {
    let r = turn_start_params("t1", "   ", &Vec::new(), "/repo", None);
    assert_eq!(r.err().unwrap(), "turn/start 至少要有文字或圖片輸入");
}

#[test]
fn turn_id_from_answer() {
    assert_eq!(turn_id_of(&j(r#"{"turn":{"id":"u1"}}"#)), "u1");
    assert_eq!(turn_id_of(&j("{}")), "");
}

#[test]
fn handshake_messages() {
    assert_eq!(
        from_json(&initialize_params()),
        v(r#"{"clientInfo":{"name":"xiaokui_alive","version":"0.2.0"}}"#)
    );
    let n = notification_message("initialized", j("{}"), true).unwrap();
    assert_eq!(v(&n), v(r#"{"method":"initialized","params":{}}"#));
    assert_eq!(
        notification_message("initialized", j("{}"), false).err().unwrap(),
        "WebSocket 尚未連線"
    );
}

#[test]
fn addresses_and_arguments() {
    assert_eq!(ws_url(45888), "ws://127.0.0.1:45888");
    assert_eq!(ws_url(0), "ws://127.0.0.1:0");
    assert_eq!(
        app_server_args(8080),
        vec!["app-server".to_string(), "--listen".to_string(), "ws://0.0.0.0:8080".to_string()]
    );
}

#[test]
fn connection_attempts_back_off_then_give_up() {
    let mut delays = Vec::new();
    let mut failed = 0;
    loop {
        match next_connect_step(failed) {
            ConnectStep::Attempt { attempt, delay_ms } => {
                assert_eq!(attempt, failed + 1);
                delays.push(delay_ms);
                failed += 1;
            }
            ConnectStep::GiveUp { message } => {
                assert_eq!(message, "無法連線到 codex app-server WebSocket（10 次重試失敗）");
                break;
            }
        }
    }
    assert_eq!(failed, CONNECT_ATTEMPTS);
    assert_eq!(delays, vec![500, 1000, 1500, 2000, 2500, 3000, 3500, 4000, 4500, 5000]);
}

#[test]
fn socket_frames() {
    assert!(matches!(frame_action(&SocketFrame::Text("{}".to_string())), FrameAction::Handle));
    assert!(matches!(frame_action(&SocketFrame::Text(" \n\t".to_string())), FrameAction::Skip));
    assert!(matches!(frame_action(&SocketFrame::Close), FrameAction::Exit));
    assert!(matches!(frame_action(&SocketFrame::Failed), FrameAction::Exit));
    assert!(matches!(frame_action(&SocketFrame::Other), FrameAction::Skip));
}

#[test]
fn text_frames_are_parsed_then_routed() {
    let mut p = CodexProcess::new();
    let (tx, mut rx) = channel();
    p.begin_request(tx, "thread/start", j("{}"), true).unwrap();
    assert!(matches!(p.handle_text("not json"), Routed::Ignored));
    assert!(matches!(p.handle_text(""), Routed::Ignored));
    assert_eq!(p.pending_requests.len(), 1);
    match p.handle_text(r#"{"id":1,"result":{"thread":{"id":"t1"}}}"#) {
        Routed::Reply { id, tx, reply } => {
            assert_eq!(id, 1);
            tx.send(reply).unwrap();
        }
        _ => panic!("expected Reply"),
    }
    assert_eq!(from_json(&rx.try_recv().unwrap().unwrap()), v(r#"{"thread":{"id":"t1"}}"#));
    assert!(p.pending_requests.is_empty());
    match p.handle_text(r#"{"method":"item/agentMessage/delta","params":{"delta":"hé"}}"#) {
        Routed::Event(CodexEvent::TextDelta { delta }) => assert_eq!(delta, "hé"),
        _ => panic!("expected TextDelta"),
    }
    match p.handle_text(r#"{"method":"error","params":{"code":-1,"x":1.5}}"#) {
        Routed::Event(CodexEvent::Error { message }) => assert_eq!(v(&message), v(r#"{"code":-1,"x":1.5}"#)),
        _ => panic!("expected Error"),
    }
}
