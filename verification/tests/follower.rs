use xiaokui_alive::watcher::{recent_files, unread_lines, WatchState};

#[test]
fn the_three_most_recent_logs_are_followed() {
    let files = vec![
        ("a".to_string(), 10i128),
        ("b".to_string(), 30),
        ("c".to_string(), 20),
        ("d".to_string(), 30),
        ("e".to_string(), 5),
    ];
    assert_eq!(recent_files(&files), vec!["b".to_string(), "d".to_string(), "c".to_string()]);
    assert_eq!(recent_files(&vec![("x".to_string(), -1)]), vec!["x".to_string()]);
    assert!(recent_files(&Vec::new()).is_empty());
}

#[test]
fn old_logs_are_read_from_their_end_new_ones_from_the_start() {
    let mut w = WatchState::new(vec!["old".to_string()]);
    assert_eq!(w.begin_read("old", 100), None);
    assert_eq!(w.begin_read("new", 40), Some(0));
    w.finish_read("new", 40);
    assert_eq!(w.begin_read("new", 40), None);
    assert_eq!(w.begin_read("new", 55), Some(40));
    w.finish_read("new", 55);
    assert_eq!(w.begin_read("old", 130), Some(100));
    assert_eq!(w.begin_read("empty", 0), None);
    assert!(!w.in_discord_turn);
}

#[test]
fn new_lines_after_an_offset() {
    let text = "first\n\nsecond\r\n  \nthird";
    assert_eq!(
        unread_lines(text, 0).unwrap(),
        vec!["first".to_string(), "second".to_string(), "third".to_string()]
    );
    assert_eq!(unread_lines(text, 7).unwrap(), vec!["second".to_string(), "third".to_string()]);
    assert_eq!(unread_lines(text, text.len() as u64).unwrap(), Vec::<String>::new());
    assert!(unread_lines(text, text.len() as u64 + 1).is_none());
    assert!(unread_lines("é", 1).is_none());
    assert_eq!(unread_lines("é\nx", 2).unwrap(), vec!["x".to_string()]);
}

#[test]
fn each_part_of_a_log_is_read_once() {
    let mut w = WatchState::new(Vec::new());
    let mut ranges = Vec::new();
    for size in [10u64, 10, 25, 25, 40] {
        if let Some(start) = w.begin_read("log", size) {
            ranges.push((start, size));
            w.finish_read("log", size);
        }
    }
    assert_eq!(ranges, vec![(0, 10), (10, 25), (25, 40)]);
}

#[test]
fn new_lines_are_applied_and_recorded() {
    let mut w = WatchState::new(Vec::new());
    let text = format!(
        "{}\n\n{}\n",
        r#"{"type":"response_item","payload":{"type":"message","role":"user","content":[{"type":"input_text","text":"📩 Discord hi"}]}}"#,
        r#"{"type":"event_msg","payload":{"type":"task_complete"}}"#
    );
    let text = text.as_str();
    let size = text.len() as u64;
    let start = w.begin_read("log", size).unwrap();
    assert_eq!(start, 0);
    let shown = w.read_new("log", size, start, text);
    assert_eq!(shown.len(), 2);
    assert!(!w.in_discord_turn);
    assert_eq!(w.begin_read("log", size), None);
    let more = format!("{}{}", text, r#"{"type":"event_msg","payload":{"type":"task_complete"}}"#);
    let start = w.begin_read("log", more.len() as u64).unwrap();
    assert_eq!(start, size);
    assert!(w.read_new("log", more.len() as u64, start, &more).is_empty());
    assert!(w.read_new("other", 3, 1, "é").is_empty());
    assert_eq!(w.begin_read("other", 3), None);
}
