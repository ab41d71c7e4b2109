use xiaokui_alive::home::{codex_paths, codex_paths_in};

#[test]
fn codex_files_below_a_home_directory() {
    let p = codex_paths_in("/home/kui", false);
    assert_eq!(p.sessions_dir, "/home/kui/.codex/sessions");
    assert_eq!(p.session_index, "/home/kui/.codex/session_index.jsonl");
    assert_eq!(p.sandbox_bins, vec!["/home/kui/.codex/.sandbox-bin/codex".to_string()]);

    let w = codex_paths_in("C:\\Users\\kui\\", true);
    assert_eq!(w.sessions_dir, "C:\\Users\\kui\\.codex\\sessions");
    assert_eq!(w.session_index, "C:\\Users\\kui\\.codex\\session_index.jsonl");
    assert_eq!(
        w.sandbox_bins,
        vec![
            "C:\\Users\\kui\\.codex\\.sandbox-bin\\codex.exe".to_string(),
            "C:\\Users\\kui\\.codex\\.sandbox-bin\\codex.cmd".to_string(),
            "C:\\Users\\kui\\.codex\\.sandbox-bin\\codex".to_string(),
        ]
    );
}

#[test]
fn codex_files_below_the_users_home() {
    if let Some(p) = codex_paths(false) {
        assert!(p.sessions_dir.ends_with("/.codex/sessions"));
        assert!(p.session_index.ends_with("/.codex/session_index.jsonl"));
        let home = &p.sessions_dir[..p.sessions_dir.len() - "/.codex/sessions".len()];
        if !home.is_empty() {
            assert_eq!(codex_paths_in(home, false).session_index, p.session_index);
        }
    }
}
