use xiaokui_alive::bot::{
    already_running, resolve_location,
    config_copy_plan, config_dir_of, dir_has_packaged_bot, dir_has_source_bot,
    discord_bot_candidates, first_location, inspect_discord_bot_runtime, join_path, launch_command, locate_bot,
    no_runtime_message, packaged_bot_name, parse_pid, runtime_for, runtime_launch_target_string,
    runtime_status, should_copy, status_of_location, status_of_running_child,
    status_without_child, stop_without_child, stopped_status, BotKind, BotLocation,
    DiscordBotLaunchTarget, DiscordBotRuntime, DiscordBotStatus,
};

fn runtime() -> DiscordBotRuntime {
    DiscordBotRuntime {
        launch_target: DiscordBotLaunchTarget::PythonScript("/assets/bot_xiaokui.py".to_string()),
        asset_dir: "/assets".to_string(),
        config_dir: "/data/discord-bot".to_string(),
        source_label: "repo source dir".to_string(),
    }
}

fn idle() -> DiscordBotStatus {
    DiscordBotStatus {
        running: false,
        owned_by_gui: false,
        pid: None,
        config_dir: Some("/data/discord-bot".to_string()),
        env_path: Some("/data/discord-bot/.env.xiaokui".to_string()),
        asset_dir: None,
        source_label: None,
        launch_target: None,
    }
}

#[test]
fn paths_are_joined_with_the_platform_separator() {
    assert_eq!(join_path("/a", "b", false), "/a/b");
    assert_eq!(join_path("/a/", "b", false), "/a/b");
    assert_eq!(join_path("", "b", false), "b");
    assert_eq!(join_path("C:\\x", "b", true), "C:\\x\\b");
    assert_eq!(join_path("C:\\x\\", "b", true), "C:\\x\\b");
    assert_eq!(join_path("C:/x/", "b", true), "C:/x/b");
    assert_eq!(join_path("/a\\", "b", false), "/a\\/b");
    assert_eq!(join_path("C:", "b", true), "C:b");
    assert_eq!(join_path("\\\\?\\C:", "b", true), "\\\\?\\C:b");
    assert_eq!(join_path("C:", "b", false), "C:/b");
    assert_eq!(join_path("1:", "b", true), "1:\\b");
}

#[test]
fn bot_names_and_config_dir() {
    assert_eq!(packaged_bot_name(true), "xiaokui_bot.exe");
    assert_eq!(packaged_bot_name(false), "xiaokui_bot");
    assert_eq!(config_dir_of("/home/u/.local/share/app", false), "/home/u/.local/share/app/discord-bot");
}

#[test]
fn candidates_in_search_order() {
    let c = discord_bot_candidates(Some("/override".to_string()), Some("/res".to_string()), "/repo", false);
    let got: Vec<(String, &str)> = c.into_iter().collect();
    assert_eq!(
        got,
        vec![
            ("/override".to_string(), "env override"),
            ("/res/resources/discord-bot".to_string(), "release resource dir/resources"),
            ("/res/discord-bot".to_string(), "legacy release bot dir"),
            ("/repo/src-tauri/resources/discord-bot".to_string(), "repo resources dir"),
            ("/repo/runtime/discord-bot-src".to_string(), "repo source dir"),
        ]
    );
    let c = discord_bot_candidates(None, None, "/repo", false);
    assert_eq!(c.len(), 2);
}

#[test]
fn status_of_a_runtime() {
    let s = runtime_status(&runtime(), true, true, Some(42), false);
    assert!(s.running && s.owned_by_gui);
    assert_eq!(s.pid, Some(42));
    assert_eq!(s.config_dir.as_deref(), Some("/data/discord-bot"));
    assert_eq!(s.env_path.as_deref(), Some("/data/discord-bot/.env.xiaokui"));
    assert_eq!(s.asset_dir.as_deref(), Some("/assets"));
    assert_eq!(s.source_label.as_deref(), Some("repo source dir"));
    assert_eq!(s.launch_target.as_deref(), Some("/assets/bot_xiaokui.py"));
    assert_eq!(runtime_launch_target_string(&runtime()), "/assets/bot_xiaokui.py");
}

#[test]
fn status_of_found_and_missing_bot() {
    let found = BotLocation { dir: "/b".to_string(), label: "env override".to_string(), kind: BotKind::Packaged };
    let s = status_of_location(Some("/cfg".to_string()), Some(found), true);
    assert!(!s.running);
    assert_eq!(s.env_path.as_deref(), Some("/cfg\\.env.xiaokui"));
    assert_eq!(s.launch_target.as_deref(), Some("/b\\xiaokui_bot.exe"));
    let s = status_of_location(None, None, false);
    assert!(s.config_dir.is_none() && s.env_path.is_none() && s.asset_dir.is_none());
    assert!(s.launch_target.is_none() && s.source_label.is_none());
}

#[test]
fn missing_directories_hold_no_bot() {
    let dir = "/nonexistent/xiaokui/assets";
    assert!(!dir_has_packaged_bot(dir, false).found());
    assert!(!dir_has_source_bot(dir, false).found());
    let candidates = vec![(dir.to_string(), "repo source dir")];
    assert!(locate_bot(&candidates, false).0.is_none());
    assert_eq!(
        resolve_location(&candidates, false).0.err().unwrap(),
        "找不到可用的 Discord Bot runtime（既沒有 xiaokui_bot.exe，也沒有 bot_xiaokui.py）"
    );
    let s = inspect_discord_bot_runtime(&candidates, Some("/cfg".to_string()), false).0;
    assert!(s.asset_dir.is_none());
    assert_eq!(s.env_path.as_deref(), Some("/cfg/.env.xiaokui"));
    assert_eq!(
        no_runtime_message(),
        "找不到可用的 Discord Bot runtime（既沒有 xiaokui_bot.exe，也沒有 bot_xiaokui.py）"
    );
}

#[test]
fn runtimes_of_found_bots() {
    let rt = runtime_for(
        BotLocation { dir: "/b".to_string(), label: "l".to_string(), kind: BotKind::Packaged },
        "/cfg".to_string(),
        false,
    );
    assert!(matches!(rt.launch_target, DiscordBotLaunchTarget::Executable(ref p) if p == "/b/xiaokui_bot"));
    let rt = runtime_for(
        BotLocation { dir: "/b".to_string(), label: "l".to_string(), kind: BotKind::Source },
        "/cfg".to_string(),
        false,
    );
    assert!(matches!(rt.launch_target, DiscordBotLaunchTarget::PythonScript(ref p) if p == "/b/bot_xiaokui.py"));
    assert_eq!(rt.config_dir, "/cfg");
    assert_eq!(rt.asset_dir, "/b");
}

#[test]
fn configuration_files_to_copy() {
    let plan = config_copy_plan("/a", "/c", false);
    assert_eq!(
        plan,
        vec![
            ("/a/config_xiaokui.json".to_string(), "/c/config_xiaokui.json".to_string()),
            ("/a/.env.xiaokui.example".to_string(), "/c/.env.xiaokui".to_string()),
            ("/a/.env.xiaokui.example".to_string(), "/c/.env.xiaokui.example".to_string()),
        ]
    );
    assert!(should_copy(true, false));
    assert!(!should_copy(true, true));
    assert!(!should_copy(false, false));
}

#[test]
fn status_decisions() {
    let s = status_of_running_child(idle(), Some(&runtime()), Some(7), false);
    assert!(s.running && s.owned_by_gui);
    assert_eq!(s.asset_dir.as_deref(), Some("/assets"));
    let s = status_of_running_child(idle(), None, None, false);
    assert!(s.running && s.owned_by_gui && s.pid.is_none());
    assert!(s.asset_dir.is_none());
    let s = status_without_child(idle(), Some(99));
    assert!(s.running && !s.owned_by_gui);
    assert_eq!(s.pid, Some(99));
    let s = status_without_child(idle(), None);
    assert!(!s.running);
    let s = stopped_status(status_of_running_child(idle(), None, Some(3), false));
    assert!(!s.running && !s.owned_by_gui && s.pid.is_none());
}

#[test]
fn an_external_bot_is_not_stopped() {
    assert_eq!(
        stop_without_child(idle(), Some(5)).err().unwrap(),
        "Discord Bot 目前是外部啟動，GUI 不會直接幫你關掉它。"
    );
    let s = stop_without_child(idle(), None).unwrap();
    assert!(!s.running);
}

#[test]
fn launch_commands() {
    let c = launch_command(&runtime(), "/work");
    assert_eq!(c.program, "python");
    assert_eq!(c.args, vec!["/assets/bot_xiaokui.py".to_string()]);
    assert_eq!(c.cwd, "/data/discord-bot");
    assert_eq!(
        c.env,
        vec![
            ("XIAOKUI_BOT_DIR".to_string(), "/data/discord-bot".to_string()),
            ("CODEX_CWD".to_string(), "/work".to_string()),
        ]
    );
    let mut rt = runtime();
    rt.launch_target = DiscordBotLaunchTarget::Executable("/assets/xiaokui_bot.exe".to_string());
    let c = launch_command(&rt, "/work");
    assert_eq!(c.program, "/assets/xiaokui_bot.exe");
    assert!(c.args.is_empty());
}

#[test]
fn process_ids_are_read_like_u32_from_str() {
    assert_eq!(parse_pid("1234\r\n"), Some(1234));
    assert_eq!(parse_pid("  +77 "), Some(77));
    assert_eq!(parse_pid("4294967295"), Some(4294967295));
    assert_eq!(parse_pid("4294967296"), None);
    assert_eq!(parse_pid(""), None);
    assert_eq!(parse_pid("+"), None);
    assert_eq!(parse_pid("-1"), None);
    assert_eq!(parse_pid("12a"), None);
    assert_eq!(parse_pid("0"), Some(0));
    for s in ["1", "99999", "  5 ", "+0", "007", "x", "1 2", "18446744073709551616"] {
        assert_eq!(parse_pid(s), s.trim().parse::<u32>().ok(), "{}", s);
    }
}

#[test]
fn the_first_candidate_holding_a_bot_is_taken() {
    let cands: Vec<(String, &'static str)> = vec![
        ("/env".to_string(), "env override"),
        ("/res".to_string(), "legacy release bot dir"),
        ("/repo".to_string(), "repo source dir"),
    ];
    let found = first_location(&cands, &vec![(false, false), (false, true), (true, false)]).unwrap();
    assert_eq!(found.dir, "/res");
    assert_eq!(found.label, "legacy release bot dir");
    assert!(matches!(found.kind, BotKind::Source));

    let found = first_location(&cands, &vec![(false, false), (true, true)]).unwrap();
    assert_eq!(found.dir, "/res");
    assert!(matches!(found.kind, BotKind::Packaged));

    assert!(first_location(&cands, &vec![(false, false), (false, false), (false, false)]).is_none());
    assert!(first_location(&cands, &vec![(false, false)]).is_none());
    assert!(first_location(&Vec::new(), &vec![(true, true)]).is_none());
}

#[test]
fn a_running_bot_is_not_started_again() {
    let mut running = idle();
    running.running = true;
    running.pid = Some(42);
    let s = already_running(running).unwrap();
    assert!(s.running);
    assert_eq!(s.pid, Some(42));
    assert_eq!(s.config_dir.as_deref(), Some("/data/discord-bot"));
    assert!(already_running(idle()).is_none());
}
