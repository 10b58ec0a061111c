use gtab::config::{is_shortcut_disabled, normalize_ghostty_shortcut, Config};
use gtab::env::{
    check_status, choose_editor, fallback_ghostty_config_path, format_settings, format_workspace_list,
    ghostty_config_candidates, parent_process_id,
    parse_set_request, resolve_base_dir, resolve_ghostty_config_path, validate_workspace_name,
    workspace_from_file, workspace_name_from_file, AppEnv, SetRequest, Workspace,
};
use gtab::error::GtabError;
use gtab::ghostty::sync_ghostty_include_reference;
use gtab::listing::{chars_le_exec, sort_workspaces, WorkspaceFile};
use gtab::script::{
    apple_escape, build_workspace_script, capture_ghostty_tabs, fallback_tab_name, parse_apple_string,
    parse_apple_string_prefix, parse_indexed_assignment, parse_title_assignment, parse_workspace_tabs,
    script_names_tab_zero, split_digits, TabRow,
};
use gtab::splits::{build_workspace_script_with_panes, capture_ghostty_panes, split_tree, PaneRow, SplitTree};
use gtab::tui::{Action, App, Dialog, Key, KeyCode, StatusKind};

fn managed_header() -> String {
    format!("# gtab managed {}{}", "inc", "lude")
}

fn env_at(base: &str) -> AppEnv {
    AppEnv::load(base, None).unwrap()
}

fn workspace(name: &str) -> Workspace {
    Workspace {
        name: name.to_string(),
        path: format!("/base/{name}.applescript"),
        tabs: Vec::new(),
    }
}

fn key(c: char) -> Key {
    Key { code: KeyCode::Char(c), ctrl: false }
}

fn plain(code: KeyCode) -> Key {
    Key { code, ctrl: false }
}

fn ready_app(names: &[&str]) -> App {
    let mut app = App::new(names.iter().map(|n| workspace(n)).collect(), 0);
    app.dismiss_splash();
    app
}

// ---------------------------------------------------------------------------
// AppleScript strings and workspace scripts
// ---------------------------------------------------------------------------

#[test]
fn apple_string_round_trips_through_escape() {
    for value in ["plain", "a \"quoted\" word", "back\\slash", "", "\\\""] {
        let literal = format!("\"{}\"", apple_escape(value));
        assert_eq!(parse_apple_string(&literal), Some(value.to_string()));
    }
}

#[test]
fn apple_string_prefix_returns_rest_after_closing_quote() {
    let (value, rest) = parse_apple_string_prefix("\"a\\\"b\" on term3").unwrap();
    assert_eq!(value, "a\"b");
    assert_eq!(rest, " on term3");
    assert_eq!(parse_apple_string_prefix("\"unterminated"), None);
    assert_eq!(parse_apple_string_prefix("no quote"), None);
    assert_eq!(parse_apple_string("   \"spaced\""), Some("spaced".to_string()));
}

#[test]
fn split_digits_reads_leading_number() {
    assert_eq!(split_digits("12 to x"), Some((12, " to x".to_string())));
    assert_eq!(split_digits("abc"), None);
    assert_eq!(split_digits("99999999999999999999999 x"), None);
}

#[test]
fn indexed_and_title_assignments_are_recognised() {
    assert_eq!(
        parse_indexed_assignment(
            "set initial working directory of cfg3 to \"/tmp/x\"",
            "set initial working directory of cfg",
            " to "
        ),
        Some((3, "/tmp/x".to_string()))
    );
    assert_eq!(
        parse_title_assignment("perform action \"set_tab_title:api\" on term2"),
        Some((2, "api".to_string()))
    );
    assert_eq!(parse_title_assignment("set win to new window"), None);
}

#[test]
fn workspace_script_round_trips_tabs() {
    let rows = vec![
        TabRow { working_dir: "/tmp/demo".to_string(), title: "main \"one\"".to_string() },
        TabRow { working_dir: "/Users/me".to_string(), title: String::new() },
        TabRow { working_dir: "/srv/api".to_string(), title: String::new() },
    ];
    let script = build_workspace_script(&rows);
    assert!(!script_names_tab_zero(&script));
    let tabs = parse_workspace_tabs(&script, "/Users/me");
    assert_eq!(tabs.len(), 3);
    assert_eq!(tabs[0].title, "main \"one\"");
    assert_eq!(tabs[0].working_dir.as_deref(), Some("/tmp/demo"));
    assert_eq!(tabs[1].title, "~");
    assert_eq!(tabs[2].title, "api");
    assert_eq!(tabs[2].working_dir.as_deref(), Some("/srv/api"));
}

#[test]
fn workspace_script_has_exact_first_tab_text() {
    let script = build_workspace_script(&vec![TabRow {
        working_dir: "/tmp/a".to_string(),
        title: "t".to_string(),
    }]);
    assert_eq!(
        script,
        "tell application \"Ghostty\"\n    activate\n\n    set cfg1 to new surface configuration\n    set initial working directory of cfg1 to \"/tmp/a\"\n    set win to new window with configuration cfg1\n    set term1 to focused terminal of selected tab of win\n    perform action \"set_tab_title:t\" on term1\nend tell\n"
    );
}

#[test]
fn untitled_tab_without_directory_is_numbered() {
    let tabs = parse_workspace_tabs("perform action \"set_tab_title:\" on term2", "/home");
    assert_eq!(tabs.len(), 2);
    assert_eq!(tabs[0].title, "Tab 1");
    assert_eq!(tabs[0].working_dir, None);
    assert_eq!(tabs[1].title, "Tab 2");
}

#[test]
fn script_naming_tab_zero_is_detected() {
    assert!(script_names_tab_zero("perform action \"set_tab_title:x\" on term0"));
    assert!(script_names_tab_zero("set initial working directory of cfg0 to \"/\""));
    assert!(!script_names_tab_zero("set cfg0 to new surface configuration"));
}

#[test]
fn fallback_names_use_home_and_last_component() {
    assert_eq!(fallback_tab_name(4, None, "/home/u"), "Tab 4");
    assert_eq!(fallback_tab_name(1, Some("  "), "/home/u"), "Tab 1");
    assert_eq!(fallback_tab_name(1, Some("/home/u"), "/home/u"), "~");
    assert_eq!(fallback_tab_name(1, Some("/srv/project/"), "/home/u"), "project");
    assert_eq!(fallback_tab_name(1, Some("/"), "/home/u"), "/");
}

#[test]
fn captured_rows_default_directory_to_home() {
    let rows = capture_ghostty_tabs("/tmp/a\tmain\n\tsecond \n /srv \t", "/home/u");
    assert_eq!(rows.len(), 3);
    assert_eq!(rows[0].working_dir, "/tmp/a");
    assert_eq!(rows[0].title, "main");
    assert_eq!(rows[1].working_dir, "/home/u");
    assert_eq!(rows[1].title, "second");
    assert_eq!(rows[2].working_dir, "/srv");
    assert_eq!(rows[2].title, "");
}

// ---------------------------------------------------------------------------
// Settings
// ---------------------------------------------------------------------------

#[test]
fn config_round_trips_through_serialize() {
    for (close_tab, shortcut) in [(true, "cmd+shift+g"), (false, "off"), (false, "cmd+g")] {
        let config = Config { close_tab, ghostty_shortcut: shortcut.to_string() };
        let text = config.serialize();
        let back = Config::load(Some(&text)).unwrap();
        assert_eq!(back.close_tab, close_tab);
        assert_eq!(back.ghostty_shortcut, shortcut);
    }
    assert_eq!(
        Config { close_tab: true, ghostty_shortcut: "cmd+g".to_string() }.serialize(),
        "close_tab=true\nghostty_shortcut=cmd+g\n"
    );
}

#[test]
fn crlf_line_endings_are_read_as_lines() {
    let config = Config::load(Some("close_tab=on\r\nghostty_shortcut=CMD+J\r\n")).unwrap();
    assert!(config.close_tab);
    assert_eq!(config.ghostty_shortcut, "cmd+j");
}

#[test]
fn capital_letters_always_go_to_the_filter() {
    let mut app = ready_app(&["a", "Gamma"]);
    assert!(matches!(app.handle_key(key('G'), 0), Action::Nothing));
    assert_eq!(app.filter, "G");
    assert_eq!(app.visible_indices(), vec![1]);
    assert_eq!(app.selected, 0);
}

#[test]
fn config_without_file_is_default_and_on_counts_as_true() {
    let config = Config::load(None).unwrap();
    assert!(!config.close_tab);
    assert_eq!(config.ghostty_shortcut, "cmd+g");
    let config = Config::load(Some(" close_tab = on \nno separator\nghostty_shortcut=  \n")).unwrap();
    assert!(config.close_tab);
    assert_eq!(config.ghostty_shortcut, "cmd+g");
}

#[test]
fn config_with_bad_shortcut_is_refused() {
    assert!(matches!(
        Config::load(Some("ghostty_shortcut=a=b\n")),
        Err(GtabError::InvalidGhosttyShortcut)
    ));
}

#[test]
fn shortcut_normalization_lowercases_and_refuses() {
    assert_eq!(normalize_ghostty_shortcut("  CMD+Shift+G ").unwrap(), "cmd+shift+g");
    assert_eq!(normalize_ghostty_shortcut("None").unwrap(), "off");
    assert!(matches!(normalize_ghostty_shortcut("   "), Err(GtabError::EmptyGhosttyShortcut)));
    assert!(matches!(normalize_ghostty_shortcut("a=b"), Err(GtabError::InvalidGhosttyShortcut)));
    assert!(is_shortcut_disabled(" disabled "));
    assert!(!is_shortcut_disabled("cmd+g"));
}

#[test]
fn set_request_arguments_are_read() {
    assert!(matches!(parse_set_request(None, None), Ok(SetRequest::Show)));
    assert!(matches!(parse_set_request(Some("close_tab"), Some("true")), Ok(SetRequest::CloseTab(true))));
    assert!(matches!(parse_set_request(Some("close_tab"), Some("off")), Ok(SetRequest::CloseTab(false))));
    assert!(matches!(
        parse_set_request(Some("close_tab"), Some("maybe")),
        Err(GtabError::InvalidCloseTabValue)
    ));
    match parse_set_request(Some("ghostty_shortcut"), Some("cmd+k")) {
        Ok(SetRequest::GhosttyShortcut(s)) => assert_eq!(s, "cmd+k"),
        other => panic!("unexpected {:?}", other),
    }
    assert!(matches!(parse_set_request(Some("close_tab"), None), Err(GtabError::UnknownSetting)));
    assert!(matches!(parse_set_request(Some("theme"), Some("x")), Err(GtabError::UnknownSetting)));
    assert!(matches!(parse_set_request(None, Some("x")), Err(GtabError::SetUsage)));
    assert_eq!(GtabError::SetUsage.message(), "usage: gtab set <key> <value>");
}

#[test]
fn settings_changes_return_new_file_text() {
    let mut env = env_at("/base");
    assert_eq!(env.config_file, "/base/config");
    assert_eq!(env.set_close_tab(true), "close_tab=true\nghostty_shortcut=cmd+g\n");
    assert_eq!(env.close_tab_display(), "on");
    assert_eq!(env.set_ghostty_shortcut(" CMD+K ").unwrap(), "close_tab=true\nghostty_shortcut=cmd+k\n");
    assert_eq!(env.ghostty_shortcut_display(), "cmd+k");
    assert!(matches!(env.set_ghostty_shortcut("x=y"), Err(GtabError::InvalidGhosttyShortcut)));
    assert_eq!(env.ghostty_shortcut_display(), "cmd+k");
    assert_eq!(env.init_shortcuts(), "close_tab=true\nghostty_shortcut=cmd+g\n");
    env.reload_config(Some("close_tab=false\n")).unwrap();
    assert!(!env.config.close_tab);
    assert!(env.reload_config(Some("ghostty_shortcut=a=b\n")).is_err());
    assert!(!env.config.close_tab);
}

#[test]
fn settings_listing_shows_paths_and_note() {
    let env = env_at("/base");
    let text = format_settings(&env, "/cfg/ghostty/config");
    assert!(text.starts_with("Settings:\n  close_tab = off\n  ghostty_shortcut = cmd+g\n  ghostty_config = /cfg/ghostty/config\n"));
    assert!(text.contains("/base/ghostty-shortcut.conf"));
    assert!(text.ends_with("It types `gtab` into the focused Ghostty shell and only works when Ghostty is focused."));
}

// ---------------------------------------------------------------------------
// Paths and workspace files
// ---------------------------------------------------------------------------

#[test]
fn base_dir_and_ghostty_paths_resolve() {
    assert_eq!(resolve_base_dir(Some("/custom"), Some("/home/u")).unwrap(), "/custom");
    assert_eq!(resolve_base_dir(None, Some("/home/u")).unwrap(), "/home/u/.config/gtab");
    assert!(matches!(resolve_base_dir(None, None), Err(GtabError::HomeDirUnavailable)));
    let (a, b) = ghostty_config_candidates(Some("/home/u"), None).unwrap();
    assert_eq!(a, "/home/u/.config/ghostty/config.ghostty");
    assert_eq!(b, "/home/u/.config/ghostty/config");
    let (a, _) = ghostty_config_candidates(Some("/home/u"), Some("/xdg/")).unwrap();
    assert_eq!(a, "/xdg/ghostty/config.ghostty");
    assert!(ghostty_config_candidates(None, Some("/xdg")).is_err());
    let cands = ("/g/config.ghostty".to_string(), "/g/config".to_string());
    assert_eq!(resolve_ghostty_config_path(cands.clone(), false, true), "/g/config");
    assert_eq!(resolve_ghostty_config_path(cands.clone(), true, true), "/g/config.ghostty");
    assert_eq!(resolve_ghostty_config_path(cands, false, false), "/g/config.ghostty");
    assert_eq!(fallback_ghostty_config_path(None), "./.config/ghostty/config.ghostty");
    assert_eq!(
        env_at("/base").legacy_hotkey_plist_path(Some("/home/u")).unwrap(),
        "/home/u/Library/LaunchAgents/com.franvy.gtab.hotkey.plist"
    );
}

#[test]
fn process_outputs_are_read() {
    let env = env_at("/base");
    assert_eq!(env.launchctl_domain(" 501\n").unwrap(), "gui/501");
    assert!(matches!(env.launchctl_domain("  "), Err(GtabError::UserIdUnavailable)));
    assert!(matches!(env.legacy_hotkey_plist_path(None), Err(GtabError::HomeDirUnavailable)));
    assert_eq!(parent_process_id(" 4242\n").unwrap(), "4242");
    assert!(matches!(parent_process_id(""), Err(GtabError::ParentProcessUnavailable)));
    assert_eq!(choose_editor(Some("nano")), "nano");
    assert_eq!(choose_editor(Some("  ")), "vim");
    assert_eq!(choose_editor(None), "vim");
    assert_eq!(check_status(0, "ctx"), Ok(()));
    assert_eq!(check_status(-9878, "register"), Err("register: OSStatus -9878".to_string()));
    assert_eq!(check_status(12, "x"), Err("x: OSStatus 12".to_string()));
}

#[test]
fn workspace_names_are_validated() {
    assert!(validate_workspace_name("demo").is_ok());
    assert!(matches!(validate_workspace_name("  "), Err(GtabError::MissingWorkspaceName)));
    match validate_workspace_name("a/b") {
        Err(GtabError::InvalidWorkspaceName(n)) => assert_eq!(n, "a/b"),
        other => panic!("unexpected {:?}", other),
    }
    assert!(validate_workspace_name(" .. ").is_err());
    assert_eq!(
        GtabError::InvalidWorkspaceName("a/b".to_string()).message(),
        "invalid workspace name 'a/b'"
    );
}

#[test]
fn workspace_requests_resolve_paths() {
    let mut env = env_at("/base/");
    assert_eq!(env.workspace_path("demo").unwrap(), "/base/demo.applescript");
    assert!(matches!(env.workspace_path(""), Err(GtabError::MissingWorkspaceName)));
    assert_eq!(env.remove_workspace("demo", true).unwrap(), "/base/demo.applescript");
    match env.remove_workspace("gone", false) {
        Err(e) => assert_eq!(e.message(), "workspace 'gone' not found"),
        Ok(p) => panic!("unexpected {p}"),
    }
    env.set_close_tab(true);
    let (path, hang_up) = env.launch_workspace("demo", true);
    assert_eq!(path.unwrap(), "/base/demo.applescript");
    assert!(hang_up);
    let (editor, path) = env.open_in_editor("demo", Some("nano")).unwrap();
    assert_eq!(editor, "nano");
    assert_eq!(path, "/base/demo.applescript");
    assert!(matches!(env.save_current_window("demo", &Vec::new(), &Vec::new()), Err(GtabError::NoGhosttyTabs)));
    let (path, script) = env
        .save_current_window("demo", &vec![TabRow { working_dir: "/tmp".to_string(), title: String::new() }], &Vec::new())
        .unwrap();
    assert_eq!(path, "/base/demo.applescript");
    assert!(script.contains("set initial working directory of cfg1 to \"/tmp\""));
}

#[test]
fn workspace_files_are_recognised_by_extension() {
    assert_eq!(workspace_name_from_file("demo.applescript"), Some("demo".to_string()));
    assert_eq!(workspace_name_from_file("a.b.applescript"), Some("a.b".to_string()));
    assert_eq!(workspace_name_from_file(".applescript"), None);
    assert_eq!(workspace_name_from_file("notes.txt"), None);
    let w = workspace_from_file("demo", "/base/demo.applescript", None, "/home");
    assert!(w.tabs.is_empty());
}

#[test]
fn workspace_list_is_sorted_by_lowercase_name() {
    let env = env_at("/base");
    let files = vec![
        WorkspaceFile { file_name: "zeta.applescript".to_string(), path: "/base/zeta.applescript".to_string(), content: None },
        WorkspaceFile { file_name: "Alpha.applescript".to_string(), path: "/base/Alpha.applescript".to_string(), content: None },
        WorkspaceFile { file_name: "notes.txt".to_string(), path: "/base/notes.txt".to_string(), content: None },
        WorkspaceFile {
            file_name: "beta.applescript".to_string(),
            path: "/base/beta.applescript".to_string(),
            content: Some("perform action \"set_tab_title:api\" on term1".to_string()),
        },
    ];
    let list = env.list_workspaces(files, "/home");
    let names: Vec<&str> = list.iter().map(|w| w.name.as_str()).collect();
    assert_eq!(names, vec!["Alpha", "beta", "zeta"]);
    assert_eq!(list[1].tabs.len(), 1);
    assert_eq!(list[1].tabs[0].title, "api");
    assert_eq!(format_workspace_list(&list), "Workspaces:\n  - Alpha\n  - beta\n  - zeta");
    assert_eq!(format_workspace_list(&Vec::new()), "No workspaces saved.");
}

#[test]
fn sorting_keeps_order_of_equal_names() {
    let sorted = sort_workspaces(vec![workspace("b"), workspace("X"), workspace("a"), workspace("x")]);
    let names: Vec<&str> = sorted.iter().map(|w| w.name.as_str()).collect();
    assert_eq!(names, vec!["a", "b", "X", "x"]);
    assert!(chars_le_exec(&vec!['a', 'b'], &vec!['a', 'b', 'c']));
    assert!(!chars_le_exec(&vec!['b'], &vec!['a', 'z']));
}

// ---------------------------------------------------------------------------
// Ghostty configuration
// ---------------------------------------------------------------------------

#[test]
fn disabling_without_reference_changes_nothing() {
    assert_eq!(sync_ghostty_include_reference(None, "/tmp/s.conf", false), None);
    assert_eq!(sync_ghostty_include_reference(Some("theme = dark\n"), "/tmp/s.conf", false), None);
}

#[test]
fn enabling_appends_reference_after_other_settings() {
    let written = sync_ghostty_include_reference(Some("theme = dark"), "/tmp/s.conf", true).unwrap();
    assert_eq!(written, format!("theme = dark\n\n{}\nconfig-file = \"/tmp/s.conf\"\n", managed_header()));
    let again = sync_ghostty_include_reference(Some(&written), "/tmp/s.conf", false).unwrap();
    assert_eq!(again, "theme = dark\n");
}

#[test]
fn shortcut_plan_writes_files_only_when_needed() {
    let env = env_at("/base");
    let (sync, plan) = env.sync_ghostty_shortcut("/cfg", None, false, None);
    assert_eq!(sync.include_path, "/base/ghostty-shortcut.conf");
    assert_eq!(sync.shortcut, "cmd+g");
    assert!(plan.enabled && plan.changed && !plan.remove_include);
    let content = plan.write_include.clone().unwrap();
    let config = plan.write_config.clone().unwrap();
    let plan = env.ensure_ghostty_shortcut("/cfg", Some(&content), true, Some(&config));
    assert!(!plan.changed);
    assert!(plan.write_include.is_none() && plan.write_config.is_none());

    let mut off = env_at("/base");
    off.set_ghostty_shortcut("off").unwrap();
    let sync = off.preview_ghostty_shortcut_sync("/cfg");
    let plan = off.sync_ghostty_shortcut_files(&sync, Some(&content), true, Some(&config));
    assert!(!plan.enabled && plan.remove_include && plan.changed);
    assert_eq!(plan.write_config.unwrap(), "");
}

// ---------------------------------------------------------------------------
// Launcher
// ---------------------------------------------------------------------------

#[test]
fn splash_swallows_first_key() {
    let mut app = App::new(vec![workspace("demo")], 1_000);
    assert!(app.is_splash_visible(1_500));
    assert!(matches!(app.handle_event(plain(KeyCode::Enter), 1_200), Action::Nothing));
    assert!(!app.is_splash_visible(1_300));
    assert!(matches!(app.handle_event(plain(KeyCode::Enter), 1_300), Action::Launch(ref n) if n == "demo"));
    let late = App::new(Vec::new(), 0);
    assert!(!late.is_splash_visible(850));
}

#[test]
fn filter_narrows_list_case_insensitively() {
    let mut app = ready_app(&["Backend", "frontend", "Docs"]);
    assert_eq!(app.visible_indices(), vec![0, 1, 2]);
    assert!(matches!(app.handle_key(key('B'), 10), Action::Nothing));
    assert_eq!(app.filter, "B");
    assert_eq!(app.visible_indices(), vec![0]);
    app.handle_key(key('a'), 10);
    assert_eq!(app.filter, "Ba");
    assert_eq!(app.visible_indices(), vec![0]);
    app.handle_key(plain(KeyCode::Backspace), 10);
    app.handle_key(plain(KeyCode::Backspace), 10);
    assert_eq!(app.filter, "");
    app.handle_key(key('E'), 10);
    assert_eq!(app.visible_indices(), vec![0, 1]);
    assert!(matches!(app.handle_key(plain(KeyCode::Esc), 10), Action::Nothing));
    assert_eq!(app.filter, "");
    assert!(matches!(app.handle_key(plain(KeyCode::Esc), 10), Action::Quit));
}

#[test]
fn typing_starts_search_and_commands_then_type() {
    let mut app = ready_app(&["alpha", "beta", "xray"]);
    assert!(matches!(app.handle_key(key('q'), 0), Action::Quit));
    app.handle_key(plain(KeyCode::Down), 0);
    assert_eq!(app.selected, 1);
    assert!(matches!(app.handle_key(key('x'), 0), Action::Nothing));
    assert_eq!(app.filter, "x");
    assert_eq!(app.selected, 0);
    assert_eq!(app.visible_indices(), vec![2]);
    app.handle_key(key('q'), 0);
    assert_eq!(app.filter, "xq");
    assert!(matches!(
        app.handle_key(Key { code: KeyCode::Char('c'), ctrl: true }, 0),
        Action::Quit
    ));
}

#[test]
fn selection_moves_within_shown_list() {
    let mut app = ready_app(&["a", "b", "c"]);
    app.handle_key(plain(KeyCode::Up), 0);
    assert_eq!(app.selected, 0);
    app.handle_key(plain(KeyCode::Down), 0);
    app.handle_key(plain(KeyCode::Down), 0);
    assert_eq!(app.selected, 2);
    app.handle_key(plain(KeyCode::Down), 0);
    assert_eq!(app.selected, 2);
    app.move_selection(isize::MIN);
    assert_eq!(app.selected, 0);
    app.move_selection(isize::MAX);
    assert_eq!(app.selected, 2);
    app.handle_key(plain(KeyCode::Up), 0);
    app.handle_key(plain(KeyCode::Up), 0);
    app.handle_key(plain(KeyCode::Up), 0);
    assert_eq!(app.selected, 0);
    assert!(matches!(app.handle_key(key('e'), 0), Action::Edit(ref n) if n == "a"));
}

#[test]
fn empty_list_reports_no_selection() {
    let mut app = ready_app(&[]);
    assert!(matches!(app.handle_key(plain(KeyCode::Enter), 500), Action::Nothing));
    let status = app.status.as_ref().unwrap();
    assert_eq!(status.kind, StatusKind::Error);
    assert_eq!(status.text, "No workspace selected");
    assert_eq!(app.status_expiry_ms, Some(4_500));
    app.expire_status(4_499);
    assert!(app.status.is_some());
    app.expire_status(4_500);
    assert!(app.status.is_none());
    app.handle_key(key('d'), 0);
    assert_eq!(app.dialog, Dialog::Closed);
}

#[test]
fn save_dialog_collects_trimmed_name() {
    let mut app = ready_app(&["a"]);
    app.handle_key(key('a'), 0);
    assert_eq!(app.dialog, Dialog::Save);
    assert!(matches!(app.handle_key(plain(KeyCode::Enter), 0), Action::Nothing));
    assert_eq!(app.status.as_ref().unwrap().text, "Workspace name cannot be empty");
    for c in [' ', 'n', 'e', 'w', 'x', ' '] {
        app.handle_key(key(c), 0);
    }
    app.handle_key(plain(KeyCode::Backspace), 0);
    app.handle_key(plain(KeyCode::Backspace), 0);
    assert_eq!(app.save_input, " new");
    assert!(matches!(app.handle_key(plain(KeyCode::Enter), 0), Action::Save(ref n) if n == "new"));
    app.finish_save(
        "new",
        Ok(("/base/new.applescript".to_string(), vec![workspace("a"), workspace("new")])),
        100,
    );
    assert_eq!(app.dialog, Dialog::Closed);
    assert_eq!(app.save_input, "");
    assert_eq!(app.selected, 1);
    assert_eq!(app.status.as_ref().unwrap().text, "Saved workspace \"new\" to /base/new.applescript");
    assert_eq!(app.status.as_ref().unwrap().kind, StatusKind::Success);
}

#[test]
fn delete_dialog_confirms_selected_workspace() {
    let mut app = ready_app(&["a", "b"]);
    app.handle_key(plain(KeyCode::Down), 0);
    app.handle_key(key('d'), 0);
    assert_eq!(app.dialog, Dialog::ConfirmDelete);
    assert!(matches!(app.handle_key(key('x'), 0), Action::Nothing));
    assert!(matches!(app.handle_key(key('y'), 0), Action::Delete(ref n) if n == "b"));
    app.finish_delete("b", Err("disk full".to_string()), 0);
    assert_eq!(app.dialog, Dialog::ConfirmDelete);
    assert_eq!(app.status.as_ref().unwrap().text, "disk full");
    app.finish_delete("b", Ok(vec![workspace("a")]), 0);
    assert_eq!(app.dialog, Dialog::Closed);
    assert_eq!(app.selected, 0);
    assert_eq!(app.status.as_ref().unwrap().text, "Removed workspace \"b\"");
}

#[test]
fn settings_dialog_toggles_close_tab() {
    let mut app = ready_app(&["a"]);
    app.handle_key(key('t'), 0);
    assert_eq!(app.dialog, Dialog::Settings);
    assert!(matches!(app.handle_key(key(' '), 0), Action::ToggleCloseTab));
    app.finish_toggle(Ok("on".to_string()), 0);
    assert_eq!(app.status.as_ref().unwrap().text, "close_tab = on");
    app.handle_key(plain(KeyCode::Enter), 0);
    assert_eq!(app.dialog, Dialog::Closed);
    app.handle_key(key('p'), 0);
    assert!(!app.show_preview);
}

#[test]
fn edit_outcome_reselects_workspace() {
    let mut app = ready_app(&["a", "b", "c"]);
    app.finish_edit("c", Ok(vec![workspace("a"), workspace("c")]), 0);
    assert_eq!(app.selected, 1);
    assert_eq!(app.status.as_ref().unwrap().text, "Closed editor for \"c\"");
    app.select_name("missing");
    assert_eq!(app.selected, 0);
    app.reload(Vec::new());
    assert_eq!(app.selected, 0);
    assert!(app.selected_workspace().is_none());
}

#[test]
fn saved_workspace_is_listed_with_its_tabs() {
    let env = env_at("/base");
    let rows = vec![
        TabRow { working_dir: "/srv/api".to_string(), title: "API".to_string() },
        TabRow { working_dir: "/srv/web".to_string(), title: String::new() },
    ];
    let (path, script) = env.save_current_window("Demo", &rows, &Vec::new()).unwrap();
    let files = vec![WorkspaceFile {
        file_name: "Demo.applescript".to_string(),
        path: path.clone(),
        content: Some(script),
    }];
    let list = env.list_workspaces(files, "/home/u");
    assert_eq!(list.len(), 1);
    assert_eq!(list[0].name, "Demo");
    assert_eq!(list[0].path, path);
    assert_eq!(list[0].tabs.len(), 2);
    assert_eq!(list[0].tabs[0].title, "API");
    assert_eq!(list[0].tabs[1].title, "web");
    assert_eq!(list[0].tabs[1].working_dir.as_deref(), Some("/srv/web"));
}

#[test]
fn escape_closes_dialogs_and_control_c_quits() {
    let mut app = ready_app(&["a"]);
    app.handle_key(key('a'), 0);
    app.handle_key(key('x'), 0);
    assert!(matches!(app.handle_key(plain(KeyCode::Esc), 0), Action::Nothing));
    assert_eq!(app.dialog, Dialog::Closed);
    assert_eq!(app.save_input, "");
    app.handle_key(key('t'), 0);
    assert!(matches!(
        app.handle_key(Key { code: KeyCode::Char('c'), ctrl: true }, 0),
        Action::Quit
    ));
    assert_eq!(app.dialog, Dialog::Settings);
    assert!(matches!(app.handle_key(plain(KeyCode::Esc), 0), Action::Nothing));
    assert_eq!(app.dialog, Dialog::Closed);
}

#[test]
fn slash_starts_a_search_that_takes_command_letters() {
    let mut app = ready_app(&["queue", "alpha"]);
    assert!(matches!(app.handle_key(key('/'), 0), Action::Nothing));
    assert!(app.searching);
    assert_eq!(app.filter, "");
    app.handle_key(key('q'), 0);
    assert_eq!(app.filter, "q");
    assert_eq!(app.visible_indices(), vec![0]);
    app.handle_key(plain(KeyCode::Backspace), 0);
    app.handle_key(key('a'), 0);
    assert_eq!(app.filter, "a");
    assert_eq!(app.dialog, Dialog::Closed);
    assert!(matches!(app.handle_key(plain(KeyCode::Esc), 0), Action::Nothing));
    assert!(!app.searching);
    assert_eq!(app.filter, "");
    assert!(matches!(app.handle_key(plain(KeyCode::Esc), 0), Action::Quit));
}

#[test]
fn rename_dialog_renames_selected_workspace() {
    let mut app = ready_app(&["alpha", "beta"]);
    app.handle_key(plain(KeyCode::Down), 0);
    assert!(matches!(app.handle_key(key('n'), 0), Action::Nothing));
    assert_eq!(app.dialog, Dialog::Rename);
    assert_eq!(app.save_input, "beta");
    for _ in 0..4 {
        app.handle_key(plain(KeyCode::Backspace), 0);
    }
    for c in ['g', 'a', 'm', 'm', 'a', ' '] {
        app.handle_key(key(c), 0);
    }
    assert!(matches!(
        app.handle_key(plain(KeyCode::Enter), 0),
        Action::Rename(ref old, ref new) if old == "beta" && new == "gamma"
    ));
    app.finish_rename("beta", "gamma", Err("workspace 'gamma' already exists".to_string()), 0);
    assert_eq!(app.dialog, Dialog::Rename);
    app.finish_rename("beta", "gamma", Ok(vec![workspace("alpha"), workspace("gamma")]), 0);
    assert_eq!(app.dialog, Dialog::Closed);
    assert_eq!(app.selected, 1);
    assert_eq!(app.status.as_ref().unwrap().text, "Renamed workspace \"beta\" to \"gamma\"");
    let mut empty = ready_app(&[]);
    empty.handle_key(key('n'), 0);
    assert_eq!(empty.dialog, Dialog::Closed);
    assert_eq!(empty.status.as_ref().unwrap().text, "No workspace selected");
}

#[test]
fn shortcut_dialog_asks_to_set_shortcut() {
    let mut app = ready_app(&["a"]);
    assert!(matches!(app.handle_key(key('g'), 0), Action::Nothing));
    assert_eq!(app.dialog, Dialog::Shortcut);
    for c in "cmd+k".chars() {
        app.handle_key(key(c), 0);
    }
    assert!(matches!(app.handle_key(plain(KeyCode::Enter), 0), Action::SetShortcut(ref s) if s == "cmd+k"));
    app.finish_shortcut(Ok("cmd+k".to_string()), 0);
    assert_eq!(app.dialog, Dialog::Closed);
    assert_eq!(app.status.as_ref().unwrap().text, "ghostty_shortcut = cmd+k");
}

#[test]
fn rename_requests_are_checked() {
    let env = env_at("/base");
    let (from, to) = env.rename_workspace("a", "b", true, false).unwrap();
    assert_eq!(from, "/base/a.applescript");
    assert_eq!(to, "/base/b.applescript");
    assert!(matches!(env.rename_workspace("a", "b", false, false), Err(GtabError::WorkspaceNotFound(ref n)) if n == "a"));
    match env.rename_workspace("a", "b", true, true) {
        Err(e) => assert_eq!(e.message(), "workspace 'b' already exists"),
        Ok(_) => panic!("rename onto an existing workspace"),
    }
    assert!(matches!(env.rename_workspace("a", "x/y", true, false), Err(GtabError::InvalidWorkspaceName(ref n)) if n == "x/y"));
    assert!(matches!(env.rename_workspace(" ", "b", true, false), Err(GtabError::MissingWorkspaceName)));
}

fn pane(tab: usize, wd: &str, x: u32, y: u32, width: u32, height: u32) -> PaneRow {
    PaneRow { tab, working_dir: wd.to_string(), x, y, width, height }
}

#[test]
fn split_layout_is_rebuilt_from_frames() {
    let panes = vec![
        pane(1, "/a", 0, 0, 100, 200),
        pane(1, "/b", 100, 0, 100, 100),
        pane(1, "/c", 100, 100, 100, 100),
    ];
    match split_tree(&panes, vec![0, 1, 2]) {
        Some(SplitTree::Split { down: false, first, second }) => {
            assert!(matches!(*first, SplitTree::Pane(0)));
            match *second {
                SplitTree::Split { down: true, first, second } => {
                    assert!(matches!(*first, SplitTree::Pane(1)));
                    assert!(matches!(*second, SplitTree::Pane(2)));
                }
                other => panic!("unexpected {:?}", other),
            }
        }
        other => panic!("unexpected {:?}", other),
    }
    assert!(matches!(split_tree(&panes, vec![1]), Some(SplitTree::Pane(1))));
    assert!(split_tree(&panes, Vec::new()).is_none());
    // Five panes around a centre cannot be cut apart by straight lines.
    let pinwheel = vec![
        pane(1, "/", 0, 0, 200, 100),
        pane(1, "/", 200, 0, 100, 200),
        pane(1, "/", 100, 200, 200, 100),
        pane(1, "/", 0, 100, 100, 200),
        pane(1, "/", 100, 100, 100, 100),
    ];
    assert!(split_tree(&pinwheel, vec![0, 1, 2, 3, 4]).is_none());
}

#[test]
fn split_panes_are_written_after_the_tabs_and_read_as_nothing() {
    let rows = vec![
        TabRow { working_dir: "/a".to_string(), title: "one".to_string() },
        TabRow { working_dir: "/z".to_string(), title: String::new() },
    ];
    let panes = vec![
        pane(1, "/a", 0, 0, 100, 200),
        pane(1, "/b", 100, 0, 100, 100),
        pane(1, "/c \"q\"", 100, 100, 100, 100),
        pane(2, "/z", 0, 0, 100, 100),
    ];
    let script = build_workspace_script_with_panes(&rows, &panes);
    assert!(script.contains(
        "\n    set pcfg1 to new surface configuration\n    tell pcfg1 to set initial working directory to \"/b\"\n    set pane1 to split term1 direction right with configuration pcfg1\n"
    ));
    assert!(script.contains("tell pcfg2 to set initial working directory to \"/c \\\"q\\\"\""));
    assert!(script.contains("set pane2 to split pane1 direction down with configuration pcfg2\nend tell\n"));
    assert!(!script.contains("term2 direction"));
    let tabs = parse_workspace_tabs(&script, "/home");
    assert_eq!(tabs.len(), 2);
    assert_eq!(tabs[0].title, "one");
    assert_eq!(tabs[1].title, "z");
    assert_eq!(build_workspace_script_with_panes(&rows, &Vec::new()), build_workspace_script(&rows));
}

#[test]
fn pane_listing_is_read() {
    let panes = capture_ghostty_panes("1\t0\t0\t640\t800\t/srv/api\n1\t640\t0\t640\t800\t/srv/web \nnoise\n2\t-5\t0\t1\t1\t/x\n");
    assert_eq!(panes.len(), 2);
    assert_eq!(panes[0].tab, 1);
    assert_eq!(panes[0].width, 640);
    assert_eq!(panes[0].working_dir, "/srv/api");
    assert_eq!(panes[1].x, 640);
    assert_eq!(panes[1].working_dir, "/srv/web");
}
