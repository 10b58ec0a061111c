use gtab::config::Config;
use gtab::env::should_switch_to_ascii_input_source;
use gtab::ghostty::{build_ghostty_shortcut_include, sync_ghostty_include_reference};
use gtab::script::{apple_escape, build_workspace_script, parse_workspace_tabs, TabRow};

fn managed_header() -> String {
    format!("# gtab managed {}{}", "inc", "lude")
}

#[test]
fn config_parses_close_tab_truthy_values() {
    let config = Config::load(Some(
        "close_tab=true\nglobal_shortcut=cmd+g\nghostty_shortcut=cmd+shift+g\n",
    ))
    .unwrap();
    assert!(config.close_tab);
    assert_eq!(config.ghostty_shortcut, "cmd+shift+g");
}

#[test]
fn config_normalizes_disabled_ghostty_shortcut() {
    let config = Config::load(Some("global_shortcut=cmd+g\nghostty_shortcut=disabled\n")).unwrap();
    assert_eq!(config.ghostty_shortcut, "off");
}

#[test]
fn config_defaults_to_ghostty_local_cmd_g() {
    let config = Config::default();
    assert_eq!(config.ghostty_shortcut, "cmd+g");
}

#[test]
fn config_ignores_removed_launch_mode() {
    let config = Config::load(Some(
        "global_shortcut=cmd+g\nghostty_shortcut=off\nlaunch_mode=inject\n",
    ))
    .unwrap();
    assert_eq!(config.ghostty_shortcut, "off");
}

#[test]
fn ascii_input_source_switch_skips_matching_source_ids() {
    assert!(!should_switch_to_ascii_input_source(
        Some("com.apple.keylayout.ABC"),
        Some("com.apple.keylayout.ABC"),
        false,
    ));
}

#[test]
fn ascii_input_source_switch_skips_matching_source_refs() {
    assert!(!should_switch_to_ascii_input_source(None, None, true));
}

#[test]
fn ascii_input_source_switch_uses_ascii_source_when_current_differs() {
    assert!(should_switch_to_ascii_input_source(
        Some("com.apple.inputmethod.SCIM.ITABC"),
        Some("com.apple.keylayout.ABC"),
        false,
    ));
}

#[test]
fn apple_script_generation_preserves_workspace_structure() {
    let script = build_workspace_script(&vec![
        TabRow {
            working_dir: "/tmp/demo".to_string(),
            title: "main".to_string(),
        },
        TabRow {
            working_dir: "/tmp/api".to_string(),
            title: String::new(),
        },
    ]);

    assert!(script.contains("set win to new window"));
    assert!(script.contains("new tab in win"));
    assert!(script.contains("set_tab_title:main"));
}

#[test]
fn apple_escape_handles_quotes_and_backslashes() {
    assert_eq!(
        apple_escape(r#"/tmp/"quote"\path"#),
        r#"/tmp/\"quote\"\\path"#
    );
}

#[test]
fn workspace_preview_uses_titles_and_fallbacks() {
    let tabs = parse_workspace_tabs(
        r#"tell application "Ghostty"
    activate

    set cfg1 to new surface configuration
    set initial working directory of cfg1 to "/tmp/project"
    set win to new window with configuration cfg1
    set term1 to focused terminal of selected tab of win
    perform action "set_tab_title:api" on term1

    set cfg2 to new surface configuration
    set initial working directory of cfg2 to "/tmp/work"
    set tab2 to new tab in win with configuration cfg2
    set term2 to focused terminal of tab2
end tell
"#,
        "/Users/demo",
    );

    assert_eq!(tabs.len(), 2);
    assert_eq!(tabs[0].title, "api");
    assert_eq!(tabs[0].working_dir.as_deref(), Some("/tmp/project"));
    assert_eq!(tabs[1].title, "work");
    assert_eq!(tabs[1].working_dir.as_deref(), Some("/tmp/work"));
}

#[test]
fn ghostty_shortcut_include_writes_keybind_command() {
    let text = build_ghostty_shortcut_include("cmd+g");
    assert!(text.contains("Default Ghostty-local shortcut"));
    assert!(text.contains("keybind = cmd+g=text:gtab\\x0d"));
}

#[test]
fn disabled_ghostty_shortcut_include_has_no_keybind() {
    let text = build_ghostty_shortcut_include("off");
    assert!(!text.contains("keybind ="));
    assert!(text.contains("Ghostty-local shortcut is disabled"));
}

#[test]
fn enabling_ghostty_sync_adds_managed_include_reference() {
    let written = sync_ghostty_include_reference(None, "/tmp/gtab-shortcut.conf", true);

    assert!(written.is_some());
    assert_eq!(
        written.unwrap(),
        format!("{}\nconfig-file = \"/tmp/gtab-shortcut.conf\"\n", managed_header())
    );
}

#[test]
fn enabling_ghostty_sync_is_idempotent() {
    let first = sync_ghostty_include_reference(None, "/tmp/gtab-shortcut.conf", true).unwrap();
    let second = sync_ghostty_include_reference(Some(first.as_str()), "/tmp/gtab-shortcut.conf", true);

    assert!(second.is_none());
    assert_eq!(
        first,
        format!("{}\nconfig-file = \"/tmp/gtab-shortcut.conf\"\n", managed_header())
    );
}

#[test]
fn enabling_ghostty_sync_deduplicates_existing_managed_reference() {
    let existing = format!(
        "font-size = 15\n\n{h}\nconfig-file = \"/tmp/gtab-shortcut.conf\"\n\n{h}\nconfig-file = \"/tmp/gtab-shortcut.conf\"\n",
        h = managed_header()
    );

    let written = sync_ghostty_include_reference(Some(existing.as_str()), "/tmp/gtab-shortcut.conf", true);

    assert!(written.is_some());
    assert_eq!(
        written.unwrap(),
        format!(
            "font-size = 15\n\n{}\nconfig-file = \"/tmp/gtab-shortcut.conf\"\n",
            managed_header()
        )
    );
}

#[test]
fn disabling_ghostty_sync_removes_managed_include_and_preserves_other_config() {
    let existing = format!(
        "theme = dark\nconfig-file = \"/tmp/shared.conf\"\n\n{}\nconfig-file = \"/tmp/gtab-shortcut.conf\"\nshell-integration = zsh",
        managed_header()
    );

    let written = sync_ghostty_include_reference(Some(existing.as_str()), "/tmp/gtab-shortcut.conf", false);

    assert!(written.is_some());
    assert_eq!(
        written.unwrap(),
        "theme = dark\nconfig-file = \"/tmp/shared.conf\"\nshell-integration = zsh\n"
    );
}
