use win_widgets::shell::{
    log_line, log_needs_restart, menu_action, nudged_size, power_action, refresh_targets,
    toggle_action, MenuAction, PowerAction, ToggleAction, MAX_LOG_SIZE,
};

#[test]
fn tray_menu_entries() {
    assert_eq!(menu_action("quit"), MenuAction::Quit);
    assert_eq!(menu_action("toggle"), MenuAction::Toggle);
    assert_eq!(menu_action("reload"), MenuAction::Reload);
    assert_eq!(menu_action("other"), MenuAction::Ignore);
    assert_eq!(toggle_action(true), ToggleAction::Hide);
    assert_eq!(toggle_action(false), ToggleAction::ShowAndFocus);
}

#[test]
fn power_messages() {
    assert_eq!(power_action(0x0218, 0x12), PowerAction::Refresh { delay_ms: 150, answer: 1 });
    assert_eq!(power_action(0x0218, 0x07), PowerAction::Refresh { delay_ms: 150, answer: 1 });
    assert_eq!(power_action(0x0218, 0x04), PowerAction::Default);
    assert_eq!(power_action(0x007E, 0), PowerAction::Refresh { delay_ms: 50, answer: 0 });
    assert_eq!(power_action(0x0010, 0x12), PowerAction::Default);
}

#[test]
fn refresh_skips_main_window() {
    let labels = vec!["main".to_string(), "a".to_string(), "b".to_string(), "main".to_string()];
    assert_eq!(refresh_targets(&labels), vec!["a".to_string(), "b".to_string()]);
    assert_eq!(nudged_size(100, 50), (101, 51));
}

#[test]
fn log_lines() {
    assert_eq!(
        log_line("2024-01-02 03:04:05", "widget", "loaded"),
        "[2024-01-02 03:04:05] [widget] loaded"
    );
    assert_eq!(MAX_LOG_SIZE, 5 * 1024 * 1024);
    assert!(!log_needs_restart(MAX_LOG_SIZE));
    assert!(log_needs_restart(MAX_LOG_SIZE + 1));
}
