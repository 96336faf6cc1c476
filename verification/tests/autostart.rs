use win_widgets::autostart::{
    control_action, decimal_text, elevation_outcome, enable_action, has_console_session,
    service_command_line, service_mode, session_command_line, wide, ControlAction, EnableAction,
    ServiceMode, INSTALL_ARG, REMOVE_ARG, SERVICE_ARG,
};

fn args(list: &[&str]) -> Vec<String> {
    list.iter().map(|s| s.to_string()).collect()
}

#[test]
fn wide_strings_end_with_zero() {
    assert_eq!(wide(""), vec![0]);
    assert_eq!(wide("Ab"), vec![65, 98, 0]);
    assert_eq!(wide("\u{1F600}"), vec![0xD83D, 0xDE00, 0]);
    let text = "Win Widgets \u{00e9}\u{4e2d}\u{10348}";
    let mut expected: Vec<u16> = text.encode_utf16().collect();
    expected.push(0);
    assert_eq!(wide(text), expected);
}

#[test]
fn service_modes_in_order_of_priority() {
    assert_eq!(service_mode(&args(&["app.exe"])), ServiceMode::Normal);
    assert_eq!(service_mode(&args(&["app.exe", REMOVE_ARG])), ServiceMode::RemoveService);
    assert_eq!(service_mode(&args(&["app.exe", REMOVE_ARG, INSTALL_ARG])), ServiceMode::InstallService);
    assert_eq!(
        service_mode(&args(&["app.exe", INSTALL_ARG, SERVICE_ARG])),
        ServiceMode::RunService
    );
    assert_eq!(SERVICE_ARG, "--winwidgets-service");
    assert_eq!(INSTALL_ARG, "--winwidgets-install-service");
    assert_eq!(REMOVE_ARG, "--winwidgets-remove-service");
}

#[test]
fn enabling_runs_here_or_elevated() {
    assert_eq!(enable_action(true, &args(&["app", INSTALL_ARG])), EnableAction::InstallHere);
    assert_eq!(enable_action(true, &args(&["app"])), EnableAction::ElevateInstall);
    assert_eq!(enable_action(false, &args(&["app", REMOVE_ARG])), EnableAction::RemoveHere);
    assert_eq!(enable_action(false, &args(&["app", INSTALL_ARG])), EnableAction::ElevateRemove);
}

#[test]
fn decimal_numbers() {
    assert_eq!(decimal_text(0), "0");
    assert_eq!(decimal_text(32), "32");
    assert_eq!(decimal_text(-5), "-5");
    assert_eq!(decimal_text(isize::MIN), isize::MIN.to_string());
    assert_eq!(decimal_text(isize::MAX), isize::MAX.to_string());
}

#[test]
fn elevation_outcomes() {
    assert_eq!(elevation_outcome(42), Ok(()));
    assert_eq!(elevation_outcome(33), Ok(()));
    assert_eq!(elevation_outcome(32), Err("ShellExecuteW failed: 32".to_string()));
    assert_eq!(elevation_outcome(2), Err("ShellExecuteW failed: 2".to_string()));
}

#[test]
fn command_lines() {
    assert_eq!(
        service_command_line("C:\\Apps\\w.exe"),
        "\"C:\\Apps\\w.exe\" --winwidgets-service"
    );
    assert_eq!(session_command_line("C:\\w.exe"), "\"C:\\w.exe\"");
}

#[test]
fn control_requests() {
    assert_eq!(control_action(1, 0), ControlAction::Stop);
    assert_eq!(control_action(14, 5), ControlAction::LaunchInSession);
    assert_eq!(control_action(14, 6), ControlAction::Ignore);
    assert_eq!(control_action(4, 5), ControlAction::Ignore);
}

#[test]
fn console_session() {
    assert!(!has_console_session(u32::MAX));
    assert!(has_console_session(1));
}
