use served::config::{default_service_name, RestartPolicy};
use served::editor::{require_success, resolve, run, shell_quote};
use served::logs::display::{logical_line_count, sanitize_log};
use served::paths::ServedPaths;
use served::process::{inspect, parse_stat, stat_path};
use served::protocol::{ServiceInfo, ServiceKind, ServiceState};
use served::tui::classic::{main_footer, restart_name, EditorField, EditorPopup};
use served::worker::backoff;
use std::time::Duration;

#[test]
fn restart_policies_are_distinct() {
    assert!(!RestartPolicy::Never.should_restart(false));
    assert!(RestartPolicy::OnFailure.should_restart(false));
    assert!(!RestartPolicy::OnFailure.should_restart(true));
    assert!(RestartPolicy::Always.should_restart(true));
}

#[test]
fn default_name_sanitizes_the_directory_component() {
    assert_eq!(
        default_service_name("/srv/My temporary service!"),
        "My-temporary-service-"
    );
    assert_eq!(default_service_name("/"), "service");
}

#[test]
fn shell_quote_keeps_path_as_one_argument() {
    assert_eq!(shell_quote("/tmp/log's path"), "'/tmp/log'\\''s path'");
}

#[test]
fn explicit_editor_does_not_require_environment_configuration() {
    assert_eq!(
        resolve(Some("nvim -f".to_owned()), None, &Vec::new()).expect("explicit editor"),
        "nvim -f"
    );
}

#[test]
fn configured_editor_precedes_path_fallback() {
    assert_eq!(
        resolve(None, Some("vim -f".to_owned()), &Vec::new()).expect("configured editor"),
        "vim -f"
    );
}

#[test]
fn missing_editor_reports_every_fallback() {
    let message = resolve(None, None, &Vec::new()).expect_err("missing editor");
    assert!(message.contains("editor, sensible-editor, nvim, vim, vi, nano, micro, hx"));
}

#[test]
fn fallback_prefers_system_editor_and_skips_non_executables() {
    let only_nvim = vec!["nvim".to_owned()];
    assert_eq!(
        resolve(Some("  ".to_owned()), Some(String::new()), &only_nvim).expect("fallback editor"),
        "nvim"
    );
    let both = vec!["nvim".to_owned(), "editor".to_owned()];
    assert_eq!(resolve(None, None, &both).expect("system editor"), "editor");
}

#[test]
fn fallbacks_are_taken_in_order_of_preference() {
    let found = vec!["hx".to_owned(), "vim".to_owned()];
    assert_eq!(resolve(Some("  ".to_owned()), Some(String::new()), &found).unwrap(), "vim");
    assert_eq!(run("vi -R", "/tmp/a b"), "exec vi -R '/tmp/a b'");
    assert_eq!(require_success(true, Some(0)), Ok(()));
    assert_eq!(
        require_success(false, Some(-3)).unwrap_err(),
        "external editor exited with status -3"
    );
    assert_eq!(
        require_success(false, None).unwrap_err(),
        "external editor terminated by signal"
    );
}

#[test]
fn sanitizer_removes_ansi_sequences_but_keeps_text() {
    assert_eq!(sanitize_log(b"\x1b[31mred\x1b[0m\n"), "red\n");
    assert_eq!(sanitize_log(b"a\0b\tc\n"), "ab\tc\n");
}

#[test]
fn logical_line_count_includes_utf8_content() {
    assert_eq!(logical_line_count("中文\n下一行".as_bytes()), 2);
}

#[test]
fn fixed_paths_are_derived_from_home() {
    let paths = ServedPaths::from_home("/tmp/served-home");

    assert_eq!(paths.config_home, "/tmp/served-home/.config");
    assert_eq!(paths.state_home, "/tmp/served-home/.local/state");
    assert_eq!(
        paths.runtime_dir,
        "/tmp/served-home/.local/state/served/runtime"
    );
    assert_eq!(
        paths.socket_path(),
        "/tmp/served-home/.local/state/served/runtime/served.sock"
    );
    assert_eq!(
        paths.manager_generation(),
        "/tmp/served-home/.local/state/served/runtime/manager.generation"
    );
    assert_eq!(
        paths.logs_dir(),
        "/tmp/served-home/.local/state/served/logs"
    );
    assert_eq!(
        paths.runners_dir(),
        "/tmp/served-home/.local/state/served/runtime/runners"
    );
    assert_eq!(
        paths.runner_socket("api"),
        "/tmp/served-home/.local/state/served/runtime/runners/api/runner.sock"
    );
}

#[test]
fn missing_process_does_not_match() {
    assert_eq!(stat_path(u32::MAX), "/proc/4294967295/stat");
    assert!(!served::process::matches(inspect(None), None));
    assert!(!served::process::matches(inspect(None), Some(1)));
}

#[test]
fn stat_parser_distinguishes_exit_from_stopped_or_uninterruptible_processes() {
    for state in ["R", "S", "T", "t", "D", "Z", "X", "x"] {
        let line = format!(
            "123 (name with ) parentheses) {state} {} 456",
            "0 ".repeat(18)
        );
        let info = parse_stat(&line).unwrap();
        assert_eq!(info.start_time, 456);
        assert_eq!(info.alive, !matches!(state, "Z" | "X" | "x"));
    }
    assert!(parse_stat("invalid").is_none());
}

#[test]
fn backoff_is_exponential_and_capped() {
    assert_eq!(Duration::from_millis(backoff(1)), Duration::from_millis(250));
    assert_eq!(Duration::from_millis(backoff(2)), Duration::from_millis(500));
    assert_eq!(Duration::from_millis(backoff(8)), Duration::from_secs(30));
    assert_eq!(Duration::from_millis(backoff(100)), Duration::from_secs(30));
}

#[test]
fn editor_focus_follows_visual_order_and_wraps() {
    assert_eq!(EditorField::Name.next(), EditorField::Command);
    assert_eq!(EditorField::Command.next(), EditorField::Tty);
    assert_eq!(EditorField::Tty.next(), EditorField::Restart);
    assert_eq!(EditorField::Restart.next(), EditorField::Env);
    assert_eq!(EditorField::Env.next(), EditorField::Name);

    assert_eq!(EditorField::Name.previous(), EditorField::Env);
    assert_eq!(EditorField::Env.previous(), EditorField::Restart);
    assert_eq!(EditorField::Restart.previous(), EditorField::Tty);
}

#[test]
fn popup_selection_is_staged_until_apply() {
    let mut tty = true;
    let mut restart = RestartPolicy::Never;
    let mut tty_popup = EditorPopup::open(EditorField::Tty, tty, restart).expect("TTY popup");
    tty_popup.move_down();
    assert_eq!(
        tty_popup.option_label(tty_popup.selected_index()),
        "Disabled"
    );
    assert!(tty);

    let mut restart_popup =
        EditorPopup::open(EditorField::Restart, tty, restart).expect("restart popup");
    restart_popup.move_down();
    restart_popup.move_down();
    assert_eq!(restart_popup.selected_index(), 2);
    restart_popup.move_up();
    restart_popup.apply(&mut tty, &mut restart);
    assert!(tty);
    assert_eq!(restart, RestartPolicy::OnFailure);
}

fn service_info(tty: bool) -> ServiceInfo {
    ServiceInfo {
        name: "api".to_owned(),
        directory: "/tmp/api".to_owned(),
        config_file: None,
        kind: ServiceKind::Enabled,
        state: ServiceState::Running,
        pid: Some(42),
        tty,
        restart: restart_name(RestartPolicy::Never).to_owned(),
        persist_logs: false,
        attach_active: false,
        output_tail: "ready".to_owned(),
    }
}

#[test]
fn main_footer_describes_available_actions() {
    assert_eq!(main_footer(&Vec::new(), 0), "up/down/j/k move   q/Esc quit");

    let tty_services = vec![service_info(true)];
    let tty_footer = main_footer(&tty_services, 0);
    assert!(tty_footer.contains("r restart"));
    assert!(tty_footer.contains("d disable"));
    assert!(tty_footer.contains("a attach"));
    assert!(!tty_footer.contains("unavailable"));

    let pipe_services = vec![service_info(false)];
    assert!(main_footer(&pipe_services, 0).contains("a attach unavailable"));
}

#[test]
fn small_questions_have_small_answers() {
    assert!(served::config::has_config_file("/srv/api", false, true));
    assert!(!served::config::has_config_file("/srv/api", false, false));
    assert_eq!(served::protocol::io_error("bad frame".to_owned()).message, "bad frame");
    let named = served::protocol::Target::Name("api".to_owned());
    assert_eq!(served::worker::target_name(&named).map(String::as_str), Some("api"));
    let placed = served::protocol::Target::Directory("/srv".to_owned());
    assert!(served::worker::target_name(&placed).is_none());
    assert!(served::paths::ServedPaths::from_environment(None).is_err());
    assert!(served::paths::ServedPaths::from_environment(Some("home")).is_err());
    let paths = served::paths::ServedPaths::from_environment(Some("/home/me")).expect("paths");
    assert!(paths.logs_dir().starts_with("/home/me/"));
}
