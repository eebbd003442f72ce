use rneter::device::DeviceHandler;
use rneter::errors::ConnectError;
use rneter::session::{CommandPump, PumpStep};

fn build_test_handler() -> DeviceHandler {
    let dyn_param = vec![("EnablePassword".to_string(), "secret\n".to_string())];

    DeviceHandler::new(
        vec![
            ("Login".to_string(), vec![r"^dev>\s*$".to_string()]),
            ("Enable".to_string(), vec![r"^dev#\s*$".to_string()]),
            ("Config".to_string(), vec![r"^dev\(cfg\)#\s*$".to_string()]),
        ],
        vec![],
        vec![
            (
                "EnablePassword".to_string(),
                (true, "EnablePassword".to_string(), true),
                vec![r"^Password:\s*$".to_string()],
            ),
            (
                "Confirm".to_string(),
                (false, "y".to_string(), false),
                vec![r"^\[y\/n\]\?\s*$".to_string()],
            ),
        ],
        vec![r"^--More--$".to_string()],
        vec![r"^ERROR: .+$".to_string()],
        vec![
            (
                "Login".to_string(),
                "enable".to_string(),
                "Enable".to_string(),
                false,
                false,
            ),
            (
                "Enable".to_string(),
                "configure terminal".to_string(),
                "Config".to_string(),
                false,
                false,
            ),
            (
                "Config".to_string(),
                "exit".to_string(),
                "Enable".to_string(),
                true,
                false,
            ),
            (
                "Enable".to_string(),
                "exit".to_string(),
                "Login".to_string(),
                true,
                false,
            ),
        ],
        vec![r"^ERROR: benign$".to_string()],
        dyn_param,
    )
    .expect("test handler config should be valid")
}

#[test]
fn error_state_is_detected_after_error_line() {
    let mut handler = build_test_handler();

    assert!(!handler.error());
    handler.read("ERROR: invalid command");
    assert!(handler.error());
}

#[test]
fn ignore_error_pattern_resets_to_output_state() {
    let mut handler = build_test_handler();

    handler.read("ERROR: benign");
    assert_eq!(handler.current_state(), "output");
    assert!(!handler.error());
}

#[test]
fn current_prompt_is_updated_when_prompt_line_is_read() {
    let mut handler = build_test_handler();
    assert_eq!(handler.current_prompt(), None);

    handler.read("dev#");
    assert_eq!(handler.current_prompt(), Some("dev#".to_string()));
}

#[test]
fn read_need_write_supports_dynamic_and_static_inputs() {
    let mut handler = build_test_handler();

    assert_eq!(
        handler.read_need_write("Password:"),
        Some(("secret\n".to_string(), true))
    );
    assert_eq!(
        handler.read_need_write("[y/n]?"),
        Some(("y".to_string(), false))
    );
    assert_eq!(handler.read_need_write("no input"), None);
}

#[test]
fn transition_path_is_found_for_reachable_state() {
    let mut handler = build_test_handler();
    handler.read("dev>");

    let path = handler
        .trans_state_write("config", None)
        .expect("reachable path should be found");

    assert_eq!(
        path,
        vec![
            ("enable".to_string(), "enable".to_string()),
            ("configure terminal".to_string(), "config".to_string()),
        ]
    );
}

#[test]
fn transition_to_unknown_state_returns_error() {
    let mut handler = build_test_handler();
    handler.read("dev>");

    let err = handler
        .trans_state_write("does-not-exist", None)
        .expect_err("unknown target state should return error");
    match err {
        ConnectError::UnreachableState(s) => assert_eq!(s, "does-not-exist"),
        other => panic!("unexpected error type: {other:?}"),
    }
}

#[test]
fn invalid_handler_regex_returns_config_error() {
    let err = match DeviceHandler::new(
        vec![("Login".to_string(), vec![r"[".to_string()])],
        vec![],
        vec![],
        vec![r"^--More--$".to_string()],
        vec![r"^ERROR: .+$".to_string()],
        vec![],
        vec![],
        vec![],
    ) {
        Ok(_) => panic!("invalid regex should fail handler construction"),
        Err(err) => err,
    };

    match err {
        ConnectError::InvalidDeviceHandlerConfig(msg) => {
            assert!(msg.contains("failed to build state regex set"));
        }
        other => panic!("unexpected error type: {other:?}"),
    }
}

#[test]
fn state_machine_diagnostics_are_clean_for_valid_template() {
    let handler = build_test_handler();
    let report = handler.diagnose_state_machine();

    assert!(!report.has_issues());
    assert!(report.missing_edge_sources.is_empty());
    assert!(report.missing_edge_targets.is_empty());
    assert!(report.unreachable_states.is_empty());
    assert!(report.dead_end_states.is_empty());
    assert!(report.duplicate_prompt_patterns.is_empty());
    assert!(report.potentially_ambiguous_prompt_states.is_empty());
    assert!(report.self_loop_only_states.is_empty());
}

#[test]
fn state_machine_diagnostics_detect_invalid_edges_and_dead_ends() {
    let handler = DeviceHandler::new(
        vec![
            ("Login".to_string(), vec![r"^dev>\s*$".to_string()]),
            ("Enable".to_string(), vec![r"^dev#\s*$".to_string()]),
        ],
        vec![],
        vec![],
        vec![r"^--More--$".to_string()],
        vec![r"^ERROR: .+$".to_string()],
        vec![
            (
                "Login".to_string(),
                "enable".to_string(),
                "Enable".to_string(),
                false,
                false,
            ),
            (
                "Enable".to_string(),
                "to-ghost".to_string(),
                "Ghost".to_string(),
                false,
                false,
            ),
        ],
        vec![],
        vec![],
    )
    .expect("handler should build");

    let report = handler.diagnose_state_machine();
    assert!(report.has_issues());
    assert_eq!(report.missing_edge_targets, vec!["ghost".to_string()]);
    assert_eq!(report.dead_end_states, vec!["enable".to_string()]);
}

#[test]
fn state_machine_diagnostics_detect_duplicate_prompt_patterns() {
    let handler = DeviceHandler::new(
        vec![
            ("Login".to_string(), vec![r"^dup>\s*$".to_string()]),
            ("Enable".to_string(), vec![r"^dup>\s*$".to_string()]),
        ],
        vec![],
        vec![],
        vec![r"^--More--$".to_string()],
        vec![r"^ERROR: .+$".to_string()],
        vec![(
            "Login".to_string(),
            "noop".to_string(),
            "Enable".to_string(),
            false,
            false,
        )],
        vec![],
        vec![],
    )
    .expect("handler should build");

    let report = handler.diagnose_state_machine();
    assert!(report.has_issues());
    assert!(!report.duplicate_prompt_patterns.is_empty());
    assert!(report
        .potentially_ambiguous_prompt_states
        .contains(&"enable".to_string()));
    assert!(report
        .potentially_ambiguous_prompt_states
        .contains(&"login".to_string()));
}

#[test]
fn state_machine_diagnostics_detect_self_loop_only_states() {
    let handler = DeviceHandler::new(
        vec![
            ("Login".to_string(), vec![r"^dev>\s*$".to_string()]),
            ("Enable".to_string(), vec![r"^dev#\s*$".to_string()]),
        ],
        vec![],
        vec![],
        vec![r"^--More--$".to_string()],
        vec![r"^ERROR: .+$".to_string()],
        vec![(
            "Enable".to_string(),
            "noop".to_string(),
            "Enable".to_string(),
            false,
            false,
        )],
        vec![],
        vec![],
    )
    .expect("handler should build");

    let report = handler.diagnose_state_machine();
    assert!(report.self_loop_only_states.contains(&"enable".to_string()));
}

#[test]
fn handlers_with_same_config_are_equivalent_despite_runtime_state() {
    let mut a = build_test_handler();
    let b = build_test_handler();
    assert!(a.is_equivalent(&b));
    assert!(b.is_equivalent(&a));

    // runtime fields change, equivalence does not
    a.read("dev#");
    a.read("ERROR: invalid command");
    assert!(a.is_equivalent(&b));
}

#[test]
fn handlers_with_different_edges_are_not_equivalent() {
    let a = build_test_handler();
    let b = DeviceHandler::new(
        vec![("Login".to_string(), vec![r"^dev>\s*$".to_string()])],
        vec![],
        vec![],
        vec![r"^--More--$".to_string()],
        vec![r"^ERROR: .+$".to_string()],
        vec![],
        vec![],
        vec![],
    )
    .expect("handler should build");
    assert!(!a.is_equivalent(&b));
}

#[test]
fn read_after_prompt_keeps_declared_lowercase_state() {
    let mut handler = build_test_handler();
    handler.read("dev(cfg)#");
    let state = handler.current_state();
    assert_eq!(state, "config");
    assert!(handler.states().contains(&state));
    assert_eq!(state.to_ascii_lowercase(), state);
}

#[test]
fn sys_capture_extracts_named_group() {
    let mut handler = DeviceHandler::new(
        vec![("Enable".to_string(), vec![r"^host#\s*$".to_string()])],
        vec![(
            "VSiteEnable".to_string(),
            r"^(?<VS>\S+)\$\s*$".to_string(),
            "VS".to_string(),
        )],
        vec![],
        vec![r"^--More--$".to_string()],
        vec![r"^ERROR: .+$".to_string()],
        vec![],
        vec![],
        vec![],
    )
    .expect("handler should build");

    handler.read("site1$");
    assert_eq!(handler.current_state(), "vsiteenable");
    assert_eq!(handler.current_sys(), Some("site1".to_string()));
}

#[test]
fn command_pump_finishes_on_prompt_and_flags_errors() {
    let mut handler = build_test_handler();
    let mut pump = CommandPump::new();

    match pump.feed(&mut handler, "some output\r\n") {
        PumpStep::Continue => {}
        other => panic!("expected pump to continue: {other:?}"),
    }
    match pump.feed(&mut handler, "ERROR: invalid command\n") {
        PumpStep::Continue => {}
        other => panic!("expected pump to continue: {other:?}"),
    }
    match pump.feed(&mut handler, "dev#") {
        PumpStep::Done { success } => assert!(!success),
        other => panic!("expected pump to finish: {other:?}"),
    }
}

#[test]
fn command_pump_replies_to_interactive_input() {
    let mut handler = build_test_handler();
    let mut pump = CommandPump::new();

    match pump.feed(&mut handler, "Password:") {
        PumpStep::Reply { text } => assert_eq!(text, "secret\n"),
        other => panic!("expected automatic reply: {other:?}"),
    }
}

#[test]
fn sys_switch_without_exit_edge_reports_no_exit_command() {
    let mut handler = DeviceHandler::new(
        vec![("Enable".to_string(), vec![r"^host#\s*$".to_string()])],
        vec![(
            "VSiteEnable".to_string(),
            r"^(?<VS>\S+)\$\s*$".to_string(),
            "VS".to_string(),
        )],
        vec![],
        vec![r"^--More--$".to_string()],
        vec![r"^ERROR: .+$".to_string()],
        vec![],
        vec![],
        vec![],
    )
    .expect("handler should build");

    handler.read("site1$");
    assert_eq!(handler.current_sys(), Some("site1".to_string()));
    let other = "site2".to_string();
    let err = handler
        .trans_state_write("enable", Some(&other))
        .expect_err("no exit edge from the sys context");
    assert!(matches!(err, ConnectError::NoExitCommandError(_)));
}
