use server_runner::{
    aggregate_message, connect_error_message, dependency_unmet_message, exhausted_message,
    is_blank, parse_command, server_error_message, stop_failed_message, tail_start, u64_decimal,
    Attempts, CommandError, ServerStatus, TuiMessage, UiState, DEFAULT_CONFIG_FILE,
    DEFAULT_MAX_ATTEMPTS, HEALTH_CHECK_INTERVAL_SECONDS, MAX_OUTPUT_LINES_PER_SERVER,
};

#[test]
fn decimal_rendering() {
    assert_eq!(u64_decimal(0), "0");
    assert_eq!(u64_decimal(7), "7");
    assert_eq!(u64_decimal(10), "10");
    assert_eq!(u64_decimal(12345), "12345");
    assert_eq!(u64_decimal(u64::MAX), "18446744073709551615");
}

#[test]
fn attempt_messages_pluralize() {
    assert_eq!(
        exhausted_message("api", 1),
        "Could not connect to server api after 1 attempt"
    );
    assert_eq!(
        exhausted_message("api", 2),
        "Could not connect to server api after 2 attempts"
    );
    assert_eq!(
        exhausted_message("Hello World", 10),
        "Could not connect to server Hello World after 10 attempts"
    );
}

#[test]
fn diagnostic_messages_are_exact() {
    assert_eq!(
        server_error_message("api", 502),
        "Server api returned error status 502, this indicates a server problem"
    );
    assert_eq!(
        connect_error_message("api", "http://h:1", "tls handshake failed"),
        "Could not connect to server api on url http://h:1: tls handshake failed"
    );
    assert_eq!(
        dependency_unmet_message("web", "db"),
        "Server 'web' depends on 'db' which is not ready"
    );
    assert_eq!(aggregate_message(2), "2 servers failed to start");
    assert_eq!(stop_failed_message("api"), "Failed to stop process api");
}

#[test]
fn blankness() {
    assert!(is_blank(""));
    assert!(is_blank("   "));
    assert!(is_blank(" \t\r\n"));
    assert!(!is_blank(" x "));
}

#[test]
fn shell_style_command_parsing() {
    assert_eq!(parse_command("echo test").unwrap(), vec!["echo", "test"]);
    // quoting is respected, not naive whitespace splitting
    assert_eq!(
        parse_command("sh -c 'echo $TEST_VAR'").unwrap(),
        vec!["sh", "-c", "echo $TEST_VAR"]
    );
    assert_eq!(
        parse_command("run --name \"my server\"").unwrap(),
        vec!["run", "--name", "my server"]
    );
    let err = parse_command("echo 'unclosed").unwrap_err();
    assert_eq!(err, CommandError::Invalid);
    assert_eq!(err.message("echo 'unclosed"), "Invalid command: echo 'unclosed");
    let err = parse_command("").unwrap_err();
    assert_eq!(err, CommandError::Empty);
    assert_eq!(err.message(""), "Empty command provided");
}

#[test]
fn attempts_counter_wrapper() {
    let a = Attempts::new(3);
    assert_eq!(a.value(), 3);
    assert_eq!(Attempts::from(7), Attempts(7));
    assert_eq!(Attempts::new(DEFAULT_MAX_ATTEMPTS).value(), 10);
}

#[test]
fn shared_defaults() {
    assert_eq!(DEFAULT_CONFIG_FILE, "servers.yaml");
    assert_eq!(HEALTH_CHECK_INTERVAL_SECONDS, 1);
    assert_eq!(MAX_OUTPUT_LINES_PER_SERVER, 5);
}

#[test]
fn output_window_shows_the_last_lines() {
    assert_eq!(tail_start(7, 5), 2);
    assert_eq!(tail_start(5, 5), 0);
    assert_eq!(tail_start(3, 5), 0);
}

#[test]
fn bridge_folds_events() {
    let mut ui = UiState::new();
    ui.mark_started();
    assert!(ui.servers_started);

    let gen = ui.generation;
    ui.apply(gen, TuiMessage::ServerStatusUpdate("a".to_string(), ServerStatus::Waiting));
    ui.apply(gen, TuiMessage::ServerStatusUpdate("b".to_string(), ServerStatus::Waiting));
    ui.apply(gen, TuiMessage::ServerStatusUpdate("a".to_string(), ServerStatus::Ready));
    assert_eq!(ui.statuses.len(), 2);
    assert_eq!(ui.statuses[0].0, "a");
    assert_eq!(ui.statuses[0].1, ServerStatus::Ready);
    assert_eq!(ui.statuses[1].1, ServerStatus::Waiting);

    ui.apply(gen, TuiMessage::ServerOutput("a".to_string(), "line one".to_string()));
    ui.apply(gen, TuiMessage::ServerOutput("a".to_string(), "line two".to_string()));
    assert_eq!(ui.outputs.len(), 1);
    assert_eq!(ui.outputs[0].1, vec!["line one", "line two"]);

    ui.apply(gen, TuiMessage::Error("boom".to_string()));
    assert_eq!(ui.command_output, vec!["ERROR: boom"]);

    // the ready signal and command output change no folded state
    ui.apply(gen, TuiMessage::ServersReady);
    ui.apply(gen, TuiMessage::CommandOutput("done".to_string()));
    assert_eq!(ui.command_output.len(), 1);
}

#[test]
fn bridge_ignores_stale_generations() {
    let mut ui = UiState::new();
    let stale = ui.generation;
    ui.restart();
    assert_eq!(ui.generation, stale + 1);
    ui.apply(stale, TuiMessage::ServerStatusUpdate("a".to_string(), ServerStatus::Ready));
    assert!(ui.statuses.is_empty());
    ui.apply(ui.generation, TuiMessage::ServerStatusUpdate("a".to_string(), ServerStatus::Ready));
    assert_eq!(ui.statuses.len(), 1);
}

#[test]
fn restart_clears_the_fold() {
    let mut ui = UiState::new();
    let gen = ui.generation;
    ui.mark_started();
    ui.apply(gen, TuiMessage::ServerStatusUpdate("a".to_string(), ServerStatus::Ready));
    ui.apply(gen, TuiMessage::ServerOutput("a".to_string(), "x".to_string()));
    ui.apply(gen, TuiMessage::Error("e".to_string()));
    ui.restart();
    assert!(ui.statuses.is_empty());
    assert!(ui.outputs.is_empty());
    assert!(ui.command_output.is_empty());
    assert!(!ui.servers_started);
}
