use server_runner::{
    default_timeout, AttemptGate, Config, ServerManager, HealthCheck, Hooks, HttpMethod, OutputMode,
    ProbeOutcome, ProbeVerdict, Server, ServerStatus, TierOutcome,
};

fn server(name: &str, url: &str, command: &str) -> Server {
    Server {
        name: name.to_string(),
        url: url.to_string(),
        command: command.to_string(),
        timeout: default_timeout(),
        priority: 0,
        depends_on: Vec::new(),
        retry_interval: 1,
        startup_delay: 0,
        env: Vec::new(),
        hooks: Hooks { before_start: None, after_ready: None, before_stop: None },
        health_check: HealthCheck {
            method: HttpMethod::Get,
            expected_status: vec![200],
            headers: Vec::new(),
        },
        output: OutputMode::Inherit,
    }
}

fn config(servers: Vec<Server>, command: &str) -> Config {
    Config { servers, command: command.to_string(), env: Vec::new() }
}

/// Spawns tier 0's single member and polls it with the given outcome until
/// the attempt budget is exhausted; returns the exhaustion message.
fn run_until_exhausted(mut engine: ServerManager, outcome: ProbeOutcome) -> (ServerManager, String) {
    engine.check_tier_deps(0).unwrap();
    engine.mark_spawned(0);
    loop {
        match engine.begin_attempt(0) {
            AttemptGate::Proceed => match engine.apply_probe(0, &outcome) {
                ProbeVerdict::StillWaiting => {},
                other => panic!("expected the server to keep waiting, got {:?}", status_name(&other)),
            },
            AttemptGate::Exhausted(m) => return (engine, m),
        }
    }
}

fn status_name(v: &ProbeVerdict) -> &'static str {
    match v {
        ProbeVerdict::Ready => "Ready",
        ProbeVerdict::StillWaiting => "StillWaiting",
        ProbeVerdict::Fatal { .. } => "Fatal",
    }
}

#[test]
fn fails_on_too_many_attempts() {
    let c = config(vec![server("Hello World", "http://localhost:9999", "sleep 5")], "echo done");
    let engine = ServerManager::new(c, 10, false).unwrap();
    let (engine, m) = run_until_exhausted(engine, ProbeOutcome::ConnectionRefused);
    assert_eq!(m, "Could not connect to server Hello World after 10 attempts");
    assert_eq!(engine.status(0), ServerStatus::Failed);
    assert_eq!(engine.attempt_count(0), 10);
}

#[test]
fn fails_on_too_many_attempts_custom() {
    let c = config(vec![server("Hello World", "http://localhost:9999", "sleep 5")], "echo done");
    let engine = ServerManager::new(c, 5, false).unwrap();
    let (_, m) = run_until_exhausted(engine, ProbeOutcome::ConnectionRefused);
    assert_eq!(m, "Could not connect to server Hello World after 5 attempts");
}

#[test]
fn fails_on_timeout_with_custom_timeout() {
    let c = config(
        vec![server("Timeout Test Server", "http://localhost:9999", "sleep 5")],
        "echo done",
    );
    let engine = ServerManager::new(c, 2, false).unwrap();
    let (_, m) = run_until_exhausted(engine, ProbeOutcome::TimedOut);
    assert_eq!(m, "Could not connect to server Timeout Test Server after 2 attempts");
}

#[test]
fn fails_on_zero_timeout() {
    let c = config(
        vec![server("Zero Timeout Server", "http://localhost:9999", "sleep 5")],
        "echo done",
    );
    let engine = ServerManager::new(c, 1, false).unwrap();
    let (_, m) = run_until_exhausted(engine, ProbeOutcome::TimedOut);
    assert_eq!(m, "Could not connect to server Zero Timeout Server after 1 attempt");
}

#[test]
fn fails_on_one_attempt() {
    let c = config(
        vec![server("Timeout Test Server", "http://localhost:9999", "sleep 5")],
        "echo done",
    );
    let engine = ServerManager::new(c, 1, false).unwrap();
    let (_, m) = run_until_exhausted(engine, ProbeOutcome::TimedOut);
    assert_eq!(m, "Could not connect to server Timeout Test Server after 1 attempt");
}

#[test]
fn fails_on_multiple_unreachable_servers() {
    let c = config(
        vec![
            server("first", "http://localhost:9998", "sleep 5"),
            server("second", "http://localhost:9999", "sleep 5"),
        ],
        "echo done",
    );
    // fail-fast: the first exhaustion aborts the run with its own message
    let mut engine = ServerManager::new(c, 2, true).unwrap();
    engine.check_tier_deps(0).unwrap();
    engine.mark_spawned(0);
    engine.mark_spawned(1);
    let mut aborted = None;
    'outer: for _pass in 0..3 {
        for i in 0..2 {
            if engine.status(i) == ServerStatus::Waiting {
                match engine.begin_attempt(i) {
                    AttemptGate::Proceed => {
                        match engine.apply_probe(i, &ProbeOutcome::ConnectionRefused) {
                            ProbeVerdict::StillWaiting => {},
                            other => panic!("unexpected verdict {}", status_name(&other)),
                        }
                    },
                    AttemptGate::Exhausted(m) => {
                        aborted = Some(m);
                        break 'outer;
                    },
                }
            }
        }
    }
    let m = aborted.expect("the attempt budget should have been exhausted");
    assert!(m.contains("Could not connect to server"));
}

#[test]
fn attempt_budget_is_exact() {
    // the server is probed on evaluations 1..=3 and fails on the next
    let c = config(vec![server("x", "http://localhost:9999", "sleep 5")], "echo done");
    let mut engine = ServerManager::new(c, 3, false).unwrap();
    engine.check_tier_deps(0).unwrap();
    engine.mark_spawned(0);
    for eval in 1..=3u32 {
        match engine.begin_attempt(0) {
            AttemptGate::Proceed => {},
            AttemptGate::Exhausted(_) => panic!("exhausted on evaluation {}", eval),
        }
        match engine.apply_probe(0, &ProbeOutcome::ConnectionRefused) {
            ProbeVerdict::StillWaiting => {},
            other => panic!("unexpected verdict {}", status_name(&other)),
        }
        assert_eq!(engine.attempt_count(0), eval);
        assert_eq!(engine.status(0), ServerStatus::Waiting);
    }
    match engine.begin_attempt(0) {
        AttemptGate::Exhausted(m) => {
            assert_eq!(m, "Could not connect to server x after 3 attempts");
        },
        AttemptGate::Proceed => panic!("the fourth evaluation should exhaust the budget"),
    }
    assert_eq!(engine.status(0), ServerStatus::Failed);
}

#[test]
fn health_classification_scenarios() {
    // 200 with the default expected set: Ready
    let c = config(vec![server("ok", "http://localhost:1", "sleep 5")], "echo done");
    let mut engine = ServerManager::new(c, 10, false).unwrap();
    engine.check_tier_deps(0).unwrap();
    engine.mark_spawned(0);
    assert!(matches!(engine.begin_attempt(0), AttemptGate::Proceed));
    assert!(matches!(engine.apply_probe(0, &ProbeOutcome::Status(200)), ProbeVerdict::Ready));
    assert_eq!(engine.status(0), ServerStatus::Ready);

    // 503: immediately fatal, regardless of remaining attempts
    let c = config(vec![server("broken", "http://localhost:1", "sleep 5")], "echo done");
    let mut engine = ServerManager::new(c, 10, false).unwrap();
    engine.check_tier_deps(0).unwrap();
    engine.mark_spawned(0);
    assert!(matches!(engine.begin_attempt(0), AttemptGate::Proceed));
    match engine.apply_probe(0, &ProbeOutcome::Status(503)) {
        ProbeVerdict::Fatal { message, abort } => {
            assert_eq!(
                message,
                "Server broken returned error status 503, this indicates a server problem"
            );
            assert!(!abort);
        },
        other => panic!("expected a fatal verdict, got {}", status_name(&other)),
    }
    assert_eq!(engine.status(0), ServerStatus::Failed);
    assert_eq!(engine.attempt_count(0), 1);

    // connection refused: one attempt consumed, no fatal
    let c = config(vec![server("later", "http://localhost:1", "sleep 5")], "echo done");
    let mut engine = ServerManager::new(c, 10, false).unwrap();
    engine.check_tier_deps(0).unwrap();
    engine.mark_spawned(0);
    assert!(matches!(engine.begin_attempt(0), AttemptGate::Proceed));
    assert!(matches!(
        engine.apply_probe(0, &ProbeOutcome::ConnectionRefused),
        ProbeVerdict::StillWaiting
    ));
    assert_eq!(engine.status(0), ServerStatus::Waiting);
    assert_eq!(engine.attempt_count(0), 1);

    // any other transport failure: fatal with the connect diagnostic
    let c = config(vec![server("dns", "http://no.such.host:1", "sleep 5")], "echo done");
    let mut engine = ServerManager::new(c, 10, false).unwrap();
    engine.check_tier_deps(0).unwrap();
    engine.mark_spawned(0);
    assert!(matches!(engine.begin_attempt(0), AttemptGate::Proceed));
    match engine.apply_probe(0, &ProbeOutcome::Transport("dns error".to_string())) {
        ProbeVerdict::Fatal { message, .. } => {
            assert_eq!(
                message,
                "Could not connect to server dns on url http://no.such.host:1: dns error"
            );
        },
        other => panic!("expected a fatal verdict, got {}", status_name(&other)),
    }
}

#[test]
fn fail_fast_aborts_without_touching_the_second_server() {
    let c = config(
        vec![
            server("first", "http://localhost:9998", "sleep 5"),
            server("second", "http://localhost:9999", "sleep 5"),
        ],
        "echo done",
    );
    let mut engine = ServerManager::new(c, 10, true).unwrap();
    engine.check_tier_deps(0).unwrap();
    engine.mark_spawned(0);
    engine.mark_spawned(1);
    assert!(matches!(engine.begin_attempt(0), AttemptGate::Proceed));
    match engine.apply_probe(0, &ProbeOutcome::Status(500)) {
        ProbeVerdict::Fatal { abort, .. } => assert!(abort),
        other => panic!("expected a fatal verdict, got {}", status_name(&other)),
    }
    // the run aborts here: the second member was never evaluated
    assert_eq!(engine.status(1), ServerStatus::Waiting);
    assert_eq!(engine.attempt_count(1), 0);
    assert!(!engine.all_ready());
}

#[test]
fn collect_mode_aggregates_both_failures() {
    let c = config(
        vec![
            server("first", "http://localhost:9998", "sleep 5"),
            server("second", "http://localhost:9999", "sleep 5"),
        ],
        "echo done",
    );
    let mut engine = ServerManager::new(c, 10, false).unwrap();
    engine.check_tier_deps(0).unwrap();
    engine.mark_spawned(0);
    engine.mark_spawned(1);
    for i in 0..2 {
        assert!(matches!(engine.begin_attempt(i), AttemptGate::Proceed));
        match engine.apply_probe(i, &ProbeOutcome::Status(500)) {
            ProbeVerdict::Fatal { abort, .. } => assert!(!abort),
            other => panic!("expected a fatal verdict, got {}", status_name(&other)),
        }
    }
    match engine.tier_outcome(0) {
        TierOutcome::Failed(m) => assert_eq!(m, "2 servers failed to start"),
        TierOutcome::AllReady => panic!("the tier should have failed"),
        TierOutcome::Pending => panic!("the tier is settled"),
    }
}

#[test]
fn single_failure_is_surfaced_unaggregated() {
    let c = config(
        vec![
            server("first", "http://localhost:9998", "sleep 5"),
            server("second", "http://localhost:9999", "sleep 5"),
        ],
        "echo done",
    );
    let mut engine = ServerManager::new(c, 10, false).unwrap();
    engine.check_tier_deps(0).unwrap();
    engine.mark_spawned(0);
    engine.mark_spawned(1);
    assert!(matches!(engine.begin_attempt(0), AttemptGate::Proceed));
    assert!(matches!(engine.apply_probe(0, &ProbeOutcome::Status(200)), ProbeVerdict::Ready));
    assert!(matches!(engine.begin_attempt(1), AttemptGate::Proceed));
    assert!(matches!(
        engine.apply_probe(1, &ProbeOutcome::Status(500)),
        ProbeVerdict::Fatal { .. }
    ));
    match engine.tier_outcome(0) {
        TierOutcome::Failed(m) => {
            assert_eq!(
                m,
                "Server second returned error status 500, this indicates a server problem"
            );
        },
        _ => panic!("the tier should have failed"),
    }
}

#[test]
fn dependent_tier_is_gated_until_the_dependency_is_ready() {
    let mut b = server("B", "http://localhost:2", "sleep 5");
    b.priority = 1;
    b.depends_on = vec!["A".to_string()];
    let c = config(vec![server("A", "http://localhost:1", "sleep 5"), b], "echo done");
    let mut engine = ServerManager::new(c, 10, false).unwrap();
    assert_eq!(engine.num_tiers(), 2);
    assert_eq!(engine.tier_members(0), vec![0]);
    assert_eq!(engine.tier_members(1), vec![1]);

    // A never becomes Ready: tier 1 must not start, so B is never spawned
    let gate = engine.check_tier_deps(1).unwrap_err();
    assert_eq!(gate, "Server 'B' depends on 'A' which is not ready");
    assert_eq!(engine.stop_plan(), Vec::<usize>::new());

    // once A is Ready, tier 1 may start
    engine.check_tier_deps(0).unwrap();
    engine.mark_spawned(0);
    assert!(matches!(engine.begin_attempt(0), AttemptGate::Proceed));
    assert!(matches!(engine.apply_probe(0, &ProbeOutcome::Status(200)), ProbeVerdict::Ready));
    engine.check_tier_deps(1).unwrap();
    engine.mark_spawned(1);
    assert_eq!(engine.stop_plan(), vec![0, 1]);
}

#[test]
fn tiers_are_planned_in_ascending_priority_order() {
    let mut a = server("a", "http://localhost:1", "sleep 5");
    a.priority = 2;
    let mut b = server("b", "http://localhost:2", "sleep 5");
    b.priority = 0;
    let mut c = server("c", "http://localhost:3", "sleep 5");
    c.priority = 1;
    let mut d = server("d", "http://localhost:4", "sleep 5");
    d.priority = 0;
    let cfg = config(vec![a, b, c, d], "echo done");
    let engine = ServerManager::new(cfg, 10, false).unwrap();
    assert_eq!(engine.num_tiers(), 3);
    assert_eq!(engine.tier_members(0), vec![1, 3]);
    assert_eq!(engine.tier_members(1), vec![2]);
    assert_eq!(engine.tier_members(2), vec![0]);
}

#[test]
fn unresolving_health_url_fails_before_the_command_runs() {
    // one server, an attempt budget of two, and probes that never resolve:
    // the run fails with the exact message and the command is never due
    let c = config(vec![server("X", "http://localhost:9999", "sleep 5")], "echo done");
    let engine = ServerManager::new(c, 2, false).unwrap();
    let (engine, m) = run_until_exhausted(engine, ProbeOutcome::ConnectionRefused);
    assert_eq!(m, "Could not connect to server X after 2 attempts");
    match engine.tier_outcome(0) {
        TierOutcome::Failed(tier_msg) => {
            assert_eq!(tier_msg, "Could not connect to server X after 2 attempts");
        },
        _ => panic!("the tier should have failed"),
    }
    assert!(!engine.all_ready());
}

#[test]
fn healthy_server_runs_the_command_and_is_stopped() {
    // one server whose health endpoint answers 200 at once: Ready on the
    // first attempt, the command becomes due, and teardown stops the server
    let c = config(vec![server("X", "http://localhost:8080", "sleep 5")], "echo done");
    let mut engine = ServerManager::new(c, 10, false).unwrap();
    engine.check_tier_deps(0).unwrap();
    engine.mark_spawned(0);
    assert!(matches!(engine.begin_attempt(0), AttemptGate::Proceed));
    assert!(matches!(engine.apply_probe(0, &ProbeOutcome::Status(200)), ProbeVerdict::Ready));
    assert_eq!(engine.attempt_count(0), 1);
    assert!(matches!(engine.tier_outcome(0), TierOutcome::AllReady));
    assert!(engine.all_ready());
    assert_eq!(engine.stop_plan(), vec![0]);
    assert_eq!(engine.config.command, "echo done");
}

#[test]
fn rejected_configuration_starts_nothing() {
    let mut a = server("a", "http://localhost:1", "sleep 5");
    a.depends_on = vec!["b".to_string()];
    let mut b = server("b", "http://localhost:2", "sleep 5");
    b.depends_on = vec!["a".to_string()];
    let cfg = config(vec![a, b], "echo done");
    assert!(ServerManager::new(cfg, 10, false).is_err());
}
