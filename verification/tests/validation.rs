use server_runner::{
    default_timeout, parse_method, parse_output_mode, validate_config, Args, Config, ConfigError,
    HealthCheck, Hooks, HttpMethod, OutputMode, Server,
};

fn server(name: &str, url: &str, command: &str) -> Server {
    Server {
        name: name.to_string(),
        url: url.to_string(),
        command: command.to_string(),
        timeout: default_timeout(),
        priority: 0,
        depends_on: Vec::new(),
        retry_interval: 1,
        startup_delay: 0,
        env: Vec::new(),
        hooks: Hooks { before_start: None, after_ready: None, before_stop: None },
        health_check: HealthCheck {
            method: HttpMethod::Get,
            expected_status: vec![200],
            headers: Vec::new(),
        },
        output: OutputMode::Inherit,
    }
}

fn config(servers: Vec<Server>, command: &str) -> Config {
    Config { servers, command: command.to_string(), env: Vec::new() }
}

#[test]
fn fails_on_empty_server_list() {
    let c = config(Vec::new(), "echo done");
    let err = validate_config(&c).unwrap_err();
    assert_eq!(err, ConfigError::NoServers);
    assert_eq!(err.message(), "Configuration must include at least one server");
}

#[test]
fn fails_on_empty_command() {
    let c = config(vec![server("a", "http://localhost:1", "sleep 1")], "   ");
    let err = validate_config(&c).unwrap_err();
    assert_eq!(err, ConfigError::NoCommand);
    assert_eq!(err.message(), "Configuration must include a command to run");
}

#[test]
fn rejects_blank_server_fields() {
    let c = config(vec![server("  ", "http://localhost:1", "sleep 1")], "echo done");
    let err = validate_config(&c).unwrap_err();
    assert_eq!(err.message(), "Server name cannot be empty");

    let c = config(vec![server("a", " ", "sleep 1")], "echo done");
    let err = validate_config(&c).unwrap_err();
    assert_eq!(err.message(), "Server URL cannot be empty");

    let c = config(vec![server("a", "http://localhost:1", "")], "echo done");
    let err = validate_config(&c).unwrap_err();
    assert_eq!(err.message(), "Server command cannot be empty");
}

#[test]
fn rejects_bad_timeouts() {
    let mut s = server("a", "http://localhost:1", "sleep 1");
    s.timeout = 0;
    let err = validate_config(&config(vec![s], "echo done")).unwrap_err();
    assert_eq!(err.message(), "Server timeout must be greater than 0");

    let mut s = server("a", "http://localhost:1", "sleep 1");
    s.timeout = 301;
    let err = validate_config(&config(vec![s], "echo done")).unwrap_err();
    assert_eq!(err.message(), "Server timeout cannot exceed 300 seconds");
}

#[test]
fn rejects_file_output_without_path() {
    let mut s = server("a", "http://localhost:1", "sleep 1");
    s.output = OutputMode::File { stdout: None, stderr: None };
    let err = validate_config(&config(vec![s], "echo done")).unwrap_err();
    assert_eq!(err, ConfigError::FileOutputWithoutPath);

    let mut s = server("a", "http://localhost:1", "sleep 1");
    s.output = OutputMode::File { stdout: Some("out.log".to_string()), stderr: None };
    assert!(validate_config(&config(vec![s], "echo done")).is_ok());
}

#[test]
fn rejects_duplicate_names() {
    let c = config(
        vec![server("a", "http://localhost:1", "sleep 1"), server("a", "http://localhost:2", "sleep 1")],
        "echo done",
    );
    match validate_config(&c).unwrap_err() {
        ConfigError::DuplicateName(n) => assert_eq!(n, "a"),
        other => panic!("expected a duplicate-name rejection, got {:?}", other),
    }
}

#[test]
fn rejects_self_dependency() {
    let mut s = server("a", "http://localhost:1", "sleep 1");
    s.depends_on = vec!["a".to_string()];
    match validate_config(&config(vec![s], "echo done")).unwrap_err() {
        ConfigError::SelfDependency(n) => assert_eq!(n, "a"),
        other => panic!("expected a self-dependency rejection, got {:?}", other),
    }
}

#[test]
fn rejects_unknown_dependency() {
    let mut s = server("a", "http://localhost:1", "sleep 1");
    s.depends_on = vec!["ghost".to_string()];
    match validate_config(&config(vec![s], "echo done")).unwrap_err() {
        ConfigError::UnknownDependency(n, d) => {
            assert_eq!(n, "a");
            assert_eq!(d, "ghost");
        },
        other => panic!("expected an unknown-dependency rejection, got {:?}", other),
    }
}

#[test]
fn accepts_acyclic_graph() {
    // a diamond: d depends on b and c, which both depend on a
    let mut b = server("b", "http://localhost:2", "sleep 1");
    b.depends_on = vec!["a".to_string()];
    b.priority = 1;
    let mut c = server("c", "http://localhost:3", "sleep 1");
    c.depends_on = vec!["a".to_string()];
    c.priority = 1;
    let mut d = server("d", "http://localhost:4", "sleep 1");
    d.depends_on = vec!["b".to_string(), "c".to_string()];
    d.priority = 2;
    let cfg = config(vec![server("a", "http://localhost:1", "sleep 1"), b, c, d], "echo done");
    assert!(validate_config(&cfg).is_ok());
}

#[test]
fn rejects_cycle_and_reports_repeated_node() {
    let mut a = server("a", "http://localhost:1", "sleep 1");
    a.depends_on = vec!["b".to_string()];
    let mut b = server("b", "http://localhost:2", "sleep 1");
    b.depends_on = vec!["c".to_string()];
    let mut c = server("c", "http://localhost:3", "sleep 1");
    c.depends_on = vec!["a".to_string()];
    let cfg = config(vec![a, b, c], "echo done");
    match validate_config(&cfg).unwrap_err() {
        ConfigError::DependencyCycle(path) => {
            assert!(path.len() >= 2);
            assert_eq!(path.first(), path.last());
            let msg = ConfigError::DependencyCycle(path).message();
            assert!(msg.starts_with("Dependency cycle detected: "));
            assert!(msg.contains(" -> "));
        },
        other => panic!("expected a cycle rejection, got {:?}", other),
    }
}

#[test]
fn validator_is_idempotent() {
    let mut a = server("a", "http://localhost:1", "sleep 1");
    a.depends_on = vec!["a".to_string()];
    let bad = config(vec![a], "echo done");
    let good = config(vec![server("a", "http://localhost:1", "sleep 1")], "echo done");
    assert_eq!(validate_config(&bad).is_ok(), validate_config(&bad).is_ok());
    assert_eq!(validate_config(&good).is_ok(), validate_config(&good).is_ok());
    assert!(validate_config(&good).is_ok());
    assert!(validate_config(&bad).is_err());
}

#[test]
fn args_validation() {
    let ok = Args {
        config: "servers.yaml".to_string(),
        verbose: false,
        attempts: 10,
        poll_interval: 1,
        startup_timeout: None,
        fail_fast: false,
        continue_on_error: false,
    };
    assert!(ok.validate().is_ok());

    let mut bad = ok.clone();
    bad.attempts = 0;
    assert_eq!(bad.validate().unwrap_err(), "Attempts must be greater than 0");

    let mut bad = ok.clone();
    bad.poll_interval = 0;
    assert_eq!(bad.validate().unwrap_err(), "Poll interval must be greater than 0");

    let mut bad = ok.clone();
    bad.fail_fast = true;
    bad.continue_on_error = true;
    assert_eq!(bad.validate().unwrap_err(), "Cannot use both --fail-fast and --continue-on-error");
}

#[test]
fn output_mode_names_map_to_closed_set() {
    assert!(matches!(
        parse_output_mode(&"inherit".to_string(), None, None, None),
        Some(OutputMode::Inherit)
    ));
    assert!(matches!(
        parse_output_mode(&"null".to_string(), None, None, None),
        Some(OutputMode::Null)
    ));
    match parse_output_mode(&"capture".to_string(), None, None, Some("[api]".to_string())) {
        Some(OutputMode::Capture { prefix }) => assert_eq!(prefix.as_deref(), Some("[api]")),
        other => panic!("expected capture mode, got {:?}", other),
    }
    match parse_output_mode(&"file".to_string(), Some("o.log".to_string()), None, None) {
        Some(OutputMode::File { stdout, stderr }) => {
            assert_eq!(stdout.as_deref(), Some("o.log"));
            assert!(stderr.is_none());
        },
        other => panic!("expected file mode, got {:?}", other),
    }
    // an unrecognized mode selects nothing: the loader rejects it
    assert!(parse_output_mode(&"tee".to_string(), None, None, None).is_none());
}

#[test]
fn method_names_map_to_closed_set() {
    assert_eq!(parse_method(&"GET".to_string()), HttpMethod::Get);
    assert_eq!(parse_method(&"POST".to_string()), HttpMethod::Post);
    assert_eq!(parse_method(&"HEAD".to_string()), HttpMethod::Head);
    assert_eq!(parse_method(&"PUT".to_string()), HttpMethod::Put);
    assert_eq!(parse_method(&"PATCH".to_string()), HttpMethod::Patch);
    assert_eq!(parse_method(&"DELETE".to_string()), HttpMethod::Delete);
    assert_eq!(parse_method(&"BOGUS".to_string()), HttpMethod::Get);
}
