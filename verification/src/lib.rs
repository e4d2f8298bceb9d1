//! Orchestration engine for auxiliary server processes: a dependency-graph
//! validator, priority-tiered startup sequencing, health-check polling with
//! bounded retries, failure-policy handling, and the message-passing bridge
//! between a background orchestration task and a foreground presenter.

mod attempts;
mod cli;
mod command;
mod config;
mod constants;
mod engine;
mod graph;
mod health;
mod text;
mod tui;

pub use attempts::Attempts;
pub use cli::{Args, args_ok};
pub use command::{parse_command, shell_tokens, CommandError};
pub use config::{
    config_ok, default_timeout, dependencies_acyclic, is_dependency_cycle,
    lemma_validation_deterministic, parse_method, parse_output_mode, validate_config, Config,
    ConfigError,
    HealthCheck, Hooks, HttpMethod, OutputMode, Server,
};
pub use constants::{
    DEFAULT_CONFIG_FILE, DEFAULT_MAX_ATTEMPTS, HEALTH_CHECK_INTERVAL_SECONDS,
    MAX_OUTPUT_LINES_PER_SERVER,
};
pub use engine::{
    attempts_after, gate_exhausts, lemma_attempt_budget, lemma_spawned_deps_ready, tiers_wf,
    AttemptGate, ProbeVerdict, ServerManager, ServerName, ServerStatus, TierOutcome,
};
pub use graph::{acyclic, find_cycle, is_cycle};
pub use health::{classify, classify_spec, HealthClass, ProbeOutcome};
pub use text::{
    aggregate_message, aggregate_msg, connect_error_message, connect_error_msg, dec_str,
    dependency_unmet_message, dependency_unmet_msg, exhausted_message, exhausted_msg, is_blank,
    server_error_message, server_error_msg, stop_failed_message, stop_failed_msg, u64_decimal,
};
pub use tui::{has_key, key_at, lines_view, tail_start, TuiMessage, UiState};
