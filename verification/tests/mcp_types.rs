use indexmap::IndexMap;
use zaz::config::error::ConfigError;
use zaz::config::schema::{
    Config, DaemonCommand, Group, LogFormat, Settings, Signal, Silence, TaskCommand,
};
use zaz::daemon::api::{ApiRequest, ApiResponse, LogLine};
use zaz::daemon::error::{DaemonError, IoErrorKind};
use zaz::daemon::state::{
    DaemonState, DaemonStatus, GroupState, GroupStatus, ProcessState, ProcessStatus,
};
use zaz::mcp::client::{
    discover_config, fetch_logs, fetch_status, logs_request, open_client, restart_group,
    restart_process, send_mutation,
};
use zaz::mcp::error::McpError;
use zaz::mcp::types::{
    ConfigReport, DaemonStatusReport, GroupsReport, LogEntry, LogFormatReport, LogSourceReport,
    LogsReport, LogsRequest, OutputKindReport, ProcessKind, SignalReport, SilenceReport,
    StatusReport,
};

fn sample_state() -> DaemonState {
    let mut groups = IndexMap::new();
    groups.insert(
        "backend".to_string(),
        GroupState {
            name: "backend".to_string(),
            status: GroupStatus::Ready,
            tasks: vec![ProcessState {
                name: "build".to_string(),
                status: ProcessStatus::Success,
                pid: None,
                exit_code: Some(0),
                duration_ms: Some(420),
            }],
            services: vec![ProcessState {
                name: "server".to_string(),
                status: ProcessStatus::Running,
                pid: Some(4242),
                exit_code: None,
                duration_ms: None,
            }],
        },
    );
    DaemonState {
        status: DaemonStatus::Running,
        groups,
        watched_files: 17,
        last_change: Some(1_700_000_000_000),
    }
}

#[test]
fn status_report_flattens_tasks_and_daemons() {
    let report: StatusReport = StatusReport::from(&sample_state());
    assert!(matches!(report.daemon_status, DaemonStatusReport::Running));
    assert_eq!(report.watched_files, 17);
    assert_eq!(report.last_change_ms, Some(1_700_000_000_000));
    assert_eq!(report.groups.len(), 1);
    let backend = &report.groups[0];
    assert_eq!(backend.name, "backend");
    assert_eq!(backend.processes.len(), 2);
    assert!(matches!(backend.processes[0].kind, ProcessKind::Task));
    assert_eq!(backend.processes[0].name, "build");
    assert!(matches!(backend.processes[1].kind, ProcessKind::Daemon));
    assert_eq!(backend.processes[1].pid, Some(4242));
}

#[test]
fn groups_report_is_slim() {
    let report = GroupsReport::from(&sample_state());
    assert_eq!(report.groups.len(), 1);
    let summary = &report.groups[0];
    assert_eq!(summary.name, "backend");
    assert_eq!(summary.task_count, 1);
    assert_eq!(summary.daemon_count, 1);
}

#[test]
fn log_entry_round_trips_log_line() {
    let line = LogLine::stderr("server", "boom").with_group("backend");
    let entry = LogEntry::from(&line);
    assert_eq!(entry.process, "server");
    assert_eq!(entry.group.as_deref(), Some("backend"));
    assert!(matches!(entry.source, LogSourceReport::Process));
    assert!(matches!(entry.output_kind, OutputKindReport::Stderr));
    assert_eq!(entry.content, "boom");
}

#[test]
fn config_report_includes_path_and_groups() {
    let mut config = Config::default();
    config.groups.push(Group {
        name: "frontend".to_string(),
        patterns: vec!["src/**/*.ts".to_string()],
        tasks: vec![TaskCommand::new("typecheck", "tsc --noEmit")],
        ..Default::default()
    });
    let report = ConfigReport::from_config("/tmp/zaz.toml", &config);
    assert_eq!(report.path, "/tmp/zaz.toml");
    assert_eq!(report.groups.len(), 1);
    assert_eq!(report.groups[0].name, "frontend");
    assert_eq!(report.groups[0].tasks.len(), 1);
    assert_eq!(report.groups[0].tasks[0].name, "typecheck");
    assert_eq!(report.groups[0].tasks[0].command, "tsc --noEmit");
}

#[test]
fn config_report_shows_every_setting() {
    let mut config = Config::default();
    config.settings = Settings::default();
    config.settings.shell = Some("/bin/zsh".to_string());
    config.settings.log_format = LogFormat::Json;
    config
        .variables
        .insert("out".to_string(), "dist".to_string());
    let mut daemon = DaemonCommand::new("server", "./server");
    daemon.signal = Signal::Sighup;
    daemon.silence = Silence::Stdout;
    daemon.delay_ms = Some(250);
    config.groups.push(Group {
        name: "backend".to_string(),
        daemons: vec![daemon],
        ..Default::default()
    });
    let report = ConfigReport::from_config("zaz.toml", &config);
    assert_eq!(report.settings.shell.as_deref(), Some("/bin/zsh"));
    assert!(matches!(report.settings.log_format, LogFormatReport::Json));
    assert_eq!(
        report.variables.get("out").map(|v| v.as_str()),
        Some("dist")
    );
    let server = &report.groups[0].daemons[0];
    assert!(matches!(server.signal, SignalReport::Sighup));
    assert!(matches!(server.silence, SilenceReport::Stdout));
    assert_eq!(server.delay_ms, Some(250));
}

fn empty_state() -> DaemonState {
    DaemonState {
        status: DaemonStatus::Stopping,
        groups: IndexMap::new(),
        watched_files: 0,
        last_change: None,
    }
}

#[test]
fn a_status_response_gives_the_state() {
    let response = ApiResponse::Status {
        state: empty_state(),
    };
    let state = fetch_status(response, "shown").unwrap();
    assert_eq!(state.status, DaemonStatus::Stopping);
    let refused = fetch_status(ApiResponse::error("busy"), "shown").unwrap_err();
    assert_eq!(refused.to_string(), "unexpected daemon response: busy");
    let odd = fetch_status(ApiResponse::ok(), "Ok").unwrap_err();
    assert_eq!(
        odd.to_string(),
        "unexpected daemon response: expected Status, got Ok"
    );
}

#[test]
fn logs_are_asked_for_and_read_page_by_page() {
    let request = LogsRequest {
        name: None,
        project: None,
        offset: Some(3),
        limit: Some(5),
        search: Some("x".to_string()),
    };
    match logs_request(&request) {
        ApiRequest::GetLogs {
            name,
            project,
            lines,
            offset,
            limit,
            search,
        } => {
            assert_eq!(name, "*");
            assert_eq!(project, None);
            assert_eq!(lines, None);
            assert_eq!((offset, limit), (Some(3), Some(5)));
            assert_eq!(search.as_deref(), Some("x"));
        }
        other => panic!("expected GetLogs, got {:?}", other),
    }
    let response = ApiResponse::Logs {
        name: "*".to_string(),
        lines: vec![LogLine::process("a", "hello")],
        total_count: Some(9),
        has_more: Some(true),
        offset: Some(3),
    };
    let page = fetch_logs(response, "").unwrap();
    let report = LogsReport::from_page(page);
    assert_eq!(report.entries.len(), 1);
    assert_eq!(report.entries[0].content, "hello");
    assert_eq!(report.total_count, Some(9));
    assert!(fetch_logs(ApiResponse::error("no"), "").is_err());
}

#[test]
fn restarts_name_what_is_restarted() {
    match restart_group("backend", Some("api")) {
        ApiRequest::RestartGroup { name, project } => {
            assert_eq!(name, "backend");
            assert_eq!(project.as_deref(), Some("api"));
        }
        other => panic!("expected RestartGroup, got {:?}", other),
    }
    match restart_process("backend", "server", None) {
        ApiRequest::RestartProcess {
            group,
            process,
            project,
        } => {
            assert_eq!(group, "backend");
            assert_eq!(process, "server");
            assert_eq!(project, None);
        }
        other => panic!("expected RestartProcess, got {:?}", other),
    }
}

#[test]
fn mutations_are_confirmed_or_refused() {
    let done = send_mutation(ApiResponse::ok_with_message("done"), "restart_all", "");
    assert_eq!(done.unwrap(), "done");
    assert_eq!(send_mutation(ApiResponse::ok(), "restart_all", "").unwrap(), "ok");
    match send_mutation(ApiResponse::error("no"), "restart_all", "") {
        Err(McpError::DaemonRefused { operation, message }) => {
            assert_eq!(operation, "restart_all");
            assert_eq!(message, "no");
        }
        other => panic!("expected a refusal, got {:?}", other),
    }
    let odd = send_mutation(ApiResponse::EndOfStream, "restart_all", "EndOfStream");
    assert_eq!(
        odd.unwrap_err().to_string(),
        "unexpected daemon response: expected Ok for restart_all, got EndOfStream"
    );
}

#[test]
fn fetch_status_returns_daemon_not_running_when_socket_absent() {
    let socket = "/tmp/nonexistent.sock";
    let absent = DaemonError::Bind {
        kind: IoErrorKind::NotFound,
        message: "no such file".to_string(),
    };
    match open_client(absent, socket) {
        McpError::DaemonNotRunning { socket: s } => {
            assert_eq!(s, socket, "error must echo the supplied socket path");
        }
        other => panic!("expected DaemonNotRunning, got: {:?}", other),
    }
    let refused = DaemonError::Bind {
        kind: IoErrorKind::ConnectionRefused,
        message: "refused".to_string(),
    };
    assert!(matches!(
        open_client(refused, socket),
        McpError::DaemonNotRunning { .. }
    ));
    let other = DaemonError::Bind {
        kind: IoErrorKind::Other,
        message: "denied".to_string(),
    };
    assert!(matches!(open_client(other, socket), McpError::Daemon(_)));
}

/// Loads the files that there are.
fn load(path: &String) -> Result<Config, ConfigError> {
    let mut config = Config::default();
    match path.as_str() {
        "/p/zaz.toml" => config.settings.debounce_ms = 100,
        "/p/custom/alt.toml" => config.settings.debounce_ms = 250,
        _ => {
            return Err(ConfigError::NotFound {
                searched: vec![path.clone()],
            })
        }
    }
    Ok(config)
}

#[test]
fn discover_config_honors_explicit_path() {
    let explicit = Some("/p/custom/alt.toml".to_string());
    let discovered = Some("/p/zaz.toml".to_string());
    let (path, config) = discover_config(explicit, discovered, "/p/a/b", load).unwrap();
    assert_eq!(path, "/p/custom/alt.toml");
    assert_eq!(config.settings.debounce_ms, 250);
}

#[test]
fn discover_config_walks_upward() {
    let discovered = Some("/p/zaz.toml".to_string());
    let (path, config) = discover_config(None, discovered, "/p/a/b", load).unwrap();
    assert_eq!(path, "/p/zaz.toml");
    assert_eq!(config.settings.debounce_ms, 100);
}

#[test]
fn a_config_that_does_not_load_is_a_config_error() {
    let explicit = Some("/p/broken.toml".to_string());
    match discover_config(explicit, None, "/p", load).unwrap_err() {
        McpError::Config(ConfigError::NotFound { searched }) => {
            assert_eq!(searched, vec!["/p/broken.toml"]);
        }
        other => panic!("expected Config, got: {:?}", other),
    }
}

#[test]
fn discover_config_reports_missing_project() {
    let err = discover_config(None, None, "/p", |_: &String| panic!("nothing to load")).unwrap_err();
    match err {
        McpError::NoConfig { start_dir } => assert_eq!(start_dir, "/p"),
        other => panic!("expected NoConfig, got: {:?}", other),
    }
}
