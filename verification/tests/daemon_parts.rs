use zaz::config::error::ConfigError;
use zaz::config::schema::{Config, DaemonCommand, Group, Settings, Silence, TaskCommand};
use zaz::config::toml_spanned::{separate_spans, SpannedConfig, SpannedGroup, SpannedText};
use zaz::daemon::api::{ApiRequest, ApiResponse, LogLine, LogSource, OutputKind};
use zaz::daemon::engine::{Action, CheckStep, Engine, ServiceStep, TaskExecutionContext};
use zaz::daemon::log_layer::EventFields;
use zaz::daemon::log_storage::{LogQueryResult, LogStorage, LogStorageError};
use zaz::daemon::log_store::LogStore;
use zaz::daemon::requests::{log_query, page_response, reload_reply, request_query, RequestStep};
use zaz::daemon::state::{GroupStatus, ProcessStatus};
use zaz::daemon::tasks::{output_line, running_line, task_finished, terminal_line};
use zaz::daemon::trigger::{Expansions, ReloadResult, RestartScope, TriggerSource};
use zaz::process::error::ProcessError;
use zaz::process::executor::{Executor, OutputLine};
use zaz::process::service::{Child, ChildStatus};
use zaz::strmap::StrMap;

fn group(name: &str) -> Group {
    Group {
        name: name.to_string(),
        patterns: vec!["*.rs".to_string()],
        tasks: vec![TaskCommand::new("build", "make")],
        daemons: vec![DaemonCommand::new("srv", "./srv")],
        ..Default::default()
    }
}

fn config(groups: Vec<Group>) -> Config {
    Config {
        settings: Settings::default(),
        variables: StrMap::new(),
        groups,
    }
}

fn engine(groups: Vec<Group>, embedded: bool) -> Engine {
    Engine::from_config(config(groups), "/p".to_string(), None, embedded).unwrap()
}

fn expansions() -> Expansions {
    let mut exp = Expansions::new();
    exp.record("make".to_string(), Ok("make -j".to_string()));
    exp
}

fn ask(engine: &mut Engine, request: ApiRequest) -> RequestStep {
    engine.handle_request(&LogStore::new(), None, request, &expansions())
}

fn said(step: RequestStep) -> Result<String, String> {
    match step {
        RequestStep::Reply(ApiResponse::Success { message }) => Ok(message.unwrap_or_default()),
        RequestStep::Reply(ApiResponse::Error { message }) => Err(message),
        _ => panic!("expected an answer in words"),
    }
}

fn context(silence: Silence) -> TaskExecutionContext {
    TaskExecutionContext {
        task_id: "g:t".to_string(),
        group_name: "g".to_string(),
        task_name: "t".to_string(),
        task_index: 2,
        command: "make".to_string(),
        executor: Executor::new(None, None),
        silence,
    }
}

// ---------- requests ----------

#[test]
fn restarts_are_confirmed() {
    let mut e = engine(vec![group("g")], false);
    let step = ask(
        &mut e,
        ApiRequest::RestartGroup {
            name: "g".to_string(),
            project: None,
        },
    );
    assert_eq!(said(step), Ok("restart initiated for group 'g'".to_string()));
    assert!(e.is_task_running("g:build"));
    let step = ask(
        &mut e,
        ApiRequest::RestartGroup {
            name: "h".to_string(),
            project: None,
        },
    );
    assert_eq!(
        said(step),
        Err("failed to restart group 'h': group not found: h".to_string())
    );
    let step = ask(&mut e, ApiRequest::RestartAll);
    assert_eq!(said(step), Ok("restart initiated for all groups".to_string()));
    assert!(e.is_task_pending("g:build"));
}

#[test]
fn a_task_is_restarted_by_its_name() {
    let mut e = engine(vec![group("g")], false);
    let ask_for = |process: &str, group: &str| ApiRequest::RestartProcess {
        group: group.to_string(),
        process: process.to_string(),
        project: None,
    };
    assert_eq!(
        said(ask(&mut e, ask_for("build", "g"))),
        Ok("restarted 'build'".to_string())
    );
    let commands: Vec<String> = e
        .take_actions()
        .into_iter()
        .filter_map(|a| match a {
            Action::Run(run) => Some(run.command),
            _ => None,
        })
        .collect();
    assert_eq!(commands, vec!["make -j"]);
    assert_eq!(
        said(ask(&mut e, ask_for("nope", "g"))),
        Err("failed to restart 'nope' in group 'g': task 'nope' failed: \
             process 'nope' not found in group 'g'"
            .to_string())
    );
    assert_eq!(
        said(ask(&mut e, ask_for("build", "h"))),
        Err("failed to restart 'build' in group 'h': group not found: h".to_string())
    );
    // A service is signalled; here it does not run yet.
    match ask(&mut e, ask_for("srv", "g")) {
        RequestStep::SignalService { signal, .. } => assert_eq!(signal, None),
        _ => panic!("expected a signal"),
    }
    let reply = e.process_restarted("g", "srv", Ok(()), &expansions());
    assert!(matches!(reply, ApiResponse::Success { message: Some(m) } if m == "restarted 'srv'"));
    let failed = Err(ProcessError::SendSignal("gone".to_string()));
    match e.process_restarted("g", "srv", failed, &expansions()) {
        ApiResponse::Error { message } => assert_eq!(
            message,
            "failed to restart 'srv' in group 'g': process error: failed to send signal: gone"
        ),
        _ => panic!("expected a refusal"),
    }
}

#[test]
fn a_command_that_does_not_expand_is_not_run() {
    let mut e = engine(vec![group("g")], false);
    let mut exp = Expansions::new();
    exp.record("make".to_string(), Err("undefined variable".to_string()));
    let request = ApiRequest::RestartProcess {
        group: "g".to_string(),
        process: "build".to_string(),
        project: None,
    };
    let step = e.handle_request(&LogStore::new(), None, request, &exp);
    assert!(said(step).unwrap_err().contains("undefined variable"));
    assert!(e.is_idle());
}

#[test]
fn only_a_daemon_of_its_own_can_be_shut_down() {
    let mut own = engine(vec![], false);
    assert_eq!(
        said(ask(&mut own, ApiRequest::Shutdown)),
        Ok("shutting down".to_string())
    );
    let mut embedded = engine(vec![], true);
    assert_eq!(
        said(ask(&mut embedded, ApiRequest::Shutdown)),
        Err("cannot stop embedded daemon; use the TUI to quit or press Ctrl+C".to_string())
    );
}

#[test]
fn status_lists_the_groups() {
    let mut e = engine(vec![group("g"), group("h")], false);
    match ask(&mut e, ApiRequest::ListGroups) {
        RequestStep::Reply(ApiResponse::Status { state }) => {
            assert_eq!(state.groups.len(), 2);
            assert_eq!(state.groups.get_index(0).unwrap().0, "g");
            assert_eq!(state.groups["h"].status, GroupStatus::Pending);
        }
        _ => panic!("expected a status"),
    }
}

#[test]
fn a_subscription_is_acknowledged() {
    let mut e = engine(vec![group("g")], false);
    for request in [
        ApiRequest::Subscribe,
        ApiRequest::SubscribeLogs {
            name: "p".to_string(),
        },
    ] {
        assert!(matches!(
            ask(&mut e, request),
            RequestStep::Reply(ApiResponse::Success { message: None })
        ));
    }
}

fn logs_of(name: &str, limit: Option<usize>) -> ApiRequest {
    ApiRequest::GetLogs {
        name: name.to_string(),
        project: None,
        lines: None,
        offset: None,
        limit,
        search: None,
    }
}

fn logged(step: RequestStep) -> Vec<String> {
    match step {
        RequestStep::Reply(ApiResponse::Logs { lines, .. }) => {
            lines.into_iter().map(|l| l.content).collect()
        }
        _ => panic!("expected logs"),
    }
}

#[test]
fn a_database_answers_what_asks_for_a_page_and_nothing_else() {
    let mut e = engine(vec![group("g")], false);
    let exp = expansions();
    let mut store = LogStore::new();
    store.push(LogLine::process("p", "recent")).unwrap();
    let page = || LogQueryResult {
        logs: vec![LogLine::process("p", "historical")],
        total_count: 7,
        has_more: true,
        offset: 0,
    };
    let failed = || LogStorageError::Query("no such table".to_string());

    assert_eq!(request_query(&logs_of("p", Some(1))).unwrap().limit, Some(1));
    assert!(request_query(&logs_of("p", None)).is_none());
    assert!(request_query(&ApiRequest::Status).is_none());

    let step = e.handle_request(&store, Some(Ok(page())), logs_of("p", Some(1)), &exp);
    match step {
        RequestStep::Reply(ApiResponse::Logs {
            name,
            lines,
            total_count,
            has_more,
            offset,
        }) => {
            assert_eq!(name, "p");
            assert_eq!(lines[0].content, "historical");
            assert_eq!((total_count, has_more, offset), (Some(7), Some(true), Some(0)));
        }
        _ => panic!("expected logs"),
    }
    let step = e.handle_request(&store, None, logs_of("p", Some(1)), &exp);
    assert_eq!(logged(step), vec!["recent"]);
    let step = e.handle_request(&store, Some(Err(failed())), logs_of("p", Some(1)), &exp);
    assert_eq!(said(step), Err("no such table".to_string()));
    let step = e.handle_request(&store, Some(Ok(page())), logs_of("p", None), &exp);
    assert_eq!(logged(step), vec!["recent"]);
    let step = e.handle_request(&store, Some(Err(failed())), logs_of("p", None), &exp);
    assert_eq!(logged(step), vec!["recent"]);
}

#[test]
fn the_watcher_keeps_its_debounce_over_a_reload() {
    assert_eq!(engine(vec![], false).debounce_ms(), 100);
    let mut slow = config(vec![group("g")]);
    slow.settings.debounce_ms = 250;
    let mut e = Engine::from_config(slow, "/p".to_string(), None, false).unwrap();
    assert_eq!(e.debounce_ms(), 250);
    let mut quick = config(vec![group("g")]);
    quick.settings.debounce_ms = 10;
    e.reload_config(Ok(quick), Ok(())).unwrap();
    assert_eq!(e.debounce_ms(), 250);
}

#[test]
fn a_request_without_a_page_makes_no_query() {
    assert!(log_query("p", Some(3), None, None, &None).is_none());
    let query = log_query("p", Some(3), Some(1), None, &None).unwrap();
    assert_eq!(query.limit, Some(3));
    assert_eq!(query.offset, Some(1));
    let query = log_query("*", Some(3), None, Some(4), &Some("x".to_string())).unwrap();
    assert!(query.is_all_processes());
    assert_eq!(query.limit, Some(4));
    assert_eq!(query.search.as_deref(), Some("x"));
    match page_response("p".to_string(), LogQueryResult::empty()) {
        ApiResponse::Logs {
            total_count,
            has_more,
            offset,
            ..
        } => assert_eq!((total_count, has_more, offset), (Some(0), Some(false), Some(0))),
        _ => panic!("expected logs"),
    }
}

// ---------- reload ----------

#[test]
fn a_reload_tells_what_changed() {
    let mut e = engine(vec![group("a"), group("b")], false);
    let mut changed = group("b");
    changed.patterns = vec!["*.go".to_string()];
    let changes = e
        .reload_config(Ok(config(vec![changed, group("c")])), Ok(()))
        .unwrap();
    assert_eq!(changes.added, vec!["c"]);
    assert_eq!(changes.removed, vec!["a"]);
    assert_eq!(changes.modified, vec!["b"]);
    assert!(e.group("a").is_none());
    assert!(e.group("c").is_some());
    match reload_reply(e.reload_done(changes)) {
        ApiResponse::Success { message } => assert_eq!(
            message.as_deref(),
            Some("config reloaded: 1 added, 1 removed, 1 modified")
        ),
        _ => panic!("expected a confirmation"),
    }
}

#[test]
fn a_reload_that_fails_changes_nothing() {
    let mut e = engine(vec![group("a")], false);
    assert!(e
        .reload_config(Err(ConfigError::Json("eof".to_string())), Ok(()))
        .is_err());
    assert!(e.group("a").is_some());
    match reload_reply(ReloadResult::Failed("eof".to_string())) {
        ApiResponse::Error { message } => assert_eq!(message, "reload failed: eof"),
        _ => panic!("expected a refusal"),
    }
}

// ---------- services ----------

#[test]
fn a_service_that_exits_is_restarted_after_a_delay() {
    let mut e = engine(vec![group("g")], false);
    let child = Child {
        pid: Some(9),
        pty: true,
    };
    e.service_restarted(0, 0, Some((child, 0)));
    assert!(matches!(e.check_step(0, 0, 1), CheckStep::Look));
    let crash = ChildStatus::Exited {
        success: false,
        code: Some(3),
    };
    let info = e.service_seen(0, 0, crash, 1_000).unwrap().unwrap();
    assert_eq!(info.exit_code, Some(3));
    assert_eq!(
        e.group("g").unwrap().services[0].status,
        ProcessStatus::Backoff
    );
    e.log_exit(0, 0, "0.00", info.exit_code);
    let logged: Vec<String> = e
        .take_actions()
        .into_iter()
        .filter_map(|a| match a {
            Action::Log { content, .. } => Some(content),
            _ => None,
        })
        .collect();
    assert!(logged.iter().any(|l| l.contains("exit code: 3")), "{logged:?}");
    // One second, the delay after one quick failure.
    let due = 1_000 + 1_000 * 1_000_000;
    assert!(matches!(e.check_step(0, 0, due - 1), CheckStep::Wait));
    assert!(matches!(
        e.check_step(0, 0, due),
        CheckStep::Restart(ServiceStep::Start { .. })
    ));
    let child = Child {
        pid: Some(10),
        pty: true,
    };
    e.service_restarted(0, 0, Some((child, due)));
    assert_eq!(e.group("g").unwrap().services[0].pid, Some(10));
    assert!(matches!(e.check_step(0, 0, due + 1), CheckStep::Look));
}

#[test]
fn a_shutdown_stops_the_services() {
    let mut e = engine(vec![group("g")], false);
    let child = Child {
        pid: Some(9),
        pty: true,
    };
    e.service_restarted(0, 0, Some((child, 0)));
    e.begin_shutdown();
    assert_eq!(e.stop_service(0, 0), Some(9));
    e.service_killed(0, 0);
    assert_eq!(e.service(0, 0).unwrap().pid(), None);
}

// ---------- tasks ----------

#[test]
fn output_of_a_task_is_logged_unless_silenced() {
    let line = running_line(&context(Silence::Off));
    assert_eq!(line.process, "t");
    assert_eq!(line.group.as_deref(), Some("g"));
    assert_eq!(line.source, LogSource::Daemon);
    let out = || OutputLine::Stdout("out".to_string());
    let err = || OutputLine::Stderr("err".to_string());
    let shown = output_line(&context(Silence::Stdout), err()).unwrap();
    assert_eq!(shown.content, "err");
    assert_eq!(shown.output_kind, OutputKind::Stderr);
    assert!(output_line(&context(Silence::Stdout), out()).is_none());
    assert!(output_line(&context(Silence::All), err()).is_none());
    assert_eq!(
        output_line(&context(Silence::Off), out()).unwrap().output_kind,
        OutputKind::Stdout
    );
}

#[test]
fn a_task_reports_how_it_went() {
    let (line, completion) = task_finished(context(Silence::Off), Ok(Some(0)), 1500, "1.50");
    assert_eq!(line.content, "completed in 1.50s (exit code: 0)");
    assert!(completion.success);
    assert_eq!(completion.status, ProcessStatus::Success);
    assert_eq!(completion.task_id, "g:t");
    assert_eq!(completion.task_index, 2);
    assert_eq!(completion.duration_ms, Some(1500));

    let (line, completion) = task_finished(context(Silence::Off), Ok(Some(7)), 1, "0.00");
    assert_eq!(line.content, "failed: process exited with status 7");
    assert!(!completion.success);
    assert_eq!(completion.exit_code, Some(7));

    let (line, completion) = task_finished(context(Silence::Off), Ok(None), 1, "0.00");
    assert_eq!(line.content, "completed in 0.00s (exit code: ?)");
    assert!(completion.success);

    let error = Err(ProcessError::Spawn("no shell".to_string()));
    let (line, completion) = task_finished(context(Silence::Off), error, 1, "0.00");
    assert_eq!(line.content, "failed: failed to spawn process: no shell");
    assert_eq!(completion.exit_code, None);
}

#[test]
fn terminal_output_is_logged_line_by_line() {
    let group = Some("g".to_string());
    let line = terminal_line("srv", &group, "  ready \r\n").unwrap();
    assert_eq!(line.content, "  ready");
    assert_eq!(line.group.as_deref(), Some("g"));
    assert_eq!(line.output_kind, OutputKind::Combined);
    assert!(terminal_line("srv", &None, " \t\u{3000}\r\n").is_none());
}

// ---------- log layer ----------

#[test]
fn fields_of_an_event_make_a_line() {
    let mut fields = EventFields::new();
    assert!(fields.log_line().is_none());
    fields.record_debug("message", "\"started\"");
    fields.record_i64("delta", -4);
    fields.record_u64("count", 3);
    fields.record_bool("fresh", true);
    fields.record_str("path", "/p");
    fields.record_debug("process", "\"srv\"");
    fields.record_str("group", "web");
    let line = fields.log_line().unwrap();
    assert_eq!(line.content, "started, delta=-4, count=3, fresh=true, path=/p");
    assert_eq!(line.process, "srv");
    assert_eq!(line.group.as_deref(), Some("web"));
    assert_eq!(line.source, LogSource::Daemon);
}

#[test]
fn an_event_without_a_process_is_the_daemons() {
    let mut fields = EventFields::new();
    fields.record_str("message", "hello");
    assert_eq!(fields.log_line().unwrap().process, "daemon");
}

// ---------- triggers ----------

#[test]
fn triggers_in_words() {
    let cases = vec![
        (TriggerSource::Startup, "startup"),
        (
            TriggerSource::FileChange {
                files: vec!["a".to_string(), "b".to_string()],
            },
            "file change (2 files)",
        ),
        (
            TriggerSource::TaskCompletion {
                group: "g".to_string(),
            },
            "task completion in 'g'",
        ),
        (
            TriggerSource::DaemonRestart {
                group: "g".to_string(),
            },
            "daemon restart in 'g'",
        ),
        (
            TriggerSource::ManualRestart {
                scope: RestartScope::All,
            },
            "manual restart (all groups)",
        ),
        (
            TriggerSource::ManualRestart {
                scope: RestartScope::Process {
                    group: "g".to_string(),
                    process: "p".to_string(),
                },
            },
            "manual restart (process 'p' in group 'g')",
        ),
        (
            TriggerSource::DependencyReady {
                completed_group: "g".to_string(),
            },
            "dependency 'g' ready",
        ),
    ];
    for (source, words) in cases {
        assert_eq!(source.to_string(), words);
    }
    assert_eq!(
        RestartScope::Group("g".to_string()).to_string(),
        "group 'g'"
    );
}

// ---------- spans ----------

fn spanned(source: &str, value: &str) -> SpannedText {
    let start = source.find(value).unwrap();
    SpannedText {
        span: start..start + value.len(),
        value: value.to_string(),
    }
}

#[test]
fn test_parse_with_spans() {
    let toml = r#"
[[group]]
name = "backend"
patterns = ["*.go"]
depends_on = ["frontend"]

[[group]]
name = "frontend"
patterns = ["*.ts"]
"#;
    let spanned_group = |name: &str, pattern: &str, deps: Vec<SpannedText>| SpannedGroup {
        name: spanned(toml, name),
        patterns: vec![pattern.to_string()],
        ignore: vec![],
        depends_on: deps,
        working_dir: None,
        env: StrMap::new(),
        tasks: vec![],
        daemons: vec![],
    };
    let (config, spans) = separate_spans(SpannedConfig {
        settings: Settings::default(),
        variables: StrMap::new(),
        groups: vec![
            spanned_group("backend", "*.go", vec![spanned(toml, "frontend")]),
            spanned_group("frontend", "*.ts", vec![]),
        ],
    });
    assert_eq!(config.groups.len(), 2);
    assert_eq!(config.groups[0].name, "backend");
    assert_eq!(config.groups[0].depends_on, vec!["frontend"]);

    let span = spans.group_name_span(toml, 0).unwrap();
    assert_eq!((span.line, span.column), (3, 9));
    assert!(spans.group_name_span(toml, 1).is_some());
    assert!(spans.group_name_span(toml, 2).is_none());
    let span = spans.dependency_span(toml, 0, 0).unwrap();
    assert_eq!((span.line, span.column), (5, 16));
    assert!(spans.dependency_span(toml, 1, 0).is_none());
}

// ---------- contexts ----------

#[test]
fn a_context_tells_what_set_it_off() {
    let mut config = config(vec![group("g")]);
    config.variables.insert("port".to_string(), "80".to_string());
    let e = Engine::from_config(config, "/p".to_string(), None, false).unwrap();
    let changed = e.file_change_context(vec!["a.rs".to_string()]);
    assert_eq!(changed.vars.files, vec!["a.rs"]);
    assert!(changed.run_on_change_tasks);
    for (context, words) in [
        (e.startup_context(), "startup"),
        (e.task_completion_context("g"), "task completion in 'g'"),
        (e.daemon_restart_context("g"), "daemon restart in 'g'"),
        (e.dependency_ready_context("g"), "dependency 'g' ready"),
        (
            e.manual_restart_context(RestartScope::All),
            "manual restart (all groups)",
        ),
    ] {
        assert_eq!(context.source.to_string(), words);
        assert!(context.vars.files.is_empty());
        assert_eq!(context.vars.root, "/p");
        assert_eq!(context.vars.variables.get("port"), Some(&"80".to_string()));
        assert!(!context.run_on_change_tasks);
    }
}

#[test]
fn the_kind_of_output_of_a_line_can_be_set() {
    let line = LogLine::process("web", "hello").with_output_kind(OutputKind::Stderr);
    assert_eq!(line.output_kind, OutputKind::Stderr);
    assert_eq!(line.source, LogSource::Process);
}

#[test]
fn an_error_tells_whether_nothing_was_found() {
    assert!(ConfigError::NotFound {
        searched: vec!["zaz.toml".to_string()]
    }
    .is_not_found());
    assert!(!ConfigError::Json("bad".to_string()).is_not_found());
}
