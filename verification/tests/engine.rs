use zaz::config::schema::{Config, DaemonCommand, Group, Settings, Signal, TaskCommand};
use zaz::daemon::api::{ApiRequest, ApiResponse, LogLine};
use zaz::daemon::engine::{Action, Engine, ServiceStep, TaskCompletion};
use zaz::daemon::group_run::{GroupRun, RunPoint, RunStep};
use zaz::daemon::log_storage::LogStorage;
use zaz::daemon::log_store::LogStore;
use zaz::daemon::planning::PatternHits;
use zaz::daemon::requests::RequestStep;
use zaz::daemon::service_round::{Followup, RoundPoint, RoundStep};
use zaz::daemon::shutdown::ShutdownStep;
use zaz::daemon::state::{DaemonStatus, GroupStatus, ProcessStatus};
use zaz::daemon::trigger::{Expansions, LifecyclePhase};
use zaz::process::error::ProcessError;
use zaz::process::executor::OutputLine;
use zaz::process::service::{Child, ChildStatus};
use zaz::strmap::StrMap;

// =========================================================================
// Helpers
// =========================================================================

fn create_test_engine(groups: Vec<Group>) -> Engine {
    let config = Config {
        settings: Settings::default(),
        variables: StrMap::new(),
        groups,
    };
    Engine::from_config(config, "/tmp/zaz-test".to_string(), None, false).unwrap()
}

/// A group with the given tasks.
fn test_group(name: &str, task_names: &[&str]) -> Group {
    Group {
        name: name.to_string(),
        tasks: task_names
            .iter()
            .map(|n| TaskCommand::new(n, "echo test"))
            .collect(),
        patterns: vec!["*.test".to_string()],
        ..Default::default()
    }
}

/// A group with the given tasks and dependencies.
fn test_group_with_deps(name: &str, task_names: &[&str], depends_on: &[&str]) -> Group {
    let mut group = test_group(name, task_names);
    group.depends_on = depends_on.iter().map(|s| s.to_string()).collect();
    group
}

/// A group with one service.
fn test_service_group(name: &str, task_names: &[&str], depends_on: &[&str]) -> Group {
    let mut group = test_group_with_deps(name, task_names, depends_on);
    group.daemons = vec![DaemonCommand::new("srv", "./srv")];
    group
}

fn task_completion(group: &str, task: &str, task_index: usize, success: bool) -> TaskCompletion {
    TaskCompletion {
        task_id: format!("{}:{}", group, task),
        group_name: group.to_string(),
        task_index,
        success,
        status: if success {
            ProcessStatus::Success
        } else {
            ProcessStatus::Failed
        },
        duration_ms: Some(100),
        exit_code: Some(if success { 0 } else { 1 }),
    }
}

fn expansions() -> Expansions {
    let mut exp = Expansions::new();
    exp.record("echo test".to_string(), Ok("echo test".to_string()));
    exp.record("./srv".to_string(), Ok("./srv".to_string()));
    exp
}

/// The patterns of a group match a changed file.
fn hit(group: &str) -> PatternHits {
    PatternHits {
        group: group.to_string(),
        files: vec![false, true],
    }
}

/// Processes completions, and sees to the services that are due.
fn complete(engine: &mut Engine, batch: Vec<TaskCompletion>) {
    let exp = expansions();
    let due = engine.process_task_completions(&batch, &exp);
    for (group, start) in due {
        see_to_services(engine, &group, start, Followup::Propagate);
    }
}

/// Does what a round over services asks for; returns what was signalled.
fn see_to_services(
    engine: &mut Engine,
    group: &str,
    start: bool,
    followup: Followup,
) -> Vec<(u32, Signal)> {
    let exp = expansions();
    let mut signals = vec![];
    let mut round = engine.begin_services(group, start, followup);
    loop {
        match engine.round_next(&mut round, &ChildStatus::Running, &exp) {
            RoundStep::Act(ServiceStep::Start { .. }) => {
                let child = Child {
                    pid: Some(4711),
                    pty: true,
                };
                engine.round_acted(&mut round, Some((child, 0)));
            }
            RoundStep::Act(ServiceStep::Signal(signal)) => {
                signals.extend(signal);
                engine.round_acted(&mut round, None);
            }
            RoundStep::Over => return signals,
        }
    }
}

fn start(engine: &mut Engine) {
    let exp = expansions();
    for group in engine.startup(&exp) {
        see_to_services(engine, &group, true, Followup::Trigger);
    }
    engine.update_state();
}

fn status(engine: &Engine, group: &str) -> GroupStatus {
    engine.group(group).unwrap().status
}

// =========================================================================
// process_task_completions()
// =========================================================================

#[test]
fn test_process_completion_updates_task_state() {
    let mut engine = create_test_engine(vec![test_group("mygroup", &["task1"])]);
    start(&mut engine);
    assert_eq!(
        engine.group("mygroup").unwrap().tasks[0].status,
        ProcessStatus::Running
    );

    complete(&mut engine, vec![task_completion("mygroup", "task1", 0, true)]);

    let group = engine.group("mygroup").unwrap();
    assert_eq!(group.tasks[0].status, ProcessStatus::Success);
    assert_eq!(group.tasks[0].duration_ms, Some(100));
    assert_eq!(group.tasks[0].exit_code, Some(0));
    assert!(engine.is_idle());
}

#[test]
fn test_process_completion_failed_task_updates_state() {
    let mut engine = create_test_engine(vec![test_group("mygroup", &["task1"])]);
    start(&mut engine);

    complete(&mut engine, vec![task_completion("mygroup", "task1", 0, false)]);

    let group = engine.group("mygroup").unwrap();
    assert_eq!(group.tasks[0].status, ProcessStatus::Failed);
    assert_eq!(group.tasks[0].exit_code, Some(1));
}

#[test]
fn test_handle_api_get_logs_legacy_response_omits_pagination_metadata() {
    let mut engine = create_test_engine(vec![test_group("mygroup", &["task1"])]);
    let mut store = LogStore::new();
    store
        .push(LogLine::process("task1", "line 1").with_group("mygroup"))
        .unwrap();
    store
        .push(LogLine::process("task1", "line 2").with_group("mygroup"))
        .unwrap();

    let request = ApiRequest::GetLogs {
        name: "task1".to_string(),
        project: None,
        lines: Some(1),
        offset: None,
        limit: None,
        search: None,
    };
    match engine.handle_request(&store, None, request, &expansions()) {
        RequestStep::Reply(ApiResponse::Logs {
            name,
            lines,
            total_count,
            has_more,
            offset,
        }) => {
            assert_eq!(name, "task1");
            assert_eq!(lines.len(), 1);
            assert_eq!(lines[0].content, "line 2");
            assert_eq!(total_count, None);
            assert_eq!(has_more, None);
            assert_eq!(offset, None);
        }
        _ => panic!("expected logs response"),
    }
}

#[test]
fn test_handle_api_get_logs_pagination_returns_metadata() {
    let mut engine = create_test_engine(vec![test_group("mygroup", &["task1"])]);
    let mut store = LogStore::new();
    for i in 0..5 {
        store
            .push(LogLine::process("task1", &format!("error line {}", i)).with_group("mygroup"))
            .unwrap();
    }

    let request = ApiRequest::GetLogs {
        name: "task1".to_string(),
        project: None,
        lines: None,
        offset: Some(1),
        limit: Some(2),
        search: Some("ERROR".to_string()),
    };
    match engine.handle_request(&store, None, request, &expansions()) {
        RequestStep::Reply(ApiResponse::Logs {
            name,
            lines,
            total_count,
            has_more,
            offset,
        }) => {
            assert_eq!(name, "task1");
            assert_eq!(lines.len(), 2);
            assert_eq!(lines[0].content, "error line 1");
            assert_eq!(lines[1].content, "error line 2");
            assert_eq!(total_count, Some(5));
            assert_eq!(has_more, Some(true));
            assert_eq!(offset, Some(1));
        }
        _ => panic!("expected logs response"),
    }
}

#[test]
fn test_process_completion_group_ready_when_all_tasks_succeed() {
    let mut engine = create_test_engine(vec![test_group("mygroup", &["task1", "task2"])]);
    start(&mut engine);

    // Complete task1 - group should stay Running
    complete(&mut engine, vec![task_completion("mygroup", "task1", 0, true)]);
    assert_eq!(status(&engine, "mygroup"), GroupStatus::Running);

    // Complete task2 - group should become Ready
    complete(&mut engine, vec![task_completion("mygroup", "task2", 1, true)]);
    assert_eq!(status(&engine, "mygroup"), GroupStatus::Ready);
}

#[test]
fn test_process_completion_group_failed_when_any_task_fails() {
    let mut engine = create_test_engine(vec![test_group("mygroup", &["task1", "task2"])]);
    start(&mut engine);

    complete(&mut engine, vec![task_completion("mygroup", "task1", 0, true)]);
    complete(&mut engine, vec![task_completion("mygroup", "task2", 1, false)]);

    // Group goes to Failed, then cascade_skip may change it to Skipped
    let status = status(&engine, "mygroup");
    assert!(
        status == GroupStatus::Failed || status == GroupStatus::Skipped,
        "Expected Failed or Skipped, got {:?}",
        status
    );
}

#[test]
fn test_process_completion_removes_from_running_tasks() {
    let mut engine = create_test_engine(vec![test_group("mygroup", &["task1", "task2"])]);
    start(&mut engine);

    complete(&mut engine, vec![task_completion("mygroup", "task1", 0, true)]);

    // task1 removed, task2 still running
    assert!(!engine.is_task_running("mygroup:task1"));
    assert!(engine.is_task_running("mygroup:task2"));
}

#[test]
fn test_process_completion_handles_pending_rerun() {
    let mut engine = create_test_engine(vec![test_group("mygroup", &["task1"])]);
    start(&mut engine);

    // A change while the task runs queues it for a re-run
    engine.handle_changes(1, &vec![hit("mygroup")], 7, &expansions());
    assert!(engine.is_task_running("mygroup:task1"));
    assert!(engine.is_task_pending("mygroup:task1"));

    // Complete current run
    complete(&mut engine, vec![task_completion("mygroup", "task1", 0, true)]);

    // Pending should be removed (spawned for re-run)
    assert!(!engine.is_task_pending("mygroup:task1"));
    // Task should be running again
    assert!(engine.is_task_running("mygroup:task1"));
}

#[test]
fn test_process_completion_multiple_completions_in_batch() {
    let mut engine =
        create_test_engine(vec![test_group("mygroup", &["task1", "task2", "task3"])]);
    start(&mut engine);

    complete(
        &mut engine,
        vec![
            task_completion("mygroup", "task1", 0, true),
            task_completion("mygroup", "task2", 1, true),
            task_completion("mygroup", "task3", 2, true),
        ],
    );

    let group = engine.group("mygroup").unwrap();
    assert_eq!(group.tasks[0].status, ProcessStatus::Success);
    assert_eq!(group.tasks[1].status, ProcessStatus::Success);
    assert_eq!(group.tasks[2].status, ProcessStatus::Success);
    assert_eq!(group.status, GroupStatus::Ready);
    assert!(engine.is_idle());
}

#[test]
fn test_process_completion_daemon_start_signal() {
    // Special __daemon_start__ task ID for groups without tasks
    let mut engine = create_test_engine(vec![test_group("mygroup", &[])]);

    let signal = TaskCompletion {
        task_id: "__daemon_start__".to_string(),
        group_name: "mygroup".to_string(),
        task_index: 0,
        success: true,
        status: ProcessStatus::Success,
        duration_ms: None,
        exit_code: None,
    };
    let due = engine.process_task_completions(&vec![signal], &expansions());
    assert_eq!(due, vec![("mygroup".to_string(), true)]);
    see_to_services(&mut engine, "mygroup", true, Followup::Trigger);

    let status = status(&engine, "mygroup");
    assert!(
        status == GroupStatus::Pending || status == GroupStatus::Ready,
        "Expected Pending or Ready for daemon start signal, got {:?}",
        status
    );
}

#[test]
fn test_process_completion_no_completions_is_noop() {
    let mut engine = create_test_engine(vec![test_group("mygroup", &["task1"])]);
    start(&mut engine);

    complete(&mut engine, vec![]);

    assert!(engine.is_task_running("mygroup:task1"));
    assert_eq!(status(&engine, "mygroup"), GroupStatus::Running);
}

#[test]
fn test_process_completion_unknown_group_ignored() {
    let mut engine = create_test_engine(vec![test_group("mygroup", &["task1"])]);

    complete(&mut engine, vec![task_completion("nonexistent", "task1", 0, true)]);

    // Original group unchanged
    assert_eq!(status(&engine, "mygroup"), GroupStatus::Pending);
}

#[test]
fn test_process_completion_with_dependencies_triggers_cascade() {
    // Group "a" depends on "b"
    let mut engine = create_test_engine(vec![
        test_group("b", &["task1"]),
        test_group_with_deps("a", &["task1"], &["b"]),
    ]);
    start(&mut engine);
    assert!(engine.waiting_for("a").is_some());

    complete(&mut engine, vec![task_completion("b", "task1", 0, true)]);

    assert_eq!(status(&engine, "b"), GroupStatus::Ready);
    assert!(engine.waiting_for("a").is_none());
}

// =========================================================================
// startup()
// =========================================================================

#[test]
fn test_startup_group_no_deps_starts_immediately() {
    let mut engine = create_test_engine(vec![test_group("mygroup", &["task1"])]);

    start(&mut engine);

    assert_eq!(status(&engine, "mygroup"), GroupStatus::Running);
    assert!(engine.is_task_running("mygroup:task1"));
}

#[test]
fn test_startup_group_with_deps_waits() {
    // a depends on b
    let mut engine = create_test_engine(vec![
        test_group("b", &["task1"]),
        test_group_with_deps("a", &["task1"], &["b"]),
    ]);

    start(&mut engine);

    assert_eq!(status(&engine, "b"), GroupStatus::Running);
    assert_eq!(status(&engine, "a"), GroupStatus::Waiting);
    assert!(engine.waiting_for("a").is_some());
}

#[test]
fn test_startup_group_no_tasks_no_daemons_ready() {
    let mut engine = create_test_engine(vec![test_group("empty", &[])]);

    start(&mut engine);

    assert_eq!(status(&engine, "empty"), GroupStatus::Ready);
}

#[test]
fn test_startup_chain_deps_execution_order() {
    // c -> b -> a (a depends on b, b depends on c)
    let mut engine = create_test_engine(vec![
        test_group("c", &["task1"]),
        test_group_with_deps("b", &["task1"], &["c"]),
        test_group_with_deps("a", &["task1"], &["b"]),
    ]);

    start(&mut engine);

    assert_eq!(status(&engine, "c"), GroupStatus::Running);
    assert_eq!(status(&engine, "b"), GroupStatus::Waiting);
    assert!(engine.waiting_for("b").unwrap().contains("c"));
    assert_eq!(status(&engine, "a"), GroupStatus::Waiting);
    assert!(engine.waiting_for("a").unwrap().contains("b"));
}

#[test]
fn test_startup_diamond_deps() {
    // Diamond: a -> b,c -> d
    let mut engine = create_test_engine(vec![
        test_group("d", &["task1"]),
        test_group_with_deps("b", &["task1"], &["d"]),
        test_group_with_deps("c", &["task1"], &["d"]),
        test_group_with_deps("a", &["task1"], &["b", "c"]),
    ]);

    start(&mut engine);

    assert_eq!(status(&engine, "d"), GroupStatus::Running);
    assert_eq!(status(&engine, "b"), GroupStatus::Waiting);
    assert_eq!(status(&engine, "c"), GroupStatus::Waiting);
    assert_eq!(status(&engine, "a"), GroupStatus::Waiting);
    let waiting_for_a = engine.waiting_for("a").unwrap();
    assert!(waiting_for_a.contains("b"));
    assert!(waiting_for_a.contains("c"));
}

#[test]
fn test_startup_only_on_change_only_tasks_skips_to_daemon() {
    let mut group = test_group("mygroup", &["task1"]);
    group.tasks[0].on_change_only = true;
    let mut engine = create_test_engine(vec![group]);

    start(&mut engine);

    assert_eq!(status(&engine, "mygroup"), GroupStatus::Ready);
    assert!(engine.is_idle());
}

#[test]
fn test_startup_sets_daemon_status_running() {
    let mut engine = create_test_engine(vec![test_group("mygroup", &["task1"])]);

    assert_eq!(engine.state().status, DaemonStatus::Starting);

    start(&mut engine);

    assert_eq!(engine.state().status, DaemonStatus::Running);
}

// =========================================================================
// trigger_dependents() and cascades
// =========================================================================

#[test]
fn test_trigger_dependents_starts_waiting_group() {
    // b depends on a
    let mut engine = create_test_engine(vec![
        test_group("a", &["task1"]),
        test_group_with_deps("b", &["task1"], &["a"]),
    ]);
    start(&mut engine);

    engine.trigger_dependents("a", &expansions());

    assert!(engine.waiting_for("b").is_none());
    assert!(
        status(&engine, "b") == GroupStatus::Running || engine.is_task_running("b:task1")
    );
}

#[test]
fn test_trigger_dependents_multiple_dependents() {
    // b and c both depend on a
    let mut engine = create_test_engine(vec![
        test_group("a", &["task1"]),
        test_group_with_deps("b", &["task1"], &["a"]),
        test_group_with_deps("c", &["task1"], &["a"]),
    ]);
    start(&mut engine);

    engine.trigger_dependents("a", &expansions());

    assert!(engine.waiting_for("b").is_none());
    assert!(engine.waiting_for("c").is_none());
}

#[test]
fn test_trigger_dependents_partial_deps_satisfied() {
    // a depends on both b and c
    let mut engine = create_test_engine(vec![
        test_group("b", &["task1"]),
        test_group("c", &["task1"]),
        test_group_with_deps("a", &["task1"], &["b", "c"]),
    ]);
    start(&mut engine);

    engine.trigger_dependents("b", &expansions());

    // a should still be waiting (c not ready yet)
    let waiting_for_a = engine.waiting_for("a").unwrap();
    assert!(!waiting_for_a.contains("b"));
    assert!(waiting_for_a.contains("c"));
}

#[test]
fn test_cascade_skip_propagates_failure() {
    // c -> b -> a
    let mut engine = create_test_engine(vec![
        test_group("c", &["task1"]),
        test_group_with_deps("b", &["task1"], &["c"]),
        test_group_with_deps("a", &["task1"], &["b"]),
    ]);
    start(&mut engine);

    complete(&mut engine, vec![task_completion("c", "task1", 0, false)]);

    assert_eq!(status(&engine, "c"), GroupStatus::Skipped);
    assert_eq!(status(&engine, "b"), GroupStatus::Skipped);
    assert_eq!(status(&engine, "a"), GroupStatus::Skipped);
}

#[test]
fn test_cascade_skip_diamond_pattern() {
    // Diamond: a -> b,c -> d
    let mut engine = create_test_engine(vec![
        test_group("d", &["task1"]),
        test_group_with_deps("b", &["task1"], &["d"]),
        test_group_with_deps("c", &["task1"], &["d"]),
        test_group_with_deps("a", &["task1"], &["b", "c"]),
    ]);
    start(&mut engine);

    complete(&mut engine, vec![task_completion("d", "task1", 0, false)]);

    assert_eq!(status(&engine, "d"), GroupStatus::Skipped);
    assert_eq!(status(&engine, "b"), GroupStatus::Skipped);
    assert_eq!(status(&engine, "c"), GroupStatus::Skipped);
    assert_eq!(status(&engine, "a"), GroupStatus::Skipped);
}

#[test]
fn test_cascade_skip_not_waiting_groups_unaffected() {
    // b depends on a, but b is not waiting (already running)
    let mut engine = create_test_engine(vec![
        test_group("a", &["task1"]),
        test_group_with_deps("b", &["task1"], &["a"]),
    ]);
    start(&mut engine);
    complete(&mut engine, vec![task_completion("a", "task1", 0, true)]);
    assert_eq!(status(&engine, "b"), GroupStatus::Running);
    engine.restart_group("a", &expansions()).unwrap();

    // a fails
    complete(&mut engine, vec![task_completion("a", "task1", 0, false)]);

    assert_eq!(status(&engine, "a"), GroupStatus::Skipped);
    // b should still be Running (not affected because not waiting)
    assert_eq!(status(&engine, "b"), GroupStatus::Running);
}

// =========================================================================
// Full flows
// =========================================================================

#[test]
fn test_full_startup_completion_flow() {
    let mut engine = create_test_engine(vec![
        test_group("b", &["task1"]),
        test_group_with_deps("a", &["task1"], &["b"]),
    ]);

    start(&mut engine);
    assert_eq!(status(&engine, "b"), GroupStatus::Running);
    assert_eq!(status(&engine, "a"), GroupStatus::Waiting);

    complete(&mut engine, vec![task_completion("b", "task1", 0, true)]);

    assert_eq!(status(&engine, "b"), GroupStatus::Ready);
    assert!(engine.waiting_for("a").is_none());
    assert!(
        status(&engine, "a") == GroupStatus::Running || engine.is_task_running("a:task1")
    );
}

#[test]
fn test_full_startup_failure_cascade_flow() {
    let mut engine = create_test_engine(vec![
        test_group("b", &["task1"]),
        test_group_with_deps("a", &["task1"], &["b"]),
    ]);
    start(&mut engine);

    complete(&mut engine, vec![task_completion("b", "task1", 0, false)]);

    let b = status(&engine, "b");
    assert!(b == GroupStatus::Failed || b == GroupStatus::Skipped);
    assert_eq!(status(&engine, "a"), GroupStatus::Skipped);
}

#[test]
fn test_trigger_dependents_on_restart_does_nothing_for_ready_groups() {
    let mut engine = create_test_engine(vec![
        test_group("a", &["task1"]),
        test_group_with_deps("b", &["task1"], &["a"]),
    ]);
    start(&mut engine);
    complete(&mut engine, vec![task_completion("a", "task1", 0, true)]);
    complete(&mut engine, vec![task_completion("b", "task1", 0, true)]);
    assert_eq!(status(&engine, "b"), GroupStatus::Ready);

    engine.trigger_dependents("a", &expansions());

    // b should still be Ready (not Running) because it wasn't waiting
    assert_eq!(status(&engine, "b"), GroupStatus::Ready);
}

// =========================================================================
// Services
// =========================================================================

#[test]
fn services_start_after_the_tasks_and_are_signalled_from_then_on() {
    let mut engine = create_test_engine(vec![test_service_group("web", &["build"], &[])]);
    let exp = expansions();
    start(&mut engine);
    let batch = vec![task_completion("web", "build", 0, true)];
    let due = engine.process_task_completions(&batch, &exp);
    assert_eq!(due, vec![("web".to_string(), true)]);
    let mut round = engine.begin_services("web", true, Followup::Propagate);
    assert_eq!(engine.round_looks_at(&round), Some((0, 0)));
    match engine.round_next(&mut round, &ChildStatus::Running, &exp) {
        RoundStep::Act(ServiceStep::Start {
            delay_ms: None,
            plan: Some(plan),
        }) => assert_eq!(plan.args, vec!["-c", "./srv"]),
        _ => panic!("expected a start"),
    }
    assert_eq!(engine.round_looks_at(&round), None);
    let child = Child {
        pid: Some(4711),
        pty: true,
    };
    engine.round_acted(&mut round, Some((child, 0)));
    assert!(matches!(
        engine.round_next(&mut round, &ChildStatus::Running, &exp),
        RoundStep::Over
    ));
    let web = engine.group("web").unwrap();
    assert_eq!(web.status, GroupStatus::Ready);
    assert_eq!(web.services[0].status, ProcessStatus::Running);
    assert_eq!(web.services[0].pid, Some(4711));

    engine.handle_changes(1, &vec![hit("web")], 7, &exp);
    let batch = vec![task_completion("web", "build", 0, true)];
    let due = engine.process_task_completions(&batch, &exp);
    assert_eq!(due, vec![("web".to_string(), false)]);
    assert_eq!(
        see_to_services(&mut engine, "web", false, Followup::Propagate),
        vec![(4711, Signal::Sigterm)]
    );
    // One that does not run is started instead.
    let gone = ChildStatus::Exited {
        success: false,
        code: Some(1),
    };
    let mut round = engine.begin_services("web", false, Followup::Propagate);
    assert!(matches!(
        engine.round_next(&mut round, &gone, &exp),
        RoundStep::Act(ServiceStep::Start { .. })
    ));
}

#[test]
fn dependents_are_seen_to_where_a_service_cannot_be_started() {
    let mut engine = create_test_engine(vec![
        test_service_group("api", &[], &[]),
        test_group_with_deps("web", &["t"], &["api"]),
    ]);
    let exp = expansions();
    assert_eq!(engine.startup(&exp), vec!["api"]);
    let mut round = engine.begin_services("api", true, Followup::Trigger);
    assert!(matches!(
        engine.round_next(&mut round, &ChildStatus::Running, &exp),
        RoundStep::Act(_)
    ));
    engine.round_failed(&mut round);
    assert_eq!(round.point, RoundPoint::Dependents);
    assert!(!engine.is_task_running("web:t"));
    assert!(matches!(
        engine.round_next(&mut round, &ChildStatus::Running, &exp),
        RoundStep::Over
    ));
    assert_eq!(round.point, RoundPoint::Over);
    assert!(engine.is_task_running("web:t"));
}

#[test]
fn a_group_without_services_leaves_only_its_dependents() {
    let mut engine = create_test_engine(vec![test_group("a", &["t"])]);
    let round = engine.begin_services("a", true, Followup::Propagate);
    assert_eq!(round.point, RoundPoint::Dependents);
    assert!(engine.take_actions().is_empty());
    let round = engine.begin_services("a", true, Followup::Trigger);
    assert_eq!(round.point, RoundPoint::Service(0));
}

#[test]
fn only_running_services_are_signalled() {
    let mut engine = create_test_engine(vec![test_service_group("web", &[], &[])]);
    start(&mut engine);
    assert_eq!(
        engine.restart_signals("web", &vec![ChildStatus::Running]),
        vec![(4711, Signal::Sigterm)]
    );
    let gone = ChildStatus::Exited {
        success: true,
        code: Some(0),
    };
    assert_eq!(engine.restart_signals("web", &vec![gone]), vec![]);
    assert_eq!(engine.restart_signals("none", &vec![]), vec![]);
}

#[test]
fn a_shutdown_waits_and_then_kills_what_runs() {
    let mut engine = create_test_engine(vec![
        test_group("a", &["t"]),
        test_service_group("web", &[], &[]),
    ]);
    start(&mut engine);
    engine.begin_shutdown();
    assert_eq!(engine.stop_service(1, 0), Some(4711));
    let running = vec![vec![], vec![ChildStatus::Running]];
    assert!(matches!(
        engine.shutdown_step(&running, 9, 10),
        ShutdownStep::Wait
    ));
    match engine.shutdown_step(&running, 10, 10) {
        ShutdownStep::Kill(which) => assert_eq!(which, vec![(1, 0)]),
        _ => panic!("expected a kill"),
    }
    let gone = vec![
        vec![],
        vec![ChildStatus::Exited {
            success: true,
            code: Some(0),
        }],
    ];
    assert!(matches!(
        engine.shutdown_step(&gone, 10, 10),
        ShutdownStep::Done
    ));
    engine.service_killed(1, 0);
    assert!(matches!(
        engine.shutdown_step(&running, 10, 10),
        ShutdownStep::Done
    ));
}

// =========================================================================
// Running a group in sequence
// =========================================================================

/// The command that a run comes to.
fn next_command(engine: &mut Engine, run: &mut GroupRun) -> String {
    match engine.run_next(run, &expansions()) {
        Ok(RunStep::Execute { command, .. }) => command,
        _ => panic!("expected a command"),
    }
}

/// What was logged, each line with its process.
fn logged(engine: &mut Engine) -> Vec<(String, String)> {
    engine
        .take_actions()
        .into_iter()
        .filter_map(|a| match a {
            Action::Log {
                process, content, ..
            } => Some((process, content)),
            _ => None,
        })
        .collect()
}

fn said(process: &str, content: &str) -> (String, String) {
    (process.to_string(), content.to_string())
}

#[test]
fn a_run_goes_through_the_tasks_and_then_the_services() {
    let mut group = test_service_group("web", &["one", "quiet", "two"], &[]);
    group.tasks[1].on_change_only = true;
    let mut engine = create_test_engine(vec![group]);
    let mut run = engine.run_group("web", false).unwrap();
    assert_eq!(status(&engine, "web"), GroupStatus::Running);
    assert_eq!(next_command(&mut engine, &mut run), "echo test");
    assert_eq!(run.point, RunPoint::Executing(0));
    assert_eq!(
        engine.group("web").unwrap().tasks[0].status,
        ProcessStatus::Running
    );
    let line = engine.run_output(&run, OutputLine::Stderr("hello".to_string()));
    assert_eq!(line.process, "one");
    assert_eq!(line.group, Some("web".to_string()));
    assert_eq!(line.content, "hello");
    engine
        .run_executed(&mut run, Ok(Some(0)), 1500, "1.50")
        .unwrap();
    // A task that runs on changes only is left out.
    assert_eq!(next_command(&mut engine, &mut run), "echo test");
    assert_eq!(run.point, RunPoint::Executing(2));
    engine.run_executed(&mut run, Ok(None), 20, "0.02").unwrap();
    match engine.run_next(&mut run, &expansions()) {
        Ok(RunStep::Service(ServiceStep::Start { plan: Some(_), .. })) => {}
        _ => panic!("expected a start"),
    }
    let child = Child {
        pid: Some(7),
        pty: true,
    };
    engine.run_acted(&mut run, Some((child, 0)));
    assert!(matches!(
        engine.run_next(&mut run, &expansions()),
        Ok(RunStep::Over)
    ));
    assert_eq!(run.point, RunPoint::Over);
    let web = engine.group("web").unwrap();
    assert_eq!(web.status, GroupStatus::Ready);
    assert_eq!(web.tasks[0].status, ProcessStatus::Success);
    assert_eq!(web.tasks[0].duration_ms, Some(1500));
    assert_eq!(web.tasks[1].status, ProcessStatus::Pending);
    assert_eq!(web.services[0].pid, Some(7));
    assert_eq!(
        logged(&mut engine),
        vec![
            said("one", "running: echo test"),
            said("one", "completed in 1.50s (exit code: 0)"),
            said("two", "running: echo test"),
            said("two", "completed in 0.02s (exit code: ?)"),
            said("srv", "starting"),
        ]
    );
}

#[test]
fn a_failed_task_ends_the_run() {
    let mut engine = create_test_engine(vec![test_service_group("web", &["one", "two"], &[])]);
    let mut run = engine.run_group("web", false).unwrap();
    next_command(&mut engine, &mut run);
    let error = engine
        .run_executed(&mut run, Ok(Some(3)), 20, "0.02")
        .unwrap_err();
    assert_eq!(
        error.to_string(),
        "task 'one' failed: process exited with status 3"
    );
    assert_eq!(run.point, RunPoint::Over);
    let web = engine.group("web").unwrap();
    assert_eq!(web.status, GroupStatus::Failed);
    assert_eq!(web.tasks[0].exit_code, Some(3));
    assert_eq!(
        logged(&mut engine),
        vec![
            said("one", "running: echo test"),
            said("one", "failed: process exited with status 3"),
        ]
    );
}

#[test]
fn a_task_that_cannot_be_spawned_ends_the_run() {
    let mut engine = create_test_engine(vec![test_group("web", &["one"])]);
    let mut run = engine.run_group("web", true).unwrap();
    next_command(&mut engine, &mut run);
    let outcome = Err(ProcessError::Spawn("no shell".to_string()));
    let error = engine
        .run_executed(&mut run, outcome, 0, "0.00")
        .unwrap_err();
    assert_eq!(
        error.to_string(),
        "task 'one' failed: failed to spawn process: no shell"
    );
    assert_eq!(status(&engine, "web"), GroupStatus::Failed);
}

#[test]
fn a_command_that_does_not_expand_ends_the_run() {
    let mut group = test_group("web", &["one"]);
    group.tasks[0].command = "echo ${nothing}".to_string();
    let mut engine = create_test_engine(vec![group]);
    let mut exp = expansions();
    exp.record(
        "echo ${nothing}".to_string(),
        Err("unknown variable: nothing".to_string()),
    );
    let mut run = engine.run_group("web", false).unwrap();
    let error = engine.run_next(&mut run, &exp).unwrap_err();
    assert_eq!(
        error.to_string(),
        "variable expansion error: unknown variable: nothing"
    );
    assert_eq!(run.point, RunPoint::Over);
}

#[test]
fn a_run_after_a_change_signals_services_and_restarts_dependents() {
    let mut engine = create_test_engine(vec![
        test_service_group("api", &[], &[]),
        test_service_group("web", &[], &["api"]),
    ]);
    start(&mut engine);
    complete(&mut engine, vec![]);
    see_to_services(&mut engine, "web", true, Followup::Trigger);
    let _ = engine.take_actions();
    let mut run = engine.run_group("api", true).unwrap();
    match engine.run_next(&mut run, &expansions()) {
        Ok(RunStep::Service(ServiceStep::Signal(signal))) => {
            assert_eq!(signal, Some((4711, Signal::Sigterm)))
        }
        _ => panic!("expected a signal"),
    }
    engine.run_acted(&mut run, None);
    assert!(matches!(
        engine.run_next(&mut run, &expansions()),
        Ok(RunStep::Over)
    ));
    let actions = engine.take_actions();
    assert!(actions
        .iter()
        .any(|a| matches!(a, Action::Log { content, .. } if content == "restarting")));
    assert!(actions
        .iter()
        .any(|a| matches!(a, Action::SignalServices(group) if group == "web")));
}

#[test]
fn an_unknown_group_cannot_be_run() {
    let mut engine = create_test_engine(vec![test_group("a", &["t"])]);
    let error = engine.run_group("b", false).unwrap_err();
    assert_eq!(error.to_string(), "group not found: b");
    assert_eq!(engine.group_at(0), Some("a"));
    assert_eq!(engine.group_at(1), None);
}

#[test]
fn a_restart_reaches_the_services_of_dependents() {
    let mut engine = create_test_engine(vec![
        test_service_group("api", &["build"], &[]),
        test_service_group("web", &[], &["api"]),
    ]);
    start(&mut engine);
    complete(&mut engine, vec![task_completion("api", "build", 0, true)]);
    complete(&mut engine, vec![]);
    see_to_services(&mut engine, "web", true, Followup::Trigger);
    let _ = engine.take_actions();

    assert_eq!(engine.determine_lifecycle_phase("api"), LifecyclePhase::Runtime);
    engine.cascade_daemon_restart("api", &expansions());
    let signalled: Vec<String> = engine
        .take_actions()
        .into_iter()
        .filter_map(|a| match a {
            Action::SignalServices(group) => Some(group),
            _ => None,
        })
        .collect();
    assert_eq!(signalled, vec!["web"]);
}

#[test]
fn an_unknown_group_cannot_be_restarted() {
    let mut engine = create_test_engine(vec![test_group("a", &["t"])]);
    let error = engine.restart_group("b", &expansions()).unwrap_err();
    assert_eq!(error.to_string(), "group not found: b");
}

#[test]
fn only_affected_groups_that_depend_on_no_other_are_set_off() {
    let mut engine = create_test_engine(vec![
        test_group("a", &["t"]),
        test_group_with_deps("b", &["t"], &["a"]),
        test_group("c", &["t"]),
    ]);
    let mut unaffected = hit("c");
    unaffected.files = vec![false, false];
    engine.handle_changes(0, &vec![hit("a")], 98, &expansions());
    assert_eq!(engine.state().last_change, None);
    engine.handle_changes(2, &vec![hit("b"), hit("a"), unaffected], 99, &expansions());
    assert!(engine.is_task_running("a:t"));
    assert!(!engine.is_task_running("c:t"));
    assert!(!engine.is_task_running("b:t"));
    assert_eq!(engine.state().last_change, Some(99));
}

#[test]
fn groups_come_in_the_order_of_the_configuration_and_run_after_their_dependencies() {
    let engine = create_test_engine(vec![
        test_group_with_deps("b", &["t"], &["a"]),
        test_group("a", &["t"]),
    ]);
    assert_eq!(engine.position("b"), Some(0));
    assert_eq!(engine.position("a"), Some(1));
    assert_eq!(engine.position("z"), None);
    assert_eq!(engine.execution_order(), &vec!["a", "b"]);
    assert_eq!(engine.group_count(), 2);
}

#[test]
fn services_of_a_group_without_tasks_can_be_asked_for() {
    let mut engine = create_test_engine(vec![test_service_group("web", &[], &[])]);
    let request = TaskCompletion::services_due("web".to_string());
    assert_eq!(request.task_id, "__daemon_start__");
    let due = engine.process_task_completions(&vec![request], &expansions());
    assert_eq!(due, vec![("web".to_string(), true)]);
}
