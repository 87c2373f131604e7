use zaz::config::schema::{DaemonCommand, Signal};
use zaz::process::error::ProcessError;
use zaz::process::executor::{collect_output, CommandOutput, Executor, OutputLine};
use zaz::process::launcher::DaemonLauncher;
use zaz::process::runner::{RunnerStep, TaskRunner};
use zaz::process::service::{pty_exit, Child, ChildStatus, Service, ServiceState};
use zaz::process::signal::SignalHandler;
use zaz::strmap::StrMap;

const SECOND: u128 = 1_000_000_000;

fn executor() -> Executor {
    Executor::new(Some("/bin/sh".to_string()), None)
}

fn service() -> Service {
    Service::new(DaemonCommand::new("srv", "./srv"), executor())
}

fn child(pid: u32) -> Child {
    Child {
        pid: Some(pid),
        pty: true,
    }
}

fn crash() -> ChildStatus {
    ChildStatus::Exited {
        success: false,
        code: Some(1),
    }
}

#[test]
fn a_command_runs_in_the_shell() {
    let mut env = StrMap::new();
    env.insert("A".to_string(), "1".to_string());
    let plan = executor()
        .with_working_dir("/w".to_string())
        .with_env(env)
        .spawn("make", true);
    assert_eq!(plan.program, "/bin/sh");
    assert_eq!(plan.args, vec!["-c", "make"]);
    assert_eq!(plan.working_dir.as_deref(), Some("/w"));
    assert_eq!(plan.env.get("A").map(|v| v.as_str()), Some("1"));
    assert!(plan.pty);
}

#[test]
fn the_shell_comes_from_the_settings_or_the_environment() {
    assert_eq!(Executor::new(None, Some("/bin/zsh".to_string())).shell, "/bin/zsh");
    assert_eq!(Executor::new(None, None).shell, "/bin/sh");
    let explicit = Executor::new(Some("/bin/fish".to_string()), Some("/bin/zsh".to_string()));
    assert_eq!(explicit.shell, "/bin/fish");
}

#[test]
fn a_command_refines_the_executor_of_its_group() {
    let mut outer = StrMap::new();
    outer.insert("A".to_string(), "1".to_string());
    outer.insert("B".to_string(), "2".to_string());
    let group = executor().with_working_dir("/w".to_string()).with_env(outer);
    let mut inner = StrMap::new();
    inner.insert("B".to_string(), "3".to_string());
    let refined = group.refine(&Some("/v".to_string()), &inner);
    assert_eq!(refined.working_dir.as_deref(), Some("/v"));
    assert_eq!(refined.env.get("A").map(|v| v.as_str()), Some("1"));
    assert_eq!(refined.env.get("B").map(|v| v.as_str()), Some("3"));
    let same = group.refine(&None, &StrMap::new());
    assert_eq!(same.working_dir.as_deref(), Some("/w"));
    assert_eq!(same.env.get("B").map(|v| v.as_str()), Some("2"));
}

#[test]
fn output_is_sorted_by_stream() {
    let output = collect_output(
        vec![
            OutputLine::Stdout("a".to_string()),
            OutputLine::Stderr("b".to_string()),
            OutputLine::Stdout("c".to_string()),
        ],
        Some(0),
    );
    assert_eq!(output.stdout, vec!["a", "c"]);
    assert_eq!(output.stderr, vec!["b"]);
    assert!(output.is_success());
    let mut failed = CommandOutput::new();
    failed.finish(Some(2));
    assert!(!failed.is_success());
}

#[test]
fn a_service_is_started_once() {
    let mut s = service();
    assert_eq!(s.state(), ServiceState::Stopped);
    assert!(s.start("./srv").is_some());
    s.started(child(7), 0);
    assert_eq!(s.state(), ServiceState::Running);
    assert_eq!(s.pid(), Some(7));
    assert!(s.is_pty());
    assert!(s.start("./srv").is_none());
    assert!(s.is_running(&ChildStatus::Running));
    assert!(!s.is_running(&crash()));
}

#[test]
fn restarts_back_off_and_recover() {
    let mut s = service();
    let mut delays = Vec::new();
    for i in 0..6 {
        s.started(child(7), i * SECOND);
        let info = s.check(crash(), i * SECOND + 1).unwrap().unwrap();
        assert_eq!(info.exit_code, Some(1));
        assert_eq!(info.duration, 1);
        delays.push(s.restart_delay());
    }
    assert_eq!(delays, vec![1000, 2000, 4000, 8000, 8000, 8000]);
    // A run of more than eight seconds resets the delay.
    s.started(child(7), 0);
    s.check(crash(), 8 * SECOND + 1).unwrap();
    assert_eq!(s.restart_delay(), 500);
    // So does a success.
    s.started(child(7), 0);
    s.check(crash(), 8 * SECOND).unwrap();
    assert_eq!(s.restart_delay(), 1000);
    s.started(child(7), 0);
    s.check(pty_exit(true), 1).unwrap();
    assert_eq!(s.restart_delay(), 500);
}

#[test]
fn a_look_that_fails_changes_nothing() {
    let mut s = service();
    assert!(s.check(crash(), 5).unwrap().is_none());
    s.started(child(7), 0);
    let error = s.check(ChildStatus::Unknown("gone".to_string()), 5).unwrap_err();
    assert_eq!(error.to_string(), "failed to spawn process: gone");
    assert_eq!(s.state(), ServiceState::Running);
    assert!(s.check(ChildStatus::Running, 5).unwrap().is_none());
}

#[test]
fn a_service_is_signalled_as_configured() {
    let mut s = service();
    assert_eq!(s.signal_restart(), None);
    s.config.signal = Signal::Sigusr2;
    s.started(child(7), 0);
    assert_eq!(s.signal_restart(), Some((7, Signal::Sigusr2)));
    assert_eq!(s.stop(), Some(7));
    assert_eq!(s.state(), ServiceState::Stopping);
    s.killed();
    assert_eq!(s.pid(), None);
    assert_eq!(s.state(), ServiceState::Stopped);
}

#[test]
fn terminals_tell_success_from_failure_only() {
    assert!(matches!(
        pty_exit(true),
        ChildStatus::Exited {
            success: true,
            code: Some(0)
        }
    ));
    assert!(matches!(
        pty_exit(false),
        ChildStatus::Exited {
            success: false,
            code: Some(1)
        }
    ));
}

#[test]
fn process_groups_are_addressed_by_negative_numbers() {
    assert_eq!(SignalHandler::group_target(12), -12);
    assert_eq!(SignalHandler::group_target(i32::MAX), -i32::MAX);
}

#[test]
fn tasks_run_one_after_the_other_until_one_fails() {
    let runner = TaskRunner::new(executor());
    assert!(matches!(runner.run_all(0, 2, Ok(())), RunnerStep::Run(0)));
    assert!(matches!(runner.run_all(1, 2, Ok(())), RunnerStep::Run(1)));
    assert!(matches!(runner.run_all(2, 2, Ok(())), RunnerStep::Done));
    assert!(matches!(
        runner.run_all(1, 2, Err(ProcessError::ExitStatus(3))),
        RunnerStep::Stop(ProcessError::ExitStatus(3))
    ));
}

#[test]
fn process_errors_in_words() {
    assert_eq!(
        ProcessError::ExitStatus(-1).to_string(),
        "process exited with status -1"
    );
    assert_eq!(
        ProcessError::Signal(9).to_string(),
        "process killed by signal 9"
    );
    assert_eq!(
        ProcessError::SendSignal("x".into()).to_string(),
        "failed to send signal: x"
    );
}

#[test]
fn a_launcher_says_what_it_could_not_do() {
    let mut launcher = DaemonLauncher::new("/bin/zaz", "/no/such/dir/out.log");
    launcher.arg("start");
    launcher.args(&vec!["--quiet".to_string()]);
    assert_eq!(launcher.args, vec!["start", "--quiet"]);
    assert_eq!(
        launcher.open_error("denied").to_string(),
        "failed to launch daemon: opening output log /no/such/dir/out.log: denied"
    );
    assert_eq!(
        launcher.clone_error("e").to_string(),
        "failed to launch daemon: cloning log fd: e"
    );
    assert_eq!(
        launcher.spawn_error("e").to_string(),
        "failed to launch daemon: spawning /bin/zaz: e"
    );
}
