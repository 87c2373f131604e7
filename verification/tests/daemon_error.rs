use zaz::config::error::ConfigError;
use zaz::daemon::error::{DaemonError, IoErrorKind};
use zaz::process::error::ProcessError;

#[test]
fn socket_resolution_display_omits_recovery_prose() {
    let err = DaemonError::SocketResolution {
        start_dir: "/tmp/outside".to_string(),
    };
    let msg = err.to_string();
    assert!(msg.contains("could not resolve daemon socket from"));
    assert!(msg.contains("/tmp/outside"));
    assert!(!msg.contains("--socket"));
    assert!(!msg.contains("zaz project directory"));
}

#[test]
fn socket_resolution_hint_returns_recovery_prose() {
    let err = DaemonError::SocketResolution {
        start_dir: "/tmp/outside".to_string(),
    };
    assert_eq!(
        err.hint(),
        Some("run this command from a zaz project directory or pass --socket <PATH>")
    );
}

#[test]
fn daemon_error_other_variants_have_no_hint() {
    assert_eq!(DaemonError::GroupNotFound("x".into()).hint(), None);
    assert_eq!(DaemonError::CyclicDependency("y".into()).hint(), None);
}

#[test]
fn daemon_errors_in_words() {
    let cases = vec![
        (
            DaemonError::Bind {
                kind: IoErrorKind::Other,
                message: "in use".into(),
            },
            "failed to bind to socket: in use",
        ),
        (
            DaemonError::Config(ConfigError::Json("eof".into())),
            "configuration error: JSON parse error: eof",
        ),
        (DaemonError::Watch("w".into()), "watch error: w"),
        (
            DaemonError::Serialization("s".into()),
            "serialization error: s",
        ),
        (
            DaemonError::GroupNotFound("g".into()),
            "group not found: g",
        ),
        (
            DaemonError::CyclicDependency("g".into()),
            "cyclic dependency detected involving: g",
        ),
        (
            DaemonError::VarExpansion("v".into()),
            "variable expansion error: v",
        ),
        (
            DaemonError::TaskFailed {
                task: "t".into(),
                error: "e".into(),
            },
            "task 't' failed: e",
        ),
    ];
    for (error, words) in cases {
        assert_eq!(error.to_string(), words);
    }
    let inner = ProcessError::Pty("p".into());
    let words = format!("process error: {}", inner.to_string());
    assert_eq!(DaemonError::Process(inner).to_string(), words);
}
