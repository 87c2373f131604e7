use zaz::mcp::error::McpError;

#[test]
fn daemon_not_running_display_omits_recovery_prose() {
    let err = McpError::DaemonNotRunning {
        socket: "/tmp/zaz.sock".to_string(),
    };
    let msg = err.to_string();
    assert!(msg.contains("daemon is not running at"));
    assert!(msg.contains("/tmp/zaz.sock"));
    assert!(!msg.contains("zaz start"));
}

#[test]
fn daemon_not_running_hint_returns_recovery_prose() {
    let err = McpError::DaemonNotRunning {
        socket: "/tmp/zaz.sock".to_string(),
    };
    assert_eq!(err.hint(), Some("start it with `zaz` or `zaz start`"));
}

#[test]
fn no_config_display_omits_recovery_prose() {
    let err = McpError::NoConfig {
        start_dir: "/tmp/elsewhere".to_string(),
    };
    let msg = err.to_string();
    assert!(msg.contains("no zaz config found at or above"));
    assert!(msg.contains("/tmp/elsewhere"));
    assert!(!msg.contains("zaz mcp"));
    assert!(!msg.contains("zaz.toml"));
}

#[test]
fn no_config_hint_returns_recovery_prose() {
    let err = McpError::NoConfig {
        start_dir: "/tmp/elsewhere".to_string(),
    };
    assert_eq!(
        err.hint(),
        Some("run `zaz mcp` from a project directory containing zaz.toml or zaz.json")
    );
}

#[test]
fn error_other_variants_have_no_hint() {
    assert_eq!(McpError::Serve("x".into()).hint(), None);
    assert_eq!(McpError::UnexpectedResponse("y".into()).hint(), None);
    assert_eq!(
        McpError::DaemonRefused {
            operation: "restart_group",
            message: "unknown".into(),
        }
        .hint(),
        None
    );
}

#[test]
fn tool_errors_in_words() {
    assert_eq!(
        McpError::Io("broken pipe".into()).to_string(),
        "mcp transport error: broken pipe"
    );
    assert_eq!(McpError::Serve("x".into()).to_string(), "mcp service error: x");
    assert_eq!(
        McpError::UnexpectedResponse("y".into()).to_string(),
        "unexpected daemon response: y"
    );
    assert_eq!(
        McpError::DaemonRefused {
            operation: "restart_all",
            message: "no".into(),
        }
        .to_string(),
        "daemon refused restart_all: no"
    );
}
