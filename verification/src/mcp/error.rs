//! Error types for the tool server.

use crate::config::error::{self, ConfigError};
use crate::daemon;
use crate::daemon::error::DaemonError;
use crate::text::{cat2, cat4, Text};
use vstd::prelude::*;

verus! {

/// Errors that can occur while running the tool server or servicing tools.
#[derive(Debug)]
pub enum McpError {
    /// I/O failure on the stdio transport or the daemon socket connection.
    Io(String),
    /// Failure raised by the service layer (initialize, dispatch, shutdown).
    Serve(String),
    /// The daemon socket exists in resolution but no process is listening on it.
    DaemonNotRunning { socket: String },
    /// Could not locate a zaz project from the current working directory.
    NoConfig { start_dir: String },
    /// Underlying daemon library error (socket resolution, serialization, etc.).
    Daemon(DaemonError),
    /// Configuration loading or validation error.
    Config(ConfigError),
    /// The daemon returned a response shape the client did not expect.
    UnexpectedResponse(String),
    /// The daemon understood the request but refused to perform the operation,
    /// e.g. an unknown group name or a config reload that fails to parse.
    DaemonRefused { operation: &'static str, message: String },
}

/// The text of an error.
pub open spec fn mcp_error_text(e: McpError) -> Text {
    match e {
        McpError::Io(m) => "mcp transport error: "@ + m@,
        McpError::Serve(m) => "mcp service error: "@ + m@,
        McpError::DaemonNotRunning { socket } => "daemon is not running at "@ + socket@,
        McpError::NoConfig { start_dir } => "no zaz config found at or above "@ + start_dir@,
        McpError::Daemon(d) => "daemon error: "@ + daemon::error::daemon_error_text(d),
        McpError::Config(c) => "config error: "@ + error::config_error_text(c),
        McpError::UnexpectedResponse(m) => "unexpected daemon response: "@ + m@,
        McpError::DaemonRefused { operation, message } => "daemon refused "@ + operation@ + ": "@
            + message@,
    }
}

/// The recovery suggestion of an error.
pub open spec fn mcp_hint(e: McpError) -> Option<Text> {
    match e {
        McpError::DaemonNotRunning { .. } => Some("start it with `zaz` or `zaz start`"@),
        McpError::NoConfig { .. } => Some(
            "run `zaz mcp` from a project directory containing zaz.toml or zaz.json"@,
        ),
        _ => None,
    }
}

impl McpError {
    /// What went wrong, in words.
    pub fn to_string(&self) -> (r: String)
        ensures
            r@ == mcp_error_text(*self),
    {
        match self {
            McpError::Io(m) => cat2("mcp transport error: ", m.as_str()),
            McpError::Serve(m) => cat2("mcp service error: ", m.as_str()),
            McpError::DaemonNotRunning { socket } => cat2(
                "daemon is not running at ",
                socket.as_str(),
            ),
            McpError::NoConfig { start_dir } => cat2(
                "no zaz config found at or above ",
                start_dir.as_str(),
            ),
            McpError::Daemon(d) => cat2("daemon error: ", d.to_string().as_str()),
            McpError::Config(c) => cat2("config error: ", c.to_string().as_str()),
            McpError::UnexpectedResponse(m) => cat2("unexpected daemon response: ", m.as_str()),
            McpError::DaemonRefused { operation, message } => cat4(
                "daemon refused ",
                operation,
                ": ",
                message.as_str(),
            ),
        }
    }

    /// Recovery suggestion for variants where a concrete next step exists.
    /// Returns `None` for terminal errors with no actionable recovery.
    pub fn hint(&self) -> (r: Option<&'static str>)
        ensures
            match r {
                Some(h) => mcp_hint(*self) == Some(h@),
                None => mcp_hint(*self) is None,
            },
    {
        match self {
            McpError::DaemonNotRunning { .. } => Some("start it with `zaz` or `zaz start`"),
            McpError::NoConfig { .. } => Some(
                "run `zaz mcp` from a project directory containing zaz.toml or zaz.json",
            ),
            _ => None,
        }
    }
}

} // verus!
