//! Error types for the daemon.

use crate::config::error::{self, ConfigError};
use crate::process;
use crate::process::error::ProcessError;
use crate::text::{cat2, cat4, Text};
use vstd::prelude::*;

verus! {

/// What kind of I/O failure happened, as far as it matters.
#[derive(Debug, Clone, Copy, PartialEq, Eq, Structural)]
pub enum IoErrorKind {
    /// There is no such file or socket.
    NotFound,
    /// Nobody listens there.
    ConnectionRefused,
    /// Anything else.
    Other,
}

/// Errors that can occur in the daemon.
#[derive(Debug)]
pub enum DaemonError {
    /// Failed to bind to socket.
    Bind { kind: IoErrorKind, message: String },
    /// Configuration error.
    Config(ConfigError),
    /// Watch error.
    Watch(String),
    /// Process error.
    Process(ProcessError),
    /// Serialization error.
    Serialization(String),
    /// Group not found.
    GroupNotFound(String),
    /// Cyclic dependency detected.
    CyclicDependency(String),
    /// Variable expansion error.
    VarExpansion(String),
    /// Task failed.
    TaskFailed { task: String, error: String },
    /// Socket target could not be resolved from the current location.
    SocketResolution { start_dir: String },
}

/// The text of a daemon error.
pub open spec fn daemon_error_text(e: DaemonError) -> Text {
    match e {
        DaemonError::Bind { kind, message } => "failed to bind to socket: "@ + message@,
        DaemonError::Config(c) => "configuration error: "@ + error::config_error_text(c),
        DaemonError::Watch(m) => "watch error: "@ + m@,
        DaemonError::Process(p) => "process error: "@ + process::error::process_error_text(p),
        DaemonError::Serialization(m) => "serialization error: "@ + m@,
        DaemonError::GroupNotFound(g) => "group not found: "@ + g@,
        DaemonError::CyclicDependency(g) => "cyclic dependency detected involving: "@ + g@,
        DaemonError::VarExpansion(m) => "variable expansion error: "@ + m@,
        DaemonError::TaskFailed { task, error } => "task '"@ + task@ + "' failed: "@ + error@,
        DaemonError::SocketResolution { start_dir } => "could not resolve daemon socket from "@
            + start_dir@,
    }
}

impl DaemonError {
    /// The error in words.
    pub fn to_string(&self) -> (r: String)
        ensures
            r@ == daemon_error_text(*self),
    {
        match self {
            DaemonError::Bind { kind: _, message } => cat2(
                "failed to bind to socket: ",
                message.as_str(),
            ),
            DaemonError::Config(c) => cat2("configuration error: ", c.to_string().as_str()),
            DaemonError::Watch(m) => cat2("watch error: ", m.as_str()),
            DaemonError::Process(p) => cat2("process error: ", p.to_string().as_str()),
            DaemonError::Serialization(m) => cat2("serialization error: ", m.as_str()),
            DaemonError::GroupNotFound(g) => cat2("group not found: ", g.as_str()),
            DaemonError::CyclicDependency(g) => cat2(
                "cyclic dependency detected involving: ",
                g.as_str(),
            ),
            DaemonError::VarExpansion(m) => cat2("variable expansion error: ", m.as_str()),
            DaemonError::TaskFailed { task, error } => cat4(
                "task '",
                task.as_str(),
                "' failed: ",
                error.as_str(),
            ),
            DaemonError::SocketResolution { start_dir } => cat2(
                "could not resolve daemon socket from ",
                start_dir.as_str(),
            ),
        }
    }

    /// Recovery suggestion for variants where a concrete next step exists.
    /// Returns `None` for terminal errors with no actionable recovery.
    pub fn hint(&self) -> (r: Option<&'static str>)
        ensures
            match r {
                Some(h) => self is SocketResolution && h@
                    == "run this command from a zaz project directory or pass --socket <PATH>"@,
                None => !(self is SocketResolution),
            },
    {
        match self {
            DaemonError::SocketResolution { .. } => Some(
                "run this command from a zaz project directory or pass --socket <PATH>",
            ),
            _ => None,
        }
    }
}

} // verus!
