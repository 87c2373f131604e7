//! Error types for process management.

use crate::text::{self, cat2, signed_decimal_of, Text};
use vstd::prelude::*;

verus! {

/// Errors that can occur during process management.
#[derive(Debug)]
pub enum ProcessError {
    /// Failed to spawn process.
    Spawn(String),
    /// Failed to allocate PTY.
    Pty(String),
    /// Process exited with non-zero status.
    ExitStatus(i32),
    /// Process was killed by signal.
    Signal(i32),
    /// Failed to send signal to process.
    SendSignal(String),
    /// Failed to launch the background daemon.
    LaunchDaemon(String),
}

/// The text of an error.
pub open spec fn process_error_text(e: ProcessError) -> Text {
    match e {
        ProcessError::Spawn(m) => "failed to spawn process: "@ + m@,
        ProcessError::Pty(m) => "failed to allocate PTY: "@ + m@,
        ProcessError::ExitStatus(code) => "process exited with status "@ + text::signed_decimal(
            code as int,
        ),
        ProcessError::Signal(number) => "process killed by signal "@ + text::signed_decimal(
            number as int,
        ),
        ProcessError::SendSignal(m) => "failed to send signal: "@ + m@,
        ProcessError::LaunchDaemon(m) => "failed to launch daemon: "@ + m@,
    }
}

impl ProcessError {
    /// What went wrong, in words.
    pub fn to_string(&self) -> (r: String)
        ensures
            r@ == process_error_text(*self),
    {
        match self {
            ProcessError::Spawn(m) => cat2("failed to spawn process: ", m.as_str()),
            ProcessError::Pty(m) => cat2("failed to allocate PTY: ", m.as_str()),
            ProcessError::ExitStatus(code) => cat2(
                "process exited with status ",
                signed_decimal_of(*code).as_str(),
            ),
            ProcessError::Signal(number) => cat2(
                "process killed by signal ",
                signed_decimal_of(*number).as_str(),
            ),
            ProcessError::SendSignal(m) => cat2("failed to send signal: ", m.as_str()),
            ProcessError::LaunchDaemon(m) => cat2("failed to launch daemon: ", m.as_str()),
        }
    }
}

} // verus!
