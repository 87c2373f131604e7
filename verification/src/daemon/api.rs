//! API request and response types.

use crate::daemon::state::DaemonState;
use crate::text::{self, Text};
use vstd::prelude::*;

verus! {

/// Source of a log line.
#[derive(Debug, Clone, Copy, PartialEq, Eq, Structural)]
pub enum LogSource {
    /// Output from a process (stdout/stderr).
    Process,
    /// Internal daemon log (zaz messages).
    Daemon,
}

/// Kind of output stream for process logs.
#[derive(Debug, Clone, Copy, PartialEq, Eq, Structural)]
pub enum OutputKind {
    /// Standard output.
    Stdout,
    /// Standard error.
    Stderr,
    /// Combined output (from a PTY, cannot distinguish).
    Combined,
}

impl Default for OutputKind {
    fn default() -> (r: Self)
        ensures
            r == OutputKind::Stdout,
    {
        OutputKind::Stdout
    }
}

/// A single log line with metadata.
#[derive(Debug)]
pub struct LogLine {
    /// Timestamp in milliseconds since Unix epoch.
    pub timestamp: u64,
    /// Process/task name this log is associated with.
    pub process: String,
    /// Group name (optional, for context).
    pub group: Option<String>,
    /// The log content.
    pub content: String,
    /// Source of the log (process output vs daemon internal).
    pub source: LogSource,
    /// Kind of output stream (stdout, stderr, or combined).
    /// Only meaningful when source is `Process`.
    pub output_kind: OutputKind,
}

/// The model of a log line.
pub struct LogModel {
    pub timestamp: u64,
    pub process: Text,
    pub group: Option<Text>,
    pub content: Text,
    pub source: LogSource,
    pub output_kind: OutputKind,
}

impl View for LogLine {
    type V = LogModel;

    open spec fn view(&self) -> LogModel {
        LogModel {
            timestamp: self.timestamp,
            process: self.process@,
            group: text::opt_text(self.group),
            content: self.content@,
            source: self.source,
            output_kind: self.output_kind,
        }
    }
}

impl DeepView for LogLine {
    type V = LogModel;

    open spec fn deep_view(&self) -> LogModel {
        self@
    }
}

impl Clone for LogLine {
    fn clone(&self) -> (r: Self)
        ensures
            r@ == self@,
    {
        LogLine {
            timestamp: self.timestamp,
            process: self.process.clone(),
            group: self.group.clone(),
            content: self.content.clone(),
            source: self.source,
            output_kind: self.output_kind,
        }
    }
}

/// `SystemTime::elapsed` of the Unix epoch, in whole milliseconds; `None` while the
/// clock stands before the epoch. Nothing is claimed of the value: it is the
/// machine's clock.
#[verifier::external_body]
fn millis_since_epoch() -> (r: Option<u128>) {
    std::time::UNIX_EPOCH.elapsed().ok().map(|d| d.as_millis())
}

/// The timestamp that a reading of the clock gives: a clock before the epoch
/// counts as the epoch.
pub fn timestamp_of(millis: Option<u128>) -> (r: u64)
    ensures
        r == match millis {
            Some(ms) => ms as u64,
            None => 0,
        },
{
    match millis {
        Some(ms) => ms as u64,
        None => 0,
    }
}

fn now_ms() -> u64 {
    timestamp_of(millis_since_epoch())
}

impl LogLine {
    /// A log line of a given time, without a group.
    pub fn at(
        timestamp: u64,
        process: &str,
        content: &str,
        source: LogSource,
        output_kind: OutputKind,
    ) -> (r: Self)
        ensures
            r@ == (LogModel {
                timestamp,
                process: process@,
                group: None,
                content: content@,
                source,
                output_kind,
            }),
    {
        LogLine {
            timestamp,
            process: process.to_owned(),
            group: None,
            content: content.to_owned(),
            source,
            output_kind,
        }
    }

    /// Create a new process log line, defaulting to combined output kind.
    pub fn process(process: &str, content: &str) -> (r: Self)
        ensures
            r@ == (LogModel {
                timestamp: r.timestamp,
                process: process@,
                group: None,
                content: content@,
                source: LogSource::Process,
                output_kind: OutputKind::Combined,
            }),
    {
        Self::at(now_ms(), process, content, LogSource::Process, OutputKind::Combined)
    }

    /// Create a new process log line from stdout.
    pub fn stdout(process: &str, content: &str) -> (r: Self)
        ensures
            r@ == (LogModel {
                timestamp: r.timestamp,
                process: process@,
                group: None,
                content: content@,
                source: LogSource::Process,
                output_kind: OutputKind::Stdout,
            }),
    {
        Self::at(now_ms(), process, content, LogSource::Process, OutputKind::Stdout)
    }

    /// Create a new process log line from stderr.
    pub fn stderr(process: &str, content: &str) -> (r: Self)
        ensures
            r@ == (LogModel {
                timestamp: r.timestamp,
                process: process@,
                group: None,
                content: content@,
                source: LogSource::Process,
                output_kind: OutputKind::Stderr,
            }),
    {
        Self::at(now_ms(), process, content, LogSource::Process, OutputKind::Stderr)
    }

    /// Create a new daemon log line.
    pub fn daemon(process: &str, content: &str) -> (r: Self)
        ensures
            r@ == (LogModel {
                timestamp: r.timestamp,
                process: process@,
                group: None,
                content: content@,
                source: LogSource::Daemon,
                output_kind: OutputKind::Combined,
            }),
    {
        Self::at(now_ms(), process, content, LogSource::Daemon, OutputKind::Combined)
    }

    /// Set the group for this log line.
    pub fn with_group(self, group: &str) -> (r: Self)
        ensures
            r@ == (LogModel { group: Some(group@), ..self@ }),
    {
        let mut line = self;
        line.group = Some(group.to_owned());
        line
    }

    /// Set the output kind for this log line.
    pub fn with_output_kind(self, output_kind: OutputKind) -> (r: Self)
        ensures
            r@ == (LogModel { output_kind, ..self@ }),
    {
        let mut line = self;
        line.output_kind = output_kind;
        line
    }
}

/// API request from client to daemon. `project` scopes a request within a
/// workspace of several projects; a daemon that serves a single project reads
/// past it.
#[derive(Debug)]
pub enum ApiRequest {
    /// Get overall status (one-shot).
    Status,
    /// Subscribe to status updates (streaming).
    /// The server sends `StatusUpdate` messages until the client disconnects.
    Subscribe,
    /// List all groups.
    ListGroups,
    /// Get logs for a process.
    GetLogs {
        /// Process name, or "*" for all processes.
        name: String,
        /// The project to look in.
        project: Option<String>,
        /// Number of lines to return (`None` = all).
        lines: Option<usize>,
        /// Number of lines to skip.
        offset: Option<usize>,
        /// Maximum number of lines on a page.
        limit: Option<usize>,
        /// Case-insensitive substring to look for.
        search: Option<String>,
    },
    /// Subscribe to logs for a process (streaming).
    SubscribeLogs {
        /// Process name.
        name: String,
    },
    /// Restart a specific group.
    RestartGroup {
        /// Group name.
        name: String,
        /// The project that the group belongs to.
        project: Option<String>,
    },
    /// Restart a specific process (task or service) within a group.
    RestartProcess {
        /// Group name.
        group: String,
        /// Process name (task or service).
        process: String,
        /// The project that the group belongs to.
        project: Option<String>,
    },
    /// Restart all groups.
    RestartAll,
    /// Reload configuration.
    ReloadConfig,
    /// Graceful shutdown.
    Shutdown,
}

/// API response from daemon to client.
#[allow(inconsistent_fields)]
#[derive(Debug)]
pub enum ApiResponse {
    /// Success with optional message.
    Success { message: Option<String> },
    /// Status response (one-shot).
    Status { state: DaemonState },
    /// Status update (streaming).
    StatusUpdate { state: DaemonState },
    /// Log lines (one-shot), with pagination metadata where a page was asked for.
    Logs {
        name: String,
        lines: Vec<LogLine>,
        total_count: Option<usize>,
        has_more: Option<bool>,
        offset: Option<usize>,
    },
    /// Log line (streaming).
    Log(LogLine),
    /// Error response.
    Error { message: String },
    /// End of stream marker.
    EndOfStream,
}

impl ApiResponse {
    /// Whether this is a success response that carries `message`.
    pub open spec fn says(self, message: Text) -> bool {
        self matches ApiResponse::Success { message: Some(m) } && m@ == message
    }

    /// Whether this is an error response that carries `message`.
    pub open spec fn refuses(self, message: Text) -> bool {
        self matches ApiResponse::Error { message: m } && m@ == message
    }

    /// Create a success response.
    pub fn ok() -> (r: Self)
        ensures
            r == (ApiResponse::Success { message: None }),
    {
        ApiResponse::Success { message: None }
    }

    /// Create a success response with a message.
    pub fn ok_with_message(message: &str) -> (r: Self)
        ensures
            r.says(message@),
    {
        ApiResponse::Success { message: Some(message.to_owned()) }
    }

    /// Create an error response.
    pub fn error(message: &str) -> (r: Self)
        ensures
            r.refuses(message@),
    {
        ApiResponse::Error { message: message.to_owned() }
    }
}

} // verus!
