//! Requests to the daemon, and what its responses mean.
//!
//! Each call opens a connection of its own, sends one request and reads one
//! response. Errors come in kinds that tell a user what to do.

use crate::config::error::ConfigError;
use crate::config::schema::Config;
use crate::daemon::api::{ApiRequest, ApiResponse, LogLine};
use crate::daemon::error::{DaemonError, IoErrorKind};
use crate::daemon::state::DaemonState;
use crate::mcp::error::McpError;
use crate::mcp::types::LogsRequest;
use crate::text::{self, cat2, cat4, Text};
use vstd::prelude::*;

verus! {

/// Result of a paginated logs query, mirroring the daemon's response.
#[derive(Debug)]
pub struct LogsPage {
    pub name: String,
    pub lines: Vec<LogLine>,
    pub total_count: Option<usize>,
    pub has_more: Option<bool>,
    pub offset: Option<usize>,
}

/// Whether a response was not the one to expect: an error of the daemon is
/// handed on, anything else is named.
pub open spec fn unexpected(response: ApiResponse, expected: Text, shown: Text, e: McpError) -> bool {
    e matches McpError::UnexpectedResponse(m) && m@ == match response {
        ApiResponse::Error { message } => message@,
        _ => "expected "@ + expected + ", got "@ + shown,
    }
}

fn unexpected_response(response: ApiResponse, expected: &str, shown: &str) -> (r: McpError)
    ensures
        unexpected(response, expected@, shown@, r),
{
    match response {
        ApiResponse::Error { message } => McpError::UnexpectedResponse(message),
        _ => McpError::UnexpectedResponse(cat4("expected ", expected, ", got ", shown)),
    }
}

/// The daemon's overall state, out of its response to a status request. `shown`
/// is the response in words.
pub fn fetch_status(response: ApiResponse, shown: &str) -> (r: Result<DaemonState, McpError>)
    ensures
        match response {
            ApiResponse::Status { state } => r == Ok::<DaemonState, McpError>(state),
            _ => r matches Err(e) && unexpected(response, "Status"@, shown@, e),
        },
{
    match response {
        ApiResponse::Status { state } => Ok(state),
        other => Err(unexpected_response(other, "Status", shown)),
    }
}

/// The request for a page of logs: of all processes, unless one is named.
pub fn logs_request(req: &LogsRequest) -> (r: ApiRequest)
    ensures
        r matches ApiRequest::GetLogs { name, project, lines, offset, limit, search } && {
            &&& name@ == match req.name {
                Some(n) => n@,
                None => "*"@,
            }
            &&& text::opt_text(project) == text::opt_text(req.project)
            &&& lines is None
            &&& offset == req.offset
            &&& limit == req.limit
            &&& text::opt_text(search) == text::opt_text(req.search)
        },
{
    ApiRequest::GetLogs {
        name: match &req.name {
            Some(n) => n.clone(),
            None => "*".to_owned(),
        },
        project: req.project.clone(),
        lines: None,
        offset: req.offset,
        limit: req.limit,
        search: req.search.clone(),
    }
}

/// A page of logs, out of the daemon's response. `shown` is the response in
/// words.
pub fn fetch_logs(response: ApiResponse, shown: &str) -> (r: Result<LogsPage, McpError>)
    ensures
        match response {
            ApiResponse::Logs { name, lines, total_count, has_more, offset } => r == Ok::<
                LogsPage,
                McpError,
            >(LogsPage { name, lines, total_count, has_more, offset }),
            _ => r matches Err(e) && unexpected(response, "Logs"@, shown@, e),
        },
{
    match response {
        ApiResponse::Logs { name, lines, total_count, has_more, offset } => Ok(
            LogsPage { name, lines, total_count, has_more, offset },
        ),
        other => Err(unexpected_response(other, "Logs", shown)),
    }
}

fn copy_str(s: Option<&str>) -> (r: Option<String>)
    ensures
        text::opt_text(r) == match s {
            Some(s) => Some(s@),
            None => None,
        },
{
    match s {
        Some(s) => Some(s.to_owned()),
        None => None,
    }
}

/// The request to restart a single group, optionally scoped to a workspace
/// project.
pub fn restart_group(name: &str, project: Option<&str>) -> (r: ApiRequest)
    ensures
        r matches ApiRequest::RestartGroup { name: n, project: p } && n@ == name@ && text::opt_text(
            p,
        ) == match project {
            Some(s) => Some(s@),
            None => None,
        },
{
    ApiRequest::RestartGroup { name: name.to_owned(), project: copy_str(project) }
}

/// The request to restart a single process within a group, optionally scoped to
/// a project.
pub fn restart_process(group: &str, process: &str, project: Option<&str>) -> (r: ApiRequest)
    ensures
        r matches ApiRequest::RestartProcess { group: g, process: q, project: p } && g@ == group@
            && q@ == process@ && text::opt_text(p) == match project {
            Some(s) => Some(s@),
            None => None,
        },
{
    ApiRequest::RestartProcess {
        group: group.to_owned(),
        process: process.to_owned(),
        project: copy_str(project),
    }
}

/// What the daemon says to an operation that changes something. `shown` is the
/// response in words.
pub fn send_mutation(response: ApiResponse, operation: &'static str, shown: &str) -> (r: Result<
    String,
    McpError,
>)
    ensures
        match response {
            ApiResponse::Success { message } => r matches Ok(m) && m@ == match message {
                Some(said) => said@,
                None => "ok"@,
            },
            ApiResponse::Error { message } => r == Err::<String, McpError>(
                McpError::DaemonRefused { operation, message },
            ),
            _ => r matches Err(McpError::UnexpectedResponse(m)) && m@ == "expected Ok for "@
                + operation@ + ", got "@ + shown@,
        },
{
    match response {
        ApiResponse::Success { message } => match message {
            Some(said) => Ok(said),
            None => Ok("ok".to_owned()),
        },
        ApiResponse::Error { message } => Err(McpError::DaemonRefused { operation, message }),
        _ => Err(
            McpError::UnexpectedResponse(cat4("expected Ok for ", operation, ", got ", shown)),
        ),
    }
}

/// The path of the project config file. An `explicit` path takes precedence over
/// the one that was discovered.
pub open spec fn config_path(explicit: Option<String>, discovered: Option<String>) -> Option<
    String,
> {
    match explicit {
        Some(path) => Some(path),
        None => discovered,
    }
}

/// A project config and where it stands, out of what loading it gave.
pub fn loaded_config(path: String, loaded: Result<Config, ConfigError>) -> (r: Result<
    (String, Config),
    McpError,
>)
    ensures
        match loaded {
            Ok(config) => r == Ok::<(String, Config), McpError>((path, config)),
            Err(e) => r == Err::<(String, Config), McpError>(McpError::Config(e)),
        },
{
    match loaded {
        Ok(config) => Ok((path, config)),
        Err(e) => Err(McpError::Config(e)),
    }
}

/// Discover and load the project config file. An `explicit` path takes precedence
/// over the one that was discovered at or above the working directory; where
/// there is neither, nothing is loaded.
pub fn discover_config<L: FnOnce(&String) -> Result<Config, ConfigError>>(
    explicit: Option<String>,
    discovered: Option<String>,
    cwd: &str,
    load: L,
) -> (r: Result<(String, Config), McpError>)
    requires
        config_path(explicit, discovered) matches Some(path) ==> call_requires(load, (&path,)),
    ensures
        match config_path(explicit, discovered) {
            Some(path) => match r {
                Ok((p, config)) => p == path && call_ensures(load, (&path,), Ok(config)),
                Err(McpError::Config(e)) => call_ensures(load, (&path,), Err(e)),
                Err(_) => false,
            },
            None => r matches Err(McpError::NoConfig { start_dir }) && start_dir@ == cwd@,
        },
{
    let chosen = match explicit {
        Some(path) => Some(path),
        None => discovered,
    };
    match chosen {
        Some(path) => {
            let loaded = load(&path);
            loaded_config(path, loaded)
        },
        None => Err(McpError::NoConfig { start_dir: cwd.to_owned() }),
    }
}

/// Why no connection to the daemon could be made: where there is no socket, or
/// nobody listens on it, the daemon is not running.
pub fn open_client(error: DaemonError, socket: &str) -> (r: McpError)
    ensures
        match error {
            DaemonError::Bind { kind, message } => if kind == IoErrorKind::NotFound || kind
                == IoErrorKind::ConnectionRefused {
                r matches McpError::DaemonNotRunning { socket: s } && s@ == socket@
            } else {
                r == McpError::Daemon(error)
            },
            _ => r == McpError::Daemon(error),
        },
{
    if let DaemonError::Bind { kind, message: _ } = &error {
        if *kind == IoErrorKind::NotFound || *kind == IoErrorKind::ConnectionRefused {
            return McpError::DaemonNotRunning { socket: socket.to_owned() };
        }
    }
    McpError::Daemon(error)
}

} // verus!
