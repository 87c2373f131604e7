//! Where the daemon's socket is, and what a connection is answered.

use crate::daemon::api::ApiResponse;
use crate::daemon::error::DaemonError;
use crate::paths;
use crate::text::{self, cat2, Text};
use vstd::prelude::*;

verus! {

/// What the socket of a configuration file depends on.
#[derive(Debug)]
pub struct SocketSite {
    /// The directory of the configuration file, once its path is resolved.
    pub project_dir: Option<String>,
    /// Whether that directory holds a directory `.zaz`.
    pub has_zaz_dir: bool,
    /// The hash of the resolved path.
    pub hash: u64,
    /// The home directory, where it is known.
    pub home: Option<String>,
    /// The name of the user, where it is known.
    pub user: Option<String>,
}

/// The name of a user who may be unknown.
pub open spec fn user_or_unknown(user: Option<Text>) -> Text {
    match user {
        Some(user) => user,
        None => "unknown"@,
    }
}

/// The directory for sockets outside of projects: in the home directory or, as a
/// last resort, in `/tmp`.
pub open spec fn state_dir(home: Option<Text>, user: Option<Text>) -> Text {
    match home {
        Some(home) => paths::joined(home, ".local/state/zaz"@),
        None => "/tmp/zaz-"@ + user_or_unknown(user),
    }
}

/// The socket of a configuration file: in `.zaz` beside it where there is such a
/// directory, else in the state directory under the hash of its path.
pub open spec fn socket_at(site: SocketSite) -> Text {
    if site.project_dir is Some && site.has_zaz_dir {
        paths::joined(paths::joined(site.project_dir->0@, ".zaz"@), "daemon.sock"@)
    } else {
        paths::joined(
            state_dir(text::opt_text(site.home), text::opt_text(site.user)),
            paths::hash_name(site.hash, ".sock"@),
        )
    }
}

fn user_name(user: &Option<String>) -> (r: &str)
    ensures
        r@ == user_or_unknown(text::opt_text(*user)),
{
    match user {
        Some(user) => user.as_str(),
        None => "unknown",
    }
}

/// Get socket path for a specific config file.
///
/// 1. If a `.zaz/` directory exists in the config's parent directory, uses
///    `.zaz/daemon.sock`
/// 2. Otherwise, uses `~/.local/state/zaz/<hash>.sock` where hash is based on
///    config path
pub fn socket_path_for_config(site: &SocketSite) -> (r: String)
    ensures
        r@ == socket_at(*site),
{
    if let Some(dir) = &site.project_dir {
        if site.has_zaz_dir {
            return paths::join(paths::join(dir.as_str(), ".zaz").as_str(), "daemon.sock");
        }
    }
    let dir = match &site.home {
        Some(home) => paths::join(home.as_str(), ".local/state/zaz"),
        None => cat2("/tmp/zaz-", user_name(&site.user)),
    };
    paths::join(dir.as_str(), paths::hash_name_of(site.hash, ".sock").as_str())
}

/// Resolve the daemon socket for a command invocation.
///
/// Resolution order:
/// 1. Explicit `--socket` override, if provided
/// 2. Project config discovered by walking upward from `start_dir`
/// 3. Actionable error if no project config can be found
pub fn resolve_socket(
    explicit_socket: Option<String>,
    start_dir: &str,
    discovered: Option<SocketSite>,
) -> (r: Result<String, DaemonError>)
    ensures
        match explicit_socket {
            Some(socket) => r == Ok::<String, DaemonError>(socket),
            None => match discovered {
                Some(site) => r matches Ok(socket) && socket@ == socket_at(site),
                None => r matches Err(DaemonError::SocketResolution { start_dir: d }) && d@
                    == start_dir@,
            },
        },
{
    if let Some(socket) = explicit_socket {
        return Ok(socket);
    }
    match discovered {
        Some(site) => Ok(socket_path_for_config(&site)),
        None => Err(DaemonError::SocketResolution { start_dir: start_dir.to_owned() }),
    }
}

/// The socket for when no configuration is known.
pub open spec fn default_socket(
    runtime_dir: Option<Text>,
    home: Option<Text>,
    user: Option<Text>,
) -> Text {
    match runtime_dir {
        Some(dir) => paths::joined(dir, "zaz.sock"@),
        None => match home {
            Some(home) => paths::joined(paths::joined(home, ".local/state/zaz"@), "zaz.sock"@),
            None => "/tmp/zaz-"@ + user_or_unknown(user) + ".sock"@,
        },
    }
}

/// Default socket path (for when no config is known).
///
/// Uses `$XDG_RUNTIME_DIR/zaz.sock` if available (preferred).
/// Falls back to `~/.local/state/zaz/zaz.sock` for user-specific access.
/// As a last resort, uses `/tmp/zaz-<username>.sock`.
pub fn default_socket_path(
    runtime_dir: &Option<String>,
    home: &Option<String>,
    user: &Option<String>,
) -> (r: String)
    ensures
        r@ == default_socket(
            text::opt_text(*runtime_dir),
            text::opt_text(*home),
            text::opt_text(*user),
        ),
{
    if let Some(dir) = runtime_dir {
        return paths::join(dir.as_str(), "zaz.sock");
    }
    if let Some(home) = home {
        return paths::join(paths::join(home.as_str(), ".local/state/zaz").as_str(), "zaz.sock");
    }
    text::cat3("/tmp/zaz-", user_name(user), ".sock")
}

/// What became of a line that a client sent.
#[derive(Debug)]
pub enum LineOutcome {
    /// It is no request; the parser says why.
    Invalid(String),
    /// It is a request, and the engine takes none any more.
    Unavailable,
    /// It is a request, and the engine went away without an answer.
    Unanswered,
    /// The engine answered.
    Answered(ApiResponse),
}

/// What a client is answered for a line.
pub fn connection_reply(outcome: LineOutcome) -> (r: ApiResponse)
    ensures
        match outcome {
            LineOutcome::Invalid(e) => r.refuses("invalid request: "@ + e@),
            LineOutcome::Unavailable => r.refuses("engine unavailable"@),
            LineOutcome::Unanswered => r.refuses("no response from engine"@),
            LineOutcome::Answered(response) => r == response,
        },
{
    match outcome {
        LineOutcome::Invalid(e) => ApiResponse::error(
            cat2("invalid request: ", e.as_str()).as_str(),
        ),
        LineOutcome::Unavailable => ApiResponse::error("engine unavailable"),
        LineOutcome::Unanswered => ApiResponse::error("no response from engine"),
        LineOutcome::Answered(response) => response,
    }
}

} // verus!
