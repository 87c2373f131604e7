//! Laws of messages: each names what it is about.

use crate::config::error::{self, ConfigError, ErrorModel, KindModel};
use crate::daemon::api::ApiResponse;
use crate::daemon::engine;
use crate::daemon::engine_model;
use crate::daemon::error::{self as daemon_error, DaemonError};
use crate::daemon::tasks;
use crate::daemon::trigger::{RestartScope, TriggerSource};
use crate::mcp::client;
use crate::mcp::error::{self as mcp_error, McpError};
use crate::process::error::{self as process_error, ProcessError};
use crate::process::executor::OutputLine;
use crate::text::{self, Text};
use vstd::prelude::*;

verus! {

/// Whether a text stands somewhere in another.
pub open spec fn names(whole: Text, part: Text) -> bool {
    exists|i: int|
        0 <= i && i + part.len() <= whole.len() && #[trigger] whole.subrange(
            i,
            i + part.len(),
        ) == part
}

proof fn lemma_names(before: Text, part: Text, behind: Text)
    ensures
        names(before + part + behind, part),
        names(before + part, part),
{
    let whole = before + part + behind;
    let i = before.len() as int;
    assert(whole.subrange(i, i + part.len()) =~= part);
    assert((before + part).subrange(i, i + part.len()) =~= part);
}

proof fn lemma_names_on(whole: Text, more: Text, part: Text)
    requires
        names(whole, part),
    ensures
        names(whole + more, part),
{
    let i = choose|i: int|
        0 <= i && i + part.len() <= whole.len() && #[trigger] whole.subrange(
            i,
            i + part.len(),
        ) == part;
    assert((whole + more).subrange(i, i + part.len()) =~= part);
}

/// The message of a fault in the dependencies or the patterns of a group names the group
/// and what is wrong in it.
pub proof fn law_a_fault_names_its_group(kind: KindModel)
    ensures
        kind matches KindModel::UnknownDependency { group, dependency } ==> names(
            kind.message(),
            group,
        ) && names(kind.message(), dependency),
        kind matches KindModel::SelfDependency { group } ==> names(kind.message(), group),
        kind matches KindModel::EmptyGroup { name } ==> names(kind.message(), name),
        kind matches KindModel::InvalidPattern { group, pattern, error } ==> names(
            kind.message(),
            group,
        ) && names(kind.message(), pattern) && names(kind.message(), error),
        kind matches KindModel::InvalidIgnorePattern { group, pattern, error } ==> names(
            kind.message(),
            group,
        ) && names(kind.message(), pattern) && names(kind.message(), error),
        kind matches KindModel::DependencyCycle { cycle } ==> names(
            kind.message(),
            text::joined(cycle, " -> "@),
        ),
{
    match kind {
        KindModel::UnknownDependency { group, dependency } => {
            let a = "group '"@ + group;
            lemma_names("group '"@, group, "': depends_on references unknown group '"@);
            let b = a + "': depends_on references unknown group '"@;
            lemma_names_on(b, dependency, group);
            lemma_names_on(b + dependency, "'"@, group);
            lemma_names(b, dependency, "'"@);
        },
        KindModel::SelfDependency { group } => {
            lemma_names("group '"@, group, "': cannot depend on itself"@);
        },
        KindModel::EmptyGroup { name } => {
            lemma_names("group '"@, name, "': has no patterns and no commands"@);
        },
        KindModel::InvalidPattern { group, pattern, error } => {
            lemma_names("group '"@, group, "': invalid pattern '"@);
            let b = "group '"@ + group + "': invalid pattern '"@;
            lemma_names_on(b, pattern, group);
            lemma_names_on(b + pattern, "': "@, group);
            lemma_names_on(b + pattern + "': "@, error, group);
            lemma_names(b, pattern, "': "@);
            lemma_names_on(b + pattern + "': "@, error, pattern);
            lemma_names(b + pattern + "': "@, error, Seq::empty());
        },
        KindModel::InvalidIgnorePattern { group, pattern, error } => {
            lemma_names("group '"@, group, "': invalid ignore pattern '"@);
            let b = "group '"@ + group + "': invalid ignore pattern '"@;
            lemma_names_on(b, pattern, group);
            lemma_names_on(b + pattern, "': "@, group);
            lemma_names_on(b + pattern + "': "@, error, group);
            lemma_names(b, pattern, "': "@);
            lemma_names_on(b + pattern + "': "@, error, pattern);
            lemma_names(b + pattern + "': "@, error, Seq::empty());
        },
        KindModel::DependencyCycle { cycle } => {
            lemma_names("dependency cycle detected: "@, text::joined(cycle, " -> "@), Seq::empty());
        },
        _ => {},
    }
}

/// The message of a fault in the commands of a group names the group and the command; one
/// of a fault in the names of groups tells their places.
pub proof fn law_a_fault_names_its_command(kind: KindModel)
    ensures
        kind matches KindModel::EmptyTaskCommand { group, task } ==> names(kind.message(), group)
            && names(kind.message(), task),
        kind matches KindModel::EmptyDaemonCommand { group, daemon } ==> names(
            kind.message(),
            group,
        ) && names(kind.message(), daemon),
        kind matches KindModel::DuplicateTaskName { group, name, is_explicit } ==> names(
            kind.message(),
            group,
        ) && names(kind.message(), name),
        kind matches KindModel::DuplicateDaemonName { group, name, is_explicit } ==> names(
            kind.message(),
            group,
        ) && names(kind.message(), name),
        kind matches KindModel::EmptyGroupName { index } ==> names(
            kind.message(),
            text::decimal(index as nat),
        ),
        kind matches KindModel::DuplicateGroupName { name, first_index, second_index } ==> names(
            kind.message(),
            name,
        ) && kind.message() == "group["@ + text::decimal(second_index as nat)
            + "]: duplicate name '"@ + name + "' (first defined at group["@ + text::decimal(
            first_index as nat,
        ) + "])"@,
{
    match kind {
        KindModel::EmptyTaskCommand { group, task } => {
            lemma_names("group '"@, group, "': task '"@);
            let b = "group '"@ + group + "': task '"@;
            lemma_names_on(b, task, group);
            lemma_names_on(b + task, "' has empty command"@, group);
            lemma_names(b, task, "' has empty command"@);
        },
        KindModel::EmptyDaemonCommand { group, daemon } => {
            lemma_names("group '"@, group, "': daemon '"@);
            let b = "group '"@ + group + "': daemon '"@;
            lemma_names_on(b, daemon, group);
            lemma_names_on(b + daemon, "' has empty command"@, group);
            lemma_names(b, daemon, "' has empty command"@);
        },
        KindModel::DuplicateTaskName { group, name, is_explicit } => {
            lemma_names("group '"@, group, "': duplicate task name '"@);
            let b = "group '"@ + group + "': duplicate task name '"@;
            let hint = error::name_hint(is_explicit);
            lemma_names_on(b, name, group);
            lemma_names_on(b + name, "'"@, group);
            lemma_names_on(b + name + "'"@, hint, group);
            lemma_names(b, name, "'"@);
            lemma_names_on(b + name + "'"@, hint, name);
        },
        KindModel::DuplicateDaemonName { group, name, is_explicit } => {
            lemma_names("group '"@, group, "': duplicate daemon name '"@);
            let b = "group '"@ + group + "': duplicate daemon name '"@;
            let hint = error::name_hint(is_explicit);
            lemma_names_on(b, name, group);
            lemma_names_on(b + name, "'"@, group);
            lemma_names_on(b + name + "'"@, hint, group);
            lemma_names(b, name, "'"@);
            lemma_names_on(b + name + "'"@, hint, name);
        },
        KindModel::EmptyGroupName { index } => {
            lemma_names("group["@, text::decimal(index as nat), "]: name cannot be empty"@);
        },
        KindModel::DuplicateGroupName { name, first_index, second_index } => {
            let b = "group["@ + text::decimal(second_index as nat) + "]: duplicate name '"@;
            lemma_names(b, name, "' (first defined at group["@);
            let c = b + name + "' (first defined at group["@;
            lemma_names_on(c, text::decimal(first_index as nat), name);
            lemma_names_on(c + text::decimal(first_index as nat), "])"@, name);
        },
        _ => {},
    }
}

/// Each kind of fault has a code of its own.
pub proof fn law_codes_tell_faults_apart(kind: KindModel)
    ensures
        kind is EmptyGroupName ==> kind.code() == "empty_group_name"@,
        kind is DuplicateGroupName ==> kind.code() == "duplicate_group_name"@,
        kind is EmptyGroup ==> kind.code() == "empty_group"@,
        kind is UnknownDependency ==> kind.code() == "unknown_dependency"@,
        kind is SelfDependency ==> kind.code() == "self_dependency"@,
        kind is DependencyCycle ==> kind.code() == "dependency_cycle"@,
        kind is InvalidPattern ==> kind.code() == "invalid_pattern"@,
        kind is InvalidIgnorePattern ==> kind.code() == "invalid_ignore_pattern"@,
        kind is EmptyTaskCommand ==> kind.code() == "empty_task_command"@,
        kind is DuplicateTaskName ==> kind.code() == "duplicate_task_name"@,
        kind is EmptyDaemonCommand ==> kind.code() == "empty_daemon_command"@,
        kind is DuplicateDaemonName ==> kind.code() == "duplicate_daemon_name"@,
{
}

/// The message of an error holds that of its fault; its place stands before it, where it
/// is known, and its hint behind it, where there is one. A list of errors has the messages
/// of all of them.
pub proof fn law_an_error_tells_its_fault(e: ErrorModel, errors: Seq<ErrorModel>)
    ensures
        names(e.message(), e.kind.message()),
        e.hint is Some ==> names(e.message(), e.hint->0),
        e.span is None && e.hint is None ==> e.message() == e.kind.message(),
        e.span is Some && e.hint is None ==> e.message() == text::decimal(e.span->0.line as nat)
            + ":"@ + text::decimal(e.span->0.column as nat) + ": "@ + e.kind.message(),
        names(error::error_lines(errors.push(e)), e.message()),
        forall|part: Text|
            names(error::error_lines(errors), part) ==> #[trigger] names(
                error::error_lines(errors.push(e)),
                part,
            ),
{
    let place: Text = match e.span {
        Some(span) => error::span_text(span) + ": "@,
        None => Seq::empty(),
    };
    let hint: Text = match e.hint {
        Some(h) => "\n               hint: "@ + h,
        None => Seq::empty(),
    };
    lemma_names(place, e.kind.message(), hint);
    if e.hint is Some {
        let h = e.hint->0;
        let before = place + e.kind.message() + "\n               hint: "@;
        lemma_names(before, h, Seq::empty());
        assert(e.message() =~= before + h);
    } else {
        if e.span is None {
            assert(e.message() =~= e.kind.message());
        } else {
            assert(e.message() =~= place + e.kind.message());
        }
    }
    assert(errors.push(e).drop_last() =~= errors);
    let lines = error::error_lines(errors);
    lemma_names(lines + "\n"@, e.message(), Seq::empty());
    assert forall|part: Text| names(lines, part) implies #[trigger] names(
        error::error_lines(errors.push(e)),
        part,
    ) by {
        lemma_names_on(lines, "\n"@, part);
        lemma_names_on(lines + "\n"@, e.message(), part);
    }
}

/// The message of a configuration that could not be loaded names the file, or what is
/// wrong in it.
pub proof fn law_a_loading_error_names_its_cause(e: ConfigError)
    ensures
        e matches ConfigError::Io { path, source } ==> names(error::config_error_text(e), path@)
            && names(error::config_error_text(e), source@),
        e matches ConfigError::UnknownFormat { path } ==> names(
            error::config_error_text(e),
            path@,
        ),
        e matches ConfigError::Toml { message, span } ==> names(
            error::config_error_text(e),
            message@,
        ),
        e matches ConfigError::Json(m) ==> names(error::config_error_text(e), m@),
        e matches ConfigError::Validation(errors) ==> names(
            error::config_error_text(e),
            error::error_lines(errors@),
        ),
        e matches ConfigError::NotFound { searched } ==> names(
            error::config_error_text(e),
            text::joined(text::texts(searched@), ", "@),
        ),
{
    match e {
        ConfigError::Io { path, source } => {
            lemma_names("failed to read config file "@, path@, ": "@);
            let b = "failed to read config file "@ + path@ + ": "@;
            lemma_names_on(b, source@, path@);
            lemma_names(b, source@, Seq::empty());
        },
        ConfigError::UnknownFormat { path } => {
            lemma_names("unknown config format for "@, path@, " (expected .toml or .json)"@);
        },
        ConfigError::Toml { message, span } => {
            lemma_names("TOML parse error: "@, message@, error::range_text(span));
        },
        ConfigError::Json(m) => {
            lemma_names("JSON parse error: "@, m@, Seq::empty());
        },
        ConfigError::Validation(errors) => {
            lemma_names(
                "configuration validation failed:"@,
                error::error_lines(errors@),
                Seq::empty(),
            );
        },
        ConfigError::NotFound { searched } => {
            lemma_names(
                "no configuration file found, searched: "@,
                text::joined(text::texts(searched@), ", "@),
                Seq::empty(),
            );
        },
    }
}

/// The message of an error of the daemon names the group, the task or the cause.
pub proof fn law_a_daemon_error_names_its_cause(e: DaemonError)
    ensures
        e matches DaemonError::GroupNotFound(g) ==> daemon_error::daemon_error_text(e)
            == "group not found: "@ + g@,
        e matches DaemonError::CyclicDependency(g) ==> daemon_error::daemon_error_text(e)
            == "cyclic dependency detected involving: "@ + g@,
        e matches DaemonError::TaskFailed { task, error } ==> daemon_error::daemon_error_text(e)
            == "task '"@ + task@ + "' failed: "@ + error@,
        e matches DaemonError::VarExpansion(m) ==> daemon_error::daemon_error_text(e)
            == "variable expansion error: "@ + m@,
        e matches DaemonError::Watch(m) ==> daemon_error::daemon_error_text(e) == "watch error: "@
            + m@,
        e matches DaemonError::Serialization(m) ==> names(daemon_error::daemon_error_text(e), m@),
        e matches DaemonError::Config(c) ==> names(
            daemon_error::daemon_error_text(e),
            error::config_error_text(c),
        ),
        e matches DaemonError::Process(p) ==> names(
            daemon_error::daemon_error_text(e),
            process_error::process_error_text(p),
        ),
        e matches DaemonError::SocketResolution { start_dir } ==> names(
            daemon_error::daemon_error_text(e),
            start_dir@,
        ),
        e matches DaemonError::Bind { kind, message } ==> names(
            daemon_error::daemon_error_text(e),
            message@,
        ),
{
    match e {
        DaemonError::Serialization(m) => lemma_names("serialization error: "@, m@, Seq::empty()),
        DaemonError::Config(c) => lemma_names(
            "configuration error: "@,
            error::config_error_text(c),
            Seq::empty(),
        ),
        DaemonError::Process(p) => lemma_names(
            "process error: "@,
            process_error::process_error_text(p),
            Seq::empty(),
        ),
        DaemonError::SocketResolution { start_dir } => lemma_names(
            "could not resolve daemon socket from "@,
            start_dir@,
            Seq::empty(),
        ),
        DaemonError::Bind { kind, message } => lemma_names(
            "failed to bind to socket: "@,
            message@,
            Seq::empty(),
        ),
        _ => {},
    }
}

/// The message of a process that failed tells its exit code, its signal or the cause.
pub proof fn law_a_process_error_names_its_cause(e: ProcessError)
    ensures
        e matches ProcessError::Spawn(m) ==> process_error::process_error_text(e)
            == "failed to spawn process: "@ + m@,
        e matches ProcessError::Pty(m) ==> process_error::process_error_text(e)
            == "failed to allocate PTY: "@ + m@,
        e matches ProcessError::ExitStatus(code) ==> process_error::process_error_text(e)
            == "process exited with status "@ + text::signed_decimal(code as int),
        e matches ProcessError::Signal(number) ==> process_error::process_error_text(e)
            == "process killed by signal "@ + text::signed_decimal(number as int),
        e matches ProcessError::SendSignal(m) ==> process_error::process_error_text(e)
            == "failed to send signal: "@ + m@,
        e matches ProcessError::LaunchDaemon(m) ==> process_error::process_error_text(e)
            == "failed to launch daemon: "@ + m@,
{
}

/// The message of an error of the tool server names the cause, and says what to do where
/// something can be done: start the daemon, or go to a project.
pub proof fn law_a_tool_error_says_what_to_do(e: McpError)
    ensures
        mcp_error::mcp_hint(e) is Some <==> e is DaemonNotRunning || e is NoConfig,
        e is DaemonNotRunning ==> mcp_error::mcp_hint(e) == Some(
            "start it with `zaz` or `zaz start`"@,
        ),
        e matches McpError::DaemonNotRunning { socket } ==> mcp_error::mcp_error_text(e)
            == "daemon is not running at "@ + socket@,
        e matches McpError::NoConfig { start_dir } ==> mcp_error::mcp_error_text(e)
            == "no zaz config found at or above "@ + start_dir@,
        e matches McpError::UnexpectedResponse(m) ==> mcp_error::mcp_error_text(e)
            == "unexpected daemon response: "@ + m@,
        e matches McpError::DaemonRefused { operation, message } ==> mcp_error::mcp_error_text(e)
            == "daemon refused "@ + operation@ + ": "@ + message@,
        e matches McpError::Config(c) ==> mcp_error::mcp_error_text(e) == "config error: "@
            + error::config_error_text(c),
        e matches McpError::Daemon(d) ==> mcp_error::mcp_error_text(e) == "daemon error: "@
            + daemon_error::daemon_error_text(d),
{
}

/// An answer that was not expected is told: an error of the daemon in its own words, and
/// another with what was expected and what came.
pub proof fn law_an_unexpected_answer_is_told(
    response: ApiResponse,
    expected: Text,
    shown: Text,
    e: McpError,
)
    requires
        client::unexpected(response, expected, shown, e),
    ensures
        e is UnexpectedResponse,
        response is Error ==> e->UnexpectedResponse_0@ == response->Error_message@,
        !(response is Error) ==> names(e->UnexpectedResponse_0@, expected) && names(
            e->UnexpectedResponse_0@,
            shown,
        ),
{
    lemma_names("expected "@, expected, ", got "@);
    let b = "expected "@ + expected + ", got "@;
    lemma_names_on(b, shown, expected);
    lemma_names(b, shown, Seq::empty());
}

/// An explicit path comes before the one that was discovered.
pub proof fn law_an_explicit_path_comes_first(explicit: Option<String>, discovered: Option<String>)
    ensures
        explicit is Some ==> client::config_path(explicit, discovered) == explicit,
        explicit is None ==> client::config_path(explicit, discovered) == discovered,
{
}

/// What set a group in motion is told with the groups and the processes that it concerns.
pub proof fn law_a_trigger_names_its_source(source: TriggerSource, scope: RestartScope)
    ensures
        source is Startup ==> crate::daemon::trigger::source_text(source) == "startup"@,
        source matches TriggerSource::FileChange { files } ==> crate::daemon::trigger::source_text(source)
            == "file change ("@ + text::decimal(files@.len()) + " files)"@,
        source matches TriggerSource::TaskCompletion { group } ==> crate::daemon::trigger::source_text(source)
            == "task completion in '"@ + group@ + "'"@,
        source matches TriggerSource::DaemonRestart { group } ==> crate::daemon::trigger::source_text(source)
            == "daemon restart in '"@ + group@ + "'"@,
        source matches TriggerSource::ManualRestart { scope: s } ==> crate::daemon::trigger::source_text(source)
            == "manual restart ("@ + crate::daemon::trigger::scope_text(s) + ")"@,
        source matches TriggerSource::DependencyReady { completed_group } ==> crate::daemon::trigger::source_text(
            source,
        ) == "dependency '"@ + completed_group@ + "' ready"@,
        scope is All ==> crate::daemon::trigger::scope_text(scope) == "all groups"@,
        scope matches RestartScope::Group(name) ==> crate::daemon::trigger::scope_text(scope) == "group '"@
            + name@ + "'"@,
        scope matches RestartScope::Process { group, process } ==> crate::daemon::trigger::scope_text(scope)
            == "process '"@ + process@ + "' in group '"@ + group@ + "'"@,
{
}

/// What is logged when a task is over tells its exit code or why it failed, and how long
/// a successful one took.
pub proof fn law_the_end_of_a_task_is_logged(
    result: Result<Option<i32>, ProcessError>,
    seconds: Text,
)
    ensures
        result is Err ==> tasks::task_text(result, seconds) == "failed: "@
            + process_error::process_error_text(result->Err_0),
        result is Ok && result->Ok_0 is Some && result->Ok_0->0 != 0 ==> tasks::task_text(
            result,
            seconds,
        ) == "failed: process exited with status "@ + text::signed_decimal(
            result->Ok_0->0 as int,
        ),
        result is Ok && result->Ok_0 is Some && result->Ok_0->0 == 0 ==> tasks::task_text(
            result,
            seconds,
        ) == "completed in "@ + seconds + "s (exit code: "@ + text::signed_decimal(0) + ")"@,
        result is Ok && result->Ok_0 is None ==> tasks::task_text(result, seconds)
            == "completed in "@ + seconds + "s (exit code: "@ + "?"@ + ")"@,
{
}

/// An exit code is told as its number, where there is one.
pub proof fn law_an_exit_code_is_told(code: Option<i32>)
    ensures
        code is Some ==> engine_model::exit_text(code) == text::signed_decimal(code->0 as int),
        code is None ==> engine_model::exit_text(code) == "?"@,
        code is Some ==> engine_model::exit_failure(code) == "process exited with status "@
            + text::signed_decimal(code->0 as int),
{
}

/// A line of output is logged as it is, by the stream that it came from.
pub proof fn law_output_is_told_by_its_stream(line: OutputLine)
    ensures
        line matches OutputLine::Stdout(s) ==> tasks::output_parts(line) == (s@, false),
        line matches OutputLine::Stderr(s) ==> tasks::output_parts(line) == (s@, true),
{
}

/// A reload is told with how many groups were added, removed and modified.
pub proof fn law_a_reload_is_told_in_numbers(prefix: Text, added: nat, removed: nat, modified: nat)
    ensures
        engine::reload_text(prefix, added, removed, modified) == prefix + text::decimal(added)
            + " added, "@ + text::decimal(removed) + " removed, "@ + text::decimal(modified)
            + " modified"@,
{
}

} // verus!
