//! Running a single task: what is logged on the way, and what is reported back.

use crate::daemon::api::{LogLine, LogModel, LogSource, OutputKind};
use crate::daemon::engine::{TaskCompletion, TaskExecutionContext};
use crate::daemon::engine_model::{CompletionModel, RunModel};
use crate::daemon::planning::{self, should_suppress};
use crate::daemon::state::ProcessStatus;
use crate::process;
use crate::process::error::ProcessError;
use crate::process::executor::OutputLine;
use crate::text::{self, cat2, cat5, signed_decimal_of, Text};
use vstd::prelude::*;

verus! {

/// The line that announces a task.
pub fn running_line(ctx: &TaskExecutionContext) -> (r: LogLine)
    ensures
        r@ == (LogModel {
            timestamp: r.timestamp,
            process: ctx.task_name@,
            group: Some(ctx.group_name@),
            content: "running: "@ + ctx.command@,
            source: LogSource::Daemon,
            output_kind: OutputKind::Combined,
        }),
{
    LogLine::daemon(
        ctx.task_name.as_str(),
        cat2("running: ", ctx.command.as_str()).as_str(),
    ).with_group(ctx.group_name.as_str())
}

/// The text of a line of output, and whether it came from standard error.
pub open spec fn output_parts(line: OutputLine) -> (Text, bool) {
    match line {
        OutputLine::Stdout(s) => (s@, false),
        OutputLine::Stderr(s) => (s@, true),
    }
}

/// The line that a task's output is logged as, unless its stream is silenced.
pub fn output_line(ctx: &TaskExecutionContext, line: OutputLine) -> (r: Option<LogLine>)
    ensures
        match r {
            None => planning::suppressed(ctx.silence, output_parts(line).1),
            Some(l) => !planning::suppressed(ctx.silence, output_parts(line).1) && l@ == (LogModel {
                timestamp: l.timestamp,
                process: ctx.task_name@,
                group: Some(ctx.group_name@),
                content: output_parts(line).0,
                source: LogSource::Process,
                output_kind: if output_parts(line).1 {
                    OutputKind::Stderr
                } else {
                    OutputKind::Stdout
                },
            }),
        },
{
    let (content, is_stderr) = match line {
        OutputLine::Stdout(s) => (s, false),
        OutputLine::Stderr(s) => (s, true),
    };
    if should_suppress(ctx.silence, is_stderr) {
        return None;
    }
    let log_line = if is_stderr {
        LogLine::stderr(ctx.task_name.as_str(), content.as_str())
    } else {
        LogLine::stdout(ctx.task_name.as_str(), content.as_str())
    };
    Some(log_line.with_group(ctx.group_name.as_str()))
}

/// Whether a task succeeded: it could be run, and its exit code is not a
/// failure. A process without an exit code counts as a success.
pub open spec fn task_succeeded(result: Result<Option<i32>, ProcessError>) -> bool {
    match result {
        Ok(Some(code)) => code == 0,
        Ok(None) => true,
        Err(_) => false,
    }
}

/// What is logged when a task is over. `seconds` is its duration with two
/// decimals.
pub open spec fn task_text(result: Result<Option<i32>, ProcessError>, seconds: Text) -> Text {
    match result {
        Ok(None) => "completed in "@ + seconds + "s (exit code: "@ + "?"@ + ")"@,
        Ok(Some(code)) => if code == 0 {
            "completed in "@ + seconds + "s (exit code: "@ + text::signed_decimal(code as int)
                + ")"@
        } else {
            "failed: process exited with status "@ + text::signed_decimal(code as int)
        },
        Err(e) => "failed: "@ + process::error::process_error_text(e),
    }
}

/// What is reported back of a task.
pub open spec fn task_report(
    ctx: RunModel,
    result: Result<Option<i32>, ProcessError>,
    duration_ms: u64,
) -> CompletionModel {
    CompletionModel {
        task_id: ctx.task_id,
        group_name: ctx.group_name,
        task_index: ctx.task_index,
        success: task_succeeded(result),
        status: if task_succeeded(result) {
            ProcessStatus::Success
        } else {
            ProcessStatus::Failed
        },
        duration_ms: Some(duration_ms),
        exit_code: match result {
            Ok(code) => code,
            Err(_) => None,
        },
    }
}

/// A task is over: the line to log, and what is reported back. `result` holds
/// its exit code, or why it could not be run; `seconds` is its duration with two
/// decimals.
pub fn task_finished(
    ctx: TaskExecutionContext,
    result: Result<Option<i32>, ProcessError>,
    duration_ms: u64,
    seconds: &str,
) -> (r: (LogLine, TaskCompletion))
    ensures
        r.0@ == (LogModel {
            timestamp: r.0.timestamp,
            process: ctx.task_name@,
            group: Some(ctx.group_name@),
            content: task_text(result, seconds@),
            source: LogSource::Daemon,
            output_kind: OutputKind::Combined,
        }),
        r.1@ == task_report(ctx@, result, duration_ms),
{
    let success = match &result {
        Ok(Some(code)) => *code == 0,
        Ok(None) => true,
        Err(_) => false,
    };
    let message = match &result {
        Ok(None) => cat5("completed in ", seconds, "s (exit code: ", "?", ")"),
        Ok(Some(code)) => if *code == 0 {
            cat5(
                "completed in ",
                seconds,
                "s (exit code: ",
                signed_decimal_of(*code).as_str(),
                ")",
            )
        } else {
            cat2("failed: process exited with status ", signed_decimal_of(*code).as_str())
        },
        Err(e) => cat2("failed: ", e.to_string().as_str()),
    };
    let line = LogLine::daemon(ctx.task_name.as_str(), message.as_str()).with_group(
        ctx.group_name.as_str(),
    );
    let completion = TaskCompletion {
        task_id: ctx.task_id,
        group_name: ctx.group_name,
        task_index: ctx.task_index,
        success,
        status: if success {
            ProcessStatus::Success
        } else {
            ProcessStatus::Failed
        },
        duration_ms: Some(duration_ms),
        exit_code: match result {
            Ok(code) => code,
            Err(_) => None,
        },
    };
    (line, completion)
}

/// The line that a line of terminal output is logged as: what stands at its end
/// is cut off, and a blank one is not logged.
pub fn terminal_line(process: &str, group: &Option<String>, line: &str) -> (r: Option<LogLine>)
    ensures
        match r {
            None => text::trim_end(line@).len() == 0,
            Some(l) => text::trim_end(line@).len() > 0 && l@ == (LogModel {
                timestamp: l.timestamp,
                process: process@,
                group: text::opt_text(*group),
                content: text::trim_end(line@),
                source: LogSource::Process,
                output_kind: OutputKind::Combined,
            }),
        },
{
    let content = text::trim_end_str(line);
    if content.unicode_len() == 0 {
        return None;
    }
    let log_line = LogLine::process(process, content);
    match group {
        Some(g) => Some(log_line.with_group(g.as_str())),
        None => Some(log_line),
    }
}

} // verus!
