//! Tool-facing response types.
//!
//! These mirror the daemon and config types; what a tool shows stays the same
//! when those change.

use crate::config::schema::{
    self, Config, DaemonCommand, DaemonModel, Group, GroupConfig, LogFormat, Settings, Signal,
    Silence, TaskCommand, TaskModel,
};
use crate::daemon::api::{LogLine, LogModel, LogSource, OutputKind};
use crate::daemon::state::{
    self, map_entry, map_len, DaemonState, DaemonStatus, GroupModel, GroupState, GroupStatus,
    ProcessModel, ProcessState, ProcessStatus,
};
use crate::mcp::client::LogsPage;
use crate::strmap::StrMap;
use crate::text::{self, Text};
use vstd::prelude::*;
use vstd::std_specs::convert::FromSpec;

verus! {

/// Daemon lifecycle state.
#[derive(Debug, Clone, Copy, PartialEq, Eq, Structural)]
pub enum DaemonStatusReport {
    Starting,
    Running,
    Stopping,
}

impl From<DaemonStatus> for DaemonStatusReport {
    fn from(value: DaemonStatus) -> (r: Self) {
        match value {
            DaemonStatus::Starting => DaemonStatusReport::Starting,
            DaemonStatus::Running => DaemonStatusReport::Running,
            DaemonStatus::Stopping => DaemonStatusReport::Stopping,
        }
    }
}

impl vstd::std_specs::convert::FromSpecImpl<DaemonStatus> for DaemonStatusReport {
    open spec fn obeys_from_spec() -> bool {
        true
    }

    open spec fn from_spec(value: DaemonStatus) -> Self {
        match value {
            DaemonStatus::Starting => DaemonStatusReport::Starting,
            DaemonStatus::Running => DaemonStatusReport::Running,
            DaemonStatus::Stopping => DaemonStatusReport::Stopping,
        }
    }
}

/// Group status as exposed to tools.
#[derive(Debug, Clone, Copy, PartialEq, Eq, Structural)]
pub enum GroupStatusReport {
    Pending,
    Waiting,
    Running,
    Ready,
    Failed,
    Skipped,
}

impl From<GroupStatus> for GroupStatusReport {
    fn from(value: GroupStatus) -> (r: Self) {
        match value {
            GroupStatus::Pending => GroupStatusReport::Pending,
            GroupStatus::Waiting => GroupStatusReport::Waiting,
            GroupStatus::Running => GroupStatusReport::Running,
            GroupStatus::Ready => GroupStatusReport::Ready,
            GroupStatus::Failed => GroupStatusReport::Failed,
            GroupStatus::Skipped => GroupStatusReport::Skipped,
        }
    }
}

impl vstd::std_specs::convert::FromSpecImpl<GroupStatus> for GroupStatusReport {
    open spec fn obeys_from_spec() -> bool {
        true
    }

    open spec fn from_spec(value: GroupStatus) -> Self {
        match value {
            GroupStatus::Pending => GroupStatusReport::Pending,
            GroupStatus::Waiting => GroupStatusReport::Waiting,
            GroupStatus::Running => GroupStatusReport::Running,
            GroupStatus::Ready => GroupStatusReport::Ready,
            GroupStatus::Failed => GroupStatusReport::Failed,
            GroupStatus::Skipped => GroupStatusReport::Skipped,
        }
    }
}

/// Process status.
#[derive(Debug, Clone, Copy, PartialEq, Eq, Structural)]
pub enum ProcessStatusReport {
    Pending,
    Running,
    Success,
    Failed,
    Backoff,
}

impl From<ProcessStatus> for ProcessStatusReport {
    fn from(value: ProcessStatus) -> (r: Self) {
        match value {
            ProcessStatus::Pending => ProcessStatusReport::Pending,
            ProcessStatus::Running => ProcessStatusReport::Running,
            ProcessStatus::Success => ProcessStatusReport::Success,
            ProcessStatus::Failed => ProcessStatusReport::Failed,
            ProcessStatus::Backoff => ProcessStatusReport::Backoff,
        }
    }
}

impl vstd::std_specs::convert::FromSpecImpl<ProcessStatus> for ProcessStatusReport {
    open spec fn obeys_from_spec() -> bool {
        true
    }

    open spec fn from_spec(value: ProcessStatus) -> Self {
        match value {
            ProcessStatus::Pending => ProcessStatusReport::Pending,
            ProcessStatus::Running => ProcessStatusReport::Running,
            ProcessStatus::Success => ProcessStatusReport::Success,
            ProcessStatus::Failed => ProcessStatusReport::Failed,
            ProcessStatus::Backoff => ProcessStatusReport::Backoff,
        }
    }
}

/// Origin of a log line.
#[derive(Debug, Clone, Copy, PartialEq, Eq, Structural)]
pub enum LogSourceReport {
    Process,
    Daemon,
}

impl From<LogSource> for LogSourceReport {
    fn from(value: LogSource) -> (r: Self) {
        match value {
            LogSource::Process => LogSourceReport::Process,
            LogSource::Daemon => LogSourceReport::Daemon,
        }
    }
}

impl vstd::std_specs::convert::FromSpecImpl<LogSource> for LogSourceReport {
    open spec fn obeys_from_spec() -> bool {
        true
    }

    open spec fn from_spec(value: LogSource) -> Self {
        match value {
            LogSource::Process => LogSourceReport::Process,
            LogSource::Daemon => LogSourceReport::Daemon,
        }
    }
}

/// Output stream kind for process logs.
#[derive(Debug, Clone, Copy, PartialEq, Eq, Structural)]
pub enum OutputKindReport {
    Stdout,
    Stderr,
    Combined,
}

impl From<OutputKind> for OutputKindReport {
    fn from(value: OutputKind) -> (r: Self) {
        match value {
            OutputKind::Stdout => OutputKindReport::Stdout,
            OutputKind::Stderr => OutputKindReport::Stderr,
            OutputKind::Combined => OutputKindReport::Combined,
        }
    }
}

impl vstd::std_specs::convert::FromSpecImpl<OutputKind> for OutputKindReport {
    open spec fn obeys_from_spec() -> bool {
        true
    }

    open spec fn from_spec(value: OutputKind) -> Self {
        match value {
            OutputKind::Stdout => OutputKindReport::Stdout,
            OutputKind::Stderr => OutputKindReport::Stderr,
            OutputKind::Combined => OutputKindReport::Combined,
        }
    }
}

/// Log output format.
#[derive(Debug, Clone, Copy, PartialEq, Eq, Structural)]
pub enum LogFormatReport {
    Pretty,
    Plain,
    Json,
}

impl From<LogFormat> for LogFormatReport {
    fn from(value: LogFormat) -> (r: Self) {
        match value {
            LogFormat::Pretty => LogFormatReport::Pretty,
            LogFormat::Plain => LogFormatReport::Plain,
            LogFormat::Json => LogFormatReport::Json,
        }
    }
}

impl vstd::std_specs::convert::FromSpecImpl<LogFormat> for LogFormatReport {
    open spec fn obeys_from_spec() -> bool {
        true
    }

    open spec fn from_spec(value: LogFormat) -> Self {
        match value {
            LogFormat::Pretty => LogFormatReport::Pretty,
            LogFormat::Plain => LogFormatReport::Plain,
            LogFormat::Json => LogFormatReport::Json,
        }
    }
}

/// Output suppression level.
#[derive(Debug, Clone, Copy, PartialEq, Eq, Structural)]
pub enum SilenceReport {
    Off,
    Stdout,
    Stderr,
    All,
}

impl From<Silence> for SilenceReport {
    fn from(value: Silence) -> (r: Self) {
        match value {
            Silence::Off => SilenceReport::Off,
            Silence::Stdout => SilenceReport::Stdout,
            Silence::Stderr => SilenceReport::Stderr,
            Silence::All => SilenceReport::All,
        }
    }
}

impl vstd::std_specs::convert::FromSpecImpl<Silence> for SilenceReport {
    open spec fn obeys_from_spec() -> bool {
        true
    }

    open spec fn from_spec(value: Silence) -> Self {
        match value {
            Silence::Off => SilenceReport::Off,
            Silence::Stdout => SilenceReport::Stdout,
            Silence::Stderr => SilenceReport::Stderr,
            Silence::All => SilenceReport::All,
        }
    }
}

/// Restart signal.
#[derive(Debug, Clone, Copy, PartialEq, Eq, Structural)]
pub enum SignalReport {
    Sigterm,
    Sigint,
    Sighup,
    Sigkill,
    Sigquit,
    Sigusr1,
    Sigusr2,
}

impl From<Signal> for SignalReport {
    fn from(value: Signal) -> (r: Self) {
        match value {
            Signal::Sigterm => SignalReport::Sigterm,
            Signal::Sigint => SignalReport::Sigint,
            Signal::Sighup => SignalReport::Sighup,
            Signal::Sigkill => SignalReport::Sigkill,
            Signal::Sigquit => SignalReport::Sigquit,
            Signal::Sigusr1 => SignalReport::Sigusr1,
            Signal::Sigusr2 => SignalReport::Sigusr2,
        }
    }
}

impl vstd::std_specs::convert::FromSpecImpl<Signal> for SignalReport {
    open spec fn obeys_from_spec() -> bool {
        true
    }

    open spec fn from_spec(value: Signal) -> Self {
        match value {
            Signal::Sigterm => SignalReport::Sigterm,
            Signal::Sigint => SignalReport::Sigint,
            Signal::Sighup => SignalReport::Sighup,
            Signal::Sigkill => SignalReport::Sigkill,
            Signal::Sigquit => SignalReport::Sigquit,
            Signal::Sigusr1 => SignalReport::Sigusr1,
            Signal::Sigusr2 => SignalReport::Sigusr2,
        }
    }
}

/// Whether a process is a task (run-to-completion) or a daemon (long-running).
#[derive(Debug, Clone, Copy, PartialEq, Eq, Structural)]
pub enum ProcessKind {
    Task,
    Daemon,
}

/// State of a single managed process (task or daemon).
#[derive(Debug)]
pub struct ProcessReport {
    pub name: String,
    pub kind: ProcessKind,
    pub status: ProcessStatusReport,
    pub pid: Option<u32>,
    pub exit_code: Option<i32>,
    pub duration_ms: Option<u64>,
}

impl ProcessReport {
    /// Whether this reports a process.
    pub open spec fn reports(self, p: ProcessModel, kind: ProcessKind) -> bool {
        &&& self.name@ == p.name
        &&& self.kind == kind
        &&& self.status == ProcessStatusReport::from_spec(p.status)
        &&& self.pid == p.pid
        &&& self.exit_code == p.exit_code
        &&& self.duration_ms == p.duration_ms
    }

    /// Reports a process.
    pub fn from_state(state: &ProcessState, kind: ProcessKind) -> (r: Self)
        ensures
            r.reports(state@, kind),
    {
        ProcessReport {
            name: state.name.clone(),
            kind,
            status: ProcessStatusReport::from(state.status),
            pid: state.pid,
            exit_code: state.exit_code,
            duration_ms: state.duration_ms,
        }
    }
}

/// State of a single group, with tasks and daemons collapsed into a uniform
/// `processes` list distinguished by a `kind` field.
#[derive(Debug)]
pub struct GroupReport {
    pub name: String,
    pub status: GroupStatusReport,
    pub processes: Vec<ProcessReport>,
}

impl GroupReport {
    /// Whether this reports a group: its tasks, then its daemons.
    pub open spec fn reports(self, g: GroupModel) -> bool {
        &&& self.name@ == g.name
        &&& self.status == GroupStatusReport::from_spec(g.status)
        &&& self.processes@.len() == g.tasks.len() + g.services.len()
        &&& forall|i: int|
            0 <= i < self.processes@.len() ==> (#[trigger] self.processes@[i]).reports(
                if i < g.tasks.len() {
                    g.tasks[i]
                } else {
                    g.services[i - g.tasks.len()]
                },
                if i < g.tasks.len() {
                    ProcessKind::Task
                } else {
                    ProcessKind::Daemon
                },
            )
    }
}

fn report_processes(out: &mut Vec<ProcessReport>, list: &Vec<ProcessState>, kind: ProcessKind)
    ensures
        final(out)@.len() == old(out)@.len() + list@.len(),
        forall|i: int| 0 <= i < old(out)@.len() ==> #[trigger] final(out)@[i] == old(out)@[i],
        forall|i: int|
            0 <= i < list@.len() ==> (#[trigger] final(out)@[old(out)@.len() + i]).reports(
                list@[i]@,
                kind,
            ),
{
    let mut i: usize = 0;
    while i < list.len()
        invariant
            0 <= i <= list.len(),
            out@.len() == old(out)@.len() + i,
            forall|j: int| 0 <= j < old(out)@.len() ==> #[trigger] out@[j] == old(out)@[j],
            forall|j: int|
                0 <= j < i ==> (#[trigger] out@[old(out)@.len() + j]).reports(list@[j]@, kind),
        decreases list.len() - i,
    {
        out.push(ProcessReport::from_state(&list[i], kind));
        i = i + 1;
    }
}

impl From<&GroupState> for GroupReport {
    fn from(group: &GroupState) -> (r: Self)
        ensures
            r.reports(group@),
    {
        let mut processes: Vec<ProcessReport> = Vec::new();
        report_processes(&mut processes, &group.tasks, ProcessKind::Task);
        let ghost tasks = processes@;
        report_processes(&mut processes, &group.services, ProcessKind::Daemon);
        proof {
            let n = group@.tasks.len() as int;
            assert forall|i: int| 0 <= i < processes@.len() implies (
            #[trigger] processes@[i]).reports(
                if i < n {
                    group@.tasks[i]
                } else {
                    group@.services[i - n]
                },
                if i < n {
                    ProcessKind::Task
                } else {
                    ProcessKind::Daemon
                },
            ) by {
                if i < n {
                    assert(tasks[0 + i].reports(group.tasks@[i]@, ProcessKind::Task));
                    assert(processes@[i] == tasks[i]);
                } else {
                    assert(processes@[n + (i - n)].reports(
                        group.services@[i - n]@,
                        ProcessKind::Daemon,
                    ));
                }
            }
        }
        GroupReport {
            name: group.name.clone(),
            status: GroupStatusReport::from(group.status),
            processes,
        }
    }
}

impl vstd::std_specs::convert::FromSpecImpl<&GroupState> for GroupReport {
    open spec fn obeys_from_spec() -> bool {
        false
    }

    open spec fn from_spec(group: &GroupState) -> Self {
        arbitrary()
    }
}

/// Top-level daemon status response.
#[derive(Debug)]
pub struct StatusReport {
    /// Overall lifecycle state of the daemon.
    pub daemon_status: DaemonStatusReport,
    /// Number of files currently being watched.
    pub watched_files: usize,
    /// Unix milliseconds of the most recent file-change event, if any.
    pub last_change_ms: Option<u64>,
    /// All configured groups in declaration order.
    pub groups: Vec<GroupReport>,
}

impl StatusReport {
    /// Whether this reports the state of the daemon.
    pub open spec fn reports(self, d: state::DaemonModel) -> bool {
        &&& self.daemon_status == DaemonStatusReport::from_spec(d.status)
        &&& self.watched_files == d.watched_files
        &&& self.last_change_ms == d.last_change
        &&& self.groups@.len() == d.groups.len()
        &&& forall|i: int|
            0 <= i < d.groups.len() ==> (#[trigger] self.groups@[i]).reports(d.groups[i].1)
    }
}

impl From<&DaemonState> for StatusReport {
    fn from(state: &DaemonState) -> (r: Self)
        ensures
            r.reports(state@),
    {
        let n = map_len(&state.groups);
        let mut groups: Vec<GroupReport> = Vec::new();
        let mut i: usize = 0;
        while i < n
            invariant
                0 <= i <= n,
                n == state@.groups.len(),
                groups@.len() == i,
                forall|j: int| 0 <= j < i ==> (#[trigger] groups@[j]).reports(state@.groups[j].1),
            decreases n - i,
        {
            if let Some((_, group)) = map_entry(&state.groups, i) {
                groups.push(GroupReport::from(group));
            }
            i = i + 1;
        }
        StatusReport {
            daemon_status: DaemonStatusReport::from(state.status),
            watched_files: state.watched_files,
            last_change_ms: state.last_change,
            groups,
        }
    }
}

impl vstd::std_specs::convert::FromSpecImpl<&DaemonState> for StatusReport {
    open spec fn obeys_from_spec() -> bool {
        false
    }

    open spec fn from_spec(state: &DaemonState) -> Self {
        arbitrary()
    }
}

/// One row in the slim group listing.
#[derive(Debug)]
pub struct GroupSummary {
    pub name: String,
    pub status: GroupStatusReport,
    pub task_count: usize,
    pub daemon_count: usize,
}

impl GroupSummary {
    /// Whether this sums up a group.
    pub open spec fn reports(self, g: GroupModel) -> bool {
        &&& self.name@ == g.name
        &&& self.status == GroupStatusReport::from_spec(g.status)
        &&& self.task_count == g.tasks.len()
        &&& self.daemon_count == g.services.len()
    }
}

impl From<&GroupState> for GroupSummary {
    fn from(group: &GroupState) -> (r: Self)
        ensures
            r.reports(group@),
    {
        GroupSummary {
            name: group.name.clone(),
            status: GroupStatusReport::from(group.status),
            task_count: group.tasks.len(),
            daemon_count: group.services.len(),
        }
    }
}

impl vstd::std_specs::convert::FromSpecImpl<&GroupState> for GroupSummary {
    open spec fn obeys_from_spec() -> bool {
        false
    }

    open spec fn from_spec(group: &GroupState) -> Self {
        arbitrary()
    }
}

/// Slim group listing.
#[derive(Debug)]
pub struct GroupsReport {
    pub groups: Vec<GroupSummary>,
}

impl GroupsReport {
    /// Whether this lists the groups of the daemon.
    pub open spec fn reports(self, d: state::DaemonModel) -> bool {
        &&& self.groups@.len() == d.groups.len()
        &&& forall|i: int|
            0 <= i < d.groups.len() ==> (#[trigger] self.groups@[i]).reports(d.groups[i].1)
    }
}

impl From<&DaemonState> for GroupsReport {
    fn from(state: &DaemonState) -> (r: Self)
        ensures
            r.reports(state@),
    {
        let n = map_len(&state.groups);
        let mut groups: Vec<GroupSummary> = Vec::new();
        let mut i: usize = 0;
        while i < n
            invariant
                0 <= i <= n,
                n == state@.groups.len(),
                groups@.len() == i,
                forall|j: int| 0 <= j < i ==> (#[trigger] groups@[j]).reports(state@.groups[j].1),
            decreases n - i,
        {
            if let Some((_, group)) = map_entry(&state.groups, i) {
                groups.push(GroupSummary::from(group));
            }
            i = i + 1;
        }
        GroupsReport { groups }
    }
}

impl vstd::std_specs::convert::FromSpecImpl<&DaemonState> for GroupsReport {
    open spec fn obeys_from_spec() -> bool {
        false
    }

    open spec fn from_spec(state: &DaemonState) -> Self {
        arbitrary()
    }
}

/// Input parameters of a log query.
#[derive(Debug)]
pub struct LogsRequest {
    /// Process name to query. Use "*" or omit for all processes.
    pub name: Option<String>,
    /// Project token selecting one workspace member to query. Required against a
    /// workspace supervisor; omit for a single-config daemon. A query is always
    /// scoped to one member, never merged across the working set.
    pub project: Option<String>,
    /// Number of leading entries to skip for pagination.
    pub offset: Option<usize>,
    /// Maximum number of entries to return on this page.
    pub limit: Option<usize>,
    /// Case-insensitive substring filter applied to log content.
    pub search: Option<String>,
}

impl Default for LogsRequest {
    fn default() -> (r: Self)
        ensures
            r == (LogsRequest { name: None, project: None, offset: None, limit: None, search: None }),
    {
        LogsRequest { name: None, project: None, offset: None, limit: None, search: None }
    }
}

/// Input parameters for restarting a group.
#[derive(Debug)]
pub struct RestartGroupRequest {
    /// Name of the group to restart. Must match a group declared in the config.
    pub name: String,
    /// Project token selecting one workspace member. Set against a workspace
    /// supervisor; omit for a single-config daemon.
    pub project: Option<String>,
}

/// Input parameters for restarting a process.
#[derive(Debug)]
pub struct RestartProcessRequest {
    /// Group the process belongs to.
    pub group: String,
    /// Process name. Matches the name of a task or daemon inside the group.
    pub process: String,
    /// Project token selecting one workspace member. Set against a workspace
    /// supervisor; omit for a single-config daemon.
    pub project: Option<String>,
}

/// Confirmation response returned by all mutation tools.
///
/// Carries the daemon's free-form acknowledgement, to be shown verbatim.
/// Failures are errors, not a report with an error flag.
#[derive(Debug)]
pub struct MutationReport {
    /// Human-readable summary of the operation.
    pub message: String,
}

/// One log line.
#[derive(Debug)]
pub struct LogEntry {
    /// Unix milliseconds when the line was captured.
    pub timestamp_ms: u64,
    /// Process name that produced the line.
    pub process: String,
    /// Group context, if available.
    pub group: Option<String>,
    /// Source of the line: process output or daemon-internal message.
    pub source: LogSourceReport,
    /// Stream the line came from when the source is a process.
    pub output_kind: OutputKindReport,
    /// The log content.
    pub content: String,
}

impl LogEntry {
    /// Whether this shows a log line.
    pub open spec fn reports(self, l: LogModel) -> bool {
        &&& self.timestamp_ms == l.timestamp
        &&& self.process@ == l.process
        &&& text::opt_text(self.group) == l.group
        &&& self.source == LogSourceReport::from_spec(l.source)
        &&& self.output_kind == OutputKindReport::from_spec(l.output_kind)
        &&& self.content@ == l.content
    }
}

impl From<&LogLine> for LogEntry {
    fn from(line: &LogLine) -> (r: Self)
        ensures
            r.reports(line@),
    {
        LogEntry {
            timestamp_ms: line.timestamp,
            process: line.process.clone(),
            group: line.group.clone(),
            source: LogSourceReport::from(line.source),
            output_kind: OutputKindReport::from(line.output_kind),
            content: line.content.clone(),
        }
    }
}

impl vstd::std_specs::convert::FromSpecImpl<&LogLine> for LogEntry {
    open spec fn obeys_from_spec() -> bool {
        false
    }

    open spec fn from_spec(line: &LogLine) -> Self {
        arbitrary()
    }
}

/// Paginated log query response.
#[derive(Debug)]
pub struct LogsReport {
    /// Process name the query targeted (echoed back; "*" means all processes).
    pub name: String,
    /// Log entries on this page, oldest first.
    pub entries: Vec<LogEntry>,
    /// Total number of matching entries across all pages, if pagination metadata
    /// is available.
    pub total_count: Option<usize>,
    /// Whether more entries follow this page.
    pub has_more: Option<bool>,
    /// Offset used for this query.
    pub offset: Option<usize>,
}

impl LogsReport {
    /// Shows a page of logs.
    pub fn from_page(page: LogsPage) -> (r: Self)
        ensures
            r.name == page.name,
            r.entries@.len() == page.lines@.len(),
            forall|i: int|
                0 <= i < page.lines@.len() ==> (#[trigger] r.entries@[i]).reports(page.lines@[i]@),
            r.total_count == page.total_count,
            r.has_more == page.has_more,
            r.offset == page.offset,
    {
        let mut entries: Vec<LogEntry> = Vec::new();
        let mut i: usize = 0;
        while i < page.lines.len()
            invariant
                0 <= i <= page.lines.len(),
                entries@.len() == i,
                forall|j: int|
                    0 <= j < i ==> (#[trigger] entries@[j]).reports(page.lines@[j]@),
            decreases page.lines.len() - i,
        {
            entries.push(LogEntry::from(&page.lines[i]));
            i = i + 1;
        }
        LogsReport {
            name: page.name,
            entries,
            total_count: page.total_count,
            has_more: page.has_more,
            offset: page.offset,
        }
    }
}

/// Global settings.
#[derive(Debug)]
pub struct ConfigSettings {
    pub shell: Option<String>,
    pub debounce_ms: u64,
    pub log_format: LogFormatReport,
}

impl ConfigSettings {
    /// Whether this shows some settings.
    pub open spec fn reports(self, s: Settings) -> bool {
        &&& text::opt_text(self.shell) == text::opt_text(s.shell)
        &&& self.debounce_ms == s.debounce_ms
        &&& self.log_format == LogFormatReport::from_spec(s.log_format)
    }
}

impl From<&Settings> for ConfigSettings {
    fn from(s: &Settings) -> (r: Self)
        ensures
            r.reports(*s),
    {
        ConfigSettings {
            shell: s.shell.clone(),
            debounce_ms: s.debounce_ms,
            log_format: LogFormatReport::from(s.log_format),
        }
    }
}

impl vstd::std_specs::convert::FromSpecImpl<&Settings> for ConfigSettings {
    open spec fn obeys_from_spec() -> bool {
        false
    }

    open spec fn from_spec(s: &Settings) -> Self {
        arbitrary()
    }
}

/// One configured task command.
#[derive(Debug)]
pub struct ConfigTask {
    pub name: String,
    pub command: String,
    pub on_change_only: bool,
    pub silence: SilenceReport,
    pub working_dir: Option<String>,
    pub env: StrMap<String>,
}

impl ConfigTask {
    /// Whether this shows a task, under its display name.
    pub open spec fn reports(self, t: TaskModel) -> bool {
        &&& self.name@ == schema::display_name(t.name, t.command)
        &&& self.command@ == t.command
        &&& self.on_change_only == t.on_change_only
        &&& self.silence == SilenceReport::from_spec(t.silence)
        &&& text::opt_text(self.working_dir) == t.working_dir
        &&& self.env@ == t.env
    }
}

impl From<&TaskCommand> for ConfigTask {
    fn from(t: &TaskCommand) -> (r: Self)
        ensures
            r.reports(t@),
    {
        ConfigTask {
            name: t.name().to_owned(),
            command: t.command.clone(),
            on_change_only: t.on_change_only,
            silence: SilenceReport::from(t.silence),
            working_dir: t.working_dir.clone(),
            env: t.env.copy(),
        }
    }
}

impl vstd::std_specs::convert::FromSpecImpl<&TaskCommand> for ConfigTask {
    open spec fn obeys_from_spec() -> bool {
        false
    }

    open spec fn from_spec(t: &TaskCommand) -> Self {
        arbitrary()
    }
}

/// One configured daemon command.
#[derive(Debug)]
pub struct ConfigDaemon {
    pub name: String,
    pub command: String,
    pub signal: SignalReport,
    pub no_pty: bool,
    pub silence: SilenceReport,
    pub working_dir: Option<String>,
    pub delay_ms: Option<u64>,
    pub env: StrMap<String>,
}

impl ConfigDaemon {
    /// Whether this shows a daemon, under its display name.
    pub open spec fn reports(self, d: DaemonModel) -> bool {
        &&& self.name@ == schema::display_name(d.name, d.command)
        &&& self.command@ == d.command
        &&& self.signal == SignalReport::from_spec(d.signal)
        &&& self.no_pty == d.no_pty
        &&& self.silence == SilenceReport::from_spec(d.silence)
        &&& text::opt_text(self.working_dir) == d.working_dir
        &&& self.delay_ms == d.delay_ms
        &&& self.env@ == d.env
    }
}

impl From<&DaemonCommand> for ConfigDaemon {
    fn from(d: &DaemonCommand) -> (r: Self)
        ensures
            r.reports(d@),
    {
        ConfigDaemon {
            name: d.name().to_owned(),
            command: d.command.clone(),
            signal: SignalReport::from(d.signal),
            no_pty: d.no_pty,
            silence: SilenceReport::from(d.silence),
            working_dir: d.working_dir.clone(),
            delay_ms: d.delay_ms,
            env: d.env.copy(),
        }
    }
}

impl vstd::std_specs::convert::FromSpecImpl<&DaemonCommand> for ConfigDaemon {
    open spec fn obeys_from_spec() -> bool {
        false
    }

    open spec fn from_spec(d: &DaemonCommand) -> Self {
        arbitrary()
    }
}

/// One configured group.
#[derive(Debug)]
pub struct ConfigGroup {
    pub name: String,
    pub patterns: Vec<String>,
    pub ignore: Vec<String>,
    pub depends_on: Vec<String>,
    pub working_dir: Option<String>,
    pub env: StrMap<String>,
    pub tasks: Vec<ConfigTask>,
    pub daemons: Vec<ConfigDaemon>,
}

impl ConfigGroup {
    /// Whether this shows a group.
    pub open spec fn reports(self, g: GroupConfig) -> bool {
        &&& self.name@ == g.name
        &&& text::texts(self.patterns@) == g.patterns
        &&& text::texts(self.ignore@) == g.ignore
        &&& text::texts(self.depends_on@) == g.depends_on
        &&& text::opt_text(self.working_dir) == g.working_dir
        &&& self.env@ == g.env
        &&& self.tasks@.len() == g.tasks.len()
        &&& forall|i: int| 0 <= i < g.tasks.len() ==> (#[trigger] self.tasks@[i]).reports(g.tasks[i])
        &&& self.daemons@.len() == g.daemons.len()
        &&& forall|i: int|
            0 <= i < g.daemons.len() ==> (#[trigger] self.daemons@[i]).reports(g.daemons[i])
    }
}

impl From<&Group> for ConfigGroup {
    fn from(g: &Group) -> (r: Self)
        ensures
            r.reports(g@),
    {
        let mut tasks: Vec<ConfigTask> = Vec::new();
        let mut i: usize = 0;
        while i < g.tasks.len()
            invariant
                0 <= i <= g.tasks.len(),
                tasks@.len() == i,
                forall|j: int| 0 <= j < i ==> (#[trigger] tasks@[j]).reports(g.tasks@[j]@),
            decreases g.tasks.len() - i,
        {
            tasks.push(ConfigTask::from(&g.tasks[i]));
            i = i + 1;
        }
        let mut daemons: Vec<ConfigDaemon> = Vec::new();
        let mut k: usize = 0;
        while k < g.daemons.len()
            invariant
                0 <= k <= g.daemons.len(),
                daemons@.len() == k,
                forall|j: int| 0 <= j < k ==> (#[trigger] daemons@[j]).reports(g.daemons@[j]@),
            decreases g.daemons.len() - k,
        {
            daemons.push(ConfigDaemon::from(&g.daemons[k]));
            k = k + 1;
        }
        ConfigGroup {
            name: g.name.clone(),
            patterns: g.patterns.clone(),
            ignore: g.ignore.clone(),
            depends_on: g.depends_on.clone(),
            working_dir: g.working_dir.clone(),
            env: g.env.copy(),
            tasks,
            daemons,
        }
    }
}

impl vstd::std_specs::convert::FromSpecImpl<&Group> for ConfigGroup {
    open spec fn obeys_from_spec() -> bool {
        false
    }

    open spec fn from_spec(g: &Group) -> Self {
        arbitrary()
    }
}

/// Parsed configuration response.
#[derive(Debug)]
pub struct ConfigReport {
    /// Absolute path of the loaded config file.
    pub path: String,
    pub settings: ConfigSettings,
    pub variables: StrMap<String>,
    pub groups: Vec<ConfigGroup>,
}

impl ConfigReport {
    /// Build a `ConfigReport` from a parsed config and the path it was loaded
    /// from.
    pub fn from_config(path: &str, config: &Config) -> (r: Self)
        ensures
            r.path@ == path@,
            r.settings.reports(config.settings),
            r.variables@ == config.variables@,
            r.groups@.len() == config.groups@.len(),
            forall|i: int|
                0 <= i < config.groups@.len() ==> (#[trigger] r.groups@[i]).reports(
                    config.groups@[i]@,
                ),
    {
        let mut groups: Vec<ConfigGroup> = Vec::new();
        let mut i: usize = 0;
        while i < config.groups.len()
            invariant
                0 <= i <= config.groups.len(),
                groups@.len() == i,
                forall|j: int|
                    0 <= j < i ==> (#[trigger] groups@[j]).reports(config.groups@[j]@),
            decreases config.groups.len() - i,
        {
            groups.push(ConfigGroup::from(&config.groups[i]));
            i = i + 1;
        }
        ConfigReport {
            path: path.to_owned(),
            settings: ConfigSettings::from(&config.settings),
            variables: config.variables.copy(),
            groups,
        }
    }
}

} // verus!
