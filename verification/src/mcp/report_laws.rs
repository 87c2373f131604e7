//! Laws of what tools are told: nothing is lost on the way, and no two states are
//! told alike.

use crate::config::schema::{DaemonModel, GroupConfig, LogFormat, Settings, Signal, Silence, TaskModel};
use crate::daemon::api::{LogModel, LogSource, OutputKind};
use crate::daemon::state::{self, DaemonStatus, GroupModel, GroupStatus, ProcessModel, ProcessStatus};
use crate::mcp::types::{
    ConfigDaemon, ConfigGroup, ConfigSettings, ConfigTask, DaemonStatusReport, GroupReport,
    GroupStatusReport, GroupsReport, LogEntry, LogFormatReport, LogSourceReport,
    OutputKindReport, ProcessKind, ProcessReport, ProcessStatusReport, SignalReport, SilenceReport,
    StatusReport,
};
use crate::text;
use vstd::prelude::*;
use vstd::std_specs::convert::FromSpec;

verus! {

/// The status of a process is told under its own name, so that no two are told
/// alike.
pub proof fn law_a_process_status_keeps_its_name(s: ProcessStatus, t: ProcessStatus)
    ensures
        ProcessStatusReport::from_spec(s) is Pending <==> s is Pending,
        ProcessStatusReport::from_spec(s) is Running <==> s is Running,
        ProcessStatusReport::from_spec(s) is Success <==> s is Success,
        ProcessStatusReport::from_spec(s) is Failed <==> s is Failed,
        ProcessStatusReport::from_spec(s) is Backoff <==> s is Backoff,
        ProcessStatusReport::from_spec(s) == ProcessStatusReport::from_spec(t) ==> s == t,
{
}

/// The status of a group is told under its own name, so that no two are told
/// alike.
pub proof fn law_a_group_status_keeps_its_name(s: GroupStatus, t: GroupStatus)
    ensures
        GroupStatusReport::from_spec(s) is Pending <==> s is Pending,
        GroupStatusReport::from_spec(s) is Waiting <==> s is Waiting,
        GroupStatusReport::from_spec(s) is Running <==> s is Running,
        GroupStatusReport::from_spec(s) is Ready <==> s is Ready,
        GroupStatusReport::from_spec(s) is Failed <==> s is Failed,
        GroupStatusReport::from_spec(s) is Skipped <==> s is Skipped,
        GroupStatusReport::from_spec(s) == GroupStatusReport::from_spec(t) ==> s == t,
{
}

/// The status of the daemon is told under its own name.
pub proof fn law_a_daemon_status_keeps_its_name(s: DaemonStatus, t: DaemonStatus)
    ensures
        DaemonStatusReport::from_spec(s) is Starting <==> s is Starting,
        DaemonStatusReport::from_spec(s) is Running <==> s is Running,
        DaemonStatusReport::from_spec(s) is Stopping <==> s is Stopping,
        DaemonStatusReport::from_spec(s) == DaemonStatusReport::from_spec(t) ==> s == t,
{
}

/// Where a log line comes from is told under its own name.
pub proof fn law_a_log_origin_keeps_its_name(s: LogSource, k: OutputKind)
    ensures
        LogSourceReport::from_spec(s) is Process <==> s is Process,
        LogSourceReport::from_spec(s) is Daemon <==> s is Daemon,
        OutputKindReport::from_spec(k) is Stdout <==> k is Stdout,
        OutputKindReport::from_spec(k) is Stderr <==> k is Stderr,
        OutputKindReport::from_spec(k) is Combined <==> k is Combined,
{
}

/// A setting with a fixed choice is told under its own name.
pub proof fn law_a_choice_keeps_its_name(f: LogFormat, q: Silence, s: Signal)
    ensures
        LogFormatReport::from_spec(f) is Pretty <==> f is Pretty,
        LogFormatReport::from_spec(f) is Plain <==> f is Plain,
        LogFormatReport::from_spec(f) is Json <==> f is Json,
        SilenceReport::from_spec(q) is Off <==> q is Off,
        SilenceReport::from_spec(q) is Stdout <==> q is Stdout,
        SilenceReport::from_spec(q) is Stderr <==> q is Stderr,
        SilenceReport::from_spec(q) is All <==> q is All,
        SignalReport::from_spec(s) is Sigterm <==> s is Sigterm,
        SignalReport::from_spec(s) is Sigint <==> s is Sigint,
        SignalReport::from_spec(s) is Sighup <==> s is Sighup,
        SignalReport::from_spec(s) is Sigkill <==> s is Sigkill,
        SignalReport::from_spec(s) is Sigquit <==> s is Sigquit,
        SignalReport::from_spec(s) is Sigusr1 <==> s is Sigusr1,
        SignalReport::from_spec(s) is Sigusr2 <==> s is Sigusr2,
{
}

/// The report of a process has the values of that process, and of no other.
pub proof fn law_a_process_report_tells_one_process(
    r: ProcessReport,
    a: ProcessModel,
    kind: ProcessKind,
    b: ProcessModel,
    other: ProcessKind,
)
    requires
        r.reports(a, kind),
    ensures
        r.name@ == a.name,
        r.kind == kind,
        r.pid == a.pid,
        r.exit_code == a.exit_code,
        r.duration_ms == a.duration_ms,
        r.status is Failed <==> a.status is Failed,
        r.status is Running <==> a.status is Running,
        r.reports(b, other) ==> a == b && kind == other,
{
}

/// The report of a group tells its tasks and then its daemons, each by its own
/// state and as what it is; there is one for each of them and no other.
pub proof fn law_a_group_report_tells_every_process(r: GroupReport, g: GroupModel)
    requires
        r.reports(g),
    ensures
        r.name@ == g.name,
        r.status is Ready <==> g.status is Ready,
        r.status is Failed <==> g.status is Failed,
        r.processes@.len() == g.tasks.len() + g.services.len(),
        forall|k: int|
            0 <= k < g.tasks.len() ==> {
                let p = #[trigger] r.processes@[k];
                &&& p.kind is Task
                &&& p.name@ == g.tasks[k].name
                &&& p.pid == g.tasks[k].pid
                &&& p.exit_code == g.tasks[k].exit_code
                &&& p.duration_ms == g.tasks[k].duration_ms
                &&& p.status is Failed <==> g.tasks[k].status is Failed
                &&& p.status is Success <==> g.tasks[k].status is Success
            },
        forall|k: int|
            0 <= k < g.services.len() ==> {
                let p = r.processes@[g.tasks.len() + k];
                &&& p.kind is Daemon
                &&& p.name@ == (#[trigger] g.services[k]).name
                &&& p.pid == g.services[k].pid
                &&& p.exit_code == g.services[k].exit_code
                &&& p.status is Running <==> g.services[k].status is Running
                &&& p.status is Backoff <==> g.services[k].status is Backoff
            },
{
    assert forall|k: int| 0 <= k < g.tasks.len() implies (#[trigger] r.processes@[k]).reports(
        g.tasks[k],
        ProcessKind::Task,
    ) by {}
    assert forall|k: int| 0 <= k < g.services.len() implies r.processes@[g.tasks.len()
        + k].reports(#[trigger] g.services[k], ProcessKind::Daemon) by {
        assert(r.processes@[g.tasks.len() + k].reports(
            g.services[g.tasks.len() + k - g.tasks.len()],
            ProcessKind::Daemon,
        ));
    }
}

/// The status report tells every group, in the order of the daemon, with all of its
/// processes.
pub proof fn law_a_status_report_tells_every_group(r: StatusReport, d: state::DaemonModel)
    requires
        r.reports(d),
    ensures
        r.daemon_status is Running <==> d.status is Running,
        r.daemon_status is Stopping <==> d.status is Stopping,
        r.watched_files == d.watched_files,
        r.last_change_ms == d.last_change,
        r.groups@.len() == d.groups.len(),
        forall|i: int|
            0 <= i < d.groups.len() ==> {
                let g = #[trigger] d.groups[i].1;
                &&& r.groups@[i].name@ == g.name
                &&& r.groups@[i].status is Ready <==> g.status is Ready
                &&& r.groups@[i].status is Failed <==> g.status is Failed
                &&& r.groups@[i].processes@.len() == g.tasks.len() + g.services.len()
                &&& forall|k: int|
                    0 <= k < g.tasks.len() ==> r.groups@[i].processes@[k].name@ == (
                    #[trigger] g.tasks[k]).name && (r.groups@[i].processes@[k].status is Failed
                        <==> g.tasks[k].status is Failed)
            },
{
    assert forall|i: int| 0 <= i < d.groups.len() implies {
        let g = #[trigger] d.groups[i].1;
        &&& r.groups@[i].name@ == g.name
        &&& r.groups@[i].status is Ready <==> g.status is Ready
        &&& r.groups@[i].status is Failed <==> g.status is Failed
        &&& r.groups@[i].processes@.len() == g.tasks.len() + g.services.len()
        &&& forall|k: int|
            0 <= k < g.tasks.len() ==> r.groups@[i].processes@[k].name@ == (
            #[trigger] g.tasks[k]).name && (r.groups@[i].processes@[k].status is Failed
                <==> g.tasks[k].status is Failed)
    } by {
        let g = d.groups[i].1;
        assert(r.groups@[i].reports(g));
        law_a_group_report_tells_every_process(r.groups@[i], g);
        assert forall|k: int| 0 <= k < g.tasks.len() implies r.groups@[i].processes@[k].name@ == (
        #[trigger] g.tasks[k]).name && (r.groups@[i].processes@[k].status is Failed
            <==> g.tasks[k].status is Failed) by {
            assert(r.groups@[i].processes@[k].kind is Task);
        }
    }
}

/// The group listing tells every group, in the order of the daemon, with how many
/// tasks and how many daemons it has.
pub proof fn law_a_listing_tells_every_group(r: GroupsReport, d: state::DaemonModel)
    requires
        r.reports(d),
    ensures
        r.groups@.len() == d.groups.len(),
        forall|i: int|
            0 <= i < d.groups.len() ==> {
                let g = #[trigger] d.groups[i].1;
                &&& r.groups@[i].name@ == g.name
                &&& r.groups@[i].task_count == g.tasks.len()
                &&& r.groups@[i].daemon_count == g.services.len()
                &&& r.groups@[i].status is Pending <==> g.status is Pending
                &&& r.groups@[i].status is Running <==> g.status is Running
                &&& r.groups@[i].status is Ready <==> g.status is Ready
                &&& r.groups@[i].status is Failed <==> g.status is Failed
            },
{
    assert forall|i: int| 0 <= i < d.groups.len() implies (#[trigger] r.groups@[i]).reports(
        d.groups[i].1,
    ) by {}
    assert forall|i: int| 0 <= i < d.groups.len() implies {
        let g = #[trigger] d.groups[i].1;
        r.groups@[i].reports(g)
    } by {}
}

/// An entry shows one log line, all of it.
pub proof fn law_an_entry_shows_one_line(r: LogEntry, a: LogModel, b: LogModel)
    requires
        r.reports(a),
    ensures
        r.timestamp_ms == a.timestamp,
        r.process@ == a.process,
        r.content@ == a.content,
        r.group is Some <==> a.group is Some,
        r.group is Some ==> r.group->0@ == a.group->0,
        r.source is Daemon <==> a.source is Daemon,
        r.output_kind is Stderr <==> a.output_kind is Stderr,
        r.reports(b) ==> a == b,
{
}

/// What is told of a task is what it is configured with; its name is the one that
/// was set, where one was.
pub proof fn law_a_task_is_told_as_configured(r: ConfigTask, a: TaskModel, b: TaskModel)
    requires
        r.reports(a),
    ensures
        a.name is Some ==> r.name@ == a.name->0,
        r.command@ == a.command,
        r.on_change_only == a.on_change_only,
        r.env@ == a.env,
        r.working_dir is Some <==> a.working_dir is Some,
        r.working_dir is Some ==> r.working_dir->0@ == a.working_dir->0,
        r.silence is Off <==> a.silence is Off,
        r.reports(b) && a.name is Some && b.name is Some ==> a == b,
{
}

/// What is told of a daemon is what it is configured with; its name is the one that
/// was set, where one was.
pub proof fn law_a_daemon_is_told_as_configured(r: ConfigDaemon, a: DaemonModel, b: DaemonModel)
    requires
        r.reports(a),
    ensures
        a.name is Some ==> r.name@ == a.name->0,
        r.command@ == a.command,
        r.no_pty == a.no_pty,
        r.delay_ms == a.delay_ms,
        r.env@ == a.env,
        r.working_dir is Some <==> a.working_dir is Some,
        r.working_dir is Some ==> r.working_dir->0@ == a.working_dir->0,
        r.signal is Sigterm <==> a.signal is Sigterm,
        r.silence is Off <==> a.silence is Off,
        r.reports(b) && a.name is Some && b.name is Some ==> a == b,
{
}

/// What is told of a group is what it is configured with, down to every task and
/// every daemon.
pub proof fn law_a_group_is_told_as_configured(r: ConfigGroup, g: GroupConfig)
    requires
        r.reports(g),
    ensures
        r.name@ == g.name,
        r.env@ == g.env,
        r.working_dir is Some <==> g.working_dir is Some,
        r.working_dir is Some ==> r.working_dir->0@ == g.working_dir->0,
        r.patterns@.len() == g.patterns.len(),
        forall|j: int| 0 <= j < g.patterns.len() ==> r.patterns@[j]@ == #[trigger] g.patterns[j],
        r.ignore@.len() == g.ignore.len(),
        forall|j: int| 0 <= j < g.ignore.len() ==> r.ignore@[j]@ == #[trigger] g.ignore[j],
        r.depends_on@.len() == g.depends_on.len(),
        forall|j: int|
            0 <= j < g.depends_on.len() ==> r.depends_on@[j]@ == #[trigger] g.depends_on[j],
        r.tasks@.len() == g.tasks.len(),
        forall|j: int|
            0 <= j < g.tasks.len() ==> r.tasks@[j].command@ == (#[trigger] g.tasks[j]).command
                && r.tasks@[j].on_change_only == g.tasks[j].on_change_only,
        r.daemons@.len() == g.daemons.len(),
        forall|j: int|
            0 <= j < g.daemons.len() ==> r.daemons@[j].command@ == (#[trigger] g.daemons[j]).command
                && r.daemons@[j].no_pty == g.daemons[j].no_pty,
{
    assert forall|j: int| 0 <= j < g.patterns.len() implies r.patterns@[j]@
        == #[trigger] g.patterns[j] by {
        assert(text::texts(r.patterns@)[j] == r.patterns@[j]@);
    }
    assert(r.patterns@.len() == text::texts(r.patterns@).len());
    assert forall|j: int| 0 <= j < g.ignore.len() implies r.ignore@[j]@ == #[trigger] g.ignore[j] by {
        assert(text::texts(r.ignore@)[j] == r.ignore@[j]@);
    }
    assert(r.ignore@.len() == text::texts(r.ignore@).len());
    assert forall|j: int| 0 <= j < g.depends_on.len() implies r.depends_on@[j]@
        == #[trigger] g.depends_on[j] by {
        assert(text::texts(r.depends_on@)[j] == r.depends_on@[j]@);
    }
    assert(r.depends_on@.len() == text::texts(r.depends_on@).len());
    assert forall|j: int| 0 <= j < g.tasks.len() implies r.tasks@[j].command@ == (
    #[trigger] g.tasks[j]).command && r.tasks@[j].on_change_only == g.tasks[j].on_change_only by {
        assert(r.tasks@[j].reports(g.tasks[j]));
    }
    assert forall|j: int| 0 <= j < g.daemons.len() implies r.daemons@[j].command@ == (
    #[trigger] g.daemons[j]).command && r.daemons@[j].no_pty == g.daemons[j].no_pty by {
        assert(r.daemons@[j].reports(g.daemons[j]));
    }
}

/// What is told of the settings is what they are.
pub proof fn law_settings_are_told_as_they_are(r: ConfigSettings, s: Settings)
    requires
        r.reports(s),
    ensures
        r.shell is Some <==> s.shell is Some,
        r.shell is Some ==> r.shell->0@ == s.shell->0@,
        r.debounce_ms == s.debounce_ms,
        r.log_format is Json <==> s.log_format is Json,
        r.log_format is Plain <==> s.log_format is Plain,
{
}

} // verus!
