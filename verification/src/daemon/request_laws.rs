//! Laws of what a client is answered, and of what its requests set off.

use crate::config::schema::Silence;
use crate::config::user::NotificationConfig;
use crate::daemon::api::{ApiRequest, ApiResponse};
use crate::daemon::cascade_laws;
use crate::daemon::change_laws;
use crate::daemon::engine_laws;
use crate::daemon::engine_model::{self, ActionModel, EngineModel};
use crate::daemon::log_model;
use crate::daemon::log_storage::{LogQueryResult, LogStorageError};
use crate::daemon::log_store::LogStore;
use crate::daemon::notify::{self, NotifyModel};
use crate::daemon::planning;
use crate::daemon::requests::{self, RequestStep};
use crate::daemon::run_laws;
use crate::daemon::trigger::ExpansionModel;
use crate::text::{self, Text};
use vstd::prelude::*;

verus! {

/// Whether a request is answered with an error.
pub open spec fn is_refused(r: RequestStep) -> bool {
    r is Reply && r->Reply_0 is Error
}

/// Whether a request is answered with a success.
pub open spec fn is_granted(r: RequestStep) -> bool {
    r is Reply && r->Reply_0 is Success
}

/// A client that asks for the status is told the groups as they are, and the status of
/// the daemon; nothing but the shown state changes.
pub proof fn law_the_status_is_told_as_it_is(
    before: EngineModel,
    after: EngineModel,
    store: LogStore,
    persisted: Option<Result<LogQueryResult, LogStorageError>>,
    request: ApiRequest,
    exp: ExpansionModel,
    r: RequestStep,
)
    requires
        requests::handled(before, after, store, persisted, request, exp, r),
        request is Status || request is ListGroups,
    ensures
        r is Reply,
        r->Reply_0 matches ApiResponse::Status { state } && state@.groups == before.groups
            && state@.status == before.status && state@.watched_files == before.watched_files
            && state@.last_change == before.last_change,
        after.groups == before.groups,
        after.managed == before.managed,
        after.running == before.running,
        after.pending == before.pending,
        after.resolver == before.resolver,
{
}

/// A subscription is acknowledged, and starts and stops nothing.
pub proof fn law_a_subscription_is_granted(
    before: EngineModel,
    after: EngineModel,
    store: LogStore,
    persisted: Option<Result<LogQueryResult, LogStorageError>>,
    request: ApiRequest,
    exp: ExpansionModel,
    r: RequestStep,
)
    requires
        requests::handled(before, after, store, persisted, request, exp, r),
        request is Subscribe || request is SubscribeLogs,
    ensures
        is_granted(r),
        after.groups == before.groups,
        after.managed == before.managed,
        after.running == before.running,
        after.resolver == before.resolver,
{
}

/// A daemon that is embedded refuses to be shut down; another agrees. Neither changes
/// anything by the answer.
pub proof fn law_only_an_embedded_daemon_refuses_to_stop(
    before: EngineModel,
    after: EngineModel,
    store: LogStore,
    persisted: Option<Result<LogQueryResult, LogStorageError>>,
    request: ApiRequest,
    exp: ExpansionModel,
    r: RequestStep,
)
    requires
        requests::handled(before, after, store, persisted, request, exp, r),
        request is Shutdown,
    ensures
        before.setup.embedded <==> is_refused(r),
        !before.setup.embedded <==> is_granted(r),
        after == before,
{
}

/// A request to reload is handed on, and changes nothing by itself.
pub proof fn law_a_reload_is_handed_on(
    before: EngineModel,
    after: EngineModel,
    store: LogStore,
    persisted: Option<Result<LogQueryResult, LogStorageError>>,
    request: ApiRequest,
    exp: ExpansionModel,
    r: RequestStep,
)
    requires
        requests::handled(before, after, store, persisted, request, exp, r),
    ensures
        request is ReloadConfig <==> r is Reload,
        request is ReloadConfig ==> after == before,
{
}

/// A group that is restarted on request is shown as running, and each of its startup
/// tasks whose command expands is run, or queued to run again where it is running; the
/// request is granted. A request for a group that is not there is refused, and changes
/// nothing.
pub proof fn law_a_restarted_group_runs(
    before: EngineModel,
    after: EngineModel,
    store: LogStore,
    persisted: Option<Result<LogQueryResult, LogStorageError>>,
    request: ApiRequest,
    exp: ExpansionModel,
    r: RequestStep,
    i: int,
)
    requires
        before.wf(),
        requests::handled(before, after, store, persisted, request, exp, r),
        request is RestartGroup,
    ensures
        0 <= i < before.groups.len() && before.groups[i].0 == request->RestartGroup_name@ ==> is_granted(r)
            && cascade_laws::reruns(before, after, exp, i),
        (forall|x: int|
            0 <= x < before.groups.len() ==> (#[trigger] before.groups[x]).0
                != request->RestartGroup_name@) ==> is_refused(r) && after == before,
        run_laws::runs_on(before, before, after, exp, false),
{
    let name = request->RestartGroup_name@;
    engine_laws::lemma_found(before.groups, name);
    run_laws::lemma_runs_other(before, before, before, exp, false);
    if engine_model::find(before.groups, name) is Some {
        let at = engine_model::find(before.groups, name)->Some_0;
        run_laws::lemma_spawn_group_runs(before, before, name, false, exp);
        if 0 <= i < before.groups.len() && before.groups[i].0 == name {
            if at < i {
                assert(before.groups[at].0 != before.groups[i].0);
            } else if i < at {
                assert(before.groups[i].0 != before.groups[at].0);
            }
            assert(before.out.take(before.out.len() as int) =~= before.out);
            change_laws::lemma_group_accounts(before, before, name, false, exp);
            cascade_laws::lemma_spawn_group_statuses(before, name, false, exp);
            assert forall|k: int| #[trigger]
                cascade_laws::starts_with(before, exp, i, k) implies change_laws::taken_up(
                before,
                after,
                cascade_laws::id_at(before, i, k),
            ) by {
                assert(exp.of(before.managed[i].config.tasks[k].command) is Ok);
            }
        }
    } else if 0 <= i < before.groups.len() && before.groups[i].0 == name {
        assert(before.groups[i].0 == name);
    }
}

/// When all groups are restarted on request, each group of the order has every startup
/// task whose command expands run, or queued to run again where it is running; the
/// request is granted.
pub proof fn law_a_restart_of_all_runs_every_group(
    before: EngineModel,
    after: EngineModel,
    store: LogStore,
    persisted: Option<Result<LogQueryResult, LogStorageError>>,
    request: ApiRequest,
    exp: ExpansionModel,
    r: RequestStep,
    i: int,
    k: int,
)
    requires
        before.wf(),
        requests::handled(before, after, store, persisted, request, exp, r),
        request is RestartAll,
        0 <= i < before.groups.len(),
        before.order.contains(before.groups[i].0),
        cascade_laws::starts_with(before, exp, i, k),
    ensures
        is_granted(r),
        change_laws::taken_up(before, after, cascade_laws::id_at(before, i, k)),
        run_laws::runs_on(before, before, after, exp, false),
{
    let g = before.groups[i].0;
    engine_laws::lemma_found(before.groups, g);
    assert(before.groups[i].0 == g);
    let at = engine_model::find(before.groups, g)->Some_0;
    if at < i {
        assert(before.groups[at].0 != before.groups[i].0);
    } else if i < at {
        assert(before.groups[i].0 != before.groups[at].0);
    }
    change_laws::lemma_groups_taken_up(before, before.order, false, exp, g, k);
    run_laws::law_groups_are_spawned_as_configured(before, before.order, false, exp);
}

/// Whether a group has a task of a name, at a position before which none has it.
pub open spec fn first_task(m: EngineModel, i: int, name: Text, k: int) -> bool {
    &&& 0 <= k < m.managed[i].config.tasks.len()
    &&& run_laws::known_as(m.managed[i].config.tasks[k]) == name
    &&& forall|x: int|
        0 <= x < k ==> run_laws::known_as(#[trigger] m.managed[i].config.tasks[x]) != name
}

/// Whether a group has a service of a name, at a position before which none has it, and
/// no task of that name.
pub open spec fn first_service(m: EngineModel, i: int, name: Text, k: int) -> bool {
    &&& 0 <= k < m.managed[i].services.len()
    &&& m.managed[i].services[k].name() == name
    &&& forall|x: int| 0 <= x < k ==> (#[trigger] m.managed[i].services[x]).name() != name
    &&& forall|x: int|
        0 <= x < m.managed[i].config.tasks.len() ==> run_laws::known_as(
            #[trigger] m.managed[i].config.tasks[x],
        ) != name
}

proof fn lemma_task_named(tasks: Seq<crate::config::schema::TaskModel>, name: Text, k: int)
    requires
        0 <= k <= tasks.len(),
        k < tasks.len() ==> run_laws::known_as(tasks[k]) == name,
        forall|x: int| 0 <= x < k ==> run_laws::known_as(#[trigger] tasks[x]) != name,
    ensures
        engine_model::task_named(tasks, name) == if k < tasks.len() {
            Some(k)
        } else {
            None
        },
    decreases tasks.len(),
{
    if tasks.len() > 0 && k > 0 {
        let rest = tasks.drop_first();
        assert(run_laws::known_as(tasks[0]) != name);
        assert forall|x: int| 0 <= x < k - 1 implies run_laws::known_as(#[trigger] rest[x])
            != name by {
            assert(run_laws::known_as(tasks[x + 1]) != name);
        }
        lemma_task_named(rest, name, k - 1);
    }
}

proof fn lemma_service_named(
    services: Seq<crate::process::service::ServiceModel>,
    name: Text,
    k: int,
)
    requires
        0 <= k <= services.len(),
        k < services.len() ==> services[k].name() == name,
        forall|x: int| 0 <= x < k ==> (#[trigger] services[x]).name() != name,
    ensures
        engine_model::service_named(services, name) == if k < services.len() {
            Some(k)
        } else {
            None
        },
    decreases services.len(),
{
    if services.len() > 0 && k > 0 {
        let rest = services.drop_first();
        assert(services[0].name() != name);
        assert forall|x: int| 0 <= x < k - 1 implies (#[trigger] rest[x]).name() != name by {
            assert(services[x + 1].name() != name);
        }
        lemma_service_named(rest, name, k - 1);
    }
}

proof fn lemma_at(m: EngineModel, i: int)
    requires
        m.wf(),
        0 <= i < m.groups.len(),
    ensures
        engine_model::find(m.groups, m.groups[i].0) == Some(i),
{
    let g = m.groups[i].0;
    engine_laws::lemma_found(m.groups, g);
    assert(m.groups[i].0 == g);
    let at = engine_model::find(m.groups, g)->Some_0;
    if at < i {
        assert(m.groups[at].0 != m.groups[i].0);
    } else if i < at {
        assert(m.groups[i].0 != m.groups[at].0);
    }
}

/// A task that is restarted on request is run, as its command expands, or queued to run
/// again where it is running, and the request is granted; where its command does not
/// expand, the request is refused and nothing changes.
pub proof fn law_a_restarted_task_runs(
    before: EngineModel,
    after: EngineModel,
    group: Text,
    process: Text,
    exp: ExpansionModel,
    r: RequestStep,
    i: int,
    k: int,
)
    requires
        before.wf(),
        requests::restarts(before, after, group, process, exp, r),
        0 <= i < before.groups.len(),
        before.groups[i].0 == group,
        first_task(before, i, process, k),
    ensures
        ({
            let t = before.managed[i].config.tasks[k];
            let id = group + ":"@ + process;
            &&& exp.expanded.dom().contains(t.command) ==> is_granted(r)
                && after.running.contains(id) && (before.running.contains(id)
                ==> after.pending.contains(id) && after.out == before.out) && (
            !before.running.contains(id) ==> after.out.len() == before.out.len() + 1 && (
            after.out.last() matches ActionModel::Run(run) && run.group_name == group
                && run.task_id == id && run_laws::as_configured(before.managed[i], exp, run, k)))
            &&& !exp.expanded.dom().contains(t.command) ==> is_refused(r) && after == before
        }),
{
    lemma_at(before, i);
    lemma_task_named(before.managed[i].config.tasks, process, k);
    let t = before.managed[i].config.tasks[k];
    run_laws::law_a_command_refines_its_group(before.managed[i].executor, t.working_dir, t.env);
    if exp.expanded.dom().contains(t.command) {
        engine_laws::law_a_task_is_run_or_queued(
            before,
            group,
            process,
            k,
            exp.expanded[t.command],
            before.managed[i].executor.refined(t.working_dir, t.env),
            t.silence,
        );
    }
}

/// A service that is restarted on request is to be sent its own signal, at its process,
/// where it has one; that it restarts is logged.
pub proof fn law_a_restarted_service_is_signalled(
    before: EngineModel,
    after: EngineModel,
    group: Text,
    process: Text,
    exp: ExpansionModel,
    r: RequestStep,
    i: int,
    k: int,
)
    requires
        before.wf(),
        requests::restarts(before, after, group, process, exp, r),
        0 <= i < before.groups.len(),
        before.groups[i].0 == group,
        first_service(before, i, process, k),
    ensures
        ({
            let s = before.managed[i].services[k];
            &&& r is SignalService
            &&& r->SignalService_group@ == group
            &&& r->SignalService_process@ == process
            &&& s.child is None ==> r->SignalService_signal is None
            &&& s.child is Some && s.child->0.pid is None ==> r->SignalService_signal is None
            &&& s.child is Some && s.child->0.pid is Some ==> r->SignalService_signal == Some(
                (s.child->0.pid->0, s.config.signal),
            )
            &&& after.groups == before.groups
            &&& after.managed == before.managed
            &&& after.out.len() == before.out.len() + 1
            &&& after.out.last() == (ActionModel::Log {
                process,
                group: Some(group),
                content: "restarting"@,
            })
        }),
{
    lemma_at(before, i);
    lemma_task_named(before.managed[i].config.tasks, process, before.managed[i].config.tasks.len() as int);
    lemma_service_named(before.managed[i].services, process, k);
}

/// A request to restart a process is refused, and changes nothing, where there is no
/// such group or the group has neither a task nor a service of that name.
pub proof fn law_an_unknown_process_is_not_restarted(
    before: EngineModel,
    after: EngineModel,
    group: Text,
    process: Text,
    exp: ExpansionModel,
    r: RequestStep,
)
    requires
        before.wf(),
        requests::restarts(before, after, group, process, exp, r),
        forall|i: int|
            0 <= i < before.groups.len() && (#[trigger] before.groups[i]).0 == group ==> (forall|
                x: int,
            |
                0 <= x < before.managed[i].config.tasks.len() ==> run_laws::known_as(
                    #[trigger] before.managed[i].config.tasks[x],
                ) != process) && (forall|x: int|
                0 <= x < before.managed[i].services.len() ==> (
                #[trigger] before.managed[i].services[x]).name() != process),
    ensures
        is_refused(r),
        after == before,
{
    engine_laws::lemma_found(before.groups, group);
    if let Some(i) = engine_model::find(before.groups, group) {
        assert(before.groups[i].0 == group);
        lemma_task_named(
            before.managed[i].config.tasks,
            process,
            before.managed[i].config.tasks.len() as int,
        );
        lemma_service_named(
            before.managed[i].services,
            process,
            before.managed[i].services.len() as int,
        );
    }
}

/// A request for logs that names neither an offset nor a limit nor a text is answered
/// with the newest lines of the store, as many as asked for; another with a page of what
/// it asks for. Neither changes anything.
pub proof fn law_logs_are_answered_as_asked(
    before: EngineModel,
    after: EngineModel,
    store: LogStore,
    request: ApiRequest,
    exp: ExpansionModel,
    r: RequestStep,
)
    requires
        requests::handled(before, after, store, None, request, exp, r),
        request is GetLogs,
    ensures
        ({
            let name = request->GetLogs_name@;
            let lines = request->GetLogs_lines;
            let paged = request->GetLogs_offset is Some || request->GetLogs_limit is Some
                || request->GetLogs_search is Some;
            &&& after == before
            &&& r is Reply
            &&& r->Reply_0 is Logs
            &&& r->Reply_0->Logs_name@ == name
            &&& paged <==> r->Reply_0->Logs_total_count is Some
            &&& paged <==> r->Reply_0->Logs_has_more is Some
            &&& paged <==> r->Reply_0->Logs_offset is Some
            &&& !paged && lines is None ==> r->Reply_0->Logs_lines.deep_view() == store.shows(name)
            &&& !paged && lines is Some ==> {
                let shown = store.shows(name);
                let n = lines->0;
                r->Reply_0->Logs_lines.deep_view() == if n < shown.len() {
                    shown.subrange(shown.len() - n, shown.len() as int)
                } else {
                    shown
                }
            }
            &&& paged ==> {
                let q = requests::query_of(request);
                &&& q is Some
                &&& q->0.process == Some(name)
                &&& q->0.group is None && q->0.since is None && q->0.until is None
                &&& q->0.offset == request->GetLogs_offset
                &&& request->GetLogs_limit is Some ==> q->0.limit == request->GetLogs_limit
                &&& request->GetLogs_limit is None ==> q->0.limit == lines
                &&& request->GetLogs_search is Some ==> q->0.search == Some(
                    request->GetLogs_search->0@,
                )
                &&& request->GetLogs_search is None ==> q->0.search is None
                &&& r->Reply_0->Logs_total_count->0 == log_model::matching(
                    q->0,
                    store.shows(name),
                ).len()
                &&& r->Reply_0->Logs_lines.deep_view() == q->0.page(
                    log_model::matching(q->0, store.shows(name)),
                )
                &&& request->GetLogs_offset is Some ==> r->Reply_0->Logs_offset
                    == request->GetLogs_offset
                &&& request->GetLogs_offset is None ==> r->Reply_0->Logs_offset == Some(0usize)
                &&& r->Reply_0->Logs_has_more->0 <==> r->Reply_0->Logs_offset->0
                    + r->Reply_0->Logs_lines.deep_view().len()
                    < r->Reply_0->Logs_total_count->0
            }
        }),
{
    let shown = store.shows(request->GetLogs_name@);
    if request->GetLogs_lines is Some {
        let n = request->GetLogs_lines->0;
        if n < shown.len() {
            assert(text::tail(shown, n as int) =~= shown.subrange(
                shown.len() - n,
                shown.len() as int,
            ));
        }
    }
}

/// Silence keeps a line out of the logs exactly when it is for the line's stream or for
/// both.
pub proof fn law_silence_is_for_its_stream(silence: Silence, is_stderr: bool)
    ensures
        silence is Off ==> !planning::suppressed(silence, is_stderr),
        silence is All ==> planning::suppressed(silence, is_stderr),
        silence is Stdout ==> (planning::suppressed(silence, is_stderr) <==> !is_stderr),
        silence is Stderr ==> (planning::suppressed(silence, is_stderr) <==> is_stderr),
{
}

/// A notification is sent only if they are switched on at all, and then exactly for the
/// events that are asked for: failures, of tasks and of groups alike, successes of tasks,
/// and groups that are complete.
pub proof fn law_only_what_is_asked_for_is_notified(c: NotificationConfig, e: NotifyModel)
    ensures
        !c.enabled ==> !notify::wanted(c, e),
        c.enabled && (e is TaskFailed || e is GroupFailed) ==> (notify::wanted(c, e)
            <==> c.on_failure),
        c.enabled && e is TaskSuccess ==> (notify::wanted(c, e) <==> c.on_success),
        c.enabled && e is GroupComplete ==> (notify::wanted(c, e) <==> c.on_group_complete),
{
}

/// A notification names what it is about: the task and its group, or the group, and for
/// a failed task its exit code, where there is one.
pub proof fn law_a_notification_names_its_subject(e: NotifyModel, seconds: Text)
    ensures
        e matches NotifyModel::TaskFailed { task, group, exit_code } ==> notify::title_of(e)
            == "zaz: "@ + task + " failed"@ && (exit_code is Some ==> notify::body_of(e, seconds)
            == "Task "@ + task + " in "@ + group + " failed with exit code "@
            + text::signed_decimal(exit_code->0 as int)) && (exit_code is None ==> notify::body_of(
            e,
            seconds,
        ) == "Task "@ + task + " in "@ + group + " failed"@),
        e matches NotifyModel::TaskSuccess { task, group, duration_ms } ==> notify::title_of(e)
            == "zaz: "@ + task + " complete"@ && notify::body_of(e, seconds) == "Task "@ + task
            + " in "@ + group + " completed in "@ + seconds + "s"@,
        e matches NotifyModel::GroupComplete { group } ==> notify::body_of(e, seconds) == "Group "@
            + group + " is ready"@,
        e matches NotifyModel::GroupFailed { group } ==> notify::body_of(e, seconds) == "Group "@
            + group + " has failed tasks"@,
{
}

} // verus!
