//! Laws of the services of the engine, and of groups that are run in sequence.

use crate::config::schema::{Signal, TaskModel};
use crate::daemon::engine::{self, ServiceStep};
use crate::daemon::engine_laws;
use crate::daemon::engine_model::{self, ActionModel, EngineModel};
use crate::daemon::error::DaemonError;
use crate::daemon::group_run::{self, GroupRunModel, RunPoint, RunStep};
use crate::daemon::notify::NotifyModel;
use crate::daemon::run_laws;
use crate::daemon::service_round::{self, RoundModel};
use crate::daemon::state::{GroupStatus, ProcessStatus};
use crate::daemon::trigger::ExpansionModel;
use crate::process::service::{Child, ChildStatus, ServiceModel};
use crate::text::{self, Text};
use vstd::prelude::*;

verus! {

/// The process that a service runs as, where it is known.
pub open spec fn process_of(s: ServiceModel) -> Option<u32> {
    if s.child is Some {
        s.child->0.pid
    } else {
        None
    }
}

/// To start a service is to run its command by its shell, in its directory and with
/// its variables, in a terminal unless that is switched off, after its delay; one that
/// runs already is left alone.
pub proof fn law_a_service_is_started_as_configured(step: ServiceStep, s: ServiceModel)
    requires
        engine::starts(step, s),
    ensures
        step is Start,
        step->delay_ms == s.config.delay_ms,
        s.state is Running ==> step->plan is None,
        !(s.state is Running) ==> {
            let p = step->plan->0;
            &&& step->plan is Some
            &&& p.program@ == s.executor.shell
            &&& p.args@.len() == 2
            &&& p.args@[0]@ == "-c"@
            &&& p.args@[1]@ == s.config.command
            &&& p.working_dir is Some <==> s.executor.working_dir is Some
            &&& p.working_dir is Some ==> p.working_dir->0@ == s.executor.working_dir->0
            &&& p.env@ == s.executor.env
            &&& p.pty <==> !s.config.no_pty
        },
{
    if step->plan is Some {
        let p = step->plan->0;
        assert(text::texts(p.args@).len() == 2);
        assert(text::texts(p.args@)[0] == p.args@[0]@);
        assert(text::texts(p.args@)[1] == p.args@[1]@);
    }
}

/// To signal a service is to send the configured signal to its process, where it has
/// one.
pub proof fn law_a_service_is_signalled_as_configured(step: ServiceStep, s: ServiceModel)
    requires
        engine::signals(step, s),
    ensures
        step is Signal,
        process_of(s) is None ==> step->Signal_0 is None,
        process_of(s) is Some ==> step->Signal_0 == Some((process_of(s)->0, s.config.signal)),
{
}

/// Each service that a look shows running is sent its own signal, at its process, and
/// no other is.
pub proof fn law_each_running_service_gets_its_signal(
    services: Seq<ServiceModel>,
    seen: Seq<ChildStatus>,
    x: (u32, Signal),
)
    requires
        seen.len() == services.len(),
    ensures
        service_round::restart_signals(services, seen).contains(x) <==> exists|k: int|
            0 <= k < services.len() && process_of(#[trigger] services[k]) == Some(x.0)
                && services[k].config.signal == x.1 && seen[k] is Running,
{
    lemma_signals(services, seen, x);
}

proof fn lemma_signals(services: Seq<ServiceModel>, seen: Seq<ChildStatus>, x: (u32, Signal))
    requires
        services.len() <= seen.len(),
    ensures
        service_round::restart_signals(services, seen).contains(x) <==> exists|k: int|
            0 <= k < services.len() && process_of(#[trigger] services[k]) == Some(x.0)
                && services[k].config.signal == x.1 && seen[k] is Running,
    decreases services.len(),
{
    if services.len() > 0 {
        let short = services.drop_last();
        lemma_signals(short, seen, x);
        let before = service_round::restart_signals(short, seen);
        let after = service_round::restart_signals(services, seen);
        let n = services.len() - 1;
        if before.contains(x) {
            assert(after[before.index_of(x)] == x);
            let k = choose|k: int|
                0 <= k < short.len() && process_of(#[trigger] short[k]) == Some(x.0)
                    && short[k].config.signal == x.1 && seen[k] is Running;
            assert(process_of(services[k]) == Some(x.0));
        }
        if after.contains(x) && !before.contains(x) {
            let k = after.index_of(x);
            if k < before.len() {
                assert(before[k] == x);
            }
            assert(process_of(services[n]) == Some(x.0));
        }
        if exists|k: int|
            0 <= k < services.len() && process_of(#[trigger] services[k]) == Some(x.0)
                && services[k].config.signal == x.1 && seen[k] is Running {
            let k = choose|k: int|
                0 <= k < services.len() && process_of(#[trigger] services[k]) == Some(x.0)
                    && services[k].config.signal == x.1 && seen[k] is Running;
            if k < n {
                assert(process_of(short[k]) == Some(x.0));
            } else {
                assert(after[before.len() as int] == x);
            }
        }
    }
}

/// A service that was seen to is shown as running, under the process it runs as: the
/// child that was started for it, if one was. No other service and no other group
/// changes.
pub proof fn law_a_service_that_was_started_is_shown(
    m: EngineModel,
    i: int,
    k: int,
    started: Option<(Child, u128)>,
    x: int,
    y: int,
)
    requires
        m.wf(),
        0 <= i < m.managed.len(),
        0 <= k < m.managed[i].services.len(),
        0 <= x < m.managed.len(),
        0 <= y < m.managed[x].services.len(),
    ensures
        ({
            let after = m.service_runs(i, k, started);
            let s = after.managed[i].services[k];
            &&& after.groups[i].1.services[k].status is Running
            &&& after.groups[i].1.services[k].pid == process_of(s)
            &&& after.groups[i].1.services[k].name == m.groups[i].1.services[k].name
            &&& started matches Some((child, at)) ==> s.child == Some(child) && s.last_start == Some(
                at,
            ) && s.state is Running
            &&& started is None ==> s == m.managed[i].services[k]
            &&& s.config == m.managed[i].services[k].config
            &&& x != i || y != k ==> after.managed[x].services[y] == m.managed[x].services[y]
                && after.groups[x].1.services[y] == m.groups[x].1.services[y]
            &&& x != i ==> after.managed[x] == m.managed[x] && after.groups[x] == m.groups[x]
            &&& after.groups[i].1.tasks == m.groups[i].1.tasks
            &&& after.groups[i].1.status == m.groups[i].1.status
            &&& after.managed[i].daemons_started == m.managed[i].daemons_started
            &&& after.out == m.out
            &&& after.resolver == m.resolver
        }),
{
    assert(engine_model::fits(m.groups[i].1, m.managed[i]));
    assert(engine_model::fits(m.groups[x].1, m.managed[x]));
}

/// Once all services of a group have been seen to, the group is Ready and its services
/// count as started, which is shown; the other groups stay.
pub proof fn law_a_group_is_ready_with_its_services(m: EngineModel, i: int, x: int)
    requires
        m.wf(),
        0 <= i < m.groups.len(),
        0 <= x < m.groups.len(),
    ensures
        ({
            let after = m.services_done(m.groups[i].0);
            &&& after.managed[i].daemons_started
            &&& after.groups[i].1.status is Ready
            &&& after.managed[i].services == m.managed[i].services
            &&& after.groups[i].1.services == m.groups[i].1.services
            &&& after.groups[i].1.tasks == m.groups[i].1.tasks
            &&& x != i ==> after.managed[x] == m.managed[x] && after.groups[x] == m.groups[x]
            &&& after.snapshot == after.groups
            &&& after.out.len() == m.out.len() + 1
            &&& after.out.last() == ActionModel::Broadcast(after.daemon_state())
            &&& after.daemon_state().groups == after.groups
        }),
{
    lemma_at(m, i);
}

proof fn lemma_at(m: EngineModel, i: int)
    requires
        m.wf(),
        0 <= i < m.groups.len(),
    ensures
        engine_model::find(m.groups, m.groups[i].0) == Some(i),
{
    let name = m.groups[i].0;
    engine_laws::lemma_found(m.groups, name);
    assert(m.groups[i].0 == name);
    let at = engine_model::find(m.groups, name)->Some_0;
    if at < i {
        assert(m.groups[at].0 != m.groups[i].0);
    } else if i < at {
        assert(m.groups[i].0 != m.groups[at].0);
    }
}

/// Each service of a group is announced by its name, in order, and nothing else is.
pub proof fn law_every_service_is_announced(m: EngineModel, i: int, start: bool)
    requires
        m.wf(),
        0 <= i < m.groups.len(),
    ensures
        ({
            let after = m.announced(m.groups[i].0, start);
            &&& after.out.len() == m.out.len() + m.managed[i].services.len()
            &&& forall|k: int|
                0 <= k < m.managed[i].services.len() ==> #[trigger] after.out[m.out.len() + k] == (
                ActionModel::Log {
                    process: m.managed[i].services[k].name(),
                    group: Some(m.groups[i].0),
                    content: if start {
                        "starting"@
                    } else {
                        "restarting"@
                    },
                })
            &&& forall|j: int| 0 <= j < m.out.len() ==> #[trigger] after.out[j] == m.out[j]
            &&& after.groups == m.groups
            &&& after.managed == m.managed
        }),
{
    lemma_at(m, i);
    lemma_announced(m, i, start, m.managed[i].services.len());
}

proof fn lemma_announced(m: EngineModel, i: int, start: bool, n: nat)
    requires
        0 <= i < m.groups.len(),
        engine_model::find(m.groups, m.groups[i].0) == Some(i),
        n <= m.managed[i].services.len(),
    ensures
        ({
            let after = m.announce(m.groups[i].0, start, n);
            &&& after.out.len() == m.out.len() + n
            &&& forall|k: int|
                0 <= k < n ==> #[trigger] after.out[m.out.len() + k] == (ActionModel::Log {
                    process: m.managed[i].services[k].name(),
                    group: Some(m.groups[i].0),
                    content: if start {
                        "starting"@
                    } else {
                        "restarting"@
                    },
                })
            &&& forall|j: int| 0 <= j < m.out.len() ==> #[trigger] after.out[j] == m.out[j]
            &&& after.groups == m.groups
            &&& after.managed == m.managed
        }),
    decreases n,
{
    if n > 0 {
        lemma_announced(m, i, start, (n - 1) as nat);
        let before = m.announce(m.groups[i].0, start, (n - 1) as nat);
        let after = m.announce(m.groups[i].0, start, n);
        assert forall|k: int| 0 <= k < n implies #[trigger] after.out[m.out.len() + k] == (
        ActionModel::Log {
            process: m.managed[i].services[k].name(),
            group: Some(m.groups[i].0),
            content: if start {
                "starting"@
            } else {
                "restarting"@
            },
        }) by {
            if k < n - 1 {
                assert(after.out[m.out.len() + k] == before.out[m.out.len() + k]);
            }
        }
    }
}

/// Behind the services of a group its dependents are seen to: at the initial startup
/// those that wait for it are started; after its tasks have completed, those that wait
/// for it are started or, once it has been up, its dependents restart.
pub proof fn law_a_round_ends_with_the_dependents(
    round: RoundModel,
    m: EngineModel,
    exp: ExpansionModel,
)
    ensures
        round.followup is Trigger ==> round.followed(m, exp) == m.trigger_dependents(
            round.group,
            exp,
        ),
        round.followup is Propagate ==> round.followed(m, exp) == m.propagate(round.group, exp),
{
}

/// Whether the task at a position is the first to be run from another on: it runs at
/// startup or there was a change, and none before it does.
pub open spec fn is_next(tasks: Seq<TaskModel>, from: int, change: bool, j: int) -> bool {
    &&& from <= j < tasks.len()
    &&& !tasks[j].on_change_only || change
    &&& forall|x: int| from <= x < j ==> (#[trigger] tasks[x]).on_change_only && !change
}

/// The run of a group in sequence goes through its tasks: the next one that is to be
/// run is executed, as a command that is its own expanded, by the executor of the
/// group, and is shown and logged as running. One whose command does not expand ends
/// the run.
pub proof fn law_a_run_executes_the_next_task(
    m: EngineModel,
    run: GroupRunModel,
    k: usize,
    exp: ExpansionModel,
    after: EngineModel,
    run_after: GroupRunModel,
    r: Result<RunStep, DaemonError>,
    j: int,
)
    requires
        m.wf(),
        run.fits(m),
        run.point == RunPoint::Task(k),
        group_run::at_tasks(m, run, k, exp, after, run_after, r),
        is_next(m.managed[run.position].config.tasks, k as int, run.change, j),
    ensures
        ({
            let t = m.managed[run.position].config.tasks[j];
            if exp.expanded.dom().contains(t.command) {
                &&& r is Ok
                &&& r->Ok_0 is Execute
                &&& r->Ok_0->command@ == exp.expanded[t.command]
                &&& r->Ok_0->executor@ == m.managed[run.position].executor
                &&& run_after.point == RunPoint::Executing(j as usize)
                &&& run_after.group == run.group
                &&& after.groups[run.position].1.tasks[j].status is Running
                &&& exists|x: int|
                    m.out.len() <= x < after.out.len() && #[trigger] after.out[x] == (
                    ActionModel::Log {
                        process: run_laws::known_as(t),
                        group: Some(run.group),
                        content: "running: "@ + exp.expanded[t.command],
                    })
            } else {
                &&& r is Err
                &&& r->Err_0 is VarExpansion
                &&& run_after.point is Over
                &&& after == m
            }
        }),
{
    let all = m.managed[run.position].config.tasks;
    lemma_next(all, k as int, run.change, j);
    lemma_at(m, run.position);
    assert(engine_model::fits(m.groups[run.position].1, m.managed[run.position]));
    let t = all[j];
    if exp.expanded.dom().contains(t.command) {
        let shown = m.with_task_status(run.group, j, ProcessStatus::Running).updated();
        assert(after.out[shown.out.len() as int] is Log);
        assert(after.out[shown.out.len() as int] == (ActionModel::Log {
            process: run_laws::known_as(t),
            group: Some(run.group),
            content: "running: "@ + exp.expanded[t.command],
        }));
    }
}

proof fn lemma_next(tasks: Seq<TaskModel>, from: int, change: bool, j: int)
    requires
        0 <= from,
        is_next(tasks, from, change, j),
    ensures
        group_run::next_task(tasks, from, change) == j,
    decreases tasks.len() - from,
{
    if from < j {
        assert(tasks[from].on_change_only && !change);
        lemma_next(tasks, from + 1, change, j);
    }
}

proof fn lemma_none_left(tasks: Seq<TaskModel>, from: int, change: bool)
    requires
        0 <= from <= tasks.len(),
        forall|x: int|
            from <= x < tasks.len() ==> (#[trigger] tasks[x]).on_change_only && !change,
    ensures
        group_run::next_task(tasks, from, change) == tasks.len(),
    decreases tasks.len() - from,
{
    if from < tasks.len() {
        assert(tasks[from].on_change_only && !change);
        lemma_none_left(tasks, from + 1, change);
    }
}

/// Once no task is left to be run, the services of the group are up: the first is
/// signalled after a change of files and started otherwise. A group without services is
/// then Ready and its run over; after a change, its dependents restart.
pub proof fn law_a_run_ends_with_the_services(
    m: EngineModel,
    run: GroupRunModel,
    k: usize,
    exp: ExpansionModel,
    after: EngineModel,
    run_after: GroupRunModel,
    r: Result<RunStep, DaemonError>,
)
    requires
        m.wf(),
        run.fits(m),
        run.point == RunPoint::Task(k),
        group_run::at_tasks(m, run, k, exp, after, run_after, r),
        forall|x: int|
            k <= x < m.managed[run.position].config.tasks.len() ==> (
            #[trigger] m.managed[run.position].config.tasks[x]).on_change_only && !run.change,
    ensures
        ({
            let services = m.managed[run.position].services;
            if services.len() > 0 {
                &&& r is Ok
                &&& r->Ok_0 is Service
                &&& run.change ==> engine::signals(r->Ok_0->Service_0, services[0])
                &&& !run.change ==> engine::starts(r->Ok_0->Service_0, services[0])
                &&& run_after.point == RunPoint::Acting(0)
                &&& after.groups == m.groups
            } else {
                &&& r is Ok
                &&& r->Ok_0 is Over
                &&& run_after.point is Over
                &&& !run.change ==> after.groups[run.position].1.status is Ready
                &&& after.snapshot == after.groups
            }
        }),
{
    let all = m.managed[run.position].config.tasks;
    lemma_none_left(all, k as int, run.change);
    lemma_at(m, run.position);
    law_every_service_is_announced(m, run.position, !run.change);
    let n = m.announced(run.group, !run.change);
    engine_laws::lemma_found(n.groups, run.group);
}

/// Behind one service the next is up, and behind the last the group is Ready.
pub proof fn law_a_run_goes_through_its_services(
    m: EngineModel,
    run: GroupRunModel,
    k: usize,
    exp: ExpansionModel,
    after: EngineModel,
    run_after: GroupRunModel,
    r: Result<RunStep, DaemonError>,
)
    requires
        m.wf(),
        run.fits(m),
        run.point == RunPoint::Service(k),
        group_run::at_services(m, run, k, exp, after, run_after, r),
    ensures
        k < m.managed[run.position].services.len() ==> {
            &&& r is Ok
            &&& r->Ok_0 is Service
            &&& run.change ==> engine::signals(
                r->Ok_0->Service_0,
                m.managed[run.position].services[k as int],
            )
            &&& !run.change ==> engine::starts(
                r->Ok_0->Service_0,
                m.managed[run.position].services[k as int],
            )
            &&& run_after.point == RunPoint::Acting(k)
            &&& after == m
        },
        k >= m.managed[run.position].services.len() ==> {
            &&& r is Ok
            &&& r->Ok_0 is Over
            &&& run_after.point is Over
            &&& !run.change ==> after.groups[run.position].1.status is Ready
        },
{
    lemma_at(m, run.position);
}

/// A group that has been run is Ready, which is shown; after a change of files its
/// dependents restart.
pub proof fn law_a_run_leaves_the_group_ready(
    m: EngineModel,
    i: int,
    change: bool,
    exp: ExpansionModel,
)
    requires
        m.wf(),
        m.acyclic(),
        0 <= i < m.groups.len(),
    ensures
        ({
            let group = m.groups[i].0;
            let after = m.run_done(group, change, exp);
            let ready = m.with_group_status(group, GroupStatus::Ready);
            &&& ready.groups[i].1.status is Ready
            &&& after.snapshot == after.groups
            &&& after.out.len() > 0
            &&& after.out.last() == ActionModel::Broadcast(after.daemon_state())
            &&& !change ==> after.groups == ready.groups && after.out.len() == m.out.len() + 1
            &&& change ==> after.groups == ready.restart_dependents(group, exp).groups
                && after.running == ready.restart_dependents(group, exp).running
        }),
{
    lemma_at(m, i);
}

/// A task of a run that has ended well is shown so, with its exit code and how long it
/// took; this is logged, and told to who asked for it.
pub proof fn law_a_task_that_succeeded_is_shown(
    m: EngineModel,
    i: int,
    k: int,
    name: Text,
    code: Option<i32>,
    duration_ms: u64,
    seconds: Text,
    x: int,
)
    requires
        m.wf(),
        0 <= i < m.groups.len(),
        0 <= k < m.groups[i].1.tasks.len(),
        0 <= x < m.groups[i].1.tasks.len(),
    ensures
        ({
            let after = m.run_task_succeeded(i, k, name, code, duration_ms, seconds);
            let t = after.groups[i].1.tasks[k];
            &&& t.status is Success
            &&& t.exit_code == code
            &&& t.duration_ms == Some(duration_ms)
            &&& after.groups[i].1.status == m.groups[i].1.status
            &&& x != k ==> after.groups[i].1.tasks[x] == m.groups[i].1.tasks[x]
            &&& after.out.len() == m.out.len() + 2
            &&& after.out[m.out.len() as int] is Log
            &&& after.out[m.out.len() as int]->process == name
            &&& after.out.last() == ActionModel::Notify(
                NotifyModel::TaskSuccess { task: name, group: m.groups[i].0, duration_ms },
            )
        }),
{
}

/// A task of a run that has failed is shown so, and its group too; this is logged, and
/// told to who asked for it.
pub proof fn law_a_task_that_failed_is_shown(
    m: EngineModel,
    i: int,
    k: int,
    name: Text,
    error: Text,
    code: Option<i32>,
    x: int,
)
    requires
        m.wf(),
        0 <= i < m.groups.len(),
        0 <= k < m.groups[i].1.tasks.len(),
        0 <= x < m.groups[i].1.tasks.len(),
    ensures
        ({
            let after = m.run_task_failed(i, k, name, error, code);
            let t = after.groups[i].1.tasks[k];
            &&& t.status is Failed
            &&& code is Some ==> t.exit_code == code
            &&& after.groups[i].1.status is Failed
            &&& x != k ==> after.groups[i].1.tasks[x] == m.groups[i].1.tasks[x]
            &&& after.snapshot == after.groups
            &&& after.out.len() == m.out.len() + 3
            &&& after.out[m.out.len() as int] == (ActionModel::Log {
                process: name,
                group: Some(m.groups[i].0),
                content: "failed: "@ + error,
            })
            &&& after.out[m.out.len() as int + 1] == ActionModel::Notify(
                NotifyModel::TaskFailed { task: name, group: m.groups[i].0, exit_code: code },
            )
            &&& after.out.last() == ActionModel::Broadcast(after.daemon_state())
        }),
{
    lemma_at(m, i);
    let logged = m.log(name, m.groups[i].0, "failed: "@ + error);
    engine_laws::lemma_found(logged.groups, m.groups[i].0);
    let t = logged.groups[i].1.tasks[k];
    let shown = logged.with_task(
        i,
        k,
        crate::daemon::state::ProcessModel {
            status: ProcessStatus::Failed,
            exit_code: match code {
                Some(c) => Some(c),
                None => t.exit_code,
            },
            ..t
        },
    );
    assert(engine_laws::names(shown.groups) =~= engine_laws::names(m.groups));
    assert(shown.groups[i].0 == m.groups[i].0);
    engine_laws::lemma_found(shown.groups, m.groups[i].0);
    let at = engine_model::find(shown.groups, m.groups[i].0)->Some_0;
    assert(shown.groups[at].0 == m.groups[at].0);
    if at < i {
        assert(m.groups[at].0 != m.groups[i].0);
    } else if i < at {
        assert(m.groups[i].0 != m.groups[at].0);
    }
}

/// The shown state is that of the groups once it has been brought up to date, and it is
/// broadcast; nothing else changes.
pub proof fn law_an_update_shows_the_groups_as_they_are(m: EngineModel)
    ensures
        ({
            let after = m.updated();
            &&& after.daemon_state().groups == m.groups
            &&& after.daemon_state().status == m.status
            &&& after.daemon_state().watched_files == m.watched_files
            &&& after.daemon_state().last_change == m.last_change
            &&& after.out.len() == m.out.len() + 1
            &&& after.out.last() == ActionModel::Broadcast(after.daemon_state())
            &&& after.groups == m.groups
            &&& after.managed == m.managed
            &&& after.running == m.running
            &&& after.pending == m.pending
            &&& after.resolver == m.resolver
        }),
{
}

/// The services of a group are those that are managed for it; a group that is not there
/// has none.
pub proof fn law_services_are_those_of_the_group(m: EngineModel, i: int, other: Text)
    requires
        m.wf(),
        0 <= i < m.groups.len(),
    ensures
        service_round::services_of(m, m.groups[i].0) == m.managed[i].services,
        (forall|x: int| 0 <= x < m.groups.len() ==> (#[trigger] m.groups[x]).0 != other)
            ==> service_round::services_of(m, other).len() == 0,
{
    lemma_at(m, i);
    engine_laws::lemma_found(m.groups, other);
}

} // verus!
