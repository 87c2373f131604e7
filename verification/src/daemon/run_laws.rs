//! Laws of the runs that the engine asks for: each is a task of a group, run as
//! the configuration says.

use crate::config::schema::{self, GroupConfig, TaskModel};
use crate::daemon::dependency::ResolverModel;
use crate::daemon::engine_laws;
use crate::daemon::engine_model::{
    self, ActionModel, EngineModel, ManagedModel, RunModel, SetupModel,
};
use crate::daemon::state::{GroupStatus, ProcessStatus};
use crate::daemon::trigger::ExpansionModel;
use crate::graph;
use crate::process::executor::ExecutorModel;
use crate::text::Text;
use vstd::prelude::*;

verus! {

/// The name that a task is known by: the one that was set, else the one that its
/// command gives.
pub open spec fn known_as(t: TaskModel) -> Text {
    if t.name is Some {
        t.name->0
    } else {
        schema::derived_name(t.command)
    }
}

/// Whether variables are those of a command on top of those of its group.
pub open spec fn layered(env: Map<Text, Text>, own: Map<Text, Text>, below: Map<Text, Text>) -> bool {
    &&& forall|x: Text| #[trigger]
        env.dom().contains(x) <==> own.dom().contains(x) || below.dom().contains(x)
    &&& forall|x: Text| own.dom().contains(x) ==> #[trigger] env[x] == own[x]
    &&& forall|x: Text|
        below.dom().contains(x) && !own.dom().contains(x) ==> #[trigger] env[x] == below[x]
}

/// Whether a run is that of a task of a group, as the group is managed: under the
/// task's name, with its command expanded, in its working directory or else the
/// group's, by the group's shell, with its variables on top of the group's, and
/// with its silence.
pub open spec fn as_configured(
    managed: ManagedModel,
    exp: ExpansionModel,
    run: RunModel,
    k: int,
) -> bool {
    let t = managed.config.tasks[k];
    &&& 0 <= k < managed.config.tasks.len()
    &&& run.task_index == k
    &&& run.task_name == known_as(t)
    &&& run.task_id == run.group_name + ":"@ + run.task_name
    &&& exp.expanded.dom().contains(t.command)
    &&& run.command == exp.expanded[t.command]
    &&& run.silence == t.silence
    &&& run.executor.shell == managed.executor.shell
    &&& t.working_dir is Some ==> run.executor.working_dir == t.working_dir
    &&& t.working_dir is None ==> run.executor.working_dir == managed.executor.working_dir
    &&& layered(run.executor.env, t.env, managed.executor.env)
}

/// Whether a run is that of the task at a position of the group at a position; a
/// task that runs on changes only is run on a change.
pub open spec fn run_of(
    m: EngineModel,
    exp: ExpansionModel,
    on_change: bool,
    run: RunModel,
    i: int,
    k: int,
) -> bool {
    &&& 0 <= i < m.groups.len()
    &&& m.groups[i].0 == run.group_name
    &&& as_configured(m.managed[i], exp, run, k)
    &&& m.managed[i].config.tasks[k].on_change_only ==> on_change
}

/// Whether every run that was asked for between `a` and `b` is that of a task of
/// `m`, as configured.
pub open spec fn runs_as_configured(
    m: EngineModel,
    a: EngineModel,
    b: EngineModel,
    exp: ExpansionModel,
    on_change: bool,
) -> bool {
    forall|j: int|
        a.out.len() <= j < b.out.len() && (#[trigger] b.out[j]) is Run ==> exists|i: int, k: int| #[trigger]
            run_of(m, exp, on_change, b.out[j]->Run_0, i, k)
}

/// Whether `b` goes on from `a` with the groups of `m`, and asks for runs as
/// configured only.
pub open spec fn runs_on(
    m: EngineModel,
    a: EngineModel,
    b: EngineModel,
    exp: ExpansionModel,
    on_change: bool,
) -> bool {
    &&& engine_laws::asks_on(a, b)
    &&& engine_laws::keeps_groups(m, b)
    &&& runs_as_configured(m, a, b, exp, on_change)
}

pub proof fn lemma_runs_trans(
    m: EngineModel,
    a: EngineModel,
    b: EngineModel,
    c: EngineModel,
    exp: ExpansionModel,
    on_change: bool,
)
    requires
        runs_on(m, a, b, exp, on_change),
        runs_on(m, b, c, exp, on_change),
    ensures
        runs_on(m, a, c, exp, on_change),
{
    engine_laws::lemma_asks_trans(a, b, c);
    assert forall|j: int| a.out.len() <= j < c.out.len() && (#[trigger] c.out[j]) is Run implies exists|
        i: int,
        k: int,
    | #[trigger] run_of(m, exp, on_change, c.out[j]->Run_0, i, k) by {
        if j < b.out.len() {
            assert(c.out.take(b.out.len() as int)[j] == c.out[j]);
            assert(b.out[j] is Run);
        }
    }
}

/// A state that asks for nothing more, or only for what is no run.
pub proof fn lemma_runs_other(
    m: EngineModel,
    a: EngineModel,
    b: EngineModel,
    exp: ExpansionModel,
    on_change: bool,
)
    requires
        engine_laws::keeps_groups(m, b),
        a.out.len() <= b.out.len(),
        forall|j: int| 0 <= j < a.out.len() ==> #[trigger] b.out[j] == a.out[j],
        forall|j: int| a.out.len() <= j < b.out.len() ==> !((#[trigger] b.out[j]) is Run),
    ensures
        runs_on(m, a, b, exp, on_change),
{
    assert(b.out.take(a.out.len() as int) =~= a.out);
}

/// A command's own working directory and variables come before those of its group.
pub proof fn law_a_command_refines_its_group(
    e: ExecutorModel,
    working_dir: Option<Text>,
    env: Map<Text, Text>,
)
    ensures
        e.refined(working_dir, env).shell == e.shell,
        working_dir is Some ==> e.refined(working_dir, env).working_dir == working_dir,
        working_dir is None ==> e.refined(working_dir, env).working_dir == e.working_dir,
        layered(e.refined(working_dir, env).env, env, e.env),
{
}

/// Spawning tasks asks for runs as configured.
proof fn lemma_spawn_tasks_runs(
    m: EngineModel,
    start: EngineModel,
    i: int,
    run_on_change: bool,
    exp: ExpansionModel,
    n: nat,
)
    requires
        m.wf(),
        0 <= i < m.groups.len(),
        engine_laws::keeps_groups(m, start),
        n <= m.managed[i].config.tasks.len(),
    ensures
        runs_on(
            m,
            start,
            start.spawn_tasks(
                m.groups[i].0,
                m.managed[i].config.tasks,
                m.managed[i].executor,
                run_on_change,
                exp,
                n,
            ),
            exp,
            run_on_change,
        ),
    decreases n,
{
    let group = m.groups[i].0;
    let tasks = m.managed[i].config.tasks;
    let executor = m.managed[i].executor;
    if n == 0 {
        lemma_runs_other(m, start, start, exp, run_on_change);
    } else {
        lemma_spawn_tasks_runs(m, start, i, run_on_change, exp, (n - 1) as nat);
        let before = start.spawn_tasks(group, tasks, executor, run_on_change, exp, (n - 1) as nat);
        let after = start.spawn_tasks(group, tasks, executor, run_on_change, exp, n);
        let t = tasks[n - 1];
        if exp.of(t.command) is Ok && !(t.on_change_only && !run_on_change) {
            let command = exp.of(t.command)->Ok_0;
            let e = executor.refined(t.working_dir, t.env);
            let name = engine_model::task_name(t);
            engine_laws::law_a_task_is_run_or_queued(
                before,
                group,
                name,
                n - 1,
                command,
                e,
                t.silence,
            );
            law_a_command_refines_its_group(executor, t.working_dir, t.env);
            assert forall|j: int|
                before.out.len() <= j < after.out.len() && (
                #[trigger] after.out[j]) is Run implies exists|x: int, k: int| #[trigger]
                run_of(m, exp, run_on_change, after.out[j]->Run_0, x, k) by {
                let run = after.out[j]->Run_0;
                assert(run.group_name == group && run.task_index == n - 1 && run.task_name == name
                    && run.executor == e && run.silence == t.silence && run.command == command);
                assert(run_of(m, exp, run_on_change, run, i, n - 1));
            }
            assert(runs_on(m, before, after, exp, run_on_change));
            lemma_runs_trans(m, start, before, after, exp, run_on_change);
        }
    }
}

pub proof fn lemma_spawn_group_runs(
    m: EngineModel,
    a: EngineModel,
    group: Text,
    run_on_change: bool,
    exp: ExpansionModel,
)
    requires
        m.wf(),
        engine_laws::keeps_groups(m, a),
    ensures
        runs_on(m, a, a.spawn_group(group, run_on_change, exp), exp, run_on_change),
{
    let after = a.spawn_group(group, run_on_change, exp);
    engine_laws::lemma_spawn_group(a, group, run_on_change, exp);
    engine_laws::lemma_found(a.groups, group);
    if let Some(i) = engine_model::find(a.groups, group) {
        assert(engine_laws::names(a.groups)[i] == engine_laws::names(m.groups)[i]);
        assert(engine_laws::names(a.groups).len() == engine_laws::names(m.groups).len());
        assert(m.groups[i].0 == group);
        engine_laws::lemma_statuses(a, group, 0, ProcessStatus::Running, GroupStatus::Running);
        let start = a.with_group_status(group, GroupStatus::Running);
        let n = m.managed[i].config.tasks.len();
        lemma_spawn_tasks_runs(m, start, i, run_on_change, exp, n);
        let run = start.spawn_tasks(
            group,
            m.managed[i].config.tasks,
            m.managed[i].executor,
            run_on_change,
            exp,
            n,
        );
        lemma_runs_other(m, a, start, exp, run_on_change);
        lemma_runs_other(m, run, after, exp, run_on_change);
        lemma_runs_trans(m, a, start, run, exp, run_on_change);
        lemma_runs_trans(m, a, run, after, exp, run_on_change);
    } else {
        lemma_runs_other(m, a, a, exp, run_on_change);
    }
}

/// Every run that spawning groups asks for is that of a task, as configured; tasks
/// that run on changes only are left out where there was none.
pub proof fn law_groups_are_spawned_as_configured(
    m: EngineModel,
    list: Seq<Text>,
    run_on_change: bool,
    exp: ExpansionModel,
)
    requires
        m.wf(),
    ensures
        runs_on(m, m, m.spawn_groups(list, run_on_change, exp), exp, run_on_change),
    decreases list.len(),
{
    if list.len() == 0 {
        lemma_runs_other(m, m, m, exp, run_on_change);
    } else {
        let before = m.spawn_groups(list.drop_last(), run_on_change, exp);
        law_groups_are_spawned_as_configured(m, list.drop_last(), run_on_change, exp);
        lemma_spawn_group_runs(m, before, list.last(), run_on_change, exp);
        lemma_runs_trans(
            m,
            m,
            before,
            before.spawn_group(list.last(), run_on_change, exp),
            exp,
            run_on_change,
        );
    }
}

/// Every run that a change of files asks for is that of a task, as configured.
pub proof fn law_a_change_runs_as_configured(
    m: EngineModel,
    affected: Seq<Text>,
    now: u64,
    exp: ExpansionModel,
)
    requires
        m.wf(),
    ensures
        runs_on(m, m, m.changed(affected, now, exp), exp, true),
{
    let start = EngineModel { last_change: Some(now), ..m };
    let after = m.changed(affected, now, exp);
    law_groups_are_spawned_as_configured(start, m.set_off_by(affected), true, exp);
    assert forall|j: int| m.out.len() <= j < after.out.len() && (#[trigger] after.out[j]) is Run implies exists|
        i: int,
        k: int,
    | #[trigger] run_of(m, exp, true, after.out[j]->Run_0, i, k) by {
        let (i, k) = choose|i: int, k: int| #[trigger]
            run_of(start, exp, true, after.out[j]->Run_0, i, k);
        assert(run_of(m, exp, true, after.out[j]->Run_0, i, k));
    }
}

proof fn lemma_startup_runs(m: EngineModel, exp: ExpansionModel, n: nat)
    requires
        m.wf(),
        n <= m.order.len(),
    ensures
        runs_on(m, m, m.started_up(exp, n).0, exp, false),
    decreases n,
{
    if n == 0 {
        lemma_runs_other(m, m, m, exp, false);
    } else {
        lemma_startup_runs(m, exp, (n - 1) as nat);
        let before = m.started_up(exp, (n - 1) as nat).0;
        let after = m.started_up(exp, n).0;
        let g = m.order[n - 1];
        if before.resolver.unready(g) != Set::<Text>::empty() {
            engine_laws::lemma_statuses(before, g, 0, ProcessStatus::Running, GroupStatus::Waiting);
            lemma_runs_other(m, before, after, exp, false);
        } else if before.has_startup_tasks(g) {
            lemma_spawn_group_runs(m, before, g, false, exp);
        } else if before.has_services(g) {
            lemma_runs_other(m, before, after, exp, false);
        } else {
            engine_laws::lemma_statuses(before, g, 0, ProcessStatus::Running, GroupStatus::Ready);
            lemma_runs_other(m, before, after, exp, false);
        }
        lemma_runs_trans(m, m, before, after, exp, false);
    }
}

/// Every run that the startup asks for is that of a task, as configured, and of
/// none that runs on changes only.
pub proof fn law_startup_runs_as_configured(m: EngineModel, exp: ExpansionModel)
    requires
        m.wf(),
    ensures
        runs_on(m, m, m.started_up(exp, m.order.len()).0, exp, false),
{
    lemma_startup_runs(m, exp, m.order.len());
}

proof fn lemma_cascade_skips_runs(m: EngineModel, a: EngineModel, names: Seq<Text>, exp: ExpansionModel)
    requires
        engine_laws::keeps_groups(m, a),
    ensures
        runs_on(m, a, a.cascade_skips(names), exp, false),
        a.cascade_skips(names).out == a.out,
        a.cascade_skips(names).running == a.running,
        a.cascade_skips(names).pending == a.pending,
    decreases names.len(),
{
    if names.len() == 0 {
        lemma_runs_other(m, a, a, exp, false);
    } else {
        let before = a.cascade_skips(names.drop_last());
        lemma_cascade_skips_runs(m, a, names.drop_last(), exp);
        let g = names.last();
        let c = before.resolver.with_status(g, GroupStatus::Skipped).cascade(seq![g]);
        let next = EngineModel { resolver: c.0, ..before };
        engine_laws::lemma_statuses(next, g, 0, ProcessStatus::Running, GroupStatus::Skipped);
        let marked = next.with_group_status(g, GroupStatus::Skipped);
        lemma_with_skipped_keeps(marked, c.1);
        lemma_runs_other(m, a, a.cascade_skips(names), exp, false);
    }
}

/// Marking groups as skipped asks for nothing.
pub proof fn lemma_with_skipped_keeps(m: EngineModel, names: Seq<Text>)
    ensures
        engine_laws::keeps_groups(m, m.with_skipped(names)),
        m.with_skipped(names).out == m.out,
        m.with_skipped(names).running == m.running,
        m.with_skipped(names).pending == m.pending,
        m.with_skipped(names).resolver == m.resolver,
    decreases names.len(),
{
    if names.len() > 0 {
        lemma_with_skipped_keeps(m, names.drop_last());
        let before = m.with_skipped(names.drop_last());
        engine_laws::lemma_statuses(
            before,
            names.last(),
            0,
            ProcessStatus::Running,
            GroupStatus::Skipped,
        );
    }
}

proof fn lemma_start_waiting_runs(
    m: EngineModel,
    a: EngineModel,
    names: Seq<Text>,
    exp: ExpansionModel,
    bound: nat,
)
    requires
        m.wf(),
        engine_laws::keeps_groups(m, a),
    ensures
        runs_on(m, a, a.start_waiting_groups(names, exp, bound), exp, false),
    decreases bound, 0nat, names.len(),
{
    if names.len() == 0 {
        lemma_runs_other(m, a, a, exp, false);
    } else {
        lemma_start_waiting_runs(m, a, names.drop_last(), exp, bound);
        let before = a.start_waiting_groups(names.drop_last(), exp, bound);
        let after = a.start_waiting_groups(names, exp, bound);
        let g = names.last();
        if before.has_startup_tasks(g) {
            lemma_spawn_group_runs(m, before, g, false, exp);
        } else if before.has_services(g) {
            lemma_runs_other(m, before, after, exp, false);
        } else {
            engine_laws::lemma_statuses(before, g, 0, ProcessStatus::Running, GroupStatus::Ready);
            let ready = before.set_group_status(g, GroupStatus::Ready);
            lemma_runs_other(m, before, ready, exp, false);
            if ready.resolver.waiting.dom().len() < bound {
                lemma_trigger_runs(m, ready, g, exp);
                lemma_runs_trans(m, before, ready, after, exp, false);
            }
        }
        lemma_runs_trans(m, a, before, after, exp, false);
    }
}

proof fn lemma_trigger_runs(m: EngineModel, a: EngineModel, group: Text, exp: ExpansionModel)
    requires
        m.wf(),
        engine_laws::keeps_groups(m, a),
    ensures
        runs_on(m, a, a.trigger_dependents(group, exp), exp, false),
    decreases a.resolver.waiting.dom().len(), 1nat, 0nat,
{
    let bound = a.resolver.waiting.dom().len();
    let next = EngineModel { resolver: a.resolver.completed(group), ..a };
    engine_laws::lemma_statuses(next, group, 0, ProcessStatus::Running, GroupStatus::Ready);
    let ready = next.with_group_status(group, GroupStatus::Ready);
    lemma_runs_other(m, a, ready, exp, false);
    let started = a.resolver.started_by(group);
    lemma_start_waiting_runs(m, ready, started, exp, bound);
    let run = ready.start_waiting_groups(started, exp, bound);
    lemma_runs_trans(m, a, ready, run, exp, false);
    lemma_cascade_skips_runs(m, run, a.resolver.skipped_by(group), exp);
    lemma_runs_trans(m, a, run, a.trigger_dependents(group, exp), exp, false);
}

/// Starting what waited for a group keeps the groups there are.
pub proof fn lemma_completion_keeps(m: EngineModel, group: Text, exp: ExpansionModel)
    requires
        m.wf(),
    ensures
        ({
            let next = EngineModel {
                resolver: m.resolver.completed(group),
                ..m
            }.with_group_status(group, GroupStatus::Ready);
            engine_laws::keeps_groups(
                m,
                next.start_waiting_groups(
                    m.resolver.started_by(group),
                    exp,
                    m.resolver.waiting.dom().len(),
                ),
            )
        }),
{
    let done = EngineModel { resolver: m.resolver.completed(group), ..m };
    engine_laws::lemma_statuses(done, group, 0, ProcessStatus::Running, GroupStatus::Ready);
    let next = done.with_group_status(group, GroupStatus::Ready);
    lemma_start_waiting_runs(
        m,
        next,
        m.resolver.started_by(group),
        exp,
        m.resolver.waiting.dom().len(),
    );
}

/// Every run that the completion of a group asks for is that of a task, as
/// configured, and of none that runs on changes only.
pub proof fn law_a_completion_runs_as_configured(m: EngineModel, group: Text, exp: ExpansionModel)
    requires
        m.wf(),
    ensures
        runs_on(m, m, m.trigger_dependents(group, exp), exp, false),
{
    lemma_trigger_runs(m, m, group, exp);
}

proof fn lemma_cascade_runs(
    m: EngineModel,
    a: EngineModel,
    names: Seq<Text>,
    group: Text,
    g: ResolverModel,
    order: Seq<Text>,
    exp: ExpansionModel,
)
    requires
        m.wf(),
        engine_laws::keeps_groups(m, a),
    ensures
        runs_on(m, a, a.cascade_restarts(names, group, g, order, exp), exp, false),
    decreases engine_model::rank(order, group), 0nat, names.len(),
{
    if names.len() == 0 {
        lemma_runs_other(m, a, a, exp, false);
    } else {
        lemma_cascade_runs(m, a, names.drop_last(), group, g, order, exp);
        let before = a.cascade_restarts(names.drop_last(), group, g, order, exp);
        let after = a.cascade_restarts(names, group, g, order, exp);
        let d = names.last();
        if !before.cascades_to(d) {
            lemma_runs_other(m, before, after, exp, false);
        } else if before.has_startup_tasks(d) {
            lemma_spawn_group_runs(m, before, d, false, exp);
        } else {
            let signalled = before.emit(ActionModel::SignalServices(d));
            lemma_runs_other(m, before, signalled, exp, false);
            if engine_model::rank(order, d) < engine_model::rank(order, group) {
                lemma_cascade_runs(m, signalled, g.dependents_of(d), d, g, order, exp);
                assert(signalled.cascade_restart(d, g, order, exp) == signalled.cascade_restarts(
                    g.dependents_of(d),
                    d,
                    g,
                    order,
                    exp,
                ));
                lemma_runs_trans(m, before, signalled, after, exp, false);
            }
        }
        lemma_runs_trans(m, a, before, after, exp, false);
    }
}

/// Every run that a restart asks for of dependents is that of a task, as
/// configured, and of none that runs on changes only.
pub proof fn law_a_restart_runs_as_configured(m: EngineModel, group: Text, exp: ExpansionModel)
    requires
        m.wf(),
    ensures
        runs_on(m, m, m.restart_dependents(group, exp), exp, false),
{
    lemma_cascade_runs(
        m,
        m,
        m.resolver.dependents_of(group),
        group,
        m.resolver,
        m.order,
        exp,
    );
}

/// The shell that commands are run by: the configured one, else that of the
/// environment, else `/bin/sh`.
pub open spec fn shell_of(setup: SetupModel) -> Text {
    if setup.shell is Some {
        setup.shell->0
    } else if setup.env_shell is Some {
        setup.env_shell->0
    } else {
        "/bin/sh"@
    }
}

/// The directory that the commands of a group are run in by default: its own, else
/// that of the configuration file.
pub open spec fn dir_of(c: GroupConfig, setup: SetupModel) -> Text {
    if c.working_dir is Some {
        c.working_dir->0
    } else {
        setup.root
    }
}

/// Whether a group is managed as configured, before anything has run: its commands
/// are run by the configured shell, in the group's directory or else that of the
/// configuration file, with the group's variables; each daemon has a service, with
/// its own directory and variables where it has some, that has not been started.
pub open spec fn managed_as_configured(g: ManagedModel, c: GroupConfig, setup: SetupModel) -> bool {
    &&& g.config == c
    &&& g.executor.shell == shell_of(setup)
    &&& g.executor.working_dir == Some(dir_of(c, setup))
    &&& g.executor.env == c.env
    &&& !g.daemons_started
    &&& g.services.len() == c.daemons.len()
    &&& g.pending_restarts.len() == c.daemons.len()
    &&& forall|k: int|
        0 <= k < c.daemons.len() ==> {
            let s = #[trigger] g.services[k];
            let d = c.daemons[k];
            &&& s.config == d
            &&& s.executor.shell == shell_of(setup)
            &&& d.working_dir is Some ==> s.executor.working_dir == d.working_dir
            &&& d.working_dir is None ==> s.executor.working_dir == Some(dir_of(c, setup))
            &&& layered(s.executor.env, d.env, c.env)
            &&& s.child is None
            &&& s.state is Stopped
            &&& s.last_start is None
            &&& s.restart_delay == 500
            &&& g.pending_restarts[k] is None
        }
}

/// A new engine has the groups of the configuration in their order, each managed as
/// configured, with every task and every daemon shown under its name as not yet
/// run. Nothing runs, nothing is queued and nothing has been asked for.
pub proof fn law_a_new_engine_is_as_configured(setup: SetupModel, order: Seq<Text>, i: int)
    requires
        forall|a: int, b: int|
            0 <= a < b < setup.groups.len() ==> (#[trigger] setup.groups[a]).name != (
            #[trigger] setup.groups[b]).name,
        0 <= i < setup.groups.len(),
    ensures
        ({
            let m = EngineModel::initial(setup, order);
            let c = setup.groups[i];
            let g = m.groups[i].1;
            &&& m.groups.len() == setup.groups.len()
            &&& m.managed.len() == setup.groups.len()
            &&& m.groups[i].0 == c.name
            &&& managed_as_configured(m.managed[i], c, setup)
            &&& g.name == c.name
            &&& g.status is Pending
            &&& g.tasks.len() == c.tasks.len()
            &&& forall|k: int|
                0 <= k < c.tasks.len() ==> (#[trigger] g.tasks[k]).name == known_as(c.tasks[k])
                    && g.tasks[k].status is Pending && g.tasks[k].pid is None
                    && g.tasks[k].exit_code is None
            &&& g.services.len() == c.daemons.len()
            &&& forall|k: int|
                0 <= k < c.daemons.len() ==> (#[trigger] g.services[k]).status is Pending && (
                c.daemons[k].name is Some ==> g.services[k].name == c.daemons[k].name->0)
                    && g.services[k].pid is None
            &&& m.status is Starting
            &&& m.snapshot == m.groups
            &&& m.order == order
            &&& m.setup == setup
            &&& m.running == Set::<Text>::empty()
            &&& m.pending == Set::<Text>::empty()
            &&& m.out.len() == 0
            &&& m.last_change is None
        }),
{
    let names = graph::group_names(setup.groups);
    assert forall|a: int, b: int| 0 <= a < names.len() && 0 <= b < names.len() && a != b implies names[a]
        != names[b] by {
        if a < b {
            assert(setup.groups[a].name != setup.groups[b].name);
        } else {
            assert(setup.groups[b].name != setup.groups[a].name);
        }
    }
    engine_laws::law_groups_are_built_as_configured(setup.groups, setup);
    let m = EngineModel::initial(setup, order);
    let c = setup.groups[i];
    assert(m.managed[i] == engine_model::fresh_managed(c, setup));
    assert(m.groups[i] == (c.name, engine_model::fresh_group(c)));
    let e = m.managed[i].executor;
    assert forall|k: int| 0 <= k < c.daemons.len() implies layered(
        (#[trigger] m.managed[i].services[k]).executor.env,
        c.daemons[k].env,
        c.env,
    ) by {
        law_a_command_refines_its_group(e, c.daemons[k].working_dir, c.daemons[k].env);
    }
}

/// At startup each task is run in the directory that is configured for it, else in
/// that of its group, else in that of the configuration file; by the configured
/// shell; with the variables of its group and its own on top.
pub proof fn law_startup_runs_tasks_where_configured(
    setup: SetupModel,
    order: Seq<Text>,
    exp: ExpansionModel,
    j: int,
)
    requires
        forall|a: int, b: int|
            0 <= a < b < setup.groups.len() ==> (#[trigger] setup.groups[a]).name != (
            #[trigger] setup.groups[b]).name,
        EngineModel::initial(setup, order).wf(),
        0 <= j < EngineModel::initial(setup, order).started_up(exp, order.len()).0.out.len(),
        EngineModel::initial(setup, order).started_up(exp, order.len()).0.out[j] is Run,
    ensures
        ({
            let run = EngineModel::initial(setup, order).started_up(
                exp,
                order.len(),
            ).0.out[j]->Run_0;
            exists|i: int, k: int|
                #![trigger setup.groups[i].tasks[k]]
                {
                    let c = setup.groups[i];
                    let t = c.tasks[k];
                    &&& 0 <= i < setup.groups.len()
                    &&& 0 <= k < c.tasks.len()
                    &&& run.group_name == c.name
                    &&& run.task_index == k
                    &&& !t.on_change_only
                    &&& run.command == exp.expanded[t.command]
                    &&& run.silence == t.silence
                    &&& run.executor.shell == shell_of(setup)
                    &&& t.working_dir is Some ==> run.executor.working_dir == t.working_dir
                    &&& t.working_dir is None ==> run.executor.working_dir == Some(dir_of(c, setup))
                    &&& layered(run.executor.env, t.env, c.env)
                }
        }),
{
    let m = EngineModel::initial(setup, order);
    let after = m.started_up(exp, order.len()).0;
    lemma_startup_runs(m, exp, order.len());
    let run = after.out[j]->Run_0;
    if setup.groups.len() > 0 {
        law_a_new_engine_is_as_configured(setup, order, 0);
        assert(m.out.len() == 0);
    } else {
        assert(m.out.len() == 0);
    }
    let (i, k) = choose|i: int, k: int| #[trigger] run_of(m, exp, false, run, i, k);
    assert(0 <= i < m.groups.len());
    if setup.groups.len() == 0 {
        assert(m.groups.len() == 0);
    }
    assert(m.groups.len() == setup.groups.len());
    law_a_new_engine_is_as_configured(setup, order, i);
    let c = setup.groups[i];
    let t = c.tasks[k];
    assert(m.managed[i].config == c);
}

} // verus!
