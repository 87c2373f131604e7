//! Laws of restarts: who follows when a group restarts.

use crate::config::schema::TaskModel;
use crate::daemon::change_laws;
use crate::daemon::dependency::ResolverModel;
use crate::daemon::engine_laws;
use crate::daemon::engine_model::{self, ActionModel, EngineModel};
use crate::daemon::run_laws;
use crate::daemon::state::{GroupStatus, ProcessStatus};
use crate::daemon::trigger::ExpansionModel;
use crate::process::executor::ExecutorModel;
use crate::text::Text;
use vstd::prelude::*;

verus! {

/// Whether a task of the group at a position runs at startup and has a command that
/// expands.
pub open spec fn starts_with(m: EngineModel, exp: ExpansionModel, i: int, k: int) -> bool {
    &&& 0 <= k < m.managed[i].config.tasks.len()
    &&& !m.managed[i].config.tasks[k].on_change_only
    &&& exp.expanded.dom().contains(m.managed[i].config.tasks[k].command)
}

/// The identifier of the task at a position of the group at a position.
pub open spec fn id_at(m: EngineModel, i: int, k: int) -> Text {
    m.groups[i].0 + ":"@ + run_laws::known_as(m.managed[i].config.tasks[k])
}

/// Whether the group at a position has a task that runs at startup.
pub open spec fn has_startup_task(m: EngineModel, i: int) -> bool {
    exists|k: int|
        0 <= k < m.managed[i].config.tasks.len() && !(
        #[trigger] m.managed[i].config.tasks[k]).on_change_only
}

/// Whether the group at a position runs again: it is shown as running, and each of
/// its startup tasks whose command expands is running, its run having been asked
/// for since, or is queued where it was running.
pub open spec fn reruns(m: EngineModel, after: EngineModel, exp: ExpansionModel, i: int) -> bool {
    &&& after.groups[i].1.status is Running
    &&& forall|k: int| #[trigger]
        starts_with(m, exp, i, k) ==> change_laws::taken_up(m, after, id_at(m, i, k))
}

/// Whether the services of a group have been asked to be signalled since.
pub open spec fn signalled_since(m: EngineModel, after: EngineModel, group: Text) -> bool {
    exists|j: int|
        m.out.len() <= j < after.out.len() && #[trigger] after.out[j]
            == ActionModel::SignalServices(group)
}

/// Whether a group follows a restart: it runs its startup tasks again, or, without
/// any, has its services signalled.
pub open spec fn follows(m: EngineModel, after: EngineModel, exp: ExpansionModel, i: int) -> bool {
    &&& has_startup_task(m, i) ==> reruns(m, after, exp, i)
    &&& !has_startup_task(m, i) && m.managed[i].daemons_started && m.managed[i].services.len()
        > 0 ==> signalled_since(m, after, m.groups[i].0)
}

/// Whether a group depends on another, as the resolver has it.
pub open spec fn depends(r: ResolverModel, dependent: Text, on: Text) -> bool {
    r.dependents.dom().contains(on) && r.dependents[on].contains(dependent)
}

/// Whether a restart passes through the group at a position: it is Ready, and its
/// services are signalled for want of startup tasks.
pub open spec fn passes_on(m: EngineModel, i: int) -> bool {
    &&& m.groups[i].1.status is Ready
    &&& !has_startup_task(m, i)
    &&& m.managed[i].daemons_started
    &&& m.managed[i].services.len() > 0
}

/// Whether positions lead from a group along its dependents, through groups that
/// pass a restart on, to one that is Ready.
pub open spec fn leads(m: EngineModel, group: Text, path: Seq<int>) -> bool {
    &&& path.len() > 0
    &&& forall|t: int| 0 <= t < path.len() ==> 0 <= #[trigger] path[t] < m.groups.len()
    &&& depends(m.resolver, m.groups[path[0]].0, group)
    &&& forall|t: int|
        0 <= t < path.len() - 1 ==> passes_on(m, #[trigger] path[t]) && depends(
            m.resolver,
            m.groups[path[t + 1]].0,
            m.groups[path[t]].0,
        )
    &&& m.groups[path.last()].1.status is Ready
}

/// Whether a state only goes on from another: what runs, what is queued and what was
/// asked for stays.
pub open spec fn grows(a: EngineModel, b: EngineModel) -> bool {
    &&& b.groups.len() == a.groups.len()
    &&& forall|i: int|
        0 <= i < a.groups.len() && a.groups[i].1.status is Running ==> (
        #[trigger] b.groups[i]).1.status is Running
    &&& engine_laws::asks_on(a, b)
    &&& a.running.subset_of(b.running)
    &&& a.pending.subset_of(b.pending)
}

/// Whether what was asked for since is the run of a task of a group that was Ready
/// and depends on another, or the signal for the services of such a group, or tells
/// the state.
pub open spec fn asks_of_ready_dependents(m: EngineModel, a: EngineModel) -> bool {
    forall|j: int|
        m.out.len() <= j < a.out.len() ==> match #[trigger] a.out[j] {
            ActionModel::Run(run) => ready_dependent(m, run.group_name),
            ActionModel::SignalServices(g) => ready_dependent(m, g),
            ActionModel::Broadcast(_) => true,
            _ => false,
        }
}

/// Whether a group is Ready and depends on another.
pub open spec fn ready_dependent(m: EngineModel, group: Text) -> bool {
    &&& exists|i: int|
        0 <= i < m.groups.len() && (#[trigger] m.groups[i]).0 == group && m.groups[i].1.status is Ready
    &&& exists|x: Text| #[trigger] depends(m.resolver, group, x)
}

/// Whether a restart has been carried on so far: groups other than those that run
/// again are as they were.
pub open spec fn carried(m: EngineModel, a: EngineModel, exp: ExpansionModel) -> bool {
    &&& change_laws::accounts(m, a)
    &&& grows(m, a)
    &&& engine_laws::keeps_groups(m, a)
    &&& a.resolver == m.resolver
    &&& asks_of_ready_dependents(m, a)
    &&& forall|i: int|
        0 <= i < m.groups.len() ==> (#[trigger] a.groups[i]).1.status == m.groups[i].1.status || (
        m.groups[i].1.status is Ready && has_startup_task(m, i) && reruns(m, a, exp, i))
}

proof fn lemma_follows_on(
    m: EngineModel,
    a: EngineModel,
    b: EngineModel,
    exp: ExpansionModel,
    i: int,
)
    requires
        follows(m, a, exp, i),
        grows(a, b),
        m.wf(),
        0 <= i < m.groups.len(),
        carried(m, a, exp),
    ensures
        follows(m, b, exp, i),
{
    if has_startup_task(m, i) {
        assert forall|k: int| #[trigger] starts_with(m, exp, i, k) implies change_laws::taken_up(
            m,
            b,
            id_at(m, i, k),
        ) by {
            let id = id_at(m, i, k);
            assert(change_laws::taken_up(m, a, id));
            if !m.running.contains(id) {
                change_laws::lemma_asked_on(m, a, b, id);
            }
        }
    } else if m.managed[i].daemons_started && m.managed[i].services.len() > 0 {
        let g = m.groups[i].0;
        let j = choose|j: int|
            m.out.len() <= j < a.out.len() && #[trigger] a.out[j] == ActionModel::SignalServices(g);
        assert(b.out.take(a.out.len() as int)[j] == b.out[j]);
    }
}

/// Spawning the tasks of a group changes the status of no group.
pub proof fn lemma_spawn_tasks_statuses(
    m: EngineModel,
    group: Text,
    tasks: Seq<TaskModel>,
    executor: ExecutorModel,
    run_on_change: bool,
    exp: ExpansionModel,
    n: nat,
)
    ensures
        ({
            let after = m.spawn_tasks(group, tasks, executor, run_on_change, exp, n);
            &&& after.groups.len() == m.groups.len()
            &&& after.resolver == m.resolver
            &&& forall|i: int|
                0 <= i < m.groups.len() ==> (#[trigger] after.groups[i]).1.status
                    == m.groups[i].1.status && after.groups[i].0 == m.groups[i].0
        }),
    decreases n,
{
    if n > 0 {
        lemma_spawn_tasks_statuses(m, group, tasks, executor, run_on_change, exp, (n - 1) as nat);
        let before = m.spawn_tasks(group, tasks, executor, run_on_change, exp, (n - 1) as nat);
        engine_laws::lemma_found(before.groups, group);
    }
}

/// Spawning a group makes it Running, and changes the status of no other.
pub proof fn lemma_spawn_group_statuses(
    m: EngineModel,
    group: Text,
    run_on_change: bool,
    exp: ExpansionModel,
)
    ensures
        ({
            let after = m.spawn_group(group, run_on_change, exp);
            &&& after.groups.len() == m.groups.len()
            &&& after.resolver == m.resolver
            &&& forall|i: int|
                0 <= i < m.groups.len() ==> (#[trigger] after.groups[i]).0 == m.groups[i].0
                    && after.groups[i].1.status == if engine_model::find(m.groups, group) == Some(i) {
                    GroupStatus::Running
                } else {
                    m.groups[i].1.status
                }
        }),
{
    engine_laws::lemma_found(m.groups, group);
    if let Some(i) = engine_model::find(m.groups, group) {
        let start = m.with_group_status(group, GroupStatus::Running);
        lemma_spawn_tasks_statuses(
            start,
            group,
            m.managed[i].config.tasks,
            m.managed[i].executor,
            run_on_change,
            exp,
            m.managed[i].config.tasks.len(),
        );
    }
}

/// A group of the original state is found at its place later on.
proof fn lemma_placed(m: EngineModel, a: EngineModel, i: int)
    requires
        m.wf(),
        engine_laws::keeps_groups(m, a),
        0 <= i < m.groups.len(),
    ensures
        engine_model::find(a.groups, m.groups[i].0) == Some(i),
        a.groups.len() == m.groups.len(),
        a.groups[i].0 == m.groups[i].0,
{
    let name = m.groups[i].0;
    engine_laws::lemma_found(m.groups, name);
    assert(m.groups[i].0 == name);
    let at = engine_model::find(m.groups, name)->Some_0;
    if at < i {
        assert(m.groups[at].0 != m.groups[i].0);
    } else if i < at {
        assert(m.groups[i].0 != m.groups[at].0);
    }
    change_laws::lemma_find_kept(m, a, name);
    assert(engine_laws::names(a.groups)[i] == engine_laws::names(m.groups)[i]);
    assert(engine_laws::names(a.groups).len() == engine_laws::names(m.groups).len());
}

/// One step of a cascade that spawns the tasks of a dependent.
proof fn lemma_spawn_step(m: EngineModel, a: EngineModel, exp: ExpansionModel, i: int)
    requires
        m.wf(),
        carried(m, a, exp),
        0 <= i < m.groups.len(),
        m.groups[i].1.status is Ready,
        has_startup_task(m, i),
        exists|x: Text| #[trigger] depends(m.resolver, m.groups[i].0, x),
    ensures
        ({
            let after = a.spawn_group(m.groups[i].0, false, exp);
            &&& carried(m, after, exp)
            &&& grows(a, after)
            &&& reruns(m, after, exp, i)
        }),
{
    let d = m.groups[i].0;
    let after = a.spawn_group(d, false, exp);
    lemma_placed(m, a, i);
    change_laws::lemma_group_accounts(m, a, d, false, exp);
    engine_laws::lemma_spawn_group(a, d, false, exp);
    lemma_spawn_group_statuses(a, d, false, exp);
    run_laws::lemma_spawn_group_runs(m, a, d, false, exp);
    engine_laws::lemma_asks_trans(m, a, after);
    assert(reruns(m, after, exp, i)) by {
        assert forall|k: int| #[trigger] starts_with(m, exp, i, k) implies change_laws::taken_up(
            m,
            after,
            id_at(m, i, k),
        ) by {
            assert(exp.of(a.managed[i].config.tasks[k].command) is Ok);
        }
    }
    lemma_asks_only_of(a, d, exp);
    assert forall|j: int| m.out.len() <= j < after.out.len() implies match #[trigger] after.out[j] {
        ActionModel::Run(run) => ready_dependent(m, run.group_name),
        ActionModel::SignalServices(g) => ready_dependent(m, g),
        ActionModel::Broadcast(_) => true,
        _ => false,
    } by {
        if j < a.out.len() {
            assert(after.out.take(a.out.len() as int)[j] == after.out[j]);
            assert(a.out[j] == after.out[j]);
        }
        assert(ready_dependent(m, d));
    }
    assert forall|x: int| 0 <= x < m.groups.len() implies (#[trigger] after.groups[x]).1.status
        == m.groups[x].1.status || (m.groups[x].1.status is Ready && has_startup_task(m, x)
        && reruns(m, after, exp, x)) by {
        if x != i {
            assert(after.groups[x].1.status == a.groups[x].1.status);
            if a.groups[x].1.status != m.groups[x].1.status {
                assert(follows(m, a, exp, x));
                lemma_follows_on(m, a, after, exp, x);
            }
        }
    }
}

/// Spawning a group asks for runs of its tasks, and tells the state.
proof fn lemma_asks_only_of(m: EngineModel, group: Text, exp: ExpansionModel)
    ensures
        ({
            let after = m.spawn_group(group, false, exp);
            forall|j: int|
                m.out.len() <= j < after.out.len() ==> match #[trigger] after.out[j] {
                    ActionModel::Run(run) => run.group_name == group,
                    ActionModel::Broadcast(_) => true,
                    _ => false,
                }
        }),
{
    if let Some(i) = engine_model::find(m.groups, group) {
        let start = m.with_group_status(group, GroupStatus::Running);
        engine_laws::lemma_statuses(m, group, 0, ProcessStatus::Running, GroupStatus::Running);
        let n = m.managed[i].config.tasks.len();
        lemma_tasks_ask_only_of(
            start,
            group,
            m.managed[i].config.tasks,
            m.managed[i].executor,
            exp,
            n,
        );
        let run = start.spawn_tasks(
            group,
            m.managed[i].config.tasks,
            m.managed[i].executor,
            false,
            exp,
            n,
        );
        let after = m.spawn_group(group, false, exp);
        assert forall|j: int| m.out.len() <= j < after.out.len() implies match #[trigger] after.out[j] {
            ActionModel::Run(run) => run.group_name == group,
            ActionModel::Broadcast(_) => true,
            _ => false,
        } by {
            if j < run.out.len() {
                assert(after.out[j] == run.out[j]);
            }
        }
    }
}

proof fn lemma_tasks_ask_only_of(
    m: EngineModel,
    group: Text,
    tasks: Seq<TaskModel>,
    executor: ExecutorModel,
    exp: ExpansionModel,
    n: nat,
)
    ensures
        ({
            let after = m.spawn_tasks(group, tasks, executor, false, exp, n);
            forall|j: int|
                m.out.len() <= j < after.out.len() ==> (#[trigger] after.out[j] matches ActionModel::Run(
                    run,
                ) && run.group_name == group)
        }),
    decreases n,
{
    if n > 0 {
        lemma_tasks_ask_only_of(m, group, tasks, executor, exp, (n - 1) as nat);
        let before = m.spawn_tasks(group, tasks, executor, false, exp, (n - 1) as nat);
        let after = m.spawn_tasks(group, tasks, executor, false, exp, n);
        assert forall|j: int| m.out.len() <= j < after.out.len() implies (
        #[trigger] after.out[j] matches ActionModel::Run(run) && run.group_name == group) by {
            if j < before.out.len() {
                assert(after.out[j] == before.out[j]);
            }
        }
    }
}

/// One step of a cascade that signals the services of a dependent.
proof fn lemma_signal_step(m: EngineModel, a: EngineModel, exp: ExpansionModel, i: int)
    requires
        m.wf(),
        carried(m, a, exp),
        0 <= i < m.groups.len(),
        m.groups[i].1.status is Ready,
        exists|x: Text| #[trigger] depends(m.resolver, m.groups[i].0, x),
    ensures
        ({
            let after = a.emit(ActionModel::SignalServices(m.groups[i].0));
            &&& carried(m, after, exp)
            &&& grows(a, after)
            &&& signalled_since(m, after, m.groups[i].0)
        }),
{
    let d = m.groups[i].0;
    let after = a.emit(ActionModel::SignalServices(d));
    assert(after.out.take(a.out.len() as int) =~= a.out);
    engine_laws::lemma_asks_trans(m, a, after);
    assert(after.out[a.out.len() as int] == ActionModel::SignalServices(d));
    assert forall|id: Text|
        after.running.contains(id) && !m.running.contains(id) implies #[trigger] change_laws::asked_since(
        m,
        after,
        id,
    ) by {
        assert(change_laws::asked_since(m, a, id));
        change_laws::lemma_asked_on(m, a, after, id);
    }
    assert forall|j: int| m.out.len() <= j < after.out.len() implies match #[trigger] after.out[j] {
        ActionModel::Run(run) => ready_dependent(m, run.group_name),
        ActionModel::SignalServices(g) => ready_dependent(m, g),
        ActionModel::Broadcast(_) => true,
        _ => false,
    } by {
        if j < a.out.len() {
            assert(after.out[j] == a.out[j]);
        }
        assert(ready_dependent(m, d));
    }
    assert forall|x: int| 0 <= x < m.groups.len() implies (#[trigger] after.groups[x]).1.status
        == m.groups[x].1.status || (m.groups[x].1.status is Ready && has_startup_task(m, x)
        && reruns(m, after, exp, x)) by {
        if a.groups[x].1.status != m.groups[x].1.status {
            assert(follows(m, a, exp, x));
            lemma_follows_on(m, a, after, exp, x);
        }
    }
}

proof fn lemma_grows_trans(a: EngineModel, b: EngineModel, c: EngineModel)
    requires
        grows(a, b),
        grows(b, c),
    ensures
        grows(a, c),
{
    engine_laws::lemma_asks_trans(a, b, c);
    assert forall|i: int| 0 <= i < a.groups.len() && a.groups[i].1.status is Running implies (
    #[trigger] c.groups[i]).1.status is Running by {
        assert(b.groups[i].1.status is Running);
    }
}

/// A restart is carried on to the groups of a list, and along a path that begins
/// with one of them to its end.
proof fn lemma_cascade(
    m: EngineModel,
    a: EngineModel,
    names: Seq<Text>,
    group: Text,
    exp: ExpansionModel,
    path: Seq<int>,
)
    requires
        m.wf(),
        m.acyclic(),
        carried(m, a, exp),
        forall|i: int| 0 <= i < names.len() ==> depends(m.resolver, #[trigger] names[i], group),
    ensures
        ({
            let after = a.cascade_restarts(names, group, m.resolver, m.order, exp);
            &&& carried(m, after, exp)
            &&& grows(a, after)
            &&& leads(m, group, path) && names.contains(m.groups[path[0]].0) ==> follows(
                m,
                after,
                exp,
                path.last(),
            )
        }),
    decreases engine_model::rank(m.order, group), 0nat, names.len(),
{
    if names.len() == 0 {
        assert(a.out.take(a.out.len() as int) =~= a.out);
    } else {
        let short = names.drop_last();
        let d = names.last();
        assert(names[names.len() - 1] == d);
        assert(depends(m.resolver, d, group));
        assert forall|i: int| 0 <= i < short.len() implies depends(
            m.resolver,
            #[trigger] short[i],
            group,
        ) by {
            assert(short[i] == names[i]);
        }
        lemma_cascade(m, a, short, group, exp, path);
        let before = a.cascade_restarts(short, group, m.resolver, m.order, exp);
        let after = a.cascade_restarts(names, group, m.resolver, m.order, exp);
        assert(before.out.take(before.out.len() as int) =~= before.out);
        assert(m.resolver.dependents_of(group).contains(d));
        assert(engine_model::rank(m.order, d) < engine_model::rank(m.order, group));
        engine_laws::lemma_found(before.groups, d);
        let rest = path.drop_first();
        if engine_model::find(before.groups, d) is Some {
            let i = engine_model::find(before.groups, d)->Some_0;
            assert(engine_laws::names(before.groups)[i] == engine_laws::names(m.groups)[i]);
            assert(engine_laws::names(before.groups).len() == engine_laws::names(m.groups).len());
            assert(m.groups[i].0 == d);
            assert(before.managed[i] == m.managed[i]);
            assert(has_startup_task(m, i) == engine_model::any_startup_task(
                m.managed[i].config.tasks,
            ));
            if before.cascades_to(d) {
                assert(m.groups[i].1.status is Ready);
                if before.has_startup_tasks(d) {
                    lemma_spawn_step(m, before, exp, i);
                    assert(follows(m, after, exp, i));
                } else {
                    let signalled = before.emit(ActionModel::SignalServices(d));
                    lemma_signal_step(m, before, exp, i);
                    assert(follows(m, signalled, exp, i));
                    let next = m.resolver.dependents_of(d);
                    assert forall|x: int| 0 <= x < next.len() implies depends(
                        m.resolver,
                        #[trigger] next[x],
                        d,
                    ) by {
                        assert(next.contains(next[x]));
                    }
                    lemma_cascade(m, signalled, next, d, exp, rest);
                    assert(signalled.cascade_restart(d, m.resolver, m.order, exp)
                        == signalled.cascade_restarts(next, d, m.resolver, m.order, exp));
                    lemma_follows_on(m, signalled, after, exp, i);
                    lemma_grows_trans(before, signalled, after);
                }
            }
        }
        lemma_grows_trans(a, before, after);
        if leads(m, group, path) && names.contains(m.groups[path[0]].0) {
            let name = m.groups[path[0]].0;
            if short.contains(name) {
                lemma_follows_on(m, before, after, exp, path.last());
            } else {
                let x = names.index_of(name);
                if x < short.len() {
                    assert(short[x] == name);
                }
                assert(d == name);
                let i = path[0];
                lemma_placed(m, before, i);
                if path.len() == 1 {
                    assert(path.last() == i);
                    if !before.cascades_to(d) {
                        if before.groups[i].1.status is Ready {
                            // It has nothing to trigger.
                            assert(!has_startup_task(m, i));
                        } else {
                            assert(reruns(m, before, exp, i));
                        }
                    }
                } else {
                    assert(passes_on(m, path[0]));
                    assert(before.groups[i].1.status is Ready);
                    assert(before.cascades_to(d));
                    assert(!before.has_startup_tasks(d));
                    assert(leads(m, d, rest)) by {
                        assert(path[0int + 1] == rest[0]);
                        assert(rest.last() == path.last());
                        assert forall|t: int| 0 <= t < rest.len() implies 0 <= #[trigger] rest[t]
                            < m.groups.len() by {
                            assert(rest[t] == path[t + 1]);
                        }
                        assert forall|t: int| 0 <= t < rest.len() - 1 implies passes_on(
                            m,
                            #[trigger] rest[t],
                        ) && depends(
                            m.resolver,
                            m.groups[rest[t + 1]].0,
                            m.groups[rest[t]].0,
                        ) by {
                            assert(rest[t] == path[t + 1]);
                            assert(rest[t + 1] == path[t + 1 + 1]);
                        }
                    }
                    assert(m.resolver.dependents_of(d).contains(m.groups[rest[0]].0));
                    assert(rest.last() == path.last());
                }
            }
        }
    }
}

proof fn lemma_restart(m: EngineModel, group: Text, exp: ExpansionModel, path: Seq<int>)
    requires
        m.wf(),
        m.acyclic(),
    ensures
        carried(m, m.restart_dependents(group, exp), exp),
        leads(m, group, path) ==> follows(m, m.restart_dependents(group, exp), exp, path.last()),
{
    assert(m.out.take(m.out.len() as int) =~= m.out);
    let names = m.resolver.dependents_of(group);
    assert forall|i: int| 0 <= i < names.len() implies depends(
        m.resolver,
        #[trigger] names[i],
        group,
    ) by {
        assert(names.contains(names[i]));
    }
    lemma_cascade(m, m, names, group, exp, path);
    assert(m.restart_dependents(group, exp) == m.cascade_restarts(
        names,
        group,
        m.resolver,
        m.order,
        exp,
    ));
    if leads(m, group, path) {
        assert(names.contains(m.groups[path[0]].0));
    }
}

/// When a group restarts, each direct dependent that is Ready follows. Where it has
/// tasks that run at startup, it is shown as running and each of those whose command
/// expands is running: its run has been asked for, or it is queued to run again where
/// it was running. Else, where its services have been started, these are signalled.
pub proof fn law_a_restart_reaches_every_ready_dependent(
    m: EngineModel,
    group: Text,
    exp: ExpansionModel,
    i: int,
)
    requires
        m.wf(),
        m.acyclic(),
        0 <= i < m.groups.len(),
        depends(m.resolver, m.groups[i].0, group),
        m.groups[i].1.status is Ready,
    ensures
        ({
            let after = m.restart_dependents(group, exp);
            &&& has_startup_task(m, i) ==> after.groups[i].1.status is Running
            &&& forall|k: int| #[trigger]
                starts_with(m, exp, i, k) ==> change_laws::taken_up(m, after, id_at(m, i, k))
            &&& !has_startup_task(m, i) && m.managed[i].daemons_started
                && m.managed[i].services.len() > 0 ==> signalled_since(m, after, m.groups[i].0)
        }),
{
    let path = seq![i];
    assert(leads(m, group, path));
    lemma_restart(m, group, exp, path);
    let after = m.restart_dependents(group, exp);
    assert forall|k: int| #[trigger] starts_with(m, exp, i, k) implies change_laws::taken_up(
        m,
        after,
        id_at(m, i, k),
    ) by {
        assert(!m.managed[i].config.tasks[k].on_change_only);
        assert(has_startup_task(m, i));
    }
}

/// A restart goes on through groups whose services are signalled: whoever is Ready
/// at the end of a chain of dependents follows, however long the chain.
pub proof fn law_a_restart_goes_on_along_dependents(
    m: EngineModel,
    group: Text,
    exp: ExpansionModel,
    path: Seq<int>,
)
    requires
        m.wf(),
        m.acyclic(),
        leads(m, group, path),
    ensures
        follows(m, m.restart_dependents(group, exp), exp, path.last()),
{
    lemma_restart(m, group, exp, path);
}

/// A restart concerns Ready dependents alone: nothing is asked of other groups, their
/// status stays, and so do the dependencies and what has been started of each group.
pub proof fn law_a_restart_leaves_the_others_alone(
    m: EngineModel,
    group: Text,
    exp: ExpansionModel,
    i: int,
)
    requires
        m.wf(),
        m.acyclic(),
        0 <= i < m.groups.len(),
    ensures
        ({
            let after = m.restart_dependents(group, exp);
            &&& after.resolver == m.resolver
            &&& after.managed == m.managed
            &&& asks_of_ready_dependents(m, after)
            &&& !(m.groups[i].1.status is Ready) ==> after.groups[i].1.status
                == m.groups[i].1.status
            &&& !has_startup_task(m, i) ==> after.groups[i].1.status == m.groups[i].1.status
        }),
{
    lemma_restart(m, group, exp, Seq::empty());
    let after = m.restart_dependents(group, exp);
    assert(after.groups[i].1.status == after.groups[i].1.status);
}

} // verus!
