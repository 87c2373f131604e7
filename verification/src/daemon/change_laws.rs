//! Laws of what a change of files sets off, and of services that come back.

use crate::config::schema::TaskModel;
use crate::daemon::engine_laws;
use crate::daemon::engine_model::{self, ActionModel, EngineModel};
use crate::daemon::planning;
use crate::daemon::state::{GroupStatus, ProcessStatus};
use crate::daemon::trigger::ExpansionModel;
use crate::process::executor::ExecutorModel;
use crate::text::Text;
use vstd::prelude::*;

verus! {

/// Whether a list of positions leads from an affected group, along its
/// dependencies and through affected groups only, to one that has no affected
/// dependency.
pub open spec fn leads_to_root(affected: Seq<Text>, deps: Seq<Seq<Text>>, path: Seq<int>) -> bool {
    &&& path.len() > 0
    &&& forall|t: int| 0 <= t < path.len() ==> 0 <= #[trigger] path[t] < affected.len()
    &&& forall|t: int|
        0 <= t < path.len() - 1 ==> (#[trigger] deps[path[t]]).contains(affected[path[t + 1]])
    &&& !planning::meets(deps[path.last()], affected)
}

/// Without a circle among the dependencies, a change sets off, for each group that
/// it affects, the group itself or one that the group depends on: `height` is lower
/// for what a group depends on than for the group.
pub proof fn law_a_change_sets_off_something_for_each_group(
    affected: Seq<Text>,
    deps: Seq<Seq<Text>>,
    height: spec_fn(Text) -> nat,
    i: int,
)
    requires
        deps.len() == affected.len(),
        0 <= i < affected.len(),
        forall|a: int, b: int|
            0 <= a < deps.len() && 0 <= b < deps[a].len() ==> height(#[trigger] deps[a][b])
                < height(affected[a]),
    ensures
        exists|path: Seq<int>| #[trigger]
            leads_to_root(affected, deps, path) && path[0] == i && planning::roots(
                affected,
                deps,
                affected.len(),
            ).contains(affected[path.last()]),
    decreases height(affected[i]),
{
    if planning::meets(deps[i], affected) {
        let b = choose|b: int| 0 <= b < deps[i].len() && affected.contains(#[trigger] deps[i][b]);
        let j = affected.index_of(deps[i][b]);
        assert(height(deps[i][b]) < height(affected[i]));
        law_a_change_sets_off_something_for_each_group(affected, deps, height, j);
        let rest = choose|path: Seq<int>| #[trigger]
            leads_to_root(affected, deps, path) && path[0] == j && planning::roots(
                affected,
                deps,
                affected.len(),
            ).contains(affected[path.last()]);
        let path = seq![i] + rest;
        assert(path.last() == rest.last());
        assert forall|t: int| 0 <= t < path.len() implies 0 <= #[trigger] path[t]
            < affected.len() by {
            if t > 0 {
                assert(path[t] == rest[t - 1]);
            }
        }
        assert forall|t: int| 0 <= t < path.len() - 1 implies (
        #[trigger] deps[path[t]]).contains(affected[path[t + 1]]) by {
            if t > 0 {
                assert(path[t] == rest[t - 1] && path[t + 1] == rest[t]);
                assert(deps[rest[t - 1]].contains(affected[rest[t - 1 + 1]]));
            } else {
                assert(path[1] == rest[0]);
                assert(deps[i][b] == affected[j]);
            }
        }
        assert(leads_to_root(affected, deps, path) && path[0] == i);
    } else {
        engine_laws::lemma_roots(affected, deps, affected.len(), affected[i]);
        let path = seq![i];
        assert(leads_to_root(affected, deps, path) && path[0] == i);
    }
}

/// Whether a run of a task has been asked for since.
pub open spec fn asked_since(m: EngineModel, after: EngineModel, id: Text) -> bool {
    exists|j: int|
        m.out.len() <= j < after.out.len() && (#[trigger] after.out[j] matches ActionModel::Run(run)
            && run.task_id == id)
}

/// Whether a task was taken up: it is running, and its run has been asked for
/// since, or it was running before and is queued to run again.
pub open spec fn taken_up(m: EngineModel, after: EngineModel, id: Text) -> bool {
    &&& after.running.contains(id)
    &&& m.running.contains(id) ==> after.pending.contains(id)
    &&& !m.running.contains(id) ==> asked_since(m, after, id)
}

/// Whether the run of each task that is newly running has been asked for since.
pub open spec fn accounts(m: EngineModel, after: EngineModel) -> bool {
    &&& engine_laws::asks_on(m, after)
    &&& m.running.subset_of(after.running)
    &&& forall|id: Text|
        after.running.contains(id) && !m.running.contains(id) ==> #[trigger] asked_since(
            m,
            after,
            id,
        )
}

pub proof fn lemma_asked_on(m: EngineModel, a: EngineModel, b: EngineModel, id: Text)
    requires
        asked_since(m, a, id),
        engine_laws::asks_on(a, b),
    ensures
        asked_since(m, b, id),
{
    let j = choose|j: int|
        m.out.len() <= j < a.out.len() && (#[trigger] a.out[j] matches ActionModel::Run(run)
            && run.task_id == id);
    assert(b.out.take(a.out.len() as int)[j] == a.out[j]);
    assert(b.out[j] == a.out[j]);
}

/// The first `n` tasks of a group are taken up, and nothing else is newly running.
proof fn lemma_tasks_taken_up(
    m: EngineModel,
    start: EngineModel,
    group: Text,
    tasks: Seq<TaskModel>,
    executor: ExecutorModel,
    run_on_change: bool,
    exp: ExpansionModel,
    n: nat,
)
    requires
        n <= tasks.len(),
        accounts(m, start),
    ensures
        ({
            let after = start.spawn_tasks(group, tasks, executor, run_on_change, exp, n);
            &&& accounts(m, after)
            &&& forall|k: int|
                0 <= k < n && exp.of((#[trigger] tasks[k]).command) is Ok && !(
                tasks[k].on_change_only && !run_on_change) ==> taken_up(
                    m,
                    after,
                    engine_model::task_id(group, engine_model::task_name(tasks[k])),
                )
        }),
    decreases n,
{
    if n > 0 {
        let before = start.spawn_tasks(group, tasks, executor, run_on_change, exp, (n - 1) as nat);
        let after = start.spawn_tasks(group, tasks, executor, run_on_change, exp, n);
        lemma_tasks_taken_up(m, start, group, tasks, executor, run_on_change, exp, (n - 1) as nat);
        let t = tasks[n - 1];
        let name = engine_model::task_name(t);
        let new = engine_model::task_id(group, name);
        if exp.of(t.command) is Ok && !(t.on_change_only && !run_on_change) {
            let command = exp.of(t.command)->Ok_0;
            let e = executor.refined(t.working_dir, t.env);
            engine_laws::law_a_task_is_run_or_queued(
                before,
                group,
                name,
                n - 1,
                command,
                e,
                t.silence,
            );
            engine_laws::lemma_asks_trans(m, before, after);
            assert forall|id: Text|
                after.running.contains(id) && !m.running.contains(id) implies #[trigger] asked_since(
                m,
                after,
                id,
            ) by {
                if before.running.contains(id) {
                    lemma_asked_on(m, before, after, id);
                } else {
                    assert(id == new);
                    assert(after.out[after.out.len() - 1] matches ActionModel::Run(run)
                        && run.task_id == id);
                }
            }
            assert(taken_up(m, after, new));
            assert forall|k: int|
                0 <= k < n && exp.of((#[trigger] tasks[k]).command) is Ok && !(
                tasks[k].on_change_only && !run_on_change) implies taken_up(
                m,
                after,
                engine_model::task_id(group, engine_model::task_name(tasks[k])),
            ) by {
                if k < n - 1 {
                    let id = engine_model::task_id(group, engine_model::task_name(tasks[k]));
                    assert(taken_up(m, before, id));
                    if !m.running.contains(id) {
                        lemma_asked_on(m, before, after, id);
                    }
                }
            }
        }
    }
}

/// A group that is spawned has its tasks taken up, those that run on changes only
/// if there was one.
pub proof fn lemma_group_accounts(
    m: EngineModel,
    a: EngineModel,
    group: Text,
    run_on_change: bool,
    exp: ExpansionModel,
)
    requires
        accounts(m, a),
    ensures
        accounts(m, a.spawn_group(group, run_on_change, exp)),
        engine_model::find(a.groups, group) matches Some(i) ==> forall|k: int|
            0 <= k < a.managed[i].config.tasks.len() && exp.of(
                (#[trigger] a.managed[i].config.tasks[k]).command,
            ) is Ok && !(a.managed[i].config.tasks[k].on_change_only && !run_on_change)
                ==> taken_up(
                m,
                a.spawn_group(group, run_on_change, exp),
                engine_model::task_id(
                    group,
                    engine_model::task_name(a.managed[i].config.tasks[k]),
                ),
            ),
{
    let after = a.spawn_group(group, run_on_change, exp);
    engine_laws::lemma_spawn_group(a, group, run_on_change, exp);
    engine_laws::lemma_asks_trans(m, a, after);
    if let Some(i) = engine_model::find(a.groups, group) {
        let managed = a.managed[i];
        engine_laws::lemma_statuses(a, group, 0, ProcessStatus::Running, GroupStatus::Running);
        let start = a.with_group_status(group, GroupStatus::Running);
        assert(accounts(m, start)) by {
            assert forall|id: Text|
                start.running.contains(id) && !m.running.contains(id) implies #[trigger] asked_since(
                m,
                start,
                id,
            ) by {
                assert(asked_since(m, a, id));
                assert(start.out.take(a.out.len() as int) =~= a.out);
                lemma_asked_on(m, a, start, id);
            }
        }
        let n = managed.config.tasks.len();
        lemma_tasks_taken_up(
            m,
            start,
            group,
            managed.config.tasks,
            managed.executor,
            run_on_change,
            exp,
            n,
        );
        let run = start.spawn_tasks(
            group,
            managed.config.tasks,
            managed.executor,
            run_on_change,
            exp,
            n,
        );
        assert(engine_laws::asks_on(run, after)) by {
            assert(after.out.take(run.out.len() as int) =~= run.out);
        }
        assert forall|id: Text|
            after.running.contains(id) && !m.running.contains(id) implies #[trigger] asked_since(
            m,
            after,
            id,
        ) by {
            assert(asked_since(m, run, id));
            lemma_asked_on(m, run, after, id);
        }
        assert forall|k: int|
            0 <= k < n && exp.of((#[trigger] managed.config.tasks[k]).command) is Ok && !(
            managed.config.tasks[k].on_change_only && !run_on_change) implies taken_up(
            m,
            after,
            engine_model::task_id(group, engine_model::task_name(managed.config.tasks[k])),
        ) by {
            let id = engine_model::task_id(
                group,
                engine_model::task_name(managed.config.tasks[k]),
            );
            assert(taken_up(m, run, id));
            if !m.running.contains(id) {
                lemma_asked_on(m, run, after, id);
            }
        }
    }
}

/// Each group of a list that is spawned has its tasks taken up, those that run on
/// changes only if there was one.
pub proof fn lemma_groups_taken_up(
    m: EngineModel,
    list: Seq<Text>,
    run_on_change: bool,
    exp: ExpansionModel,
    group: Text,
    k: int,
)
    requires
        m.wf(),
    ensures
        accounts(m, m.spawn_groups(list, run_on_change, exp)),
        list.contains(group) && (engine_model::find(m.groups, group) matches Some(i) && 0 <= k
            < m.managed[i].config.tasks.len() && exp.of(
            m.managed[i].config.tasks[k].command,
        ) is Ok && !(m.managed[i].config.tasks[k].on_change_only && !run_on_change)) ==> taken_up(
            m,
            m.spawn_groups(list, run_on_change, exp),
            engine_model::task_id(
                group,
                engine_model::task_name(
                    m.managed[engine_model::find(m.groups, group)->Some_0].config.tasks[k],
                ),
            ),
        ),
    decreases list.len(),
{
    if list.len() == 0 {
        assert(m.out.take(m.out.len() as int) =~= m.out);
    } else {
        let short = list.drop_last();
        let before = m.spawn_groups(short, run_on_change, exp);
        let after = m.spawn_groups(list, run_on_change, exp);
        lemma_groups_taken_up(m, short, run_on_change, exp, group, k);
        engine_laws::law_spawning_keeps(m, short, run_on_change, exp);
        lemma_group_accounts(m, before, list.last(), run_on_change, exp);
        engine_laws::lemma_spawn_group(before, list.last(), run_on_change, exp);
        if list.contains(group) {
            if let Some(i) = engine_model::find(m.groups, group) {
                engine_laws::lemma_found(m.groups, group);
                let id = engine_model::task_id(
                    group,
                    engine_model::task_name(m.managed[i].config.tasks[k]),
                );
                let wanted = 0 <= k < m.managed[i].config.tasks.len() && exp.of(
                    m.managed[i].config.tasks[k].command,
                ) is Ok && !(m.managed[i].config.tasks[k].on_change_only && !run_on_change);
                if wanted && short.contains(group) {
                    assert(taken_up(m, before, id));
                    if !m.running.contains(id) {
                        lemma_asked_on(m, before, after, id);
                    }
                } else if wanted {
                    let j = list.index_of(group);
                    if j < short.len() {
                        assert(short[j] == group);
                    }
                    assert(list.last() == group);
                    lemma_find_kept(m, before, group);
                    assert(exp.of(before.managed[i].config.tasks[k].command) is Ok);
                }
            }
        }
    }
}

pub proof fn lemma_find_kept(a: EngineModel, b: EngineModel, group: Text)
    requires
        a.wf(),
        engine_laws::keeps_groups(a, b),
        engine_model::find(a.groups, group) is Some,
    ensures
        engine_model::find(b.groups, group) == engine_model::find(a.groups, group),
{
    let x = engine_laws::names(a.groups);
    let y = engine_laws::names(b.groups);
    assert(x.len() == a.groups.len() && y.len() == b.groups.len());
    let i = engine_model::find(a.groups, group)->Some_0;
    engine_laws::lemma_found(a.groups, group);
    assert forall|j: int| 0 <= j < b.groups.len() implies (#[trigger] b.groups[j]).0
        == a.groups[j].0 by {
        assert(x[j] == y[j]);
    }
    assert(b.groups[i].0 == group);
    engine_laws::lemma_found(b.groups, group);
    let j = engine_model::find(b.groups, group)->Some_0;
    assert(b.groups[j].0 == a.groups[j].0);
    if j < i {
        assert(a.groups[j].0 != a.groups[i].0);
    } else if i < j {
        assert(a.groups[i].0 != a.groups[j].0);
    }
}

/// A change runs every task, of each group that it sets off, whose command expands:
/// one that was not running is asked to run, and one that was is queued to run
/// again.
pub proof fn law_a_change_runs_the_tasks(
    m: EngineModel,
    affected: Seq<Text>,
    now: u64,
    exp: ExpansionModel,
    group: Text,
    i: int,
    k: int,
)
    requires
        m.wf(),
        m.set_off_by(affected).contains(group),
        engine_model::find(m.groups, group) == Some(i),
        0 <= k < m.managed[i].config.tasks.len(),
        exp.of(m.managed[i].config.tasks[k].command) is Ok,
    ensures
        taken_up(
            m,
            m.changed(affected, now, exp),
            engine_model::task_id(
                group,
                engine_model::task_name(m.managed[i].config.tasks[k]),
            ),
        ),
{
    let start = EngineModel { last_change: Some(now), ..m };
    lemma_groups_taken_up(start, m.set_off_by(affected), true, exp, group, k);
    let id = engine_model::task_id(group, engine_model::task_name(m.managed[i].config.tasks[k]));
    assert(taken_up(start, m.changed(affected, now, exp), id));
}

/// A service that has exited is shown as waiting, and comes back: its restart is
/// due once its delay has passed, and when it has been restarted none is.
pub proof fn law_an_exited_service_comes_back(
    m: EngineModel,
    i: int,
    k: int,
    now: u128,
    success: bool,
)
    requires
        m.wf(),
        0 <= i < m.managed.len(),
        0 <= k < m.managed[i].services.len(),
        now + 8_000_000_000 <= u128::MAX,
    ensures
        ({
            let after = m.service_exited(i, k, now, success);
            let s = m.managed[i].services[k];
            &&& after.managed[i].pending_restarts[k] == Some(
                (now + s.delay_after(now, success) * 1_000_000) as u128,
            )
            &&& now < now + s.delay_after(now, success) * 1_000_000 <= now + 8_000_000_000
            &&& after.managed[i].services[k].child is None
            &&& after.groups[i].1.services[k].status == ProcessStatus::Backoff
            &&& forall|started: Option<(crate::process::service::Child, u128)>|
                (#[trigger] after.service_restarted(i, k, started)).managed[i].pending_restarts[k]
                    is None
        }),
{
    assert(engine_model::fits(m.groups[i].1, m.managed[i]));
    assert(m.managed[i].services[k].delay_ok());
}

} // verus!
