//! Laws of the engine.

use crate::config::schema::{GroupConfig, Silence, TaskModel};
use crate::daemon::engine_model::{
    self, ActionModel, BatchModel, CompletionModel, EngineModel, SetupModel,
};
use crate::daemon::planning;
use crate::daemon::state::{GroupModel, GroupStatus, ProcessStatus};
use crate::daemon::trigger::ExpansionModel;
use crate::graph;
use crate::process::executor::ExecutorModel;
use crate::text::{self, Text};
use vstd::prelude::*;

verus! {

/// Whether only running tasks are queued to run again.
pub open spec fn queued_well(m: EngineModel) -> bool {
    m.pending.subset_of(m.running)
}

/// The names of the groups, in order.
pub open spec fn names(groups: Seq<(Text, GroupModel)>) -> Seq<Text> {
    Seq::new(groups.len(), |i: int| groups[i].0)
}

/// Whether a change kept the groups there are, what is managed of them, and what
/// the engine was set up with.
pub open spec fn keeps_groups(a: EngineModel, b: EngineModel) -> bool {
    &&& names(b.groups) == names(a.groups)
    &&& b.managed == a.managed
    &&& b.order == a.order
    &&& b.setup == a.setup
}

/// Whether nothing that was asked for is taken back.
pub open spec fn asks_on(a: EngineModel, b: EngineModel) -> bool {
    a.out.len() <= b.out.len() && b.out.take(a.out.len() as int) == a.out
}

pub proof fn lemma_asks_trans(a: EngineModel, b: EngineModel, c: EngineModel)
    requires
        asks_on(a, b),
        asks_on(b, c),
    ensures
        asks_on(a, c),
{
    assert(c.out.take(a.out.len() as int) =~= b.out.take(a.out.len() as int));
}

proof fn lemma_emit(m: EngineModel, action: ActionModel)
    ensures
        asks_on(m, m.emit(action)),
        keeps_groups(m, m.emit(action)),
        m.emit(action).running == m.running,
        m.emit(action).pending == m.pending,
{
    assert(m.out.push(action).take(m.out.len() as int) =~= m.out);
}

proof fn lemma_find_same(a: Seq<(Text, GroupModel)>, b: Seq<(Text, GroupModel)>, name: Text)
    requires
        names(a) == names(b),
    ensures
        engine_model::find(a, name) is Some <==> engine_model::find(b, name) is Some,
{
    assert(a.len() == names(a).len() && b.len() == names(b).len());
    assert forall|i: int| 0 <= i < a.len() implies (#[trigger] a[i]).0 == b[i].0 by {
        assert(names(a)[i] == names(b)[i]);
    }
    if engine_model::find(a, name) is Some {
        let i = choose|i: int| 0 <= i < a.len() && (#[trigger] a[i]).0 == name;
        assert(b[i].0 == name);
    }
    if engine_model::find(b, name) is Some {
        let i = choose|i: int| 0 <= i < b.len() && (#[trigger] b[i]).0 == name;
        assert(a[i].0 == name);
    }
}

proof fn lemma_with_group(m: EngineModel, i: int, g: GroupModel)
    requires
        0 <= i < m.groups.len(),
    ensures
        keeps_groups(m, m.with_group(i, g)),
        m.with_group(i, g).out == m.out,
        m.with_group(i, g).running == m.running,
        m.with_group(i, g).pending == m.pending,
{
    assert(names(m.with_group(i, g).groups) =~= names(m.groups));
}

pub proof fn lemma_found(groups: Seq<(Text, GroupModel)>, name: Text)
    ensures
        engine_model::find(groups, name) matches Some(i) ==> 0 <= i < groups.len()
            && groups[i].0 == name,
{
}

pub proof fn lemma_statuses(m: EngineModel, name: Text, index: int, status: ProcessStatus, g: GroupStatus)
    ensures
        keeps_groups(m, m.with_task_status(name, index, status)),
        m.with_task_status(name, index, status).out == m.out,
        m.with_task_status(name, index, status).running == m.running,
        m.with_task_status(name, index, status).pending == m.pending,
        keeps_groups(m, m.with_group_status(name, g)),
        m.with_group_status(name, g).out == m.out,
        m.with_group_status(name, g).running == m.running,
        m.with_group_status(name, g).pending == m.pending,
{
    lemma_found(m.groups, name);
    match engine_model::find(m.groups, name) {
        Some(i) => {
            let s = m.groups[i].1;
            lemma_with_group(
                m,
                i,
                GroupModel {
                    tasks: s.tasks.update(
                        index,
                        crate::daemon::state::ProcessModel { status, ..s.tasks[index] },
                    ),
                    ..s
                },
            );
            lemma_with_group(m, i, GroupModel { status: g, ..s });
        },
        None => {},
    }
}

/// A task is asked to run exactly when it is not running; else it is queued, and
/// queued once. Either way it is running afterwards.
pub proof fn law_a_task_is_run_or_queued(
    m: EngineModel,
    group: Text,
    task: Text,
    index: int,
    command: Text,
    executor: ExecutorModel,
    silence: Silence,
)
    ensures
        ({
            let id = engine_model::task_id(group, task);
            let after = m.spawn_task(group, task, index, command, executor, silence);
            &&& after.running == m.running.insert(id)
            &&& m.running.contains(id) ==> after.out == m.out && after.pending == m.pending.insert(id)
            &&& !m.running.contains(id) ==> after.pending == m.pending && after.out.len()
                == m.out.len() + 1 && (after.out.last() matches ActionModel::Run(run) && run.task_id
                == id && run.command == command)
            &&& asks_on(m, after)
            &&& keeps_groups(m, after)
            &&& queued_well(m) ==> queued_well(after)
        }),
{
    let id = engine_model::task_id(group, task);
    let after = m.spawn_task(group, task, index, command, executor, silence);
    if m.running.contains(id) {
        assert(m.running.insert(id) =~= m.running);
        assert(m.out.take(m.out.len() as int) =~= m.out);
    } else {
        lemma_statuses(m, group, index, ProcessStatus::Running, GroupStatus::Running);
        assert(after.out.take(m.out.len() as int) =~= m.out);
    }
}

pub proof fn lemma_spawn_tasks(
    m: EngineModel,
    group: Text,
    tasks: Seq<TaskModel>,
    executor: ExecutorModel,
    run_on_change: bool,
    exp: ExpansionModel,
    n: nat,
)
    ensures
        ({
            let after = m.spawn_tasks(group, tasks, executor, run_on_change, exp, n);
            &&& asks_on(m, after)
            &&& keeps_groups(m, after)
            &&& queued_well(m) ==> queued_well(after)
            &&& m.running.subset_of(after.running)
            &&& m.pending.subset_of(after.pending)
        }),
    decreases n,
{
    if n == 0 {
        assert(m.out.take(m.out.len() as int) =~= m.out);
    } else {
        let before = m.spawn_tasks(group, tasks, executor, run_on_change, exp, (n - 1) as nat);
        lemma_spawn_tasks(m, group, tasks, executor, run_on_change, exp, (n - 1) as nat);
        let t = tasks[n - 1];
        if !(t.on_change_only && !run_on_change) {
            if let Ok(command) = exp.of(t.command) {
                let e = executor.refined(t.working_dir, t.env);
                let name = engine_model::task_name(t);
                law_a_task_is_run_or_queued(before, group, name, n - 1, command, e, t.silence);
                lemma_asks_trans(
                    m,
                    before,
                    before.spawn_task(group, name, n - 1, command, e, t.silence),
                );
            }
        }
    }
}

pub proof fn lemma_spawn_group(m: EngineModel, group: Text, run_on_change: bool, exp: ExpansionModel)
    ensures
        ({
            let after = m.spawn_group(group, run_on_change, exp);
            &&& asks_on(m, after)
            &&& keeps_groups(m, after)
            &&& queued_well(m) ==> queued_well(after)
            &&& m.running.subset_of(after.running)
            &&& m.pending.subset_of(after.pending)
        }),
{
    assert(m.out.take(m.out.len() as int) =~= m.out);
    lemma_found(m.groups, group);
    if let Some(i) = engine_model::find(m.groups, group) {
        let managed = m.managed[i];
        lemma_statuses(m, group, 0, ProcessStatus::Running, GroupStatus::Running);
        let start = m.with_group_status(group, GroupStatus::Running);
        let n = managed.config.tasks.len();
        lemma_spawn_tasks(
            start,
            group,
            managed.config.tasks,
            managed.executor,
            run_on_change,
            exp,
            n,
        );
        let run = start.spawn_tasks(
            group,
            managed.config.tasks,
            managed.executor,
            run_on_change,
            exp,
            n,
        );
        let shown = EngineModel { snapshot: run.groups, ..run };
        lemma_emit(shown, ActionModel::Broadcast(shown.daemon_state()));
        assert(asks_on(m, run));
        assert(asks_on(run, run.updated())) by {
            assert(run.updated().out.take(run.out.len() as int) =~= run.out);
        }
        lemma_asks_trans(m, run, run.updated());
    }
}

/// Spawning groups keeps the groups and what was asked for, stops nothing that
/// runs, keeps what is queued, and queues only what runs.
pub proof fn law_spawning_keeps(
    m: EngineModel,
    list: Seq<Text>,
    run_on_change: bool,
    exp: ExpansionModel,
)
    ensures
        ({
            let after = m.spawn_groups(list, run_on_change, exp);
            &&& asks_on(m, after)
            &&& keeps_groups(m, after)
            &&& queued_well(m) ==> queued_well(after)
            &&& m.running.subset_of(after.running)
            &&& m.pending.subset_of(after.pending)
        }),
    decreases list.len(),
{
    if list.len() == 0 {
        assert(m.out.take(m.out.len() as int) =~= m.out);
    } else {
        let before = m.spawn_groups(list.drop_last(), run_on_change, exp);
        law_spawning_keeps(m, list.drop_last(), run_on_change, exp);
        lemma_spawn_group(before, list.last(), run_on_change, exp);
        lemma_asks_trans(m, before, before.spawn_group(list.last(), run_on_change, exp));
    }
}

/// The texts around the first separator make up the whole.
proof fn lemma_split_whole(s: Text, sep: char)
    ensures
        text::split_at_first(s, sep) matches Some((a, b)) ==> s == a + seq![sep] + b,
    decreases s.len(),
{
    if s.len() > 0 {
        if s[0] == sep {
            assert(s =~= Seq::<char>::empty() + seq![sep] + s.drop_first());
        } else {
            lemma_split_whole(s.drop_first(), sep);
            if let Some((a, b)) = text::split_at_first(s.drop_first(), sep) {
                let rest = a + seq![sep] + b;
                assert(s.drop_first() == rest);
                assert(s =~= seq![s[0]] + rest);
                assert(seq![s[0]] + rest =~= (seq![s[0]] + a) + seq![sep] + b);
            }
        }
    }
}

/// The parts of an identifier give it back.
proof fn lemma_id_parts(id: Text)
    ensures
        text::split_at_first(id, ':') matches Some((group, task)) ==> engine_model::task_id(
            group,
            task,
        ) == id,
{
    lemma_split_whole(id, ':');
    reveal_strlit(":");
    if let Some((group, task)) = text::split_at_first(id, ':') {
        assert(":"@ =~= seq![':']);
    }
}

proof fn lemma_rerun(m: EngineModel, c: CompletionModel, exp: ExpansionModel)
    requires
        m.pending.subset_of(m.running.insert(c.task_id)),
    ensures
        queued_well(m.rerun(c, exp)),
        keeps_groups(m, m.rerun(c, exp)),
        asks_on(m, m.rerun(c, exp)),
{
    assert(m.out.take(m.out.len() as int) =~= m.out);
    if m.pending.contains(c.task_id) {
        let rest = EngineModel { pending: m.pending.remove(c.task_id), ..m };
        assert(queued_well(rest)) by {
            assert forall|x: Text| rest.pending.contains(x) implies rest.running.contains(x) by {
                assert(m.running.insert(c.task_id).contains(x));
            }
        }
        if let Some((group, task)) = text::split_at_first(c.task_id, ':') {
            if let Some(i) = engine_model::find(rest.groups, group) {
                if let Some(k) = engine_model::task_named(rest.managed[i].config.tasks, task) {
                    let t = rest.managed[i].config.tasks[k];
                    if let Ok(command) = exp.of(t.command) {
                        law_a_task_is_run_or_queued(
                            rest,
                            group,
                            task,
                            c.task_index,
                            command,
                            rest.managed[i].executor.refined(t.working_dir, t.env),
                            t.silence,
                        );
                    }
                }
            }
        }
    } else {
        assert forall|x: Text| m.pending.contains(x) implies m.running.contains(x) by {
            assert(m.running.insert(c.task_id).contains(x));
        }
    }
}

proof fn lemma_record(m: EngineModel, c: CompletionModel)
    ensures
        keeps_groups(m, m.record(c)),
        m.record(c).out == m.out,
        m.record(c).running == m.running,
        m.record(c).pending == m.pending,
{
    lemma_found(m.groups, c.group_name);
    if let Some(i) = engine_model::find(m.groups, c.group_name) {
        let g = m.groups[i].1;
        if 0 <= c.task_index < g.tasks.len() {
            lemma_with_group(
                m,
                i,
                GroupModel {
                    tasks: g.tasks.update(
                        c.task_index,
                        crate::daemon::state::ProcessModel {
                            status: c.status,
                            duration_ms: c.duration_ms,
                            exit_code: c.exit_code,
                            ..g.tasks[c.task_index]
                        },
                    ),
                    ..g
                },
            );
        }
    }
}

proof fn lemma_settle(b: BatchModel, group: Text)
    ensures
        keeps_groups(b.engine, b.settle(group).engine),
        asks_on(b.engine, b.settle(group).engine),
        b.settle(group).engine.running == b.engine.running,
        b.settle(group).engine.pending == b.engine.pending,
{
    let e = b.engine;
    assert(e.out.take(e.out.len() as int) =~= e.out);
    lemma_found(e.groups, group);
    if let Some(i) = engine_model::find(e.groups, group) {
        if !e.group_running(group) {
            let status = planning::status_of_tasks(e.groups[i].1.tasks);
            lemma_statuses(e, group, 0, ProcessStatus::Running, status);
            let m = e.with_group_status(group, status);
            let after = b.settle(group).engine;
            assert(after.out.take(e.out.len() as int) =~= e.out);
        }
    }
}

proof fn lemma_complete(b: BatchModel, c: CompletionModel, exp: ExpansionModel)
    requires
        queued_well(b.engine),
    ensures
        queued_well(b.complete(c, exp).engine),
        keeps_groups(b.engine, b.complete(c, exp).engine),
        asks_on(b.engine, b.complete(c, exp).engine),
{
    let e = b.engine;
    assert(e.out.take(e.out.len() as int) =~= e.out);
    if c.task_id != engine_model::daemon_start_id() {
        let m = EngineModel { running: e.running.remove(c.task_id), ..e };
        let noted = m.notify_completion(c);
        assert(noted.out.take(e.out.len() as int) =~= e.out);
        lemma_record(noted, c);
        let recorded = BatchModel { engine: noted.record(c), ..b };
        lemma_settle(recorded, c.group_name);
        let settled = recorded.settle(c.group_name);
        lemma_asks_trans(e, recorded.engine, settled.engine);
        assert(settled.engine.pending.subset_of(settled.engine.running.insert(c.task_id))) by {
            assert forall|x: Text| settled.engine.pending.contains(x) implies settled.engine.running.insert(
                c.task_id,
            ).contains(x) by {
                assert(e.running.contains(x));
            }
        }
        lemma_rerun(settled.engine, c, exp);
        let again = settled.engine.rerun(c, exp);
        lemma_asks_trans(e, settled.engine, again);
        assert(again.updated().out.take(again.out.len() as int) =~= again.out);
        lemma_asks_trans(e, again, again.updated());
    }
}

/// Taking in completions keeps the groups and what was asked for, and leaves
/// only running tasks queued.
pub proof fn law_completions_keep(b: BatchModel, cs: Seq<CompletionModel>, exp: ExpansionModel)
    requires
        queued_well(b.engine),
    ensures
        queued_well(b.complete_all(cs, exp).engine),
        keeps_groups(b.engine, b.complete_all(cs, exp).engine),
        asks_on(b.engine, b.complete_all(cs, exp).engine),
    decreases cs.len(),
{
    if cs.len() == 0 {
        assert(b.engine.out.take(b.engine.out.len() as int) =~= b.engine.out);
    } else {
        let before = b.complete_all(cs.drop_last(), exp);
        law_completions_keep(b, cs.drop_last(), exp);
        lemma_complete(before, cs.last(), exp);
        lemma_asks_trans(b.engine, before.engine, before.complete(cs.last(), exp).engine);
    }
}

/// After a completion the daemon shows the groups as they are.
pub proof fn law_a_completion_is_shown(b: BatchModel, c: CompletionModel, exp: ExpansionModel)
    requires
        c.task_id != engine_model::daemon_start_id(),
    ensures
        ({
            let after = b.complete(c, exp).engine;
            &&& after.snapshot == after.groups
            &&& after.out.len() > 0
            &&& after.out.last() == ActionModel::Broadcast(after.daemon_state())
        }),
{
}

/// A task that was queued while it ran is run again when it ends, once: it is
/// running again, it is no longer queued, and its run is asked for.
pub proof fn law_a_queued_task_runs_again(
    b: BatchModel,
    c: CompletionModel,
    exp: ExpansionModel,
    group: Text,
    task: Text,
    i: int,
    k: int,
    command: Text,
)
    requires
        queued_well(b.engine),
        b.engine.wf(),
        c.task_id != engine_model::daemon_start_id(),
        b.engine.pending.contains(c.task_id),
        text::split_at_first(c.task_id, ':') == Some((group, task)),
        engine_model::find(b.engine.groups, group) == Some(i),
        engine_model::task_named(b.engine.managed[i].config.tasks, task) == Some(k),
        exp.of(b.engine.managed[i].config.tasks[k].command) == Ok::<Text, Text>(command),
    ensures
        ({
            let after = b.complete(c, exp).engine;
            &&& after.running.contains(c.task_id)
            &&& !after.pending.contains(c.task_id)
            &&& exists|j: int|
                b.engine.out.len() <= j < after.out.len() && (
                #[trigger] after.out[j] matches ActionModel::Run(run) && run.task_id == c.task_id
                    && run.command == command)
        }),
{
    let e = b.engine;
    let m = EngineModel { running: e.running.remove(c.task_id), ..e };
    let noted = m.notify_completion(c);
    lemma_record(noted, c);
    let recorded = BatchModel { engine: noted.record(c), ..b };
    lemma_settle(recorded, c.group_name);
    let s = recorded.settle(c.group_name).engine;
    lemma_id_parts(c.task_id);
    // The group is still where it was.
    lemma_find_same(e.groups, s.groups, group);
    let at = engine_model::find(s.groups, group)->Some_0;
    lemma_found(s.groups, group);
    lemma_found(e.groups, group);
    assert(names(s.groups)[at] == names(e.groups)[at]);
    assert(s.groups.len() == e.groups.len()) by {
        assert(names(s.groups).len() == names(e.groups).len());
    }
    assert(e.groups[at].0 == group);
    assert(at == i) by {
        if at < i {
            assert(e.groups[at].0 != e.groups[i].0);
        } else if i < at {
            assert(e.groups[i].0 != e.groups[at].0);
        }
    }
    let rest = EngineModel { pending: s.pending.remove(c.task_id), ..s };
    let t = rest.managed[i].config.tasks[k];
    let executor = rest.managed[i].executor.refined(t.working_dir, t.env);
    law_a_task_is_run_or_queued(rest, group, task, c.task_index, command, executor, t.silence);
    let again = s.rerun(c, exp);
    assert(again == rest.spawn_task(group, task, c.task_index, command, executor, t.silence));
    assert(!rest.running.contains(c.task_id));
    let after = b.complete(c, exp).engine;
    assert(after == again.updated());
    let j = again.out.len() - 1;
    assert(after.out[j] == again.out[j]);
    assert(asks_on(recorded.engine, s));
    assert(again.out.len() == s.out.len() + 1);
}

/// Groups with distinct names are built in the order of the configuration, each
/// fresh.
pub proof fn law_groups_are_built_as_configured(groups: Seq<GroupConfig>, setup: SetupModel)
    requires
        graph::group_names(groups).no_duplicates(),
    ensures
        engine_model::built(groups, setup).0 == Seq::new(
            groups.len(),
            |i: int| (groups[i].name, engine_model::fresh_group(groups[i])),
        ),
        engine_model::built(groups, setup).1 == Seq::new(
            groups.len(),
            |i: int| engine_model::fresh_managed(groups[i], setup),
        ),
    decreases groups.len(),
{
    if groups.len() > 0 {
        let short = groups.drop_last();
        let all = graph::group_names(groups);
        assert(graph::group_names(short).no_duplicates()) by {
            let s = graph::group_names(short);
            assert forall|i: int, j: int| 0 <= i < s.len() && 0 <= j < s.len() && i != j implies s[i]
                != s[j] by {
                assert(all[i] != all[j]);
            }
        }
        law_groups_are_built_as_configured(short, setup);
        let (states, managed) = engine_model::built(short, setup);
        let c = groups.last();
        assert(engine_model::find(states, c.name) is None) by {
            if engine_model::find(states, c.name) is Some {
                let i = choose|i: int| 0 <= i < states.len() && (#[trigger] states[i]).0 == c.name;
                assert(all[i] != all[groups.len() - 1]);
            }
        }
        assert(engine_model::built(groups, setup).0 =~= Seq::new(
            groups.len(),
            |i: int| (groups[i].name, engine_model::fresh_group(groups[i])),
        ));
        assert(engine_model::built(groups, setup).1 =~= Seq::new(
            groups.len(),
            |i: int| engine_model::fresh_managed(groups[i], setup),
        ));
    } else {
        assert(engine_model::built(groups, setup).0 =~= Seq::new(
            groups.len(),
            |i: int| (groups[i].name, engine_model::fresh_group(groups[i])),
        ));
        assert(engine_model::built(groups, setup).1 =~= Seq::new(
            groups.len(),
            |i: int| engine_model::fresh_managed(groups[i], setup),
        ));
    }
}

pub proof fn lemma_roots(affected: Seq<Text>, deps: Seq<Seq<Text>>, n: nat, x: Text)
    requires
        n <= affected.len(),
    ensures
        planning::roots(affected, deps, n).contains(x) <==> exists|i: int|
            0 <= i < n && #[trigger] affected[i] == x && !planning::meets(deps[i], affected),
    decreases n,
{
    if n > 0 {
        lemma_roots(affected, deps, (n - 1) as nat, x);
        let before = planning::roots(affected, deps, (n - 1) as nat);
        if !planning::meets(deps[n - 1], affected) {
            let after = before.push(affected[n - 1]);
            if before.contains(x) {
                let j = before.index_of(x);
                assert(after[j] == x);
            }
            assert(after[before.len() as int] == affected[n - 1]);
            if after.contains(x) && x != affected[n - 1] {
                let j = after.index_of(x);
                assert(before[j] == x);
            }
        }
    }
}

/// Of the groups that a change affects, exactly those are set off that have no
/// affected dependency.
pub proof fn law_roots_have_no_affected_dependency(
    affected: Seq<Text>,
    deps: Seq<Seq<Text>>,
    x: Text,
)
    requires
        deps.len() == affected.len(),
    ensures
        planning::roots(affected, deps, affected.len()).contains(x) <==> exists|i: int|
            0 <= i < affected.len() && #[trigger] affected[i] == x && !planning::meets(
                deps[i],
                affected,
            ),
{
    lemma_roots(affected, deps, affected.len(), x);
}

} // verus!
