//! Laws of tasks that have ended: what is recorded of them, what becomes of their
//! group, and who hears of it.

use crate::config::schema::GroupConfig;
use crate::daemon::dependency::ResolverModel;
use crate::daemon::engine_laws;
use crate::daemon::engine_model::{self, ActionModel, BatchModel, CompletionModel, EngineModel};
use crate::daemon::notify::NotifyModel;
use crate::daemon::planning;
use crate::daemon::run_laws;
use crate::daemon::state::{GroupStatus, ProcessModel, ProcessStatus};
use crate::daemon::tasks;
use crate::daemon::trigger::ExpansionModel;
use crate::process::error::ProcessError;
use crate::text::{self, Text};
use vstd::prelude::*;

verus! {

/// Whether a task of a group other than the one that has ended is running: its
/// identifier begins with the group's name and a colon.
pub open spec fn another_runs(m: EngineModel, group: Text, ended: Text) -> bool {
    exists|id: Text|
        {
            let head = group + ":"@;
            &&& #[trigger] m.running.contains(id)
            &&& id != ended
            &&& head.len() <= id.len()
            &&& forall|x: int| 0 <= x < head.len() ==> id[x] == head[x]
        }
}

/// Whether a task of a group has failed, one of them with the outcome of its end.
pub open spec fn some_failed(tasks: Seq<ProcessModel>, index: int, status: ProcessStatus) -> bool {
    exists|k: int|
        0 <= k < tasks.len() && if k == index {
            status is Failed
        } else {
            (#[trigger] tasks[k]).status is Failed
        }
}

/// Whether a notification has been asked for since.
pub open spec fn notified_since(m: EngineModel, after: EngineModel, n: NotifyModel) -> bool {
    exists|j: int|
        m.out.len() <= j < after.out.len() && #[trigger] after.out[j] == ActionModel::Notify(n)
}

proof fn lemma_prefix(id: Text, head: Text)
    ensures
        text::starts_with(id, head) <==> head.len() <= id.len() && forall|x: int|
            0 <= x < head.len() ==> id[x] == head[x],
{
    if head.len() <= id.len() {
        if forall|x: int| 0 <= x < head.len() ==> id[x] == head[x] {
            assert(id.take(head.len() as int) =~= head);
        }
        if id.take(head.len() as int) == head {
            assert forall|x: int| 0 <= x < head.len() implies id[x] == head[x] by {
                assert(id.take(head.len() as int)[x] == id[x]);
            }
        }
    }
}

proof fn lemma_another(m: EngineModel, group: Text, ended: Text)
    ensures
        (EngineModel { running: m.running.remove(ended), ..m }).group_running(group)
            == another_runs(m, group, ended),
{
    let n = EngineModel { running: m.running.remove(ended), ..m };
    let head = group + ":"@;
    if n.group_running(group) {
        let id = choose|id: Text| #[trigger]
            n.running.contains(id) && text::starts_with(id, head);
        lemma_prefix(id, head);
        assert(m.running.contains(id));
    }
    if another_runs(m, group, ended) {
        let id = choose|id: Text|
            {
                &&& #[trigger] m.running.contains(id)
                &&& id != ended
                &&& head.len() <= id.len()
                &&& forall|x: int| 0 <= x < head.len() ==> id[x] == head[x]
            };
        lemma_prefix(id, head);
        assert(n.running.contains(id));
    }
}

/// When a task ends that is not to run again, it no longer runs, and its group shows
/// its status, exit code and duration; the other tasks and the other groups stay as
/// they were.
pub proof fn law_an_ended_task_is_recorded(
    b: BatchModel,
    c: CompletionModel,
    exp: ExpansionModel,
    i: int,
    x: int,
    k: int,
)
    requires
        b.engine.wf(),
        c.task_id != "__daemon_start__"@,
        !b.engine.pending.contains(c.task_id),
        0 <= i < b.engine.groups.len(),
        b.engine.groups[i].0 == c.group_name,
        0 <= c.task_index < b.engine.groups[i].1.tasks.len(),
        0 <= x < b.engine.groups.len(),
        0 <= k < b.engine.groups[x].1.tasks.len(),
    ensures
        ({
            let e = b.engine;
            let after = b.complete(c, exp).engine;
            let t = after.groups[i].1.tasks[c.task_index];
            &&& after.running == e.running.remove(c.task_id)
            &&& after.pending == e.pending
            &&& after.managed == e.managed
            &&& after.resolver == e.resolver
            &&& after.groups.len() == e.groups.len()
            &&& t.status == c.status
            &&& t.exit_code == c.exit_code
            &&& t.duration_ms == c.duration_ms
            &&& t.name == e.groups[i].1.tasks[c.task_index].name
            &&& after.groups[i].1.services == e.groups[i].1.services
            &&& x != i ==> after.groups[x] == e.groups[x]
            &&& x != i || k != c.task_index ==> after.groups[x].1.tasks[k]
                == e.groups[x].1.tasks[k]
            &&& after.snapshot == after.groups
        }),
{
    lemma_settled(b, c, i);
}

/// The state in which a group is settled after a task has ended.
spec fn ended(b: BatchModel, c: CompletionModel) -> BatchModel {
    BatchModel {
        engine: EngineModel {
            running: b.engine.running.remove(c.task_id),
            ..b.engine
        }.notify_completion(c).record(c),
        ..b
    }
}

proof fn lemma_settled(b: BatchModel, c: CompletionModel, i: int)
    requires
        b.engine.wf(),
        0 <= i < b.engine.groups.len(),
        b.engine.groups[i].0 == c.group_name,
        0 <= c.task_index < b.engine.groups[i].1.tasks.len(),
    ensures
        ({
            let e = b.engine;
            let done = ended(b, c).engine;
            let after = ended(b, c).settle(c.group_name);
            let g = e.groups[i].1;
            let tasks = g.tasks.update(
                c.task_index,
                ProcessModel {
                    status: c.status,
                    duration_ms: c.duration_ms,
                    exit_code: c.exit_code,
                    ..g.tasks[c.task_index]
                },
            );
            let failed = some_failed(g.tasks, c.task_index, c.status);
            &&& engine_model::find(e.groups, c.group_name) == Some(i)
            &&& after.engine.running == e.running.remove(c.task_id)
            &&& after.engine.pending == e.pending
            &&& after.engine.managed == e.managed
            &&& after.engine.resolver == e.resolver
            &&& after.engine.groups.len() == e.groups.len()
            &&& after.engine.groups[i].0 == e.groups[i].0
            &&& after.engine.groups[i].1.tasks == tasks
            &&& after.engine.groups[i].1.services == g.services
            &&& forall|x: int|
                0 <= x < e.groups.len() && x != i ==> #[trigger] after.engine.groups[x]
                    == e.groups[x]
            &&& engine_laws::asks_on(e, after.engine)
            &&& done.out == e.out.push(done.out.last())
            &&& another_runs(e, c.group_name, c.task_id) ==> after == ended(b, c)
                && after.engine.groups[i].1.status == g.status && after.engine.out == done.out
            &&& !another_runs(e, c.group_name, c.task_id) ==> if failed {
                &&& after.engine.groups[i].1.status is Failed
                &&& after.failed == b.failed.push(c.group_name)
                &&& after.due == b.due
                &&& after.engine.out == done.out.push(
                    ActionModel::Notify(NotifyModel::GroupFailed { group: c.group_name }),
                )
            } else {
                &&& after.engine.groups[i].1.status is Ready
                &&& after.failed == b.failed
                &&& after.due == b.due.push(
                    (
                        c.group_name,
                        e.managed[i].services.len() == 0 || !e.managed[i].daemons_started,
                    ),
                )
                &&& after.engine.out == done.out.push(
                    ActionModel::Notify(NotifyModel::GroupComplete { group: c.group_name }),
                )
            }
        }),
{
    let e = b.engine;
    let m = EngineModel { running: e.running.remove(c.task_id), ..e };
    let g = e.groups[i].1;
    let tasks = g.tasks.update(
        c.task_index,
        ProcessModel {
            status: c.status,
            duration_ms: c.duration_ms,
            exit_code: c.exit_code,
            ..g.tasks[c.task_index]
        },
    );
    engine_laws::lemma_found(e.groups, c.group_name);
    assert(e.groups[i].0 == c.group_name);
    let at = engine_model::find(e.groups, c.group_name)->Some_0;
    if at < i {
        assert(e.groups[at].0 != e.groups[i].0);
    } else if i < at {
        assert(e.groups[i].0 != e.groups[at].0);
    }
    let done = ended(b, c).engine;
    assert(done.groups[i].1.tasks == tasks);
    assert(done.groups[i].0 == c.group_name);
    engine_laws::lemma_found(done.groups, c.group_name);
    assert(engine_model::find(done.groups, c.group_name) == Some(i)) by {
        let y = engine_model::find(done.groups, c.group_name)->Some_0;
        assert(done.groups[y].0 == e.groups[y].0);
        if y < i {
            assert(e.groups[y].0 != e.groups[i].0);
        } else if i < y {
            assert(e.groups[i].0 != e.groups[y].0);
        }
    }
    lemma_another(e, c.group_name, c.task_id);
    assert(done.running == m.running);
    assert(done.group_running(c.group_name) == m.group_running(c.group_name)) by {
        if done.group_running(c.group_name) {
            let id = choose|id: Text| #[trigger]
                done.running.contains(id) && text::starts_with(id, c.group_name + ":"@);
            assert(m.running.contains(id));
        }
        if m.group_running(c.group_name) {
            let id = choose|id: Text| #[trigger]
                m.running.contains(id) && text::starts_with(id, c.group_name + ":"@);
            assert(done.running.contains(id));
        }
    }
    let failed = some_failed(g.tasks, c.task_index, c.status);
    assert(failed == (planning::status_of_tasks(tasks) == GroupStatus::Failed)) by {
        if failed {
            let k = choose|k: int|
                0 <= k < g.tasks.len() && if k == c.task_index {
                    c.status is Failed
                } else {
                    (#[trigger] g.tasks[k]).status is Failed
                };
            assert(tasks[k].status == ProcessStatus::Failed);
        }
        if planning::status_of_tasks(tasks) == GroupStatus::Failed {
            let k = choose|k: int|
                0 <= k < tasks.len() && (#[trigger] tasks[k]).status == ProcessStatus::Failed;
            assert(k == c.task_index || g.tasks[k].status is Failed);
            let w = g.tasks[k];
        }
    }
    let after = ended(b, c).settle(c.group_name);
    assert(after.engine.out.take(e.out.len() as int) =~= e.out);
}

/// When a task ends, its group is settled once no other task of it runs: it is Failed
/// if one of its tasks is, and is handed out as such; else it is Ready, and its
/// services are due, to be started where they have not been. As long as another task
/// runs, the group stays as it is. A task that is queued changes nothing of that.
pub proof fn law_a_group_is_settled_by_its_last_task(
    b: BatchModel,
    c: CompletionModel,
    exp: ExpansionModel,
    i: int,
)
    requires
        b.engine.wf(),
        c.task_id != "__daemon_start__"@,
        0 <= i < b.engine.groups.len(),
        b.engine.groups[i].0 == c.group_name,
        0 <= c.task_index < b.engine.groups[i].1.tasks.len(),
    ensures
        ({
            let e = b.engine;
            let r = b.complete(c, exp);
            let last = !another_runs(e, c.group_name, c.task_id);
            let failed = some_failed(e.groups[i].1.tasks, c.task_index, c.status);
            &&& !last ==> r.due == b.due && r.failed == b.failed && r.engine.groups[i].1.status
                == e.groups[i].1.status
            &&& last && failed ==> r.due == b.due && r.failed == b.failed.push(c.group_name)
                && r.engine.groups[i].1.status is Failed && notified_since(
                e,
                r.engine,
                NotifyModel::GroupFailed { group: c.group_name },
            )
            &&& last && !failed ==> r.failed == b.failed && r.due == b.due.push(
                (
                    c.group_name,
                    e.managed[i].services.len() == 0 || !e.managed[i].daemons_started,
                ),
            ) && r.engine.groups[i].1.status is Ready && notified_since(
                e,
                r.engine,
                NotifyModel::GroupComplete { group: c.group_name },
            )
        }),
{
    let e = b.engine;
    let r = b.complete(c, exp);
    lemma_settled(b, c, i);
    let done = ended(b, c).engine;
    let settled = ended(b, c).settle(c.group_name);
    let again = settled.engine.rerun(c, exp);
    lemma_rerun_keeps(settled.engine, c, exp);
    assert(r.engine == again.updated());
    if !another_runs(e, c.group_name, c.task_id) {
        let j = done.out.len() as int;
        assert(settled.engine.out[j] is Notify);
        assert(again.out.take(settled.engine.out.len() as int)[j] == again.out[j]);
        assert(r.engine.out[j] == settled.engine.out[j]);
    }
}

/// Running a task again changes the status of no group, and takes nothing back.
proof fn lemma_rerun_keeps(m: EngineModel, c: CompletionModel, exp: ExpansionModel)
    ensures
        ({
            let after = m.rerun(c, exp);
            &&& engine_laws::asks_on(m, after)
            &&& after.groups.len() == m.groups.len()
            &&& forall|i: int|
                0 <= i < m.groups.len() ==> (#[trigger] after.groups[i]).1.status
                    == m.groups[i].1.status
        }),
{
    let after = m.rerun(c, exp);
    assert(m.out.take(m.out.len() as int) =~= m.out);
    assert(after.out.take(m.out.len() as int) =~= m.out);
    if let Some((group, task)) = text::split_at_first(c.task_id, ':') {
        engine_laws::lemma_found(m.groups, group);
    }
}

/// Who asked to be told hears of the end of a task: of its success with how long it
/// took, of its failure with its exit code, by the task's own name.
pub proof fn law_the_end_of_a_task_is_told(
    b: BatchModel,
    c: CompletionModel,
    exp: ExpansionModel,
    task: Text,
)
    requires
        c.task_id != "__daemon_start__"@,
        c.task_id == c.group_name + ":"@ + task,
        forall|x: int| 0 <= x < c.group_name.len() ==> c.group_name[x] != ':',
    ensures
        ({
            let after = b.complete(c, exp).engine;
            &&& c.success ==> notified_since(
                b.engine,
                after,
                NotifyModel::TaskSuccess {
                    task,
                    group: c.group_name,
                    duration_ms: if c.duration_ms is Some {
                        c.duration_ms->0
                    } else {
                        0
                    },
                },
            )
            &&& !c.success ==> notified_since(
                b.engine,
                after,
                NotifyModel::TaskFailed { task, group: c.group_name, exit_code: c.exit_code },
            )
        }),
{
    let e = b.engine;
    let m = EngineModel { running: e.running.remove(c.task_id), ..e };
    let noted = m.notify_completion(c);
    lemma_split(c.group_name, task);
    reveal_strlit(":");
    let recorded = BatchModel { engine: noted.record(c), ..b };
    assert(recorded.engine.out == noted.out);
    let settled = recorded.settle(c.group_name).engine;
    assert(settled.out.take(noted.out.len() as int) =~= noted.out);
    lemma_rerun_keeps(settled, c, exp);
    let again = settled.rerun(c, exp);
    let after = b.complete(c, exp).engine;
    assert(after == again.updated());
    let j = e.out.len() as int;
    assert(noted.out[j] is Notify);
    assert(settled.out.take(noted.out.len() as int)[j] == settled.out[j]);
    assert(again.out.take(settled.out.len() as int)[j] == again.out[j]);
    assert(after.out[j] == noted.out[j]);
}

proof fn lemma_split(group: Text, task: Text)
    requires
        forall|x: int| 0 <= x < group.len() ==> group[x] != ':',
    ensures
        text::split_at_first(group + ":"@ + task, ':') == Some((group, task)),
    decreases group.len(),
{
    reveal_strlit(":");
    let whole = group + ":"@ + task;
    if group.len() == 0 {
        assert(whole[0] == ':');
        assert(whole.drop_first() =~= task);
        assert(group =~= Seq::<char>::empty());
    } else {
        let rest = group.drop_first();
        assert forall|x: int| 0 <= x < rest.len() implies rest[x] != ':' by {
            assert(group[x + 1] != ':');
        }
        lemma_split(rest, task);
        assert(whole[0] == group[0]);
        assert(whole.drop_first() =~= rest + ":"@ + task);
        assert(seq![whole[0]] + rest =~= group);
    }
}

/// A request for the services of a group makes them due, to be started, and changes
/// nothing else.
pub proof fn law_services_can_be_asked_for(b: BatchModel, c: CompletionModel, exp: ExpansionModel)
    requires
        c.task_id == "__daemon_start__"@,
    ensures
        b.complete(c, exp).due == b.due.push((c.group_name, true)),
        b.complete(c, exp).failed == b.failed,
        b.complete(c, exp).engine == b.engine,
{
}

/// A batch of completions is taken in one after the other: it makes no difference
/// whether they come at once or in two batches.
pub proof fn law_batches_join(
    b: BatchModel,
    cs: Seq<CompletionModel>,
    more: Seq<CompletionModel>,
    exp: ExpansionModel,
)
    ensures
        b.complete_all(cs + more, exp) == b.complete_all(cs, exp).complete_all(more, exp),
        cs.len() == 1 ==> b.complete_all(cs, exp) == b.complete(cs[0], exp),
    decreases more.len(),
{
    if more.len() == 0 {
        assert(cs + more =~= cs);
    } else {
        law_batches_join(b, cs, more.drop_last(), exp);
        assert((cs + more).drop_last() =~= cs + more.drop_last());
        assert((cs + more).last() == more.last());
    }
    if cs.len() == 1 {
        assert(cs.drop_last() =~= Seq::<CompletionModel>::empty());
        assert(b.complete_all(cs.drop_last(), exp) == b);
    }
}

/// Whether a group is at its startup when its tasks have completed: with services,
/// until these have been started; without, as long as a group waits for it that
/// depends on it.
pub open spec fn at_startup(m: EngineModel, i: int) -> bool {
    let g = m.groups[i].0;
    if m.managed[i].services.len() > 0 {
        !m.managed[i].daemons_started
    } else {
        exists|d: Text|
            m.resolver.dependents.dom().contains(g) && m.resolver.dependents[g].contains(d)
                && #[trigger] m.resolver.waiting.dom().contains(d)
                && m.resolver.waiting[d].contains(g)
    }
}

/// A completed group has the groups started that wait for it, when it is at its
/// startup; else its dependents restart.
pub proof fn law_completion_starts_or_restarts_dependents(
    m: EngineModel,
    exp: ExpansionModel,
    i: int,
)
    requires
        m.wf(),
        0 <= i < m.groups.len(),
    ensures
        at_startup(m, i) ==> m.propagate(m.groups[i].0, exp) == m.trigger_dependents(
            m.groups[i].0,
            exp,
        ),
        !at_startup(m, i) ==> m.propagate(m.groups[i].0, exp) == m.restart_dependents(
            m.groups[i].0,
            exp,
        ),
{
    let g = m.groups[i].0;
    engine_laws::lemma_found(m.groups, g);
    assert(m.groups[i].0 == g);
    let at = engine_model::find(m.groups, g)->Some_0;
    if at < i {
        assert(m.groups[at].0 != m.groups[i].0);
    } else if i < at {
        assert(m.groups[i].0 != m.groups[at].0);
    }
    let list = m.resolver.dependents_of(g);
    if m.waited_for(g) {
        let x = choose|x: int|
            0 <= x < list.len() && m.resolver.waiting.dom().contains(#[trigger] list[x])
                && m.resolver.waiting[list[x]].contains(g);
        assert(m.resolver.dependents[g].contains(list[x]));
        assert(m.resolver.waiting.dom().contains(list[x]));
    }
    if exists|d: Text|
        m.resolver.dependents.dom().contains(g) && m.resolver.dependents[g].contains(d)
            && #[trigger] m.resolver.waiting.dom().contains(d) && m.resolver.waiting[d].contains(g) {
        let d = choose|d: Text|
            m.resolver.dependents.dom().contains(g) && m.resolver.dependents[g].contains(d)
                && #[trigger] m.resolver.waiting.dom().contains(d) && m.resolver.waiting[d].contains(
                g,
            );
        let x = list.index_of(d);
        assert(list[x] == d);
    }
}

/// What is reported back of a task that was run: it failed exactly when it could not
/// be run or exited with another code than 0, and its exit code is the one it had.
pub proof fn law_a_task_report_tells_how_it_went(
    run: engine_model::RunModel,
    result: Result<Option<i32>, ProcessError>,
    duration_ms: u64,
)
    ensures
        ({
            let c = tasks::task_report(run, result, duration_ms);
            &&& c.task_id == run.task_id
            &&& c.group_name == run.group_name
            &&& c.task_index == run.task_index
            &&& c.duration_ms == Some(duration_ms)
            &&& c.success <==> c.status is Success
            &&& !c.success <==> c.status is Failed
            &&& result is Err ==> !c.success && c.exit_code is None
            &&& result is Ok ==> c.exit_code == result->Ok_0
            &&& result is Ok && result->Ok_0 is None ==> c.success
            &&& result is Ok && result->Ok_0 is Some ==> (c.success <==> result->Ok_0->0 == 0)
        }),
{
}

/// A new resolver has each group with the dependencies that are configured for it,
/// Pending, and nothing waits.
pub proof fn law_dependencies_are_as_configured(groups: Seq<GroupConfig>, i: int)
    requires
        forall|a: int, b: int|
            0 <= a < b < groups.len() ==> (#[trigger] groups[a]).name != (
            #[trigger] groups[b]).name,
        0 <= i < groups.len(),
    ensures
        ({
            let r = ResolverModel::of_groups(engine_model::config_pairs(groups));
            &&& r.dependencies.dom().contains(groups[i].name)
            &&& r.dependencies[groups[i].name] == groups[i].depends_on
            &&& r.statuses.dom().contains(groups[i].name)
            &&& r.statuses[groups[i].name] is Pending
            &&& r.waiting == Map::<Text, Set<Text>>::empty()
            &&& forall|k: int|
                0 <= k < groups[i].depends_on.len() ==> {
                    let on = #[trigger] groups[i].depends_on[k];
                    r.dependents.dom().contains(on) && r.dependents[on].contains(groups[i].name)
                }
        }),
    decreases groups.len(),
{
    let pairs = engine_model::config_pairs(groups);
    let short = groups.drop_last();
    assert(pairs.drop_last() =~= engine_model::config_pairs(short));
    let before = ResolverModel::of_groups(engine_model::config_pairs(short));
    let r = ResolverModel::of_groups(pairs);
    let c = groups.last();
    assert(pairs.last() == (c.name, c.depends_on));
    assert(r == before.added(c.name, c.depends_on));
    assert forall|a: int, b: int| 0 <= a < b < short.len() implies (#[trigger] short[a]).name != (
    #[trigger] short[b]).name by {
        assert(groups[a].name != groups[b].name);
    }
    lemma_nothing_waits(engine_model::config_pairs(short));
    if i < groups.len() - 1 {
        law_dependencies_are_as_configured(short, i);
        assert(groups[i].name != groups[groups.len() - 1].name);
        assert(short[i] == groups[i]);
    }
    assert forall|k: int| 0 <= k < groups[i].depends_on.len() implies {
        let on = #[trigger] groups[i].depends_on[k];
        r.dependents.dom().contains(on) && r.dependents[on].contains(groups[i].name)
    } by {
        let on = groups[i].depends_on[k];
        lemma_link(before.dependents, c.name, c.depends_on, on);
        if i < groups.len() - 1 {
            assert(short[i].depends_on[k] == on);
        }
    }
}

proof fn lemma_nothing_waits(pairs: Seq<(Text, Seq<Text>)>)
    ensures
        ResolverModel::of_groups(pairs).waiting == Map::<Text, Set<Text>>::empty(),
    decreases pairs.len(),
{
    if pairs.len() > 0 {
        lemma_nothing_waits(pairs.drop_last());
    }
}

/// Linking keeps the edges, and adds those of the new group.
proof fn lemma_link(dependents: Map<Text, Seq<Text>>, name: Text, deps: Seq<Text>, on: Text)
    ensures
        ({
            let after = ResolverModel::link(dependents, name, deps);
            &&& dependents.dom().contains(on) ==> after.dom().contains(on) && forall|d: Text|
                dependents[on].contains(d) ==> #[trigger] after[on].contains(d)
            &&& deps.contains(on) ==> after.dom().contains(on) && after[on].contains(name)
        }),
    decreases deps.len(),
{
    if deps.len() > 0 {
        let short = deps.drop_last();
        lemma_link(dependents, name, short, on);
        let before = ResolverModel::link(dependents, name, short);
        let after = ResolverModel::link(dependents, name, deps);
        if deps.contains(on) {
            let x = deps.index_of(on);
            if x < short.len() {
                assert(short[x] == on);
            }
        }
        if before.dom().contains(on) && on == deps.last() {
            assert forall|d: Text| before[on].contains(d) implies #[trigger] after[on].contains(
                d,
            ) by {
                let x = before[on].index_of(d);
                assert(after[on][x] == d);
            }
            assert(after[on][before[on].len() as int] == name);
        }
        if !before.dom().contains(on) && on == deps.last() {
            assert(after[on][0] == name);
        }
    }
}

/// Whether a task that has ended is queued to run again, is known in its group by its
/// name at a position before which no other is, and has a command that expands.
pub open spec fn is_to_run_again(
    m: EngineModel,
    c: CompletionModel,
    exp: ExpansionModel,
    i: int,
    k: int,
    task: Text,
) -> bool {
    &&& 0 <= i < m.groups.len()
    &&& 0 <= k < m.managed[i].config.tasks.len()
    &&& m.pending.contains(c.task_id)
    &&& c.task_id == m.groups[i].0 + ":"@ + task
    &&& forall|x: int| 0 <= x < m.groups[i].0.len() ==> m.groups[i].0[x] != ':'
    &&& run_laws::known_as(m.managed[i].config.tasks[k]) == task
    &&& forall|x: int|
        0 <= x < k ==> run_laws::known_as(#[trigger] m.managed[i].config.tasks[x]) != task
    &&& exp.expanded.dom().contains(m.managed[i].config.tasks[k].command)
}

/// A task that was queued while it ran is run again when it ends, once, with its command
/// expanded, in its own directory or that of its group, by its group's shell and with its
/// silence; it is no longer queued.
pub proof fn law_a_queued_task_runs_again_as_configured(
    b: BatchModel,
    c: CompletionModel,
    exp: ExpansionModel,
    i: int,
    k: int,
    task: Text,
)
    requires
        b.engine.wf(),
        engine_laws::queued_well(b.engine),
        c.task_id != "__daemon_start__"@,
        is_to_run_again(b.engine, c, exp, i, k, task),
    ensures
        ({
            let e = b.engine;
            let after = b.complete(c, exp).engine;
            let t = e.managed[i].config.tasks[k];
            &&& after.running.contains(c.task_id)
            &&& !after.pending.contains(c.task_id)
            &&& exists|j: int|
                e.out.len() <= j < after.out.len() && (
                #[trigger] after.out[j] matches ActionModel::Run(run) && run.task_id == c.task_id
                    && run.group_name == e.groups[i].0 && run.task_name == task && run.command
                    == exp.expanded[t.command] && run.silence == t.silence && run.executor.shell
                    == e.managed[i].executor.shell && (t.working_dir is Some
                    ==> run.executor.working_dir == t.working_dir) && (t.working_dir is None
                    ==> run.executor.working_dir == e.managed[i].executor.working_dir)
                    && run_laws::layered(run.executor.env, t.env, e.managed[i].executor.env))
        }),
{
    let e = b.engine;
    let group = e.groups[i].0;
    let t = e.managed[i].config.tasks[k];
    lemma_split(group, task);
    lemma_first_task(e.managed[i].config.tasks, task, k);
    engine_laws::lemma_found(e.groups, group);
    assert(e.groups[i].0 == group);
    let at = engine_model::find(e.groups, group)->Some_0;
    if at < i {
        assert(e.groups[at].0 != e.groups[i].0);
    } else if i < at {
        assert(e.groups[i].0 != e.groups[at].0);
    }
    let command = exp.expanded[t.command];
    engine_laws::law_a_queued_task_runs_again(b, c, exp, group, task, i, k, command);
    run_laws::law_a_command_refines_its_group(e.managed[i].executor, t.working_dir, t.env);
    lemma_rerun_run(b, c, exp, group, task, i, k, command);
}

proof fn lemma_first_task(tasks: Seq<crate::config::schema::TaskModel>, name: Text, k: int)
    requires
        0 <= k < tasks.len(),
        run_laws::known_as(tasks[k]) == name,
        forall|x: int| 0 <= x < k ==> run_laws::known_as(#[trigger] tasks[x]) != name,
    ensures
        engine_model::task_named(tasks, name) == Some(k),
    decreases tasks.len(),
{
    if k > 0 {
        let rest = tasks.drop_first();
        assert(run_laws::known_as(tasks[0]) != name);
        assert forall|x: int| 0 <= x < k - 1 implies run_laws::known_as(#[trigger] rest[x])
            != name by {
            assert(run_laws::known_as(tasks[x + 1]) != name);
        }
        lemma_first_task(rest, name, k - 1);
    }
}

proof fn lemma_rerun_run(
    b: BatchModel,
    c: CompletionModel,
    exp: ExpansionModel,
    group: Text,
    task: Text,
    i: int,
    k: int,
    command: Text,
)
    requires
        b.engine.wf(),
        c.task_id != "__daemon_start__"@,
        b.engine.pending.contains(c.task_id),
        text::split_at_first(c.task_id, ':') == Some((group, task)),
        c.task_id == group + ":"@ + task,
        0 <= i < b.engine.groups.len(),
        b.engine.groups[i].0 == group,
        engine_model::task_named(b.engine.managed[i].config.tasks, task) == Some(k),
        0 <= k < b.engine.managed[i].config.tasks.len(),
        exp.of(b.engine.managed[i].config.tasks[k].command) == Ok::<Text, Text>(command),
    ensures
        ({
            let e = b.engine;
            let after = b.complete(c, exp).engine;
            let t = e.managed[i].config.tasks[k];
            exists|j: int|
                e.out.len() <= j < after.out.len() && (
                #[trigger] after.out[j] matches ActionModel::Run(run) && run.task_id == c.task_id
                    && run.group_name == group && run.task_name == task && run.command == command
                    && run.silence == t.silence && run.executor
                    == e.managed[i].executor.refined(t.working_dir, t.env))
        }),
{
    let e = b.engine;
    let done = EngineModel { running: e.running.remove(c.task_id), ..e }.notify_completion(
        c,
    ).record(c);
    let s = BatchModel { engine: done, ..b }.settle(c.group_name).engine;
    engine_laws::lemma_found(e.groups, c.group_name);
    assert(engine_laws::names(done.groups) =~= engine_laws::names(e.groups));
    engine_laws::lemma_found(done.groups, c.group_name);
    assert(engine_laws::names(s.groups) =~= engine_laws::names(done.groups));
    assert(s.managed == e.managed && s.pending == e.pending && s.running == done.running);
    assert(s.groups.len() == e.groups.len()) by {
        assert(engine_laws::names(s.groups).len() == engine_laws::names(e.groups).len());
    }
    assert forall|x: int| 0 <= x < e.groups.len() implies (#[trigger] s.groups[x]).0
        == e.groups[x].0 by {
        assert(engine_laws::names(s.groups)[x] == engine_laws::names(e.groups)[x]);
    }
    engine_laws::lemma_found(s.groups, group);
    assert(s.groups[i].0 == group);
    let at = engine_model::find(s.groups, group)->Some_0;
    assert(s.groups[at].0 == e.groups[at].0);
    if at < i {
        assert(e.groups[at].0 != e.groups[i].0);
    } else if i < at {
        assert(e.groups[i].0 != e.groups[at].0);
    }
    let rest = EngineModel { pending: s.pending.remove(c.task_id), ..s };
    let t = e.managed[i].config.tasks[k];
    let again = s.rerun(c, exp);
    let executor = e.managed[i].executor.refined(t.working_dir, t.env);
    assert(again == rest.spawn_task(group, task, c.task_index, command, executor, t.silence));
    assert(!rest.running.contains(c.task_id));
    engine_laws::law_a_task_is_run_or_queued(
        rest,
        group,
        task,
        c.task_index,
        command,
        executor,
        t.silence,
    );
    let after = b.complete(c, exp).engine;
    assert(after == again.updated());
    let j = again.out.len() - 1;
    assert(after.out[j] == again.out[j]);
    assert(again.out.len() == s.out.len() + 1);
    assert(s.out.len() >= e.out.len());
}

/// A group with services is at startup exactly until they have been started; one without
/// exactly as long as one of its dependents waits for it.
pub proof fn law_a_group_is_at_startup_until_it_is_up(m: EngineModel, i: int)
    requires
        m.wf(),
        0 <= i < m.groups.len(),
    ensures
        ({
            let group = m.groups[i].0;
            let r = m.resolver;
            &&& m.managed[i].services.len() > 0 ==> (m.phase(group) is Startup
                <==> !m.managed[i].daemons_started)
            &&& m.managed[i].services.len() == 0 ==> (m.phase(group) is Startup
                <==> r.dependents.dom().contains(group) && exists|d: Text|
                r.dependents[group].contains(d) && #[trigger] r.waiting.dom().contains(d)
                    && r.waiting[d].contains(group))
        }),
{
    let group = m.groups[i].0;
    let r = m.resolver;
    engine_laws::lemma_found(m.groups, group);
    assert(m.groups[i].0 == group);
    let at = engine_model::find(m.groups, group)->Some_0;
    if at < i {
        assert(m.groups[at].0 != m.groups[i].0);
    } else if i < at {
        assert(m.groups[i].0 != m.groups[at].0);
    }
    if r.dependents.dom().contains(group) && exists|d: Text|
        r.dependents[group].contains(d) && #[trigger] r.waiting.dom().contains(d)
            && r.waiting[d].contains(group) {
        let d = choose|d: Text|
            r.dependents[group].contains(d) && #[trigger] r.waiting.dom().contains(d)
                && r.waiting[d].contains(group);
        let k = r.dependents[group].index_of(d);
        assert(r.dependents_of(group)[k] == d);
        assert(m.waited_for(group));
    }
    if m.waited_for(group) {
        let k = choose|k: int|
            0 <= k < r.dependents_of(group).len() && r.waiting.dom().contains(
                #[trigger] r.dependents_of(group)[k],
            ) && r.waiting[r.dependents_of(group)[k]].contains(group);
        assert(r.dependents[group].contains(r.dependents[group][k]));
        assert(r.waiting.dom().contains(r.dependents[group][k]));
    }
}

} // verus!
