//! Laws of the order in which groups start.

use crate::config::schema::{GroupConfig, TaskModel};
use crate::daemon::dependency::ResolverModel;
use crate::daemon::dependency_laws;
use crate::daemon::engine_laws;
use crate::daemon::engine_model::{self, ActionModel, EngineModel, SetupModel};
use crate::daemon::state::GroupStatus;
use crate::daemon::trigger::ExpansionModel;
use crate::graph;
use crate::process::executor::ExecutorModel;
use crate::text::Text;
use vstd::prelude::*;

verus! {

/// Whether every dependency of a group is Ready.
pub open spec fn has_all(m: EngineModel, group: Text) -> bool {
    m.resolver.unready(group) == Set::<Text>::empty()
}

/// Whether the tasks and services that were asked for since `a` belong to groups
/// whose dependencies are all Ready.
pub open spec fn starts_when_ready(a: EngineModel, b: EngineModel) -> bool {
    forall|k: int|
        a.out.len() <= k < b.out.len() ==> match #[trigger] b.out[k] {
            ActionModel::Run(run) => has_all(b, run.group_name),
            ActionModel::StartServices(group) => has_all(b, group),
            _ => true,
        }
}

/// Whether what was asked for since `a` is about one group, or tells the state.
pub open spec fn asks_for(a: EngineModel, b: EngineModel, group: Text) -> bool {
    forall|k: int|
        a.out.len() <= k < b.out.len() ==> match #[trigger] b.out[k] {
            ActionModel::Run(run) => run.group_name == group,
            ActionModel::Broadcast(_) => true,
            _ => false,
        }
}

proof fn lemma_spawn_tasks_asks(
    m: EngineModel,
    group: Text,
    tasks: Seq<TaskModel>,
    executor: ExecutorModel,
    run_on_change: bool,
    exp: ExpansionModel,
    n: nat,
)
    ensures
        ({
            let after = m.spawn_tasks(group, tasks, executor, run_on_change, exp, n);
            &&& after.resolver == m.resolver
            &&& after.order == m.order
            &&& engine_laws::asks_on(m, after)
            &&& asks_for(m, after, group)
        }),
    decreases n,
{
    if n == 0 {
        assert(m.out.take(m.out.len() as int) =~= m.out);
    } else {
        let before = m.spawn_tasks(group, tasks, executor, run_on_change, exp, (n - 1) as nat);
        lemma_spawn_tasks_asks(m, group, tasks, executor, run_on_change, exp, (n - 1) as nat);
        let after = m.spawn_tasks(group, tasks, executor, run_on_change, exp, n);
        assert(after.out.take(m.out.len() as int) =~= m.out) by {
            assert(before.out.take(m.out.len() as int) =~= m.out);
            assert forall|k: int| 0 <= k < m.out.len() implies after.out[k] == m.out[k] by {
                assert(before.out.take(m.out.len() as int)[k] == before.out[k]);
            }
        }
        assert forall|k: int| m.out.len() <= k < after.out.len() implies match #[trigger] after.out[k] {
            ActionModel::Run(run) => run.group_name == group,
            ActionModel::Broadcast(_) => true,
            _ => false,
        } by {
            if k < before.out.len() {
                assert(after.out[k] == before.out[k]);
            }
        }
    }
}

pub proof fn lemma_spawn_group_asks(m: EngineModel, group: Text, run_on_change: bool, exp: ExpansionModel)
    ensures
        ({
            let after = m.spawn_group(group, run_on_change, exp);
            &&& after.resolver == m.resolver
            &&& after.order == m.order
            &&& engine_laws::asks_on(m, after)
            &&& asks_for(m, after, group)
        }),
{
    assert(m.out.take(m.out.len() as int) =~= m.out);
    if let Some(i) = engine_model::find(m.groups, group) {
        let managed = m.managed[i];
        let start = m.with_group_status(group, GroupStatus::Running);
        let n = managed.config.tasks.len();
        lemma_spawn_tasks_asks(
            start,
            group,
            managed.config.tasks,
            managed.executor,
            run_on_change,
            exp,
            n,
        );
        let run = start.spawn_tasks(
            group,
            managed.config.tasks,
            managed.executor,
            run_on_change,
            exp,
            n,
        );
        let after = run.updated();
        assert(after.out.take(m.out.len() as int) =~= m.out) by {
            assert forall|k: int| 0 <= k < m.out.len() implies after.out[k] == m.out[k] by {
                assert(run.out.take(m.out.len() as int)[k] == run.out[k]);
            }
        }
        assert forall|k: int| m.out.len() <= k < after.out.len() implies match #[trigger] after.out[k] {
            ActionModel::Run(r) => r.group_name == group,
            ActionModel::Broadcast(_) => true,
            _ => false,
        } by {
            if k < run.out.len() {
                assert(after.out[k] == run.out[k]);
            }
        }
    }
}

/// Whether no group of an order depends on one that stands at its place or
/// behind it.
pub open spec fn in_order(m: EngineModel) -> bool {
    forall|i: int, j: int|
        #![trigger m.order[i], m.order[j]]
        0 <= i <= j < m.order.len() ==> !m.resolver.deps(m.order[i]).contains(m.order[j])
}

pub proof fn lemma_in_order(m: EngineModel)
    requires
        m.acyclic(),
        m.resolver.mirrored(),
        m.order.no_duplicates(),
    ensures
        in_order(m),
{
    assert forall|i: int, j: int|
        #![trigger m.order[i], m.order[j]]
        0 <= i <= j < m.order.len() implies !m.resolver.deps(m.order[i]).contains(m.order[j]) by {
        if m.resolver.deps(m.order[i]).contains(m.order[j]) {
            assert(m.resolver.dependents_of(m.order[j]).contains(m.order[i]));
            engine_model::lemma_rank(m.order, i);
            engine_model::lemma_rank(m.order, j);
        }
    }
}

proof fn lemma_started_up(m: EngineModel, exp: ExpansionModel, n: nat)
    requires
        in_order(m),
        n <= m.order.len(),
    ensures
        ({
            let (after, services) = m.started_up(exp, n);
            &&& after.order == m.order
            &&& after.resolver.dependencies == m.resolver.dependencies
            &&& engine_laws::asks_on(m, after)
            &&& starts_when_ready(m, after)
            &&& forall|i: int| 0 <= i < services.len() ==> has_all(after, #[trigger] services[i])
            &&& forall|i: int|
                0 <= i < n && !has_all(after, #[trigger] m.order[i])
                    ==> after.resolver.waiting.dom().contains(m.order[i])
                    && after.resolver.waiting[m.order[i]] == after.resolver.unready(m.order[i])
            &&& forall|k: int|
                m.out.len() <= k < after.out.len() ==> match #[trigger] after.out[k] {
                    ActionModel::Run(run) => m.order.take(n as int).contains(run.group_name),
                    ActionModel::Broadcast(_) => true,
                    _ => false,
                }
            &&& forall|i: int|
                0 <= i < services.len() ==> m.order.take(n as int).contains(#[trigger] services[i])
        }),
    decreases n,
{
    if n == 0 {
        assert(m.out.take(m.out.len() as int) =~= m.out);
    } else {
        let (before, listed) = m.started_up(exp, (n - 1) as nat);
        let (after, services) = m.started_up(exp, n);
        lemma_started_up(m, exp, (n - 1) as nat);
        let g = m.order[n - 1];
        let early = m.order.take(n - 1);
        let all = m.order.take(n as int);
        assert(all =~= early.push(g));
        assert(all[n - 1] == g);
        lemma_spawn_group_asks(before, g, false, exp);
        // Only the status of `g` may change, on which nothing so far depends.
        assert(after.resolver.dependencies == before.resolver.dependencies);
        assert(before.out.len() <= after.out.len());
        assert(after.out.take(m.out.len() as int) =~= m.out) by {
            assert forall|k: int| 0 <= k < m.out.len() implies after.out[k] == m.out[k] by {
                assert(before.out.take(m.out.len() as int)[k] == before.out[k]);
                assert(after.out.take(before.out.len() as int) =~= before.out);
                assert(after.out.take(before.out.len() as int)[k] == after.out[k]);
            }
        }
        assert forall|i: int| 0 <= i < n implies after.resolver.unready(#[trigger] m.order[i])
            == before.resolver.unready(m.order[i]) by {
            let x = m.order[i];
            assert(!m.resolver.deps(x).contains(m.order[n - 1]));
            assert(after.resolver.unready(x) =~= before.resolver.unready(x));
        }
        assert forall|x: Text| #[trigger] early.contains(x) implies all.contains(x) && has_all(
            after,
            x,
        ) == has_all(before, x) by {
            let i = early.index_of(x);
            assert(all[i] == x);
            assert(m.order[i] == x);
        }
        assert(all.contains(g));
        assert forall|k: int| m.out.len() <= k < after.out.len() implies match #[trigger] after.out[k] {
            ActionModel::Run(run) => all.contains(run.group_name) && has_all(after, run.group_name),
            ActionModel::Broadcast(_) => true,
            _ => false,
        } by {
            assert(after.out.take(before.out.len() as int) =~= before.out);
            if k < before.out.len() {
                assert(after.out.take(before.out.len() as int)[k] == after.out[k]);
                assert(after.out[k] == before.out[k]);
            }
        }
        assert forall|i: int| 0 <= i < services.len() implies has_all(after, #[trigger] services[i])
            && all.contains(services[i]) by {
            if i < listed.len() {
                assert(services[i] == listed[i]);
                assert(early.contains(listed[i]));
            }
        }
        assert forall|i: int| 0 <= i < n && !has_all(after, #[trigger] m.order[i]) implies
            after.resolver.waiting.dom().contains(m.order[i]) && after.resolver.waiting[m.order[i]]
            == after.resolver.unready(m.order[i]) by {
            let x = m.order[i];
            if i < n - 1 {
                assert(!has_all(before, x));
            }
        }
    }
}

/// At startup no task of a group is run, and none of its services listed to be
/// started, unless every dependency of the group is Ready. A group that lacks a
/// dependency waits, for exactly those that it lacks.
pub proof fn law_startup_waits_for_dependencies(m: EngineModel, exp: ExpansionModel)
    requires
        m.acyclic(),
        m.resolver.mirrored(),
        m.order.no_duplicates(),
    ensures
        ({
            let (after, services) = m.started_up(exp, m.order.len());
            &&& starts_when_ready(m, after)
            &&& forall|i: int| 0 <= i < services.len() ==> has_all(after, #[trigger] services[i])
            &&& forall|x: Text| #[trigger]
                m.order.contains(x) && !has_all(after, x) ==> after.resolver.waiting.dom().contains(x)
                    && after.resolver.waiting[x] == after.resolver.unready(x)
        }),
{
    lemma_in_order(m);
    lemma_started_up(m, exp, m.order.len());
    let (after, services) = m.started_up(exp, m.order.len());
    assert forall|x: Text| #[trigger] m.order.contains(x) && !has_all(after, x) implies
        after.resolver.waiting.dom().contains(x) && after.resolver.waiting[x]
        == after.resolver.unready(x) by {
        let i = m.order.index_of(x);
        assert(m.order[i] == x);
    }
}

/// Whether the table of waiting groups tells the truth: the dependency maps
/// mirror each other, groups wait for dependencies of theirs that are neither
/// Ready nor Failed nor Skipped, and no group that waits is Ready.
pub open spec fn sound(r: ResolverModel) -> bool {
    &&& r.mirrored()
    &&& r.waits_well()
    &&& r.accounted()
    &&& forall|d: Text| #[trigger] r.waiting.dom().contains(d) ==> !r.ready(d)
}

/// Whether what was Ready stays so, no group starts to wait, and of the groups
/// that do not wait only `touched` ones become Ready.
pub open spec fn goes_on(a: ResolverModel, b: ResolverModel, touched: Set<Text>) -> bool {
    &&& b.dependencies == a.dependencies
    &&& b.waiting.dom().subset_of(a.waiting.dom())
    &&& forall|x: Text| #[trigger] a.ready(x) ==> b.ready(x)
    &&& forall|x: Text| #[trigger]
        b.ready(x) && !a.ready(x) ==> a.waiting.dom().contains(x) || touched.contains(x)
}

pub proof fn lemma_has_all_stays(a: EngineModel, b: EngineModel, group: Text)
    requires
        b.resolver.dependencies == a.resolver.dependencies,
        forall|x: Text| #[trigger] a.resolver.ready(x) ==> b.resolver.ready(x),
        has_all(a, group),
    ensures
        has_all(b, group),
{
    assert forall|d: Text| !b.resolver.unready(group).contains(d) by {
        assert(!a.resolver.unready(group).contains(d));
    }
    assert(b.resolver.unready(group) =~= Set::<Text>::empty());
}

proof fn lemma_starts_trans(a: EngineModel, b: EngineModel, c: EngineModel, touched: Set<Text>)
    requires
        engine_laws::asks_on(a, b),
        engine_laws::asks_on(b, c),
        starts_when_ready(a, b),
        starts_when_ready(b, c),
        goes_on(b.resolver, c.resolver, touched),
    ensures
        engine_laws::asks_on(a, c),
        starts_when_ready(a, c),
{
    assert(c.out.take(a.out.len() as int) =~= b.out.take(a.out.len() as int));
    assert forall|k: int| a.out.len() <= k < c.out.len() implies match #[trigger] c.out[k] {
        ActionModel::Run(run) => has_all(c, run.group_name),
        ActionModel::StartServices(group) => has_all(c, group),
        _ => true,
    } by {
        if k < b.out.len() {
            assert(c.out.take(b.out.len() as int)[k] == c.out[k]);
            assert(b.out[k] == c.out[k]);
            match b.out[k] {
                ActionModel::Run(run) => lemma_has_all_stays(b, c, run.group_name),
                ActionModel::StartServices(group) => lemma_has_all_stays(b, c, group),
                _ => {},
            }
        }
    }
}

proof fn lemma_with_skipped(m: EngineModel, names: Seq<Text>)
    ensures
        m.with_skipped(names).resolver == m.resolver,
        m.with_skipped(names).out == m.out,
    decreases names.len(),
{
    if names.len() > 0 {
        lemma_with_skipped(m, names.drop_last());
    }
}

proof fn lemma_cascade_skip(m: EngineModel, group: Text)
    requires
        sound(m.resolver),
        !m.resolver.ready(group),
    ensures
        sound(m.cascade_skip(group).resolver),
        goes_on(m.resolver, m.cascade_skip(group).resolver, Set::empty()),
        m.cascade_skip(group).out == m.out,
{
    let r = m.resolver;
    let start = r.with_status(group, GroupStatus::Skipped);
    let n = start.cascade(seq![group]).0;
    let skipped = start.cascade(seq![group]).1;
    dependency_laws::law_failure_skips_the_stranded(r, group, GroupStatus::Skipped);
    dependency_laws::law_failure_keeps_accounted(r, group, GroupStatus::Skipped);
    assert(start.waits_well()) by {
        assert forall|d: Text, x: Text|
            start.waiting.dom().contains(d) && #[trigger] start.waiting[d].contains(
                x,
            ) implies start.dependents_of(x).contains(d) && start.deps(d).contains(x) by {
            assert(r.waiting[d].contains(x));
        }
    }
    dependency_laws::lemma_cascade(start, seq![group]);
    let marked = EngineModel { resolver: n, ..m }.with_group_status(group, GroupStatus::Skipped);
    lemma_with_skipped(marked, skipped);
    assert forall|x: Text| #[trigger] n.ready(x) == r.ready(x) by {
        if skipped.contains(x) {
            assert(r.waiting.dom().contains(x));
        }
    }
}

pub proof fn lemma_cascade_skips(m: EngineModel, names: Seq<Text>)
    requires
        sound(m.resolver),
        forall|i: int|
            0 <= i < names.len() ==> !m.resolver.waiting.dom().contains(#[trigger] names[i])
                && !m.resolver.ready(names[i]),
    ensures
        sound(m.cascade_skips(names).resolver),
        goes_on(m.resolver, m.cascade_skips(names).resolver, Set::empty()),
        m.cascade_skips(names).out == m.out,
    decreases names.len(),
{
    if names.len() > 0 {
        let before = m.cascade_skips(names.drop_last());
        lemma_cascade_skips(m, names.drop_last());
        let g = names.last();
        assert(names[names.len() - 1] == g);
        lemma_cascade_skip(before, g);
        let after = before.cascade_skip(g);
        assert forall|x: Text| #[trigger]
            after.resolver.ready(x) && !m.resolver.ready(x) implies m.resolver.waiting.dom().contains(
            x,
        ) by {
            assert(before.resolver.ready(x) || !before.resolver.ready(x));
        }
    }
}

pub proof fn lemma_completed_sound(r: ResolverModel, group: Text)
    requires
        sound(r),
        !r.waiting.dom().contains(group),
    ensures
        sound(r.completed(group)),
        goes_on(r, r.completed(group), set![group]),
        r.completed(group).ready(group),
{
    dependency_laws::law_completed_keeps(r, group);
    dependency_laws::law_completion_hands_out(r, group);
    let n = r.completed(group);
    assert forall|d: Text| #[trigger] n.waiting.dom().contains(d) implies !n.ready(d) by {
        assert(r.waiting.dom().contains(d));
        assert(!r.ready(d));
    }
    assert forall|x: Text| #[trigger] r.ready(x) implies n.ready(x) by {}
    assert forall|x: Text| #[trigger] n.ready(x) && !r.ready(x) implies set![group].contains(x) by {}
}

pub proof fn lemma_set_ready(r: ResolverModel, group: Text)
    requires
        sound(r),
        !r.waiting.dom().contains(group),
    ensures
        sound(r.with_status(group, GroupStatus::Ready)),
        goes_on(r, r.with_status(group, GroupStatus::Ready), set![group]),
{
    let n = r.with_status(group, GroupStatus::Ready);
    assert forall|d: Text, x: Text|
        n.dependents_of(x).contains(d) <==> #[trigger] n.deps(d).contains(x) by {
        assert(r.dependents_of(x).contains(d) <==> r.deps(d).contains(x));
    }
    assert forall|d: Text, x: Text|
        n.waiting.dom().contains(d) && #[trigger] n.waiting[d].contains(x) implies n.dependents_of(
        x,
    ).contains(d) && n.deps(d).contains(x) by {
        assert(r.waiting[d].contains(x));
    }
    assert forall|d: Text, x: Text|
        n.waiting.dom().contains(d) && #[trigger] n.deps(d).contains(x) implies n.waiting[d].contains(
    x) || n.ready(x) || n.failed_or_skipped(x) by {
        assert(r.deps(d).contains(x));
    }
    assert forall|d: Text| #[trigger] n.waiting.dom().contains(d) implies !n.ready(d) by {
        assert(!r.ready(d));
    }
    assert forall|x: Text| #[trigger] r.ready(x) implies n.ready(x) by {}
    assert forall|x: Text| #[trigger] n.ready(x) && !r.ready(x) implies set![group].contains(x) by {}
}

pub proof fn lemma_start_waiting_groups(m: EngineModel, names: Seq<Text>, exp: ExpansionModel, bound: nat)
    requires
        sound(m.resolver),
        forall|i: int|
            0 <= i < names.len() ==> !m.resolver.waiting.dom().contains(#[trigger] names[i])
                && has_all(m, names[i]),
    ensures
        ({
            let after = m.start_waiting_groups(names, exp, bound);
            &&& sound(after.resolver)
            &&& goes_on(m.resolver, after.resolver, names.to_set())
            &&& engine_laws::asks_on(m, after)
            &&& starts_when_ready(m, after)
        }),
    decreases bound, 0nat, names.len(),
{
    assert(m.out.take(m.out.len() as int) =~= m.out);
    if names.len() > 0 {
        let short = names.drop_last();
        let g = names.last();
        assert(names[names.len() - 1] == g);
        assert(names.contains(g));
        let before = m.start_waiting_groups(short, exp, bound);
        lemma_start_waiting_groups(m, short, exp, bound);
        assert forall|x: Text| short.to_set().contains(x) implies names.to_set().contains(x) by {
            let i = short.index_of(x);
            assert(names[i] == x);
        }
        lemma_has_all_stays(m, before, g);
        let after = m.start_waiting_groups(names, exp, bound);
        assert(before.out.take(before.out.len() as int) =~= before.out);
        if before.has_startup_tasks(g) {
            lemma_spawn_group_asks(before, g, false, exp);
            assert(has_all(after, g));
            lemma_starts_trans(m, before, after, set![g]);
        } else if before.has_services(g) {
            assert(after.out.take(before.out.len() as int) =~= before.out);
            assert(has_all(after, g));
            lemma_starts_trans(m, before, after, set![g]);
        } else {
            let ready = before.set_group_status(g, GroupStatus::Ready);
            lemma_set_ready(before.resolver, g);
            lemma_starts_trans(m, before, ready, set![g]);
            if ready.resolver.waiting.dom().len() < bound {
                lemma_trigger_dependents(ready, g, exp);
                lemma_starts_trans(m, ready, after, set![g]);
            }
        }
        assert forall|x: Text| #[trigger]
            after.resolver.ready(x) && !m.resolver.ready(x) implies m.resolver.waiting.dom().contains(
            x,
        ) || names.to_set().contains(x) by {
            if before.resolver.ready(x) {
                assert(m.resolver.waiting.dom().contains(x) || short.to_set().contains(x));
            } else {
                assert(before.resolver.waiting.dom().contains(x) || x == g);
            }
        }
    }
}

pub proof fn lemma_trigger_dependents(m: EngineModel, group: Text, exp: ExpansionModel)
    requires
        sound(m.resolver),
        !m.resolver.waiting.dom().contains(group),
    ensures
        ({
            let after = m.trigger_dependents(group, exp);
            &&& sound(after.resolver)
            &&& goes_on(m.resolver, after.resolver, set![group])
            &&& after.resolver.ready(group)
            &&& engine_laws::asks_on(m, after)
            &&& starts_when_ready(m, after)
        }),
    decreases m.resolver.waiting.dom().len(), 1nat, 0nat,
{
    let r = m.resolver;
    let done = r.completed(group);
    let bound = r.waiting.dom().len();
    lemma_completed_sound(r, group);
    dependency_laws::law_completion_hands_out(r, group);
    let m1 = EngineModel { resolver: done, ..m }.with_group_status(group, GroupStatus::Ready);
    assert(m1.resolver == done && m1.out == m.out);
    let started = r.started_by(group);
    assert forall|i: int| 0 <= i < started.len() implies !done.waiting.dom().contains(
        #[trigger] started[i],
    ) && has_all(m1, started[i]) by {
        let d = started[i];
        assert(started.contains(d));
        assert forall|x: Text| !done.unready(d).contains(x) by {
            if r.deps(d).contains(x) {
                dependency_laws::law_started_with_all_dependencies_ready(r, group, d, x);
            }
        }
        assert(done.unready(d) =~= Set::<Text>::empty());
    }
    lemma_start_waiting_groups(m1, started, exp, bound);
    let m2 = m1.start_waiting_groups(started, exp, bound);
    let skipped = r.skipped_by(group);
    assert forall|i: int| 0 <= i < skipped.len() implies !m2.resolver.waiting.dom().contains(
        #[trigger] skipped[i],
    ) && !m2.resolver.ready(skipped[i]) by {
        let d = skipped[i];
        assert(skipped.contains(d));
        assert(r.waiting.dom().contains(d));
        assert(!done.waiting.dom().contains(d));
        assert(!done.ready(d));
        assert(!started.contains(d));
        assert(!started.to_set().contains(d));
    }
    lemma_cascade_skips(m2, skipped);
    let after = m2.cascade_skips(skipped);
    assert(m1.out.take(m.out.len() as int) =~= m.out);
    lemma_starts_trans(m, m1, m2, started.to_set());
    assert(after.out.take(m2.out.len() as int) =~= m2.out);
    lemma_starts_trans(m, m2, after, Set::empty());
    assert forall|x: Text| #[trigger] after.resolver.ready(x) && !r.ready(x) implies r.waiting.dom().contains(
        x,
    ) || set![group].contains(x) by {
        if m2.resolver.ready(x) {
            if !done.ready(x) {
                if started.to_set().contains(x) {
                    assert(started.contains(x));
                }
            }
        }
    }
}

proof fn lemma_startup_sound(m: EngineModel, exp: ExpansionModel, n: nat)
    requires
        sound(m.resolver),
        m.order.no_duplicates(),
        n <= m.order.len(),
        forall|i: int|
            0 <= i < m.order.len() ==> !m.resolver.ready(#[trigger] m.order[i])
                && !m.resolver.failed_or_skipped(m.order[i]) && !m.resolver.waiting.dom().contains(
                m.order[i],
            ),
    ensures
        ({
            let r = m.started_up(exp, n).0.resolver;
            &&& sound(r)
            &&& forall|i: int|
                n <= i < m.order.len() ==> !r.ready(#[trigger] m.order[i])
                    && !r.failed_or_skipped(m.order[i]) && !r.waiting.dom().contains(m.order[i])
        }),
    decreases n,
{
    if n > 0 {
        let before = m.started_up(exp, (n - 1) as nat).0;
        lemma_startup_sound(m, exp, (n - 1) as nat);
        let g = m.order[n - 1];
        let r = before.resolver;
        let after = m.started_up(exp, n).0.resolver;
        lemma_spawn_group_asks(before, g, false, exp);
        lemma_set_ready(r, g);
        dependency_laws::law_marked_waiting_keeps(r, g);
        let waiting = r.marked_waiting(g);
        assert forall|d: Text| #[trigger] waiting.waiting.dom().contains(d) implies !waiting.ready(
            d,
        ) by {
            if d != g {
                assert(r.waiting.dom().contains(d));
            }
        }
        assert forall|i: int| n <= i < m.order.len() implies !after.ready(#[trigger] m.order[i])
            && !after.failed_or_skipped(m.order[i]) && !after.waiting.dom().contains(m.order[i]) by {
            assert(m.order[i] != g);
            assert(!r.ready(m.order[i]));
        }
    }
}

/// The table of waiting groups of an engine that has not run yet tells the truth
/// after its startup.
pub proof fn law_startup_leaves_the_truth(groups: Seq<GroupConfig>, setup: SetupModel, exp: ExpansionModel)
    requires
        graph::group_names(groups).no_duplicates(),
        graph::group_order(groups) is Ok,
        setup.groups == groups,
    ensures
        ({
            let order = graph::group_order(groups)->Ok_0;
            let m = EngineModel::initial(setup, order);
            sound(m.started_up(exp, order.len()).0.resolver)
        }),
{
    let order = graph::group_order(groups)->Ok_0;
    let m = EngineModel::initial(setup, order);
    let pairs = engine_model::config_pairs(groups);
    graph::law_order_respects_dependencies(groups);
    assert forall|i: int, j: int| 0 <= i < j < pairs.len() implies (#[trigger] pairs[i]).0 != (
    #[trigger] pairs[j]).0 by {
        let names = graph::group_names(groups);
        assert(names[i] != names[j]);
    }
    dependency_laws::law_built_is_mirrored(pairs);
    lemma_fresh(pairs);
    lemma_startup_sound(m, exp, order.len());
}

proof fn lemma_fresh(groups: Seq<(Text, Seq<Text>)>)
    ensures
        forall|x: Text| #[trigger]
            ResolverModel::of_groups(groups).statuses.dom().contains(x)
                ==> ResolverModel::of_groups(groups).statuses[x] == GroupStatus::Pending,
        ResolverModel::of_groups(groups).waiting.dom() =~= Set::<Text>::empty(),
    decreases groups.len(),
{
    if groups.len() > 0 {
        lemma_fresh(groups.drop_last());
    }
}

/// When a group completes, tasks are run and services started only of groups
/// whose dependencies are all Ready, however far the completion goes on; the
/// group is Ready, and no group loses its readiness by it.
pub proof fn law_completion_starts_only_what_has_all(m: EngineModel, group: Text, exp: ExpansionModel)
    requires
        sound(m.resolver),
        !m.resolver.waiting.dom().contains(group),
    ensures
        ({
            let after = m.trigger_dependents(group, exp);
            &&& sound(after.resolver)
            &&& after.resolver.ready(group)
            &&& starts_when_ready(m, after)
            &&& forall|x: Text| #[trigger] m.resolver.ready(x) ==> after.resolver.ready(x)
        }),
{
    lemma_trigger_dependents(m, group, exp);
}

} // verus!
