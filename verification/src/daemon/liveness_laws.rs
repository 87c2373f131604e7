//! Laws of what gets going: every group comes to its turn at startup, and every
//! group that waits is started or skipped once it can be.

use crate::daemon::cascade_laws;
use crate::daemon::change_laws;
use crate::daemon::dependency::ResolverModel;
use crate::daemon::dependency_laws;
use crate::daemon::engine_laws;
use crate::daemon::engine_model::{self, ActionModel, EngineModel};
use crate::daemon::planning::{self, PatternHits};
use crate::daemon::run_laws;
use crate::daemon::start_laws;
use crate::daemon::state::{GroupStatus, ProcessStatus};
use crate::daemon::trigger::ExpansionModel;
use crate::text::Text;
use vstd::prelude::*;

verus! {

/// Whether a dependency of a group is not Ready.
pub open spec fn lacks_one(r: ResolverModel, group: Text) -> bool {
    exists|d: Text|
        r.dependencies.dom().contains(group) && #[trigger] r.dependencies[group].contains(d) && !(
        r.statuses.dom().contains(d) && r.statuses[d] is Ready)
}

/// Whether the startup has seen to the group at a position: it waits if it lacks a
/// dependency; else its startup tasks have been taken up and it is shown as running;
/// without such tasks, its services are listed to be started; with neither, it is
/// Ready.
pub open spec fn seen_to(
    m: EngineModel,
    a: EngineModel,
    listed: Seq<Text>,
    exp: ExpansionModel,
    i: int,
) -> bool {
    let g = m.groups[i].0;
    if lacks_one(a.resolver, g) {
        &&& a.groups[i].1.status is Waiting
        &&& a.resolver.waiting.dom().contains(g)
        &&& a.resolver.statuses[g] is Waiting
    } else if cascade_laws::has_startup_task(m, i) {
        cascade_laws::reruns(m, a, exp, i)
    } else if m.managed[i].services.len() > 0 {
        listed.contains(g)
    } else {
        &&& a.groups[i].1.status is Ready
        &&& a.resolver.statuses.dom().contains(g)
        &&& a.resolver.statuses[g] is Ready
    }
}

proof fn lemma_lacks(r: ResolverModel, group: Text)
    ensures
        lacks_one(r, group) <==> r.unready(group) != Set::<Text>::empty(),
{
    if lacks_one(r, group) {
        let d = choose|d: Text|
            r.dependencies.dom().contains(group) && #[trigger] r.dependencies[group].contains(d)
                && !(r.statuses.dom().contains(d) && r.statuses[d] is Ready);
        assert(r.unready(group).contains(d));
    }
    if r.unready(group) != Set::<Text>::empty() {
        if forall|d: Text| !r.unready(group).contains(d) {
            assert(r.unready(group) =~= Set::<Text>::empty());
        }
        let d = choose|d: Text| r.unready(group).contains(d);
        assert(r.dependencies[group].contains(d));
    }
}

/// What was taken up stays so as long as nothing stops.
proof fn lemma_taken_on(m: EngineModel, a: EngineModel, b: EngineModel, id: Text)
    requires
        change_laws::taken_up(m, a, id),
        engine_laws::asks_on(a, b),
        a.running.subset_of(b.running),
        a.pending.subset_of(b.pending),
    ensures
        change_laws::taken_up(m, b, id),
{
    if !m.running.contains(id) {
        change_laws::lemma_asked_on(m, a, b, id);
    }
}

proof fn lemma_accounts_other(m: EngineModel, a: EngineModel, b: EngineModel)
    requires
        change_laws::accounts(m, a),
        engine_laws::asks_on(a, b),
        b.running == a.running,
    ensures
        change_laws::accounts(m, b),
{
    engine_laws::lemma_asks_trans(m, a, b);
    assert forall|id: Text|
        b.running.contains(id) && !m.running.contains(id) implies #[trigger] change_laws::asked_since(
        m,
        b,
        id,
    ) by {
        assert(change_laws::asked_since(m, a, id));
        change_laws::lemma_asked_on(m, a, b, id);
    }
}

/// A group of the original state is found at its place later on.
proof fn lemma_placed(m: EngineModel, a: EngineModel, i: int)
    requires
        m.wf(),
        engine_laws::keeps_groups(m, a),
        0 <= i < m.groups.len(),
    ensures
        engine_model::find(a.groups, m.groups[i].0) == Some(i),
        a.groups.len() == m.groups.len(),
        a.groups[i].0 == m.groups[i].0,
{
    let name = m.groups[i].0;
    engine_laws::lemma_found(m.groups, name);
    assert(m.groups[i].0 == name);
    let at = engine_model::find(m.groups, name)->Some_0;
    if at < i {
        assert(m.groups[at].0 != m.groups[i].0);
    } else if i < at {
        assert(m.groups[i].0 != m.groups[at].0);
    }
    change_laws::lemma_find_kept(m, a, name);
    assert(engine_laws::names(a.groups)[i] == engine_laws::names(m.groups)[i]);
    assert(engine_laws::names(a.groups).len() == engine_laws::names(m.groups).len());
}

proof fn lemma_startup(m: EngineModel, exp: ExpansionModel, n: nat, i: int)
    requires
        m.wf(),
        start_laws::in_order(m),
        m.order.no_duplicates(),
        n <= m.order.len(),
        0 <= i < m.groups.len(),
    ensures
        ({
            let (after, listed) = m.started_up(exp, n);
            &&& change_laws::accounts(m, after)
            &&& engine_laws::keeps_groups(m, after)
            &&& m.running.subset_of(after.running)
            &&& after.resolver.dependencies == m.resolver.dependencies
            &&& m.order.take(n as int).contains(m.groups[i].0) ==> seen_to(m, after, listed, exp, i)
        }),
    decreases n,
{
    let name = m.groups[i].0;
    if n == 0 {
        assert(m.out.take(m.out.len() as int) =~= m.out);
    } else {
        lemma_startup(m, exp, (n - 1) as nat, i);
        let (before, list) = m.started_up(exp, (n - 1) as nat);
        let (after, listed) = m.started_up(exp, n);
        let g = m.order[n - 1];
        let early = m.order.take(n - 1);
        let all = m.order.take(n as int);
        assert(all =~= early.push(g));
        assert(before.out.take(before.out.len() as int) =~= before.out);
        engine_laws::lemma_found(before.groups, g);
        engine_laws::lemma_statuses(before, g, 0, ProcessStatus::Running, GroupStatus::Waiting);
        engine_laws::lemma_statuses(before, g, 0, ProcessStatus::Running, GroupStatus::Ready);
        engine_laws::lemma_spawn_group(before, g, false, exp);
        cascade_laws::lemma_spawn_group_statuses(before, g, false, exp);
        change_laws::lemma_group_accounts(m, before, g, false, exp);
        if !(before.resolver.unready(g) == Set::<Text>::empty() && before.has_startup_tasks(g)) {
            lemma_accounts_other(m, before, after);
        }
        assert(engine_laws::asks_on(before, after));
        assert(before.running.subset_of(after.running));
        assert(before.pending.subset_of(after.pending));
        lemma_placed(m, before, i);
        lemma_placed(m, after, i);
        lemma_lacks(before.resolver, g);
        lemma_lacks(after.resolver, name);
        lemma_lacks(before.resolver, name);
        if name == g {
            assert(engine_model::find(before.groups, g) == Some(i));
            assert(!m.resolver.deps(m.order[n - 1]).contains(m.order[n - 1]));
            assert(after.resolver.unready(g) =~= before.resolver.unready(g));
            assert(cascade_laws::has_startup_task(m, i) == engine_model::any_startup_task(
                m.managed[i].config.tasks,
            ));
            if !lacks_one(after.resolver, g) {
                if cascade_laws::has_startup_task(m, i) {
                    assert forall|k: int| #[trigger]
                        cascade_laws::starts_with(m, exp, i, k) implies change_laws::taken_up(
                        m,
                        after,
                        cascade_laws::id_at(m, i, k),
                    ) by {
                        assert(exp.of(before.managed[i].config.tasks[k].command) is Ok);
                    }
                } else if m.managed[i].services.len() > 0 {
                    assert(listed[list.len() as int] == g);
                }
            }
        } else if all.contains(name) {
            let x = all.index_of(name);
            assert(x < n - 1);
            assert(early[x] == name);
            assert(m.order[x] == name);
            assert(!m.resolver.deps(m.order[x]).contains(m.order[n - 1]));
            assert(after.resolver.unready(name) =~= before.resolver.unready(name));
            assert(after.groups[i].1.status == before.groups[i].1.status) by {
                if engine_model::find(before.groups, g) is Some {
                    assert(engine_model::find(before.groups, g)->Some_0 != i);
                }
            }
            if !lacks_one(after.resolver, name) {
                if cascade_laws::has_startup_task(m, i) {
                    assert forall|k: int| #[trigger]
                        cascade_laws::starts_with(m, exp, i, k) implies change_laws::taken_up(
                        m,
                        after,
                        cascade_laws::id_at(m, i, k),
                    ) by {
                        lemma_taken_on(m, before, after, cascade_laws::id_at(m, i, k));
                    }
                } else if m.managed[i].services.len() > 0 {
                    let y = list.index_of(name);
                    assert(listed[y] == name);
                }
            }
        }
    }
}

/// At startup every group is seen to: those that lack a dependency wait, and of the
/// others each has its startup tasks run, or its services started for want of tasks,
/// or is Ready at once for want of either.
pub proof fn law_startup_sees_to_every_group(m: EngineModel, exp: ExpansionModel, i: int)
    requires
        m.wf(),
        m.acyclic(),
        m.resolver.mirrored(),
        m.order.no_duplicates(),
        0 <= i < m.groups.len(),
        m.order.contains(m.groups[i].0),
    ensures
        seen_to(
            m,
            m.started_up(exp, m.order.len()).0,
            m.started_up(exp, m.order.len()).1,
            exp,
            i,
        ),
{
    start_laws::lemma_in_order(m);
    lemma_startup(m, exp, m.order.len(), i);
    assert(m.order.take(m.order.len() as int) =~= m.order);
}

/// Whether the services of a group have been asked to be started since.
pub open spec fn services_asked_since(m: EngineModel, a: EngineModel, group: Text) -> bool {
    exists|j: int|
        m.out.len() <= j < a.out.len() && #[trigger] a.out[j] == ActionModel::StartServices(group)
}

/// Whether the group at a position has been started: its startup tasks have been
/// taken up; without such tasks, its services have been asked for; with neither, it
/// is Ready for its dependents.
pub open spec fn got_started(m: EngineModel, a: EngineModel, exp: ExpansionModel, i: int) -> bool {
    let g = m.groups[i].0;
    if cascade_laws::has_startup_task(m, i) {
        forall|k: int| #[trigger]
            cascade_laws::starts_with(m, exp, i, k) ==> change_laws::taken_up(
                m,
                a,
                cascade_laws::id_at(m, i, k),
            )
    } else if m.managed[i].services.len() > 0 {
        services_asked_since(m, a, g)
    } else {
        a.resolver.statuses.dom().contains(g) && a.resolver.statuses[g] is Ready
    }
}

/// Whether a state goes on from another: what runs, what is queued, what was asked for
/// and who is Ready stays.
pub open spec fn runs_further(a: EngineModel, b: EngineModel) -> bool {
    &&& engine_laws::asks_on(a, b)
    &&& a.running.subset_of(b.running)
    &&& a.pending.subset_of(b.pending)
    &&& forall|x: Text| #[trigger] a.resolver.ready(x) ==> b.resolver.ready(x)
}

proof fn lemma_further_trans(a: EngineModel, b: EngineModel, c: EngineModel)
    requires
        runs_further(a, b),
        runs_further(b, c),
    ensures
        runs_further(a, c),
{
    engine_laws::lemma_asks_trans(a, b, c);
    assert forall|x: Text| #[trigger] a.resolver.ready(x) implies c.resolver.ready(x) by {
        assert(b.resolver.ready(x));
    }
}

proof fn lemma_started_on(
    m: EngineModel,
    a: EngineModel,
    b: EngineModel,
    exp: ExpansionModel,
    i: int,
)
    requires
        got_started(m, a, exp, i),
        runs_further(a, b),
    ensures
        got_started(m, b, exp, i),
{
    let g = m.groups[i].0;
    if cascade_laws::has_startup_task(m, i) {
        assert forall|k: int| #[trigger]
            cascade_laws::starts_with(m, exp, i, k) implies change_laws::taken_up(
            m,
            b,
            cascade_laws::id_at(m, i, k),
        ) by {
            lemma_taken_on(m, a, b, cascade_laws::id_at(m, i, k));
        }
    } else if m.managed[i].services.len() > 0 {
        let j = choose|j: int|
            m.out.len() <= j < a.out.len() && #[trigger] a.out[j] == ActionModel::StartServices(g);
        assert(b.out.take(a.out.len() as int)[j] == b.out[j]);
    } else {
        assert(a.resolver.ready(g));
        assert(b.resolver.ready(g));
    }
}

proof fn lemma_skips_further(a: EngineModel, names: Seq<Text>)
    ensures
        ({
            let b = a.cascade_skips(names);
            &&& b.out == a.out
            &&& b.running == a.running
            &&& b.pending == a.pending
            &&& engine_laws::keeps_groups(a, b)
        }),
    decreases names.len(),
{
    if names.len() > 0 {
        lemma_skips_further(a, names.drop_last());
        let before = a.cascade_skips(names.drop_last());
        let g = names.last();
        let c = before.resolver.with_status(g, GroupStatus::Skipped).cascade(seq![g]);
        let next = EngineModel { resolver: c.0, ..before };
        engine_laws::lemma_statuses(next, g, 0, ProcessStatus::Running, GroupStatus::Skipped);
        run_laws::lemma_with_skipped_keeps(next.with_group_status(g, GroupStatus::Skipped), c.1);
    }
}

proof fn lemma_starts(
    m: EngineModel,
    a: EngineModel,
    names: Seq<Text>,
    exp: ExpansionModel,
    bound: nat,
    i: int,
)
    requires
        m.wf(),
        change_laws::accounts(m, a),
        engine_laws::keeps_groups(m, a),
        start_laws::sound(a.resolver),
        0 <= i < m.groups.len(),
        forall|x: int|
            0 <= x < names.len() ==> !a.resolver.waiting.dom().contains(#[trigger] names[x])
                && start_laws::has_all(a, names[x]),
    ensures
        ({
            let after = a.start_waiting_groups(names, exp, bound);
            &&& change_laws::accounts(m, after)
            &&& engine_laws::keeps_groups(m, after)
            &&& runs_further(a, after)
            &&& names.contains(m.groups[i].0) ==> got_started(m, after, exp, i)
        }),
    decreases bound, 0nat, names.len(),
{
    let after = a.start_waiting_groups(names, exp, bound);
    start_laws::lemma_start_waiting_groups(a, names, exp, bound);
    if names.len() == 0 {
        assert(a.out.take(a.out.len() as int) =~= a.out);
    } else {
        let short = names.drop_last();
        let g = names.last();
        assert(names[names.len() - 1] == g);
        assert forall|x: int| 0 <= x < short.len() implies !a.resolver.waiting.dom().contains(
            #[trigger] short[x],
        ) && start_laws::has_all(a, short[x]) by {
            assert(short[x] == names[x]);
        }
        lemma_starts(m, a, short, exp, bound, i);
        start_laws::lemma_start_waiting_groups(a, short, exp, bound);
        let before = a.start_waiting_groups(short, exp, bound);
        lemma_placed(m, before, i);
        engine_laws::lemma_found(before.groups, g);
        assert(before.out.take(before.out.len() as int) =~= before.out);
        let mine = g == m.groups[i].0;
        assert(mine ==> (cascade_laws::has_startup_task(m, i) == before.has_startup_tasks(g)));
        if before.has_startup_tasks(g) {
            engine_laws::lemma_spawn_group(before, g, false, exp);
            change_laws::lemma_group_accounts(m, before, g, false, exp);
            cascade_laws::lemma_spawn_group_statuses(before, g, false, exp);
            if mine {
                assert forall|k: int| #[trigger]
                    cascade_laws::starts_with(m, exp, i, k) implies change_laws::taken_up(
                    m,
                    after,
                    cascade_laws::id_at(m, i, k),
                ) by {
                    assert(exp.of(before.managed[i].config.tasks[k].command) is Ok);
                }
            }
            assert(runs_further(before, after));
        } else if before.has_services(g) {
            assert(after.out.take(before.out.len() as int) =~= before.out);
            lemma_accounts_other(m, before, after);
            assert(runs_further(before, after));
            assert(after.out[before.out.len() as int] == ActionModel::StartServices(g));
        } else {
            let ready = before.set_group_status(g, GroupStatus::Ready);
            engine_laws::lemma_statuses(before, g, 0, ProcessStatus::Running, GroupStatus::Ready);
            assert(ready.out.take(before.out.len() as int) =~= before.out);
            lemma_accounts_other(m, before, ready);
            start_laws::lemma_set_ready(before.resolver, g);
            assert(runs_further(before, ready));
            assert(mine ==> got_started(m, ready, exp, i));
            if ready.resolver.waiting.dom().len() < bound {
                lemma_triggers(m, ready, g, exp, i);
                lemma_further_trans(before, ready, after);
                if mine {
                    lemma_started_on(m, ready, after, exp, i);
                }
            }
        }
        lemma_further_trans(a, before, after);
        if names.contains(m.groups[i].0) && !mine {
            let x = names.index_of(m.groups[i].0);
            assert(short[x] == m.groups[i].0);
            lemma_started_on(m, before, after, exp, i);
        }
    }
}

proof fn lemma_triggers(m: EngineModel, a: EngineModel, group: Text, exp: ExpansionModel, i: int)
    requires
        m.wf(),
        change_laws::accounts(m, a),
        engine_laws::keeps_groups(m, a),
        start_laws::sound(a.resolver),
        !a.resolver.waiting.dom().contains(group),
        0 <= i < m.groups.len(),
    ensures
        ({
            let after = a.trigger_dependents(group, exp);
            &&& change_laws::accounts(m, after)
            &&& engine_laws::keeps_groups(m, after)
            &&& runs_further(a, after)
            &&& a.resolver.started_by(group).contains(m.groups[i].0) ==> got_started(
                m,
                after,
                exp,
                i,
            )
        }),
    decreases a.resolver.waiting.dom().len(), 1nat, 0nat,
{
    let r = a.resolver;
    let after = a.trigger_dependents(group, exp);
    let bound = r.waiting.dom().len();
    start_laws::lemma_trigger_dependents(a, group, exp);
    start_laws::lemma_completed_sound(r, group);
    dependency_laws::law_completion_hands_out(r, group);
    let done = EngineModel { resolver: r.completed(group), ..a };
    engine_laws::lemma_statuses(done, group, 0, ProcessStatus::Running, GroupStatus::Ready);
    let m1 = done.with_group_status(group, GroupStatus::Ready);
    assert(m1.out.take(a.out.len() as int) =~= a.out);
    lemma_accounts_other(m, a, m1);
    assert(runs_further(a, m1));
    let started = r.started_by(group);
    assert forall|x: int| 0 <= x < started.len() implies !m1.resolver.waiting.dom().contains(
        #[trigger] started[x],
    ) && start_laws::has_all(m1, started[x]) by {
        let d = started[x];
        assert(started.contains(d));
        assert forall|y: Text| !m1.resolver.unready(d).contains(y) by {
            if r.deps(d).contains(y) {
                dependency_laws::law_started_with_all_dependencies_ready(r, group, d, y);
            }
        }
        assert(m1.resolver.unready(d) =~= Set::<Text>::empty());
    }
    lemma_starts(m, m1, started, exp, bound, i);
    let m2 = m1.start_waiting_groups(started, exp, bound);
    lemma_further_trans(a, m1, m2);
    let skipped = r.skipped_by(group);
    lemma_skips_further(m2, skipped);
    assert(after == m2.cascade_skips(skipped));
    assert(after.out.take(m2.out.len() as int) =~= m2.out);
    lemma_accounts_other(m, m2, after);
    lemma_after_skips(a, m2, group, exp);
    assert(runs_further(m2, after));
    lemma_further_trans(a, m2, after);
    if started.contains(m.groups[i].0) {
        lemma_started_on(m, m2, after, exp, i);
    }
}

/// Skipping what must be skipped takes the readiness of no group.
proof fn lemma_after_skips(a: EngineModel, m2: EngineModel, group: Text, exp: ExpansionModel)
    requires
        start_laws::sound(a.resolver),
        !a.resolver.waiting.dom().contains(group),
        ({
            let done = EngineModel { resolver: a.resolver.completed(group), ..a };
            m2 == done.with_group_status(group, GroupStatus::Ready).start_waiting_groups(
                a.resolver.started_by(group),
                exp,
                a.resolver.waiting.dom().len(),
            )
        }),
    ensures
        forall|x: Text| #[trigger]
            m2.resolver.ready(x) ==> m2.cascade_skips(a.resolver.skipped_by(group)).resolver.ready(
                x,
            ),
        start_laws::sound(m2.resolver),
        forall|i: int|
            0 <= i < a.resolver.skipped_by(group).len() ==> !m2.resolver.waiting.dom().contains(
                #[trigger] a.resolver.skipped_by(group)[i],
            ) && !m2.resolver.ready(a.resolver.skipped_by(group)[i]),
{
    let r = a.resolver;
    let done = r.completed(group);
    start_laws::lemma_completed_sound(r, group);
    dependency_laws::law_completion_hands_out(r, group);
    let m1 = EngineModel { resolver: done, ..a }.with_group_status(group, GroupStatus::Ready);
    let started = r.started_by(group);
    assert forall|x: int| 0 <= x < started.len() implies !m1.resolver.waiting.dom().contains(
        #[trigger] started[x],
    ) && start_laws::has_all(m1, started[x]) by {
        let d = started[x];
        assert(started.contains(d));
        assert forall|y: Text| !m1.resolver.unready(d).contains(y) by {
            if r.deps(d).contains(y) {
                dependency_laws::law_started_with_all_dependencies_ready(r, group, d, y);
            }
        }
        assert(m1.resolver.unready(d) =~= Set::<Text>::empty());
    }
    start_laws::lemma_start_waiting_groups(m1, started, exp, r.waiting.dom().len());
    let skipped = r.skipped_by(group);
    assert forall|i: int| 0 <= i < skipped.len() implies !m2.resolver.waiting.dom().contains(
        #[trigger] skipped[i],
    ) && !m2.resolver.ready(skipped[i]) by {
        let d = skipped[i];
        assert(skipped.contains(d));
        assert(r.waiting.dom().contains(d));
        assert(!done.waiting.dom().contains(d));
        assert(!done.ready(d));
        assert(!started.contains(d));
        assert(!started.to_set().contains(d));
    }
    start_laws::lemma_cascade_skips(m2, skipped);
}

/// Whether a dependency of a group is Failed or Skipped.
pub open spec fn one_failed(r: ResolverModel, group: Text) -> bool {
    exists|d: Text|
        r.dependencies.dom().contains(group) && #[trigger] r.dependencies[group].contains(d)
            && r.statuses.dom().contains(d) && (r.statuses[d] is Failed || r.statuses[d] is Skipped)
}

proof fn lemma_one_failed(r: ResolverModel, group: Text)
    ensures
        one_failed(r, group) <==> r.dep_failed(group),
{
    if one_failed(r, group) {
        let d = choose|d: Text|
            r.dependencies.dom().contains(group) && #[trigger] r.dependencies[group].contains(d)
                && r.statuses.dom().contains(d) && (r.statuses[d] is Failed
                || r.statuses[d] is Skipped);
        let k = r.deps(group).index_of(d);
        assert(r.deps(group)[k] == d);
        assert(r.failed_or_skipped(r.deps(group)[k]));
    }
    if r.dep_failed(group) {
        let k = choose|k: int|
            0 <= k < r.deps(group).len() && r.failed_or_skipped(#[trigger] r.deps(group)[k]);
        assert(r.dependencies[group].contains(r.deps(group)[k]));
    }
}

/// When a group completes, each group that waited for it alone, and has no dependency
/// that failed or was skipped, gets started: its startup tasks are run, or its services
/// asked for where it has no such tasks, or it is Ready where it has neither.
pub proof fn law_a_completion_starts_what_waited_for_it(
    m: EngineModel,
    group: Text,
    exp: ExpansionModel,
    i: int,
)
    requires
        m.wf(),
        start_laws::sound(m.resolver),
        !m.resolver.waiting.dom().contains(group),
        0 <= i < m.groups.len(),
        m.resolver.waiting.dom().contains(m.groups[i].0),
        m.resolver.waiting[m.groups[i].0] == set![group],
        !one_failed(
            (ResolverModel {
                statuses: m.resolver.statuses.insert(group, GroupStatus::Ready),
                ..m.resolver
            }),
            m.groups[i].0,
        ),
    ensures
        got_started(m, m.trigger_dependents(group, exp), exp, i),
{
    assert(m.out.take(m.out.len() as int) =~= m.out);
    let d = m.groups[i].0;
    dependency_laws::law_completion_hands_out(m.resolver, group);
    lemma_triggers(m, m, group, exp, i);
    let r = ResolverModel {
        statuses: m.resolver.statuses.insert(group, GroupStatus::Ready),
        ..m.resolver
    };
    lemma_one_failed(r, d);
    let done = m.resolver.completed(group);
    assert(done.dep_failed(d) == r.dep_failed(d)) by {
        assert(done.deps(d) == r.deps(d));
        assert(forall|x: Text| done.failed_or_skipped(x) == r.failed_or_skipped(x));
    }
    assert(m.resolver.started_by(group).contains(d));
}

/// When a group completes, it is Ready, and each group that waited for it alone but
/// has a dependency that failed or was skipped is Skipped, for those that depend on it
/// and in what is shown.
pub proof fn law_a_completion_skips_what_cannot_start(
    m: EngineModel,
    group: Text,
    exp: ExpansionModel,
    i: int,
)
    requires
        m.wf(),
        start_laws::sound(m.resolver),
        !m.resolver.waiting.dom().contains(group),
        0 <= i < m.groups.len(),
        m.resolver.waiting.dom().contains(m.groups[i].0),
        m.resolver.waiting[m.groups[i].0] == set![group],
        one_failed(
            (ResolverModel {
                statuses: m.resolver.statuses.insert(group, GroupStatus::Ready),
                ..m.resolver
            }),
            m.groups[i].0,
        ),
    ensures
        ({
            let after = m.trigger_dependents(group, exp);
            let d = m.groups[i].0;
            &&& after.groups[i].1.status is Skipped
            &&& after.resolver.statuses.dom().contains(d)
            &&& after.resolver.statuses[d] is Skipped
            &&& after.resolver.statuses.dom().contains(group)
            &&& after.resolver.statuses[group] is Ready
        }),
{
    assert(m.out.take(m.out.len() as int) =~= m.out);
    let d = m.groups[i].0;
    let res = m.resolver;
    dependency_laws::law_completion_hands_out(res, group);
    let r = ResolverModel { statuses: res.statuses.insert(group, GroupStatus::Ready), ..res };
    lemma_one_failed(r, d);
    let done = res.completed(group);
    assert(done.dep_failed(d) == r.dep_failed(d)) by {
        assert(done.deps(d) == r.deps(d));
        assert(forall|x: Text| done.failed_or_skipped(x) == r.failed_or_skipped(x));
    }
    let skipped = res.skipped_by(group);
    assert(skipped.contains(d));
    lemma_triggers(m, m, group, exp, i);
    start_laws::lemma_trigger_dependents(m, group, exp);
    let next = EngineModel { resolver: done, ..m }.with_group_status(group, GroupStatus::Ready);
    let m2 = next.start_waiting_groups(res.started_by(group), exp, res.waiting.dom().len());
    lemma_after_skips(m, m2, group, exp);
    run_laws::lemma_completion_keeps(m, group, exp);
    lemma_skips_mark(m, m2, skipped, i);
}

/// Skipping a list marks each group of it that is there.
proof fn lemma_skips_mark(m: EngineModel, a: EngineModel, names: Seq<Text>, i: int)
    requires
        m.wf(),
        engine_laws::keeps_groups(m, a),
        0 <= i < m.groups.len(),
        start_laws::sound(a.resolver),
        forall|x: int|
            0 <= x < names.len() ==> !a.resolver.waiting.dom().contains(#[trigger] names[x])
                && !a.resolver.ready(names[x]),
    ensures
        ({
            let b = a.cascade_skips(names);
            let g = m.groups[i].0;
            &&& engine_laws::keeps_groups(m, b)
            &&& a.groups[i].1.status is Skipped || names.contains(g)
                ==> b.groups[i].1.status is Skipped
            &&& (a.resolver.statuses.dom().contains(g) && a.resolver.statuses[g] is Skipped)
                || names.contains(g) ==> b.resolver.statuses.dom().contains(g)
                && b.resolver.statuses[g] is Skipped
        }),
    decreases names.len(),
{
    let g = m.groups[i].0;
    if names.len() > 0 {
        let short = names.drop_last();
        assert forall|x: int| 0 <= x < short.len() implies !a.resolver.waiting.dom().contains(
            #[trigger] short[x],
        ) && !a.resolver.ready(short[x]) by {
            assert(short[x] == names[x]);
        }
        lemma_skips_mark(m, a, short, i);
        start_laws::lemma_cascade_skips(a, short);
        let before = a.cascade_skips(short);
        let b = a.cascade_skips(names);
        let s = names.last();
        dependency_laws::law_failure_skips_the_stranded(before.resolver, s, GroupStatus::Skipped);
        let c = before.resolver.with_status(s, GroupStatus::Skipped).cascade(seq![s]);
        let next = EngineModel { resolver: c.0, ..before };
        engine_laws::lemma_statuses(next, s, 0, ProcessStatus::Running, GroupStatus::Skipped);
        let marked = next.with_group_status(s, GroupStatus::Skipped);
        run_laws::lemma_with_skipped_keeps(marked, c.1);
        lemma_placed(m, next, i);
        lemma_placed(m, marked, i);
        lemma_marks(m, marked, c.1, i);
        assert(b == marked.with_skipped(c.1));
        engine_laws::lemma_found(next.groups, s);
        if names.contains(g) {
            let x = names.index_of(g);
            if x < short.len() {
                assert(short[x] == g);
            }
        }
    }
}

/// Marking a list as skipped marks each group of it that is there, and no other.
proof fn lemma_marks(m: EngineModel, a: EngineModel, names: Seq<Text>, i: int)
    requires
        m.wf(),
        engine_laws::keeps_groups(m, a),
        0 <= i < m.groups.len(),
    ensures
        ({
            let b = a.with_skipped(names);
            &&& engine_laws::keeps_groups(m, b)
            &&& names.contains(m.groups[i].0) ==> b.groups[i].1.status is Skipped
            &&& !names.contains(m.groups[i].0) ==> b.groups[i] == a.groups[i]
        }),
    decreases names.len(),
{
    if names.len() > 0 {
        let short = names.drop_last();
        lemma_marks(m, a, short, i);
        let before = a.with_skipped(short);
        let s = names.last();
        assert(names[names.len() - 1] == s);
        engine_laws::lemma_statuses(before, s, 0, ProcessStatus::Running, GroupStatus::Skipped);
        lemma_placed(m, before, i);
        engine_laws::lemma_found(before.groups, s);
        let g = m.groups[i].0;
        if names.contains(g) {
            let x = names.index_of(g);
            if x < short.len() {
                assert(short[x] == g);
            }
        }
        if short.contains(g) {
            assert(names[short.index_of(g)] == g);
        }
    }
}

/// When a group fails or is skipped, each group that waits for nothing but such groups
/// is shown as Skipped, and so is the group itself; a group that still waits for
/// another keeps the status that is shown of it, and nothing is asked for.
pub proof fn law_a_skip_is_shown(m: EngineModel, group: Text, i: int)
    requires
        m.wf(),
        m.resolver.waits_well(),
        0 <= i < m.groups.len(),
    ensures
        ({
            let after = m.cascade_skip(group);
            let g = m.groups[i].0;
            &&& g == group ==> after.groups[i].1.status is Skipped
            &&& m.resolver.waiting.dom().contains(g) && m.resolver.waiting[g] == set![group]
                ==> after.groups[i].1.status is Skipped
                && after.resolver.statuses[g] is Skipped
                && !after.resolver.waiting.dom().contains(g)
            &&& g != group && !m.resolver.waiting.dom().contains(g) ==> after.groups[i]
                == m.groups[i]
            &&& g != group && after.resolver.waiting.dom().contains(g) ==> after.groups[i]
                == m.groups[i]
            &&& after.out == m.out
            &&& after.managed == m.managed
            &&& after.running == m.running
            &&& after.resolver.statuses.dom().contains(group)
            &&& after.resolver.statuses[group] is Skipped
        }),
{
    let g = m.groups[i].0;
    let r = m.resolver;
    dependency_laws::law_failure_skips_the_stranded(r, group, GroupStatus::Skipped);
    let c = r.with_status(group, GroupStatus::Skipped).cascade(seq![group]);
    let next = EngineModel { resolver: c.0, ..m };
    engine_laws::lemma_statuses(next, group, 0, ProcessStatus::Running, GroupStatus::Skipped);
    let marked = next.with_group_status(group, GroupStatus::Skipped);
    run_laws::lemma_with_skipped_keeps(marked, c.1);
    lemma_placed(m, next, i);
    engine_laws::lemma_found(next.groups, group);
    lemma_marks(m, marked, c.1, i);
    if r.waiting.dom().contains(g) && r.waiting[g] == set![group] {
        assert(r.waiting[g].subset_of(c.1.to_set().insert(group)));
        assert(c.1.contains(g));
    }
}

/// A group is affected by a change exactly when one of the changed files matches its
/// patterns.
pub proof fn law_affected_groups_are_hit(hits: Seq<PatternHits>, x: Text)
    ensures
        planning::affected(hits).contains(x) <==> exists|h: int, f: int|
            0 <= h < hits.len() && hits[h].group@ == x && 0 <= f < hits[h].files@.len()
                && #[trigger] hits[h].files@[f],
    decreases hits.len(),
{
    if hits.len() > 0 {
        let short = hits.drop_last();
        law_affected_groups_are_hit(short, x);
        let before = planning::affected(short);
        let after = planning::affected(hits);
        let last = hits.last();
        if before.contains(x) {
            assert(after[before.index_of(x)] == x);
            let (h, f) = choose|h: int, f: int|
                0 <= h < short.len() && short[h].group@ == x && 0 <= f < short[h].files@.len()
                    && #[trigger] short[h].files@[f];
            assert(hits[h].files@[f]);
        }
        if after.contains(x) && !before.contains(x) {
            let k = after.index_of(x);
            if k < before.len() {
                assert(before[k] == x);
            }
            let f = last.files@.index_of(true);
            assert(hits[hits.len() - 1].files@[f]);
        }
        if exists|h: int, f: int|
            0 <= h < hits.len() && hits[h].group@ == x && 0 <= f < hits[h].files@.len()
                && #[trigger] hits[h].files@[f] {
            let (h, f) = choose|h: int, f: int|
                0 <= h < hits.len() && hits[h].group@ == x && 0 <= f < hits[h].files@.len()
                    && #[trigger] hits[h].files@[f];
            if h < short.len() {
                assert(short[h].files@[f]);
            } else {
                assert(last.files@[f] == true);
                assert(last.files@.contains(true));
                assert(after[before.len() as int] == x);
            }
        }
    }
}

/// When a file changes that matches the patterns of a group, and no group that it
/// depends on is affected too, every task of the group whose command expands is run,
/// those that run on changes only included, or queued to run again where it is
/// running; and the time of the change is shown.
pub proof fn law_a_changed_file_runs_its_group(
    m: EngineModel,
    hits: Seq<PatternHits>,
    now: u64,
    exp: ExpansionModel,
    h: int,
    f: int,
    i: int,
    k: int,
)
    requires
        m.wf(),
        0 <= h < hits.len(),
        0 <= f < hits[h].files@.len(),
        hits[h].files@[f],
        0 <= i < m.groups.len(),
        m.groups[i].0 == hits[h].group@,
        forall|a: int, b: int|
            0 <= a < hits.len() && 0 <= b < hits[a].files@.len() && #[trigger] hits[a].files@[b]
                && m.resolver.dependencies.dom().contains(m.groups[i].0)
                ==> !m.resolver.dependencies[m.groups[i].0].contains(hits[a].group@),
        0 <= k < m.managed[i].config.tasks.len(),
        exp.expanded.dom().contains(m.managed[i].config.tasks[k].command),
    ensures
        change_laws::taken_up(
            m,
            m.changed(planning::affected(hits), now, exp),
            cascade_laws::id_at(m, i, k),
        ),
        m.changed(planning::affected(hits), now, exp).last_change == Some(now),
{
    let affected = planning::affected(hits);
    let g = m.groups[i].0;
    assert(hits[h].files@[f]);
    law_affected_groups_are_hit(hits, g);
    let at = affected.index_of(g);
    assert(affected[at] == g);
    let deps = Seq::new(affected.len(), |x: int| m.resolver.deps(affected[x]));
    assert(!planning::meets(deps[at], affected)) by {
        if planning::meets(deps[at], affected) {
            let x = choose|x: int|
                0 <= x < deps[at].len() && affected.contains(#[trigger] deps[at][x]);
            let on = deps[at][x];
            law_affected_groups_are_hit(hits, on);
            let (a, b) = choose|a: int, b: int|
                0 <= a < hits.len() && hits[a].group@ == on && 0 <= b < hits[a].files@.len()
                    && #[trigger] hits[a].files@[b];
            assert(m.resolver.dependencies[g].contains(on));
        }
    }
    engine_laws::lemma_roots(affected, deps, affected.len(), g);
    lemma_placed(m, m, i);
    change_laws::law_a_change_runs_the_tasks(m, affected, now, exp, g, i, k);
    let start = EngineModel { last_change: Some(now), ..m };
    lemma_last_change(start, m.set_off_by(affected), exp);
}

proof fn lemma_last_change(m: EngineModel, list: Seq<Text>, exp: ExpansionModel)
    ensures
        m.spawn_groups(list, true, exp).last_change == m.last_change,
    decreases list.len(),
{
    if list.len() > 0 {
        lemma_last_change(m, list.drop_last(), exp);
        let before = m.spawn_groups(list.drop_last(), true, exp);
        if let Some(i) = engine_model::find(before.groups, list.last()) {
            lemma_tasks_last_change(
                before.with_group_status(list.last(), GroupStatus::Running),
                list.last(),
                before.managed[i].config.tasks,
                before.managed[i].executor,
                exp,
                before.managed[i].config.tasks.len(),
            );
        }
    }
}

proof fn lemma_tasks_last_change(
    m: EngineModel,
    group: Text,
    tasks: Seq<crate::config::schema::TaskModel>,
    executor: crate::process::executor::ExecutorModel,
    exp: ExpansionModel,
    n: nat,
)
    ensures
        m.spawn_tasks(group, tasks, executor, true, exp, n).last_change == m.last_change,
    decreases n,
{
    if n > 0 {
        lemma_tasks_last_change(m, group, tasks, executor, exp, (n - 1) as nat);
    }
}

/// A change of files sets off only groups that are affected and have no affected
/// dependency, and each of those: nothing is run of any other group.
pub proof fn law_a_change_runs_nothing_else(
    m: EngineModel,
    hits: Seq<PatternHits>,
    now: u64,
    exp: ExpansionModel,
    j: int,
)
    requires
        m.wf(),
        m.out.len() <= j < m.changed(planning::affected(hits), now, exp).out.len(),
        m.changed(planning::affected(hits), now, exp).out[j] is Run,
    ensures
        ({
            let g = m.changed(planning::affected(hits), now, exp).out[j]->Run_0.group_name;
            &&& exists|h: int, f: int|
                0 <= h < hits.len() && hits[h].group@ == g && 0 <= f < hits[h].files@.len()
                    && #[trigger] hits[h].files@[f]
            &&& forall|a: int, b: int|
                0 <= a < hits.len() && 0 <= b < hits[a].files@.len() && #[trigger] hits[a].files@[b]
                    && m.resolver.dependencies.dom().contains(g)
                    ==> !m.resolver.dependencies[g].contains(hits[a].group@)
        }),
{
    let affected = planning::affected(hits);
    let start = EngineModel { last_change: Some(now), ..m };
    let list = m.set_off_by(affected);
    lemma_asks_of_list(start, list, exp, j);
    let g = m.changed(affected, now, exp).out[j]->Run_0.group_name;
    assert(list.contains(g));
    let deps = Seq::new(affected.len(), |x: int| m.resolver.deps(affected[x]));
    engine_laws::lemma_roots(affected, deps, affected.len(), g);
    let at = choose|at: int|
        0 <= at < affected.len() && #[trigger] affected[at] == g && !planning::meets(
            deps[at],
            affected,
        );
    assert(affected.contains(g));
    law_affected_groups_are_hit(hits, g);
    assert forall|a: int, b: int|
        0 <= a < hits.len() && 0 <= b < hits[a].files@.len() && #[trigger] hits[a].files@[b]
            && m.resolver.dependencies.dom().contains(g) implies !m.resolver.dependencies[g].contains(
        hits[a].group@,
    ) by {
        let on = hits[a].group@;
        law_affected_groups_are_hit(hits, on);
        if m.resolver.dependencies[g].contains(on) {
            let x = deps[at].index_of(on);
            assert(affected.contains(deps[at][x]));
        }
    }
}

proof fn lemma_asks_of_list(m: EngineModel, list: Seq<Text>, exp: ExpansionModel, j: int)
    requires
        m.out.len() <= j < m.spawn_groups(list, true, exp).out.len(),
        m.spawn_groups(list, true, exp).out[j] is Run,
    ensures
        list.contains(m.spawn_groups(list, true, exp).out[j]->Run_0.group_name),
    decreases list.len(),
{
    if list.len() > 0 {
        let short = list.drop_last();
        let before = m.spawn_groups(short, true, exp);
        let after = m.spawn_groups(list, true, exp);
        engine_laws::law_spawning_keeps(m, short, true, exp);
        engine_laws::lemma_spawn_group(before, list.last(), true, exp);
        if j < before.out.len() {
            assert(after.out.take(before.out.len() as int)[j] == after.out[j]);
            lemma_asks_of_list(m, short, exp, j);
            let g = after.out[j]->Run_0.group_name;
            assert(list[short.index_of(g)] == g);
        } else {
            start_laws::lemma_spawn_group_asks(before, list.last(), true, exp);
            assert(list[list.len() - 1] == list.last());
        }
    }
}

} // verus!
