//! Laws of a configuration that is loaded anew, and of what is watched.

use crate::config::schema::GroupConfig;
use crate::daemon::engine;
use crate::daemon::engine_laws;
use crate::daemon::engine_model::{self, ActionModel, EngineModel, SetupModel};
use crate::daemon::planning;
use crate::daemon::run_laws;
use crate::text::Text;
use vstd::prelude::*;

verus! {

/// Whether SIGTERM for the process group of a process has been asked for since.
pub open spec fn terminated_since(m: EngineModel, after: EngineModel, pid: u32) -> bool {
    exists|j: int|
        m.out.len() <= j < after.out.len() && #[trigger] after.out[j] == ActionModel::Terminate(pid)
}

/// The process that a service of a group runs as, where it is known.
pub open spec fn process_of(m: EngineModel, i: int, k: int) -> Option<u32> {
    if m.managed[i].services[k].child is Some {
        m.managed[i].services[k].child->0.pid
    } else {
        None
    }
}

/// Whether stopping services changed no more than that: the groups and their
/// configuration stay, and each service keeps its process.
pub open spec fn stops_only(m: EngineModel, a: EngineModel) -> bool {
    &&& engine_laws::asks_on(m, a)
    &&& a.groups == m.groups
    &&& a.setup == m.setup
    &&& a.order == m.order
    &&& a.resolver == m.resolver
    &&& a.running == m.running
    &&& a.pending == m.pending
    &&& a.managed.len() == m.managed.len()
    &&& forall|i: int, k: int|
        0 <= i < m.managed.len() && 0 <= k < m.managed[i].services.len()
            ==> #[trigger] a.managed[i].services[k].child == m.managed[i].services[k].child
            && a.managed[i].services[k].config == m.managed[i].services[k].config
    &&& forall|i: int|
        0 <= i < m.managed.len() ==> (#[trigger] a.managed[i]).services.len()
            == m.managed[i].services.len()
    &&& forall|j: int|
        m.out.len() <= j < a.out.len() ==> (#[trigger] a.out[j]) is Terminate
}

proof fn lemma_stops_trans(m: EngineModel, a: EngineModel, b: EngineModel)
    requires
        stops_only(m, a),
        stops_only(a, b),
    ensures
        stops_only(m, b),
{
    engine_laws::lemma_asks_trans(m, a, b);
    assert forall|j: int| m.out.len() <= j < b.out.len() implies (#[trigger] b.out[j]) is Terminate by {
        if j < a.out.len() {
            assert(b.out.take(a.out.len() as int)[j] == b.out[j]);
            assert(a.out[j] is Terminate);
        }
    }
    assert forall|i: int, k: int|
        0 <= i < m.managed.len() && 0 <= k < m.managed[i].services.len() implies
        #[trigger] b.managed[i].services[k].child == m.managed[i].services[k].child
        && b.managed[i].services[k].config == m.managed[i].services[k].config by {
        assert(a.managed[i].services.len() == m.managed[i].services.len());
        assert(a.managed[i].services[k].child == m.managed[i].services[k].child);
    }
    assert forall|i: int| 0 <= i < m.managed.len() implies (#[trigger] b.managed[i]).services.len()
        == m.managed[i].services.len() by {
        assert(a.managed[i].services.len() == m.managed[i].services.len());
    }
}

proof fn lemma_terminated_on(m: EngineModel, a: EngineModel, b: EngineModel, pid: u32)
    requires
        terminated_since(m, a, pid),
        engine_laws::asks_on(a, b),
    ensures
        terminated_since(m, b, pid),
{
    let j = choose|j: int|
        m.out.len() <= j < a.out.len() && #[trigger] a.out[j] == ActionModel::Terminate(pid);
    assert(b.out.take(a.out.len() as int)[j] == b.out[j]);
}

proof fn lemma_stop_services(m: EngineModel, i: int, n: nat)
    requires
        0 <= i < m.managed.len(),
        n <= m.managed[i].services.len(),
    ensures
        ({
            let after = m.stop_services(i, n);
            &&& stops_only(m, after)
            &&& forall|k: int|
                0 <= k < n ==> (#[trigger] after.managed[i].services[k]).state is Stopping && (
                process_of(m, i, k) is Some ==> terminated_since(
                    m,
                    after,
                    process_of(m, i, k)->0,
                ))
        }),
    decreases n,
{
    if n == 0 {
        assert(m.out.take(m.out.len() as int) =~= m.out);
    } else {
        lemma_stop_services(m, i, (n - 1) as nat);
        let before = m.stop_services(i, (n - 1) as nat);
        let after = m.stop_services(i, n);
        assert(before.managed[i].services.len() == m.managed[i].services.len());
        assert(before.managed[i].services[n - 1].child == m.managed[i].services[n - 1].child);
        assert(stops_only(before, after)) by {
            assert(after.out.take(before.out.len() as int) =~= before.out);
        }
        lemma_stops_trans(m, before, after);
        assert forall|k: int| 0 <= k < n implies (#[trigger] after.managed[i].services[k]).state is Stopping
            && (process_of(m, i, k) is Some ==> terminated_since(
            m,
            after,
            process_of(m, i, k)->0,
        )) by {
            if k < n - 1 {
                assert(before.managed[i].services[k].state is Stopping);
                assert(after.managed[i].services[k] == before.managed[i].services[k]);
                if process_of(m, i, k) is Some {
                    lemma_terminated_on(m, before, after, process_of(m, i, k)->0);
                }
            } else if process_of(m, i, k) is Some {
                assert(after.out[before.out.len() as int] == ActionModel::Terminate(
                    process_of(m, i, k)->0,
                ));
            }
        }
    }
}

proof fn lemma_stop_groups(m: EngineModel, names: Seq<Text>, i: int, k: int)
    requires
        m.managed.len() == m.groups.len(),
        forall|a: int, b: int|
            0 <= a < b < m.groups.len() ==> (#[trigger] m.groups[a]).0 != (
            #[trigger] m.groups[b]).0,
        0 <= i < m.groups.len(),
        0 <= k < m.managed[i].services.len(),
    ensures
        stops_only(m, m.stop_groups(names)),
        names.contains(m.groups[i].0) && process_of(m, i, k) is Some ==> terminated_since(
            m,
            m.stop_groups(names),
            process_of(m, i, k)->0,
        ),
    decreases names.len(),
{
    if names.len() == 0 {
        assert(m.out.take(m.out.len() as int) =~= m.out);
    } else {
        let short = names.drop_last();
        lemma_stop_groups(m, short, i, k);
        let before = m.stop_groups(short);
        let after = m.stop_groups(names);
        let name = m.groups[i].0;
        engine_laws::lemma_found(before.groups, names.last());
        assert(before.out.take(before.out.len() as int) =~= before.out);
        if let Some(x) = engine_model::find(before.groups, names.last()) {
            lemma_stop_services(before, x, before.managed[x].services.len());
            lemma_stops_trans(m, before, after);
            if names.contains(name) && process_of(m, i, k) is Some {
                let pid = process_of(m, i, k)->0;
                if short.contains(name) {
                    lemma_terminated_on(m, before, after, pid);
                } else {
                    let at = names.index_of(name);
                    if at < short.len() {
                        assert(short[at] == name);
                    }
                    assert(m.groups[x].0 == m.groups[i].0);
                    if x < i {
                        assert(m.groups[x].0 != m.groups[i].0);
                    } else if i < x {
                        assert(m.groups[i].0 != m.groups[x].0);
                    }
                    assert(before.managed[i].services.len() == m.managed[i].services.len());
                    assert(before.managed[i].services[k].child == m.managed[i].services[k].child);
                    assert(process_of(before, i, k) == Some(pid));
                    assert(after.managed[i].services[k].state is Stopping);
                    assert(terminated_since(before, after, pid));
                    let j = choose|j: int|
                        before.out.len() <= j < after.out.len() && #[trigger] after.out[j]
                            == ActionModel::Terminate(pid);
                    assert(after.out[j] == ActionModel::Terminate(pid));
                }
            }
        } else if names.contains(name) {
            assert(before.groups[i].0 == name);
            let at = names.index_of(name);
            if at < short.len() {
                assert(short[at] == name);
            }
        }
    }
}

/// A group is modified by a reload exactly when both configurations have one of its
/// name and the two differ; where a name is borne once on each side, there is no
/// doubt which two.
pub proof fn law_modified_groups_differ(olds: Seq<GroupConfig>, news: Seq<GroupConfig>, a: int, b: int)
    requires
        0 <= a < olds.len(),
        0 <= b < news.len(),
        olds[a].name == news[b].name,
        forall|x: int| 0 <= x < olds.len() && (#[trigger] olds[x]).name == olds[a].name ==> x == a,
        forall|x: int| 0 <= x < news.len() && (#[trigger] news[x]).name == news[b].name ==> x == b,
    ensures
        planning::modified_names(olds, news).contains(news[b].name) <==> olds[a] != news[b],
{
    lemma_first(olds, news[b].name, a);
    lemma_modified(olds, news, news[b].name);
    if olds[a] != news[b] {
        assert(news[b].name == news[b].name);
    }
}

/// A group that only one of two configurations has is not modified.
pub proof fn law_modified_groups_are_in_both(olds: Seq<GroupConfig>, news: Seq<GroupConfig>, x: Text)
    requires
        planning::modified_names(olds, news).contains(x),
    ensures
        exists|a: int| 0 <= a < olds.len() && (#[trigger] olds[a]).name == x,
        exists|b: int| 0 <= b < news.len() && (#[trigger] news[b]).name == x,
{
    lemma_modified(olds, news, x);
    lemma_first_found(olds, x);
}

proof fn lemma_first_found(groups: Seq<GroupConfig>, name: Text)
    ensures
        planning::first_named(groups, name) matches Some(g) ==> exists|a: int|
            0 <= a < groups.len() && #[trigger] groups[a] == g && g.name == name,
    decreases groups.len(),
{
    if groups.len() > 0 {
        if groups[0].name != name {
            lemma_first_found(groups.drop_first(), name);
            if let Some(g) = planning::first_named(groups.drop_first(), name) {
                let a = choose|a: int|
                    0 <= a < groups.drop_first().len() && #[trigger] groups.drop_first()[a] == g
                        && g.name == name;
                assert(groups[a + 1] == g);
            }
        } else {
            assert(groups[0] == groups[0]);
        }
    }
}

proof fn lemma_first(groups: Seq<GroupConfig>, name: Text, a: int)
    requires
        0 <= a < groups.len(),
        groups[a].name == name,
        forall|x: int| 0 <= x < groups.len() && (#[trigger] groups[x]).name == name ==> x == a,
    ensures
        planning::first_named(groups, name) == Some(groups[a]),
    decreases groups.len(),
{
    if a > 0 {
        assert(groups[0].name != name);
        let rest = groups.drop_first();
        assert forall|x: int| 0 <= x < rest.len() && (#[trigger] rest[x]).name == name implies x == a
            - 1 by {
            assert(groups[x + 1].name == name);
        }
        lemma_first(rest, name, a - 1);
    }
}

proof fn lemma_modified(olds: Seq<GroupConfig>, news: Seq<GroupConfig>, x: Text)
    ensures
        planning::modified_names(olds, news).contains(x) <==> exists|b: int|
            0 <= b < news.len() && (#[trigger] news[b]).name == x && planning::first_named(
                olds,
                x,
            ) is Some && planning::first_named(olds, x)->Some_0 != news[b],
    decreases news.len(),
{
    if news.len() > 0 {
        let short = news.drop_last();
        lemma_modified(olds, short, x);
        let before = planning::modified_names(olds, short);
        let after = planning::modified_names(olds, news);
        let g = news.last();
        if exists|b: int|
            0 <= b < short.len() && (#[trigger] short[b]).name == x && planning::first_named(
                olds,
                x,
            ) is Some && planning::first_named(olds, x)->Some_0 != short[b] {
            let b = choose|b: int|
                0 <= b < short.len() && (#[trigger] short[b]).name == x && planning::first_named(
                    olds,
                    x,
                ) is Some && planning::first_named(olds, x)->Some_0 != short[b];
            assert(news[b].name == x);
        }
        if before.contains(x) {
            let j = before.index_of(x);
            assert(after[j] == x);
        }
        if after.contains(x) && !before.contains(x) {
            let j = after.index_of(x);
            if j < before.len() {
                assert(before[j] == x);
            }
            assert(g.name == x);
            assert(news[news.len() - 1].name == x);
        }
        if exists|b: int|
            0 <= b < news.len() && (#[trigger] news[b]).name == x && planning::first_named(
                olds,
                x,
            ) is Some && planning::first_named(olds, x)->Some_0 != news[b] {
            let b = choose|b: int|
                0 <= b < news.len() && (#[trigger] news[b]).name == x && planning::first_named(
                    olds,
                    x,
                ) is Some && planning::first_named(olds, x)->Some_0 != news[b];
            if b < short.len() {
                assert(short[b].name == x);
            } else {
                assert(after[before.len() as int] == x);
            }
        }
    }
}

/// When a configuration is loaded anew, SIGTERM is asked for of the process of every
/// service of every group that is removed or modified: the groups are built anew, and
/// what was asked for stays asked for.
pub proof fn law_a_reload_stops_removed_and_modified_groups(
    m: EngineModel,
    removed: Seq<Text>,
    modified: Seq<Text>,
    setup: SetupModel,
    order: Seq<Text>,
    i: int,
    k: int,
)
    requires
        m.wf(),
        0 <= i < m.groups.len(),
        0 <= k < m.managed[i].services.len(),
        removed.contains(m.groups[i].0) || modified.contains(m.groups[i].0),
        m.managed[i].services[k].child is Some,
        m.managed[i].services[k].child->0.pid is Some,
    ensures
        ({
            let stopped = m.stop_groups(removed).stop_groups(modified);
            let pid = m.managed[i].services[k].child->0.pid->0;
            &&& terminated_since(m, stopped, pid)
            &&& terminated_since(m, stopped.reconfigured(setup, order), pid)
            &&& terminated_since(m, stopped.reconfigured(setup, order).rebuilt(), pid)
        }),
{
    let pid = m.managed[i].services[k].child->0.pid->0;
    assert(process_of(m, i, k) == Some(pid));
    lemma_stop_groups(m, removed, i, k);
    let first = m.stop_groups(removed);
    assert(first.managed[i].services.len() == m.managed[i].services.len());
    assert(first.managed[i].services[k].child == m.managed[i].services[k].child);
    lemma_stops_wf(m, first);
    lemma_stop_groups(first, modified, i, k);
    let stopped = first.stop_groups(modified);
    if removed.contains(m.groups[i].0) {
        lemma_terminated_on(m, first, stopped, pid);
    } else {
        let j = choose|j: int|
            first.out.len() <= j < stopped.out.len() && #[trigger] stopped.out[j]
                == ActionModel::Terminate(pid);
        assert(stopped.out[j] == ActionModel::Terminate(pid));
    }
    let next = stopped.reconfigured(setup, order);
    assert(next.out.take(stopped.out.len() as int) =~= stopped.out);
    assert(next.rebuilt().out.take(stopped.out.len() as int) =~= stopped.out);
    lemma_terminated_on(m, stopped, next, pid);
    lemma_terminated_on(m, stopped, next.rebuilt(), pid);
}

proof fn lemma_stops_wf(m: EngineModel, a: EngineModel)
    requires
        m.wf(),
        stops_only(m, a),
    ensures
        a.groups.len() == m.groups.len(),
        a.managed.len() == a.groups.len(),
        forall|i: int, j: int|
            0 <= i < j < a.groups.len() ==> (#[trigger] a.groups[i]).0 != (
            #[trigger] a.groups[j]).0,
{
}

/// Stopping groups asks for nothing but SIGTERM, and leaves the groups, their order
/// and their dependencies as they are.
pub proof fn law_a_reload_stops_and_no_more(m: EngineModel, names: Seq<Text>)
    requires
        m.wf(),
    ensures
        stops_only(m, m.stop_groups(names)),
    decreases names.len(),
{
    if names.len() == 0 {
        assert(m.out.take(m.out.len() as int) =~= m.out);
    } else {
        law_a_reload_stops_and_no_more(m, names.drop_last());
        let before = m.stop_groups(names.drop_last());
        engine_laws::lemma_found(before.groups, names.last());
        if let Some(x) = engine_model::find(before.groups, names.last()) {
            lemma_stop_services(before, x, before.managed[x].services.len());
            lemma_stops_trans(m, before, m.stop_groups(names));
        }
    }
}

/// After a reload the engine has the groups of the new configuration in their order,
/// each managed as configured and shown as not yet run; the shown state has them too.
pub proof fn law_a_reload_takes_the_new_configuration(
    m: EngineModel,
    setup: SetupModel,
    order: Seq<Text>,
    i: int,
)
    requires
        forall|a: int, b: int|
            0 <= a < b < setup.groups.len() ==> (#[trigger] setup.groups[a]).name != (
            #[trigger] setup.groups[b]).name,
        0 <= i < setup.groups.len(),
    ensures
        ({
            let after = m.reconfigured(setup, order).rebuilt();
            let c = setup.groups[i];
            &&& after.setup == setup
            &&& after.order == order
            &&& after.groups.len() == setup.groups.len()
            &&& after.groups[i].0 == c.name
            &&& after.groups[i].1.status is Pending
            &&& after.groups[i].1.tasks.len() == c.tasks.len()
            &&& after.managed.len() == setup.groups.len()
            &&& run_laws::managed_as_configured(after.managed[i], c, setup)
            &&& after.snapshot == after.groups
            &&& after.out == m.out
            &&& after.running == m.running
            &&& after.resolver == EngineModel::initial(setup, order).resolver
        }),
{
    run_laws::law_a_new_engine_is_as_configured(setup, order, i);
}

proof fn lemma_listed(
    list: Seq<Text>,
    more: Seq<Text>,
    p: Text,
)
    ensures
        (list + more).contains(p) <==> list.contains(p) || more.contains(p),
{
    let all = list + more;
    if all.contains(p) {
        let x = all.index_of(p);
        if x < list.len() {
            assert(list[x] == p);
        } else {
            assert(more[x - list.len()] == p);
        }
    }
    if list.contains(p) {
        assert(all[list.index_of(p)] == p);
    }
    if more.contains(p) {
        assert(all[list.len() + more.index_of(p)] == p);
    }
}

/// A pattern is watched if and only if it is a pattern of some group of the
/// configuration.
pub proof fn law_every_pattern_is_watched(groups: Seq<GroupConfig>, p: Text)
    ensures
        engine::all_patterns(groups).contains(p) <==> exists|i: int, j: int|
            0 <= i < groups.len() && 0 <= j < groups[i].patterns.len()
                && #[trigger] groups[i].patterns[j] == p,
    decreases groups.len(),
{
    if groups.len() > 0 {
        let short = groups.drop_last();
        law_every_pattern_is_watched(short, p);
        lemma_listed(engine::all_patterns(short), groups.last().patterns, p);
        if groups.last().patterns.contains(p) {
            let j = groups.last().patterns.index_of(p);
            assert(groups[groups.len() - 1].patterns[j] == p);
        }
        if engine::all_patterns(short).contains(p) {
            let (i, j) = choose|i: int, j: int|
                0 <= i < short.len() && 0 <= j < short[i].patterns.len()
                    && #[trigger] short[i].patterns[j] == p;
            assert(groups[i].patterns[j] == p);
        }
        if exists|i: int, j: int|
            0 <= i < groups.len() && 0 <= j < groups[i].patterns.len()
                && #[trigger] groups[i].patterns[j] == p {
            let (i, j) = choose|i: int, j: int|
                0 <= i < groups.len() && 0 <= j < groups[i].patterns.len()
                    && #[trigger] groups[i].patterns[j] == p;
            if i < short.len() {
                assert(short[i].patterns[j] == p);
            } else {
                assert(groups.last().patterns[j] == p);
            }
        }
    }
}

/// A pattern is ignored if and only if some group of the configuration ignores it.
pub proof fn law_every_ignored_pattern_is_ignored(groups: Seq<GroupConfig>, p: Text)
    ensures
        engine::all_ignores(groups).contains(p) <==> exists|i: int, j: int|
            0 <= i < groups.len() && 0 <= j < groups[i].ignore.len()
                && #[trigger] groups[i].ignore[j] == p,
    decreases groups.len(),
{
    if groups.len() > 0 {
        let short = groups.drop_last();
        law_every_ignored_pattern_is_ignored(short, p);
        lemma_listed(engine::all_ignores(short), groups.last().ignore, p);
        if groups.last().ignore.contains(p) {
            let j = groups.last().ignore.index_of(p);
            assert(groups[groups.len() - 1].ignore[j] == p);
        }
        if engine::all_ignores(short).contains(p) {
            let (i, j) = choose|i: int, j: int|
                0 <= i < short.len() && 0 <= j < short[i].ignore.len()
                    && #[trigger] short[i].ignore[j] == p;
            assert(groups[i].ignore[j] == p);
        }
        if exists|i: int, j: int|
            0 <= i < groups.len() && 0 <= j < groups[i].ignore.len()
                && #[trigger] groups[i].ignore[j] == p {
            let (i, j) = choose|i: int, j: int|
                0 <= i < groups.len() && 0 <= j < groups[i].ignore.len()
                    && #[trigger] groups[i].ignore[j] == p;
            if i < short.len() {
                assert(short[i].ignore[j] == p);
            } else {
                assert(groups.last().ignore[j] == p);
            }
        }
    }
}

} // verus!
