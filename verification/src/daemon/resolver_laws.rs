//! Laws of single steps of the dependency resolver, and of what commands expand to.

use crate::daemon::dependency::ResolverModel;
use crate::daemon::state::GroupStatus;
use crate::daemon::trigger::ExpansionModel;
use crate::text::Text;
use vstd::prelude::*;

verus! {

/// The dependencies of a group that are not Ready, as the resolver has them.
pub open spec fn lacking(r: ResolverModel, group: Text, d: Text) -> bool {
    &&& r.dependencies.dom().contains(group)
    &&& r.dependencies[group].contains(d)
    &&& !(r.statuses.dom().contains(d) && r.statuses[d] is Ready)
}

/// A group that is made to wait waits for exactly the dependencies that are not Ready,
/// and is Waiting; one that lacks none is left as it is. No other group changes.
pub proof fn law_a_group_waits_for_what_it_lacks(r: ResolverModel, group: Text, d: Text, x: Text)
    ensures
        ({
            let after = r.marked_waiting(group);
            &&& lacking(r, group, d) ==> after.waiting.dom().contains(group)
                && after.waiting[group].contains(d) && after.statuses.dom().contains(group)
                && after.statuses[group] is Waiting
            &&& (exists|y: Text| lacking(r, group, y)) && !lacking(r, group, d)
                ==> !after.waiting[group].contains(d)
            &&& !(exists|y: Text| lacking(r, group, y)) ==> after == r
            &&& x != group ==> (after.waiting.dom().contains(x) <==> r.waiting.dom().contains(x))
                && (r.waiting.dom().contains(x) ==> after.waiting[x] == r.waiting[x])
            &&& x != group && r.statuses.dom().contains(x) ==> after.statuses[x] == r.statuses[x]
            &&& after.dependencies == r.dependencies
            &&& after.dependents == r.dependents
        }),
{
    assert forall|y: Text| lacking(r, group, y) <==> #[trigger] r.unready(group).contains(y) by {}
    if lacking(r, group, d) {
        assert(r.unready(group).contains(d));
    }
    if exists|y: Text| lacking(r, group, y) {
        let y = choose|y: Text| lacking(r, group, y);
        assert(r.unready(group).contains(y));
    } else {
        assert(r.unready(group) =~= Set::<Text>::empty());
    }
}

/// A group that is added is Pending, has the dependencies that it is added with, and is
/// known to each of them as a dependent; nothing else is known of another group than
/// before.
pub proof fn law_an_added_group_is_known(
    r: ResolverModel,
    name: Text,
    deps: Seq<Text>,
    x: Text,
)
    ensures
        ({
            let after = r.added(name, deps);
            &&& after.statuses.dom().contains(name)
            &&& after.statuses[name] is Pending
            &&& after.dependencies.dom().contains(name)
            &&& after.dependencies[name] == deps
            &&& deps.contains(x) ==> after.dependents.dom().contains(x)
                && after.dependents[x].contains(name)
            &&& !deps.contains(x) && r.dependents.dom().contains(x)
                ==> after.dependents.dom().contains(x) && after.dependents[x] == r.dependents[x]
            &&& x != name && r.dependencies.dom().contains(x) ==> after.dependencies[x]
                == r.dependencies[x] && after.dependencies.dom().contains(x)
            &&& x != name && r.statuses.dom().contains(x) ==> after.statuses[x] == r.statuses[x]
            &&& after.waiting == r.waiting
        }),
{
    lemma_linked(r.dependents, name, deps, x);
}

proof fn lemma_linked(dependents: Map<Text, Seq<Text>>, name: Text, deps: Seq<Text>, x: Text)
    ensures
        ({
            let after = ResolverModel::link(dependents, name, deps);
            &&& deps.contains(x) ==> after.dom().contains(x) && after[x].contains(name)
            &&& !deps.contains(x) ==> (after.dom().contains(x) <==> dependents.dom().contains(x))
            &&& !deps.contains(x) && dependents.dom().contains(x) ==> after[x] == dependents[x]
        }),
    decreases deps.len(),
{
    if deps.len() > 0 {
        let short = deps.drop_last();
        lemma_linked(dependents, name, short, x);
        let before = ResolverModel::link(dependents, name, short);
        let after = ResolverModel::link(dependents, name, deps);
        let d = deps.last();
        assert(deps[deps.len() - 1] == d);
        if deps.contains(x) {
            let k = deps.index_of(x);
            if k < short.len() {
                assert(short[k] == x);
            }
            if x == d {
                if before.dom().contains(x) {
                    assert(after[x][before[x].len() as int] == name);
                } else {
                    assert(after[x][0] == name);
                }
            }
        } else {
            if short.contains(x) {
                assert(deps[short.index_of(x)] == x);
            }
        }
    }
}

/// A reset leaves every known group Pending and nothing waiting; the dependencies stay.
pub proof fn law_a_reset_starts_over(r: ResolverModel, x: Text)
    ensures
        ({
            let after = r.reset();
            &&& after.statuses.dom().contains(x) <==> r.statuses.dom().contains(x)
            &&& r.statuses.dom().contains(x) ==> after.statuses[x] is Pending
            &&& !after.waiting.dom().contains(x)
            &&& after.dependencies == r.dependencies
            &&& after.dependents == r.dependents
        }),
{
}

/// Whether no group is Ready.
pub open spec fn none_ready(r: ResolverModel) -> bool {
    forall|x: Text| #[trigger] r.statuses.dom().contains(x) ==> !(r.statuses[x] is Ready)
}

proof fn lemma_initialised(r: ResolverModel, order: Seq<Text>, g: Text)
    requires
        none_ready(r),
        order.no_duplicates(),
    ensures
        ({
            let after = r.initialised(order);
            &&& none_ready(after)
            &&& after.dependencies == r.dependencies
            &&& order.contains(g) ==> (r.startable(order).contains(g) <==> r.deps(g).len() == 0)
            &&& !order.contains(g) ==> !r.startable(order).contains(g)
            &&& order.contains(g) && r.deps(g).len() > 0 ==> after.waiting.dom().contains(g)
                && after.waiting[g] == r.deps(g).to_set() && after.statuses.dom().contains(g)
                && after.statuses[g] is Waiting
        }),
    decreases order.len(),
{
    if order.len() > 0 {
        let short = order.drop_last();
        let x = order.last();
        assert(order[order.len() - 1] == x);
        assert(!short.contains(x)) by {
            if short.contains(x) {
                let k = short.index_of(x);
                assert(order[k] == order[order.len() - 1]);
            }
        }
        assert(short.no_duplicates()) by {
            assert forall|i: int, j: int|
                0 <= i < short.len() && 0 <= j < short.len() && i != j implies short[i]
                != short[j] by {
                assert(order[i] != order[j]);
            }
        }
        lemma_initialised(r, short, g);
        lemma_initialised(r, short, x);
        let before = r.initialised(short);
        let list = r.startable(short);
        assert(before.unready(x) =~= r.deps(x).to_set()) by {
            assert forall|d: Text| before.unready(x).contains(d) <==> r.deps(x).contains(d) by {}
        }
        assert(r.deps(x).to_set() == Set::<Text>::empty() <==> r.deps(x).len() == 0) by {
            if r.deps(x).len() > 0 {
                assert(r.deps(x).contains(r.deps(x)[0]));
                assert(r.deps(x).to_set().contains(r.deps(x)[0]));
            } else {
                assert(r.deps(x).to_set() =~= Set::<Text>::empty());
            }
        }
        if order.contains(g) && g != x {
            let k = order.index_of(g);
            assert(short[k] == g);
        }
        if short.contains(g) {
            assert(order[short.index_of(g)] == g);
        }
        let after_list = r.startable(order);
        if list.contains(g) {
            assert(after_list[list.index_of(g)] == g);
        }
        if after_list.contains(g) && g != x {
            let k = after_list.index_of(g);
            assert(list[k] == g);
        }
        if r.deps(x).len() == 0 {
            assert(after_list[list.len() as int] == x);
        }
    }
}

/// At the start, when no group is Ready yet, exactly the groups without dependencies can
/// start, and each of the others waits for all of its dependencies.
pub proof fn law_groups_without_dependencies_start_first(
    r: ResolverModel,
    order: Seq<Text>,
    g: Text,
)
    requires
        none_ready(r),
        order.no_duplicates(),
        order.contains(g),
    ensures
        ({
            let after = r.initialised(order);
            let free = !r.dependencies.dom().contains(g) || r.dependencies[g].len() == 0;
            &&& free <==> r.startable(order).contains(g)
            &&& !free ==> after.waiting.dom().contains(g) && after.statuses[g] is Waiting
                && forall|d: Text| #[trigger]
                after.waiting[g].contains(d) <==> r.dependencies[g].contains(d)
        }),
{
    lemma_initialised(r, order, g);
}

/// A command expands to what was recorded for it, if that was a success, and else it does
/// not expand: for the recorded reason, where there is one.
pub proof fn law_a_command_expands_as_recorded(exp: ExpansionModel, t: Text)
    ensures
        exp.expanded.dom().contains(t) ==> exp.of(t) == Ok::<Text, Text>(exp.expanded[t]),
        !exp.expanded.dom().contains(t) ==> exp.of(t) is Err,
        !exp.expanded.dom().contains(t) && exp.failed.dom().contains(t) ==> exp.of(t) == Err::<
            Text,
            Text,
        >(exp.failed[t]),
{
}

/// Whether a group is Ready, or has failed or been skipped, is told by its status; where
/// there is no such group, it is neither.
pub proof fn law_readiness_is_told_by_the_status(r: ResolverModel, x: Text, s: GroupStatus)
    ensures
        r.ready(x) <==> r.statuses.dom().contains(x) && r.statuses[x] is Ready,
        r.failed_or_skipped(x) <==> r.statuses.dom().contains(x) && (r.statuses[x] is Failed
            || r.statuses[x] is Skipped),
        r.with_status(x, s).statuses.dom().contains(x),
        r.with_status(x, s).statuses[x] == s,
        r.with_status(x, s).waiting == r.waiting,
        r.with_status(x, s).dependencies == r.dependencies,
        r.dependencies.dom().contains(x) ==> r.deps(x) == r.dependencies[x],
        !r.dependencies.dom().contains(x) ==> r.deps(x).len() == 0,
        r.dependents.dom().contains(x) ==> r.dependents_of(x) == r.dependents[x],
        !r.dependents.dom().contains(x) ==> r.dependents_of(x).len() == 0,
        r.dep_failed(x) <==> exists|i: int|
            0 <= i < r.deps(x).len() && r.failed_or_skipped(#[trigger] r.deps(x)[i]),
{
}

/// A group that completes is Ready, and no group waits for it any more; what else a group
/// waits for, it goes on waiting for.
pub proof fn law_nobody_waits_for_a_completed_group(r: ResolverModel, group: Text, d: Text, x: Text)
    requires
        r.waits_well(),
    ensures
        ({
            let after = r.completed(group);
            &&& after.statuses.dom().contains(group)
            &&& after.statuses[group] is Ready
            &&& after.waiting.dom().contains(d) ==> !after.waiting[d].contains(group)
            &&& after.waiting.dom().contains(d) ==> r.waiting.dom().contains(d)
            &&& x != group && r.waiting.dom().contains(d) && r.waiting[d].contains(x)
                ==> after.waiting.dom().contains(d) && after.waiting[d].contains(x)
            &&& d != group && r.statuses.dom().contains(d) ==> after.statuses[d] == r.statuses[d]
            &&& after.dependencies == r.dependencies
        }),
{
    if r.waiting.dom().contains(d) && r.waiting[d].contains(group) {
        assert(r.dependents_of(group).contains(d));
    }
    if x != group && r.waiting.dom().contains(d) && r.waiting[d].contains(x) {
        assert(r.waiting[d].remove(group).contains(x));
        let m = r.with_status(group, GroupStatus::Ready);
        assert(!r.frees(group, d));
    }
}

} // verus!
