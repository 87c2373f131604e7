//! What holds of a [`ResolverModel`] across its operations.

use crate::daemon::dependency::{self, ResolverModel};
use crate::daemon::state::GroupStatus;
use crate::text::Text;
use vstd::prelude::*;

verus! {

impl ResolverModel {
    /// The two dependency maps mirror each other.
    pub open spec fn mirrored(self) -> bool {
        forall|d: Text, x: Text|
            #![trigger self.dependents_of(x).contains(d)]
            #![trigger self.deps(d).contains(x)]
            self.dependents_of(x).contains(d) <==> self.deps(d).contains(x)
    }

    /// Every waiting group waits for something, only for its own dependencies,
    /// and is known to them as a dependent.
    pub open spec fn waits_well(self) -> bool {
        &&& self.waiting.dom().finite()
        &&& forall|d: Text| #[trigger]
            self.waiting.dom().contains(d) ==> self.waiting[d] != Set::<Text>::empty()
        &&& forall|d: Text, x: Text|
            self.waiting.dom().contains(d) && #[trigger] self.waiting[d].contains(x)
                ==> self.dependents_of(x).contains(d) && self.deps(d).contains(x)
    }

    /// Every dependency of a waiting group is still waited for, or is Ready, or
    /// has failed or been skipped.
    pub open spec fn accounted(self) -> bool {
        forall|d: Text, x: Text|
            self.waiting.dom().contains(d) && #[trigger] self.deps(d).contains(x)
                ==> self.waiting[d].contains(x) || self.ready(x) || self.failed_or_skipped(x)
    }
}

/// What `freed` lists.
proof fn lemma_freed(m: ResolverModel, group: Text)
    ensures
        m.freed(group).no_duplicates(),
        forall|d: Text| #[trigger]
            m.freed(group).contains(d) <==> m.dependents_of(group).contains(d) && m.frees(group, d),
{
    let all = dependency::distinct(m.dependents_of(group));
    let p = |d: Text| m.frees(group, d);
    dependency::lemma_distinct(m.dependents_of(group));
    lemma_filter(all, p);
}

/// What `filter` keeps.
proof fn lemma_filter(s: Seq<Text>, p: spec_fn(Text) -> bool)
    ensures
        forall|d: Text| #[trigger] s.filter(p).contains(d) <==> s.contains(d) && p(d),
        s.no_duplicates() ==> s.filter(p).no_duplicates(),
    decreases s.len(),
{
    reveal(Seq::filter);
    if s.len() > 0 {
        let init = s.drop_last();
        lemma_filter(init, p);
        assert forall|d: Text| #[trigger] s.filter(p).contains(d) <==> s.contains(d) && p(d) by {
            if s.contains(d) && p(d) {
                let i = s.index_of(d);
                if i < init.len() {
                    assert(init[i] == d);
                    assert(init.contains(d));
                    assert(init.filter(p).contains(d));
                    assert(s.filter(p)[init.filter(p).index_of(d)] == d);
                } else {
                    assert(s.filter(p)[init.filter(p).len() as int] == d);
                }
            }
            if s.filter(p).contains(d) {
                let j = s.filter(p).index_of(d);
                if j < init.filter(p).len() {
                    assert(init.filter(p)[j] == d);
                    assert(init.filter(p).contains(d));
                    assert(s[init.index_of(d)] == d);
                } else {
                    assert(s[s.len() - 1] == d);
                }
            }
        }
        if s.no_duplicates() {
            assert(init.no_duplicates());
            assert(!init.contains(s.last())) by {
                if init.contains(s.last()) {
                    assert(s[init.index_of(s.last())] == s.last());
                }
            }
            assert(!init.filter(p).contains(s.last()));
        }
    }
}

/// Releasing a group takes it out of every waiting set.
proof fn lemma_released(m: ResolverModel, group: Text)
    requires
        m.waits_well(),
    ensures
        m.released(group).waits_well(),
        forall|d: Text| #[trigger]
            m.released(group).waiting.dom().contains(d) <==> m.waiting.dom().contains(d)
                && !m.freed(group).contains(d),
        forall|d: Text| #[trigger]
            m.released(group).waiting.dom().contains(d) ==> m.released(group).waiting[d]
                == m.waiting[d].remove(group),
        forall|d: Text| #[trigger]
            m.freed(group).contains(d) ==> m.waiting.dom().contains(d) && m.waiting[d]
                == set![group],
        forall|d: Text| #[trigger]
            m.waiting.dom().contains(d) && m.waiting[d] == set![group] ==> m.freed(
                group,
            ).contains(d),
{
    let n = m.released(group);
    lemma_freed(m, group);
    m.lemma_released_shrinks(group);
    assert forall|d: Text| #[trigger] m.freed(group).contains(d) implies m.waiting[d]
        == set![group] by {
        assert(m.waiting[d] =~= set![group]) by {
            assert forall|x: Text| m.waiting[d].contains(x) implies x == group by {
                if x != group {
                    assert(m.waiting[d].remove(group).contains(x));
                }
            }
            if !m.waiting[d].contains(group) {
                assert(m.waiting[d] =~= Set::<Text>::empty());
            }
        }
    }
    assert forall|d: Text| #[trigger]
        m.waiting.dom().contains(d) && m.waiting[d] == set![group] implies m.freed(
        group,
    ).contains(d) by {
        assert(m.waiting[d].contains(group));
        assert(m.waiting[d].remove(group) =~= Set::<Text>::empty());
    }
    assert forall|d: Text| #[trigger] n.waiting.dom().contains(d) implies n.waiting[d]
        == m.waiting[d].remove(group) by {
        if !m.dependents_of(group).contains(d) {
            assert(!m.waiting[d].contains(group));
            assert(m.waiting[d].remove(group) =~= m.waiting[d]);
        }
    }
    assert forall|d: Text| #[trigger] n.waiting.dom().contains(d) implies n.waiting[d] != Set::<
        Text,
    >::empty() by {
        if m.dependents_of(group).contains(d) {
            assert(!m.frees(group, d));
        }
    }
}

/// What a cascade from `stack` does: with `skipped` the groups it skips, a
/// waiting group is skipped exactly when all that it waits for is on the stack
/// or skipped, each after all that it waited for; the rest no longer wait for
/// any of those.
pub proof fn lemma_cascade(m: ResolverModel, stack: Seq<Text>)
    requires
        m.waits_well(),
    ensures
        ({
            let n = m.cascade(stack).0;
            let skipped = m.cascade(stack).1;
            let dead = stack.to_set().union(skipped.to_set());
            &&& n.waits_well()
            &&& n.dependents == m.dependents
            &&& n.dependencies == m.dependencies
            &&& n.statuses == m.statuses_skipping(skipped)
            &&& skipped.no_duplicates()
            &&& forall|d: Text| #[trigger]
                skipped.contains(d) <==> m.waiting.dom().contains(d) && m.waiting[d].subset_of(dead)
            &&& forall|i: int|
                0 <= i < skipped.len() ==> m.waiting[#[trigger] skipped[i]].subset_of(
                    stack.to_set().union(skipped.take(i).to_set()),
                )
            &&& forall|d: Text| #[trigger]
                n.waiting.dom().contains(d) <==> m.waiting.dom().contains(d) && !skipped.contains(d)
            &&& forall|d: Text| #[trigger]
                n.waiting.dom().contains(d) ==> n.waiting[d] == m.waiting[d].difference(dead)
        }),
    decreases m.waiting.dom().len(), stack.len(),
{
    if stack.len() == 0 {
        let skipped = Seq::<Text>::empty();
        let dead = stack.to_set().union(skipped.to_set());
        assert(m.cascade(stack) == (m, skipped));
        assert(dead =~= Set::<Text>::empty());
        assert(m.statuses =~= m.statuses_skipping(skipped));
        assert forall|d: Text| #[trigger]
            m.waiting.dom().contains(d) implies !m.waiting[d].subset_of(dead) by {
            if m.waiting[d].subset_of(dead) {
                assert(m.waiting[d] =~= Set::<Text>::empty());
            }
        }
        assert forall|d: Text| #[trigger] m.waiting.dom().contains(d) implies m.waiting[d]
            == m.waiting[d].difference(dead) by {
            assert(m.waiting[d] =~= m.waiting[d].difference(dead));
        }
    } else {
        let c = stack.last();
        let freed = m.freed(c);
        let m1 = m.released(c);
        let stack1 = stack.drop_last() + freed;
        lemma_released(m, c);
        lemma_freed(m, c);
        m.lemma_released_shrinks(c);
        lemma_cascade(m1, stack1);
        let n = m.cascade(stack).0;
        let skipped1 = m1.cascade(stack1).1;
        let skipped = m.cascade(stack).1;
        assert(skipped == freed + skipped1);
        assert(n == m1.cascade(stack1).0);
        let dead1 = stack1.to_set().union(skipped1.to_set());
        let dead = stack.to_set().union(skipped.to_set());
        lemma_concat(freed, skipped1);
        lemma_concat(stack.drop_last(), freed);
        assert forall|x: Text| #[trigger] stack.contains(x) <==> stack.drop_last().contains(x) || x
            == c by {
            if stack.contains(x) && x != c {
                assert(stack.drop_last()[stack.index_of(x)] == x);
            }
            if stack.drop_last().contains(x) {
                assert(stack[stack.drop_last().index_of(x)] == x);
            }
            assert(stack[stack.len() - 1] == c);
        }
        assert(dead =~= dead1.insert(c));
        assert forall|d: Text| #[trigger] skipped.contains(d) <==> m.waiting.dom().contains(d)
            && m.waiting[d].subset_of(dead) by {
            if freed.contains(d) {
                assert(m.waiting[d] == set![c]);
                assert(m.waiting[d].subset_of(dead));
            } else if skipped1.contains(d) {
                assert(m1.waiting[d].subset_of(dead1));
                assert forall|x: Text| m.waiting[d].contains(x) implies dead.contains(x) by {
                    if x != c {
                        assert(m1.waiting[d].contains(x));
                    }
                }
            } else if m.waiting.dom().contains(d) && m.waiting[d].subset_of(dead) {
                assert(m1.waiting.dom().contains(d));
                assert forall|x: Text| m1.waiting[d].contains(x) implies dead1.contains(x) by {
                    assert(m.waiting[d].contains(x));
                }
                assert(false);
            }
        }
        assert(skipped.no_duplicates()) by {
            assert forall|i: int, j: int| 0 <= i < j < skipped.len() implies skipped[i]
                != skipped[j] by {
                if i < freed.len() && j >= freed.len() {
                    assert(freed.contains(skipped[i]));
                    assert(skipped1.contains(skipped1[j - freed.len()]));
                    assert(m1.waiting.dom().contains(skipped[j]));
                }
            }
        }
        assert forall|i: int| 0 <= i < skipped.len() implies m.waiting[#[trigger] skipped[i]].subset_of(
            stack.to_set().union(skipped.take(i).to_set()),
        ) by {
            let d = skipped[i];
            if i < freed.len() {
                assert(freed.contains(d));
                assert(stack.contains(c));
            } else {
                let k = i - freed.len();
                assert(skipped1.contains(skipped1[k]));
                assert(m1.waiting.dom().contains(d));
                lemma_concat(freed, skipped1.take(k));
                assert(skipped.take(i) =~= freed + skipped1.take(k));
                assert forall|x: Text| m.waiting[d].contains(x) implies stack.to_set().union(
                    skipped.take(i).to_set(),
                ).contains(x) by {
                    if x == c {
                        assert(stack.contains(c));
                    } else {
                        assert(m1.waiting[d].contains(x));
                        assert(stack1.contains(x) || skipped1.take(k).contains(x));
                    }
                }
            }
        }
        assert forall|d: Text| #[trigger] n.waiting.dom().contains(d) implies n.waiting[d]
            == m.waiting[d].difference(dead) by {
            assert(m1.waiting.dom().contains(d));
            assert(n.waiting[d] == m1.waiting[d].difference(dead1));
            assert(n.waiting[d] =~= m.waiting[d].difference(dead));
        }
        assert(n.statuses =~= m.statuses_skipping(skipped));
    }
}

/// Membership in a concatenation.
proof fn lemma_concat(a: Seq<Text>, b: Seq<Text>)
    ensures
        forall|x: Text| #[trigger] (a + b).contains(x) <==> a.contains(x) || b.contains(x),
{
    assert forall|x: Text| #[trigger] (a + b).contains(x) <==> a.contains(x) || b.contains(x) by {
        if a.contains(x) {
            assert((a + b)[a.index_of(x)] == x);
        }
        if b.contains(x) {
            assert((a + b)[a.len() + b.index_of(x)] == x);
        }
        if (a + b).contains(x) {
            let i = (a + b).index_of(x);
            if i < a.len() {
                assert(a[i] == x);
            } else {
                assert(b[i - a.len()] == x);
            }
        }
    }
}

/// The dependents table after `name` was linked to `deps`.
proof fn lemma_link(dependents: Map<Text, Seq<Text>>, name: Text, deps: Seq<Text>)
    ensures
        ({
            let linked = ResolverModel::link(dependents, name, deps);
            &&& forall|x: Text| #[trigger]
                linked.dom().contains(x) <==> dependents.dom().contains(x) || deps.contains(x)
            &&& forall|x: Text, d: Text| #[trigger]
                linked[x].contains(d) && linked.dom().contains(x) <==> (dependents.dom().contains(x)
                    && dependents[x].contains(d)) || (d == name && deps.contains(x))
            &&& forall|x: Text|
                dependents.dom().contains(x) && !deps.contains(x) ==> #[trigger] linked[x]
                    == dependents[x]
        }),
    decreases deps.len(),
{
    if deps.len() > 0 {
        let init = deps.drop_last();
        let last = deps.last();
        lemma_link(dependents, name, init);
        let before = ResolverModel::link(dependents, name, init);
        let linked = ResolverModel::link(dependents, name, deps);
        assert(deps =~= init.push(last));
        assert forall|x: Text| #[trigger] deps.contains(x) <==> init.contains(x) || x == last by {
            if deps.contains(x) && x != last {
                assert(init[deps.index_of(x)] == x);
            }
            if init.contains(x) {
                assert(deps[init.index_of(x)] == x);
            }
            assert(deps[deps.len() - 1] == last);
        }
        assert forall|x: Text, d: Text| #[trigger]
            linked[x].contains(d) && linked.dom().contains(x) <==> (dependents.dom().contains(x)
                && dependents[x].contains(d)) || (d == name && deps.contains(x)) by {
            assert(before[x].contains(d) && before.dom().contains(x) <==> (dependents.dom().contains(
                x,
            ) && dependents[x].contains(d)) || (d == name && init.contains(x)));
            if x == last {
                if before.dom().contains(x) {
                    lemma_concat(before[x], seq![name]);
                    assert(linked[x] =~= before[x] + seq![name]);
                    assert(seq![name][0] == name);
                } else {
                    assert(linked[x] == seq![name]);
                    assert(linked[x][0] == name);
                    assert(!dependents.dom().contains(x));
                }
            }
        }
    }
}

/// Adding a group under a new name keeps the two dependency maps mirrored, and
/// does not disturb what waits.
pub proof fn law_added_keeps(m: ResolverModel, name: Text, deps: Seq<Text>)
    requires
        m.mirrored(),
        m.waits_well(),
        !m.dependencies.dom().contains(name),
    ensures
        m.added(name, deps).mirrored(),
        m.added(name, deps).waits_well(),
{
    let n = m.added(name, deps);
    lemma_link(m.dependents, name, deps);
    assert forall|d: Text, x: Text|
        n.dependents_of(x).contains(d) <==> #[trigger] n.deps(d).contains(x) by {
        assert(m.dependents_of(x).contains(d) <==> m.deps(d).contains(x));
        assert(n.dependents[x].contains(d) && n.dependents.dom().contains(x) <==> (
        m.dependents.dom().contains(x) && m.dependents[x].contains(d)) || (d == name
            && deps.contains(x)));
    }
    assert forall|d: Text, x: Text|
        n.waiting.dom().contains(d) && #[trigger] n.waiting[d].contains(x) implies n.dependents_of(
        x,
    ).contains(d) && n.deps(d).contains(x) by {
        assert(m.dependents_of(x).contains(d) && m.deps(d).contains(x));
        assert(n.dependents[x].contains(d) && n.dependents.dom().contains(x));
    }
}

/// A resolver built from groups with distinct names has mirrored dependency
/// maps, and nothing in it waits.
pub proof fn law_built_is_mirrored(groups: Seq<(Text, Seq<Text>)>)
    requires
        forall|i: int, j: int| 0 <= i < j < groups.len() ==> groups[i].0 != groups[j].0,
    ensures
        ResolverModel::of_groups(groups).mirrored(),
        ResolverModel::of_groups(groups).waits_well(),
        ResolverModel::of_groups(groups).accounted(),
        ResolverModel::of_groups(groups).waiting == Map::<Text, Set<Text>>::empty(),
        forall|g: Text| #[trigger]
            ResolverModel::of_groups(groups).dependencies.dom().contains(g) ==> exists|i: int|
                0 <= i < groups.len() && (#[trigger] groups[i]).0 == g,
    decreases groups.len(),
{
    if groups.len() > 0 {
        let init = groups.drop_last();
        law_built_is_mirrored(init);
        assert forall|g: Text| #[trigger]
            ResolverModel::of_groups(groups).dependencies.dom().contains(g) implies exists|i: int|
            0 <= i < groups.len() && (#[trigger] groups[i]).0 == g by {
            if ResolverModel::of_groups(init).dependencies.dom().contains(g) {
                let i = choose|i: int| 0 <= i < init.len() && (#[trigger] init[i]).0 == g;
                assert(groups[i].0 == g);
            } else {
                assert(groups[groups.len() - 1].0 == g);
            }
        }
        let name = groups.last().0;
        if ResolverModel::of_groups(init).dependencies.dom().contains(name) {
            let i = choose|i: int| 0 <= i < init.len() && (#[trigger] init[i]).0 == name;
            assert(groups[i].0 != groups[groups.len() - 1].0);
        }
        law_added_keeps(ResolverModel::of_groups(init), name, groups.last().1);
    } else {
        assert(ResolverModel::empty().waiting.dom() =~= Set::<Text>::empty());
    }
}

/// A group that is made to wait waits well: for something, and only for its own
/// dependencies. A group that was neither Ready nor Failed nor Skipped leaves every
/// dependency accounted for.
pub proof fn law_marked_waiting_keeps(m: ResolverModel, group: Text)
    requires
        m.mirrored(),
        m.waits_well(),
    ensures
        m.marked_waiting(group).mirrored(),
        m.marked_waiting(group).waits_well(),
        m.accounted() && !m.ready(group) && !m.failed_or_skipped(group) ==> m.marked_waiting(group).accounted(),
{
    let n = m.marked_waiting(group);
    assert forall|d: Text, x: Text|
        n.dependents_of(x).contains(d) <==> #[trigger] n.deps(d).contains(x) by {
        assert(m.dependents_of(x).contains(d) <==> m.deps(d).contains(x));
    }
    assert forall|d: Text, x: Text|
        n.waiting.dom().contains(d) && #[trigger] n.waiting[d].contains(x) implies n.dependents_of(
        x,
    ).contains(d) && n.deps(d).contains(x) by {
        assert(m.dependents_of(x).contains(d) <==> m.deps(d).contains(x));
        if d == group && m.unready(group) != Set::<Text>::empty() {
        } else {
            assert(m.waiting[d].contains(x));
        }
    }
    if m.accounted() && !m.ready(group) && !m.failed_or_skipped(group) {
        assert forall|d: Text, x: Text|
            n.waiting.dom().contains(d) && #[trigger] n.deps(d).contains(x) implies n.waiting[d].contains(
        x) || n.ready(x) || n.failed_or_skipped(x) by {
            assert(m.deps(d).contains(x));
        }
    }
}

/// Completing a group keeps what waits well and accounted for.
pub proof fn law_completed_keeps(m: ResolverModel, group: Text)
    requires
        m.mirrored(),
        m.waits_well(),
    ensures
        m.completed(group).mirrored(),
        m.completed(group).waits_well(),
        m.accounted() ==> m.completed(group).accounted(),
{
    let n = m.completed(group);
    let m1 = m.with_status(group, GroupStatus::Ready);
    assert(m1.waits_well()) by {
        assert forall|d: Text, x: Text|
            m1.waiting.dom().contains(d) && #[trigger] m1.waiting[d].contains(
                x,
            ) implies m1.dependents_of(x).contains(d) && m1.deps(d).contains(x) by {
            assert(m.waiting[d].contains(x));
            assert(m.dependents_of(x).contains(d) && m.deps(d).contains(x));
        }
    }
    lemma_released(m1, group);
    assert(n.waiting =~= m1.released(group).waiting);
    assert forall|d: Text, x: Text|
        n.dependents_of(x).contains(d) <==> #[trigger] n.deps(d).contains(x) by {
        assert(m.dependents_of(x).contains(d) <==> m.deps(d).contains(x));
    }
    assert forall|d: Text, x: Text|
        n.waiting.dom().contains(d) && #[trigger] n.waiting[d].contains(x) implies n.dependents_of(
        x,
    ).contains(d) && n.deps(d).contains(x) by {
        assert(m1.waiting[d].contains(x));
    }
    if m.accounted() {
        assert forall|d: Text, x: Text|
            n.waiting.dom().contains(d) && #[trigger] n.deps(d).contains(x) implies n.waiting[d].contains(
        x) || n.ready(x) || n.failed_or_skipped(x) by {
            assert(m.deps(d).contains(x));
        }
    }
}

/// When a group completes, the groups that waited for it alone are handed out,
/// each once and no longer waiting: those with a failed or skipped dependency to
/// be skipped, the others to be started.
pub proof fn law_completion_hands_out(m: ResolverModel, group: Text)
    requires
        m.waits_well(),
    ensures
        m.started_by(group).no_duplicates(),
        m.skipped_by(group).no_duplicates(),
        forall|d: Text| #[trigger]
            m.started_by(group).contains(d) <==> m.waiting.dom().contains(d) && m.waiting[d]
                == set![group] && !m.completed(group).dep_failed(d),
        forall|d: Text| #[trigger]
            m.skipped_by(group).contains(d) <==> m.waiting.dom().contains(d) && m.waiting[d]
                == set![group] && m.completed(group).dep_failed(d),
        forall|d: Text| #[trigger]
            m.completed(group).waiting.dom().contains(d) <==> m.waiting.dom().contains(d)
                && m.waiting[d] != set![group],
{
    let m1 = m.with_status(group, GroupStatus::Ready);
    let n = m.completed(group);
    assert(m1.waits_well()) by {
        assert forall|d: Text, x: Text|
            m1.waiting.dom().contains(d) && #[trigger] m1.waiting[d].contains(
                x,
            ) implies m1.dependents_of(x).contains(d) && m1.deps(d).contains(x) by {
            assert(m.waiting[d].contains(x));
            assert(m.dependents_of(x).contains(d) && m.deps(d).contains(x));
        }
    }
    lemma_released(m1, group);
    lemma_freed(m1, group);
    lemma_filter(m1.freed(group), |d: Text| !m1.dep_failed(d));
    lemma_filter(m1.freed(group), |d: Text| m1.dep_failed(d));
    assert(n.waiting =~= m1.released(group).waiting);
    assert forall|d: Text| #[trigger] n.dep_failed(d) == m1.dep_failed(d) by {
        assert(n.deps(d) == m1.deps(d));
        assert(forall|x: Text| n.failed_or_skipped(x) == m1.failed_or_skipped(x));
    }
}

/// A group is started only when every one of its dependencies is Ready.
pub proof fn law_started_with_all_dependencies_ready(m: ResolverModel, group: Text, d: Text, x: Text)
    requires
        m.waits_well(),
        m.accounted(),
        m.started_by(group).contains(d),
        m.deps(d).contains(x),
    ensures
        m.completed(group).ready(x),
{
    law_completion_hands_out(m, group);
    let n = m.completed(group);
    assert(!n.dep_failed(d));
    let i = m.deps(d).index_of(x);
    assert(n.deps(d)[i] == x);
    assert(!n.failed_or_skipped(x));
    if x != group {
        assert(!m.waiting[d].contains(x));
    }
}

/// A group that fails or is skipped takes with it exactly the groups that can no
/// longer be started: with `skipped` the groups it takes, a waiting group is one
/// of them exactly when all that it waits for is the group itself or one of
/// them, and each comes after all that it waited for. They end Skipped and wait
/// no more; no other status changes, and the rest wait on for what is left.
pub proof fn law_failure_skips_the_stranded(m: ResolverModel, group: Text, status: GroupStatus)
    requires
        m.waits_well(),
    ensures
        ({
            let start = m.with_status(group, status);
            let n = start.cascade(seq![group]).0;
            let skipped = start.cascade(seq![group]).1;
            let dead = skipped.to_set().insert(group);
            &&& n.waits_well()
            &&& skipped.no_duplicates()
            &&& forall|d: Text| #[trigger]
                skipped.contains(d) <==> m.waiting.dom().contains(d) && m.waiting[d].subset_of(dead)
            &&& forall|i: int|
                0 <= i < skipped.len() ==> m.waiting[#[trigger] skipped[i]].subset_of(
                    skipped.take(i).to_set().insert(group),
                )
            &&& n.statuses == start.statuses_skipping(skipped)
            &&& forall|d: Text| #[trigger]
                n.waiting.dom().contains(d) <==> m.waiting.dom().contains(d) && !skipped.contains(d)
            &&& forall|d: Text| #[trigger]
                n.waiting.dom().contains(d) ==> n.waiting[d] == m.waiting[d].difference(dead)
        }),
{
    let start = m.with_status(group, status);
    assert(start.waits_well()) by {
        assert forall|d: Text, x: Text|
            start.waiting.dom().contains(d) && #[trigger] start.waiting[d].contains(
                x,
            ) implies start.dependents_of(x).contains(d) && start.deps(d).contains(x) by {
            assert(m.waiting[d].contains(x));
            assert(m.dependents_of(x).contains(d) && m.deps(d).contains(x));
        }
    }
    lemma_cascade(start, seq![group]);
    let skipped = start.cascade(seq![group]).1;
    assert(seq![group][0] == group);
    assert(seq![group].to_set() =~= set![group]);
    assert(seq![group].to_set().union(skipped.to_set()) =~= skipped.to_set().insert(group));
    assert forall|i: int| 0 <= i < skipped.len() implies m.waiting[#[trigger] skipped[i]].subset_of(
        skipped.take(i).to_set().insert(group),
    ) by {
        assert(seq![group].to_set().union(skipped.take(i).to_set()) =~= skipped.take(
            i,
        ).to_set().insert(group));
    }
}

/// A failure or a skip leaves every dependency of a waiting group accounted for.
pub proof fn law_failure_keeps_accounted(m: ResolverModel, group: Text, status: GroupStatus)
    requires
        m.waits_well(),
        m.mirrored(),
        m.accounted(),
        status == GroupStatus::Failed || status == GroupStatus::Skipped,
    ensures
        m.with_status(group, status).cascade(seq![group]).0.accounted(),
        m.with_status(group, status).cascade(seq![group]).0.mirrored(),
{
    law_failure_skips_the_stranded(m, group, status);
    let start = m.with_status(group, status);
    let n = start.cascade(seq![group]).0;
    let skipped = start.cascade(seq![group]).1;
    let dead = skipped.to_set().insert(group);
    assert(start.waits_well()) by {
        assert forall|d: Text, x: Text|
            start.waiting.dom().contains(d) && #[trigger] start.waiting[d].contains(
                x,
            ) implies start.dependents_of(x).contains(d) && start.deps(d).contains(x) by {
            assert(m.waiting[d].contains(x));
        }
    }
    lemma_cascade(start, seq![group]);
    assert forall|d: Text, x: Text|
        n.dependents_of(x).contains(d) <==> #[trigger] n.deps(d).contains(x) by {
        assert(m.dependents_of(x).contains(d) <==> m.deps(d).contains(x));
    }
    assert forall|d: Text, x: Text|
        n.waiting.dom().contains(d) && #[trigger] n.deps(d).contains(x) implies n.waiting[d].contains(
    x) || n.ready(x) || n.failed_or_skipped(x) by {
        assert(m.deps(d).contains(x));
        assert(m.waiting.dom().contains(d));
    }
}

/// Removing a group just added under a new name, on which nothing depends,
/// gives back every answer about dependencies, dependents, statuses and waiting.
pub proof fn law_remove_undoes_add(m: ResolverModel, name: Text, deps: Seq<Text>)
    requires
        m.mirrored(),
        m.waits_well(),
        !m.dependencies.dom().contains(name),
        !m.dependents.dom().contains(name),
        !m.statuses.dom().contains(name),
        !m.waiting.dom().contains(name),
        !deps.contains(name),
    ensures
        ({
            let n = m.added(name, deps).removed(name);
            &&& n.waiting == m.waiting
            &&& n.statuses == m.statuses
            &&& n.dependencies == m.dependencies
            &&& forall|g: Text| #[trigger] n.dependents_of(g) == m.dependents_of(g)
        }),
{
    let a = m.added(name, deps);
    let n = a.removed(name);
    lemma_link(m.dependents, name, deps);
    assert forall|d: Text| #[trigger] m.waiting.dom().contains(d) implies n.waiting[d]
        == m.waiting[d] by {
        if m.waiting[d].contains(name) {
            assert(m.dependents_of(name).contains(d));
        }
        assert(m.waiting[d].remove(name) =~= m.waiting[d]);
    }
    assert(n.waiting =~= m.waiting);
    assert(n.statuses =~= m.statuses);
    assert forall|d: Text| #[trigger] m.dependencies.dom().contains(d) implies n.dependencies[d]
        == m.dependencies[d] by {
        if m.deps(d).contains(name) {
            assert(m.dependents_of(name).contains(d));
        }
        lemma_without_absent(m.dependencies[d], name);
    }
    assert(n.dependencies =~= m.dependencies);
    assert forall|g: Text| #[trigger] n.dependents_of(g) == m.dependents_of(g) by {
        assert(!m.dependents_of(g).contains(name)) by {
            assert(m.dependents_of(g).contains(name) <==> m.deps(name).contains(g));
        }
        if g != name {
            if deps.contains(g) {
                lemma_link_appends(m.dependents, name, deps, g);
                lemma_filter_drops(m.dependents_of(g), a.dependents_of(g), name);
                assert(n.dependents.dom().contains(g));
                assert(n.dependents[g] == dependency::without_name(a.dependents[g], name));
            } else if m.dependents.dom().contains(g) {
                assert(a.dependents[g] == m.dependents[g]);
                lemma_without_absent(m.dependents[g], name);
            } else {
                assert(!a.dependents.dom().contains(g));
            }
        }
    }
}

/// Taking out a name that is not there changes nothing.
proof fn lemma_without_absent(s: Seq<Text>, name: Text)
    requires
        !s.contains(name),
    ensures
        dependency::without_name(s, name) == s,
{
    assert(s.take(s.len() as int) =~= s);
    lemma_filter_drops(s, s, name);
}

/// A list without a name holds exactly the others.
proof fn lemma_without(s: Seq<Text>, name: Text, x: Text)
    ensures
        dependency::without_name(s, name).contains(x) <==> s.contains(x) && x != name,
    decreases s.len(),
{
    reveal(Seq::filter);
    if s.len() > 0 {
        let short = s.drop_last();
        let kept = dependency::without_name(short, name);
        lemma_without(short, name, x);
        assert(s =~= short.push(s.last()));
        if short.contains(x) {
            assert(s[short.index_of(x)] == x);
        }
        if s.contains(x) && s.index_of(x) < short.len() {
            assert(short[s.index_of(x)] == x);
        }
        if s.last() != name {
            let all = kept.push(s.last());
            if kept.contains(x) {
                assert(all[kept.index_of(x)] == x);
            }
            if all.contains(x) && all.index_of(x) < kept.len() {
                assert(kept[all.index_of(x)] == x);
            }
            assert(all[kept.len() as int] == s.last());
            assert(s[s.len() - 1] == s.last());
        }
    }
}

/// A group that was removed is gone: nothing is known of it, no other group
/// depends on it or waits for it, and the other groups depend on each other as
/// before.
pub proof fn law_a_removed_group_is_gone(m: ResolverModel, name: Text, g: Text, x: Text)
    ensures
        ({
            let n = m.removed(name);
            &&& !n.statuses.dom().contains(name)
            &&& !n.waiting.dom().contains(name)
            &&& n.deps(name).len() == 0
            &&& n.dependents_of(name).len() == 0
            &&& n.deps(g).contains(x) <==> g != name && x != name && m.deps(g).contains(x)
            &&& n.dependents_of(g).contains(x) <==> g != name && x != name
                && m.dependents_of(g).contains(x)
            &&& n.waiting.dom().contains(g) ==> !n.waiting[g].contains(name)
            &&& m.mirrored() ==> n.mirrored()
        }),
{
    let n = m.removed(name);
    assert forall|a: Text, b: Text|
        #![trigger n.deps(a).contains(b)]
        n.deps(a).contains(b) <==> a != name && b != name && m.deps(a).contains(b) by {
        lemma_without(m.deps(a), name, b);
    }
    assert forall|a: Text, b: Text|
        #![trigger n.dependents_of(a).contains(b)]
        n.dependents_of(a).contains(b) <==> a != name && b != name && m.dependents_of(a).contains(
            b,
        ) by {
        lemma_without(m.dependents_of(a), name, b);
    }
    if m.mirrored() {
        assert forall|d: Text, y: Text|
            #![trigger n.dependents_of(y).contains(d)]
            n.dependents_of(y).contains(d) <==> n.deps(d).contains(y) by {
            assert(m.dependents_of(y).contains(d) <==> m.deps(d).contains(y));
        }
        assert(n.mirrored());
    }
}

/// Linking only appends the linked name.
proof fn lemma_link_appends(dependents: Map<Text, Seq<Text>>, name: Text, deps: Seq<Text>, g: Text)
    requires
        deps.contains(g) || dependents.dom().contains(g),
    ensures
        ({
            let base = if dependents.dom().contains(g) {
                dependents[g]
            } else {
                Seq::empty()
            };
            let linked = ResolverModel::link(dependents, name, deps)[g];
            &&& ResolverModel::link(dependents, name, deps).dom().contains(g)
            &&& linked.len() >= base.len()
            &&& linked.take(base.len() as int) == base
            &&& forall|i: int| base.len() <= i < linked.len() ==> linked[i] == name
        }),
    decreases deps.len(),
{
    if deps.len() > 0 {
        let init = deps.drop_last();
        let base = if dependents.dom().contains(g) {
            dependents[g]
        } else {
            Seq::empty()
        };
        let before = ResolverModel::link(dependents, name, init);
        let linked = ResolverModel::link(dependents, name, deps)[g];
        if init.contains(g) || dependents.dom().contains(g) {
            lemma_link_appends(dependents, name, init, g);
            if g == deps.last() {
                assert(linked == before[g].push(name));
                assert(linked.take(base.len() as int) =~= before[g].take(base.len() as int));
            }
        } else {
            assert(g == deps.last()) by {
                if deps.index_of(g) < init.len() {
                    assert(init[deps.index_of(g)] == g);
                }
            }
            lemma_link(dependents, name, init);
            assert(!before.dom().contains(g));
            assert(linked == seq![name]);
            assert(linked.take(0) =~= base);
        }
    } else {
        assert(dependents[g].take(dependents[g].len() as int) =~= dependents[g]);
    }
}

/// Filtering out a name that was only appended gives the list before.
proof fn lemma_filter_drops(base: Seq<Text>, longer: Seq<Text>, name: Text)
    requires
        longer.len() >= base.len(),
        longer.take(base.len() as int) == base,
        !base.contains(name),
        forall|i: int| base.len() <= i < longer.len() ==> longer[i] == name,
    ensures
        dependency::without_name(longer, name) == base,
    decreases longer.len(),
{
    let p = |d: Text| d != name;
    reveal(Seq::filter);
    if longer.len() > base.len() {
        assert(longer.drop_last().take(base.len() as int) =~= base);
        lemma_filter_drops(base, longer.drop_last(), name);
    } else {
        assert(longer =~= base);
        if base.len() > 0 {
            let shorter = base.drop_last();
            assert(!shorter.contains(name)) by {
                if shorter.contains(name) {
                    assert(base[shorter.index_of(name)] == name);
                }
            }
            assert(shorter.take(shorter.len() as int) =~= shorter);
            lemma_filter_drops(shorter, shorter, name);
            assert(base[base.len() - 1] == base.last());
            assert(base =~= shorter.push(base.last()));
        }
    }
}

} // verus!
