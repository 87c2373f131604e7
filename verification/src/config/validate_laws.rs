//! What a validated configuration is.

use crate::config::schema::{self, DaemonModel, GroupConfig, TaskModel};
use crate::config::validate;
use crate::graph;
use crate::text::Text;
use vstd::prelude::*;

verus! {

/// Whether the commands of a group are well: none is empty, and no two tasks
/// and no two daemons share a name.
pub open spec fn commands_valid(g: GroupConfig) -> bool {
    &&& forall|i: int| 0 <= i < g.tasks.len() ==> (#[trigger] g.tasks[i]).command.len() > 0
    &&& validate::task_names(g.tasks).no_duplicates()
    &&& forall|i: int| 0 <= i < g.daemons.len() ==> (#[trigger] g.daemons[i]).command.len() > 0
    &&& validate::daemon_names(g.daemons).no_duplicates()
}

/// Whether the patterns of a group are all glob patterns.
pub open spec fn patterns_valid(g: GroupConfig) -> bool {
    &&& forall|i: int|
        0 <= i < g.patterns.len() ==> validate::glob_error(#[trigger] g.patterns[i]) is None
    &&& forall|i: int|
        0 <= i < g.ignore.len() ==> validate::glob_error(#[trigger] g.ignore[i]) is None
}

/// Whether a group has a name and something in it.
pub open spec fn group_filled(g: GroupConfig) -> bool {
    &&& g.name.len() > 0
    &&& g.patterns.len() > 0 || g.tasks.len() > 0 || g.daemons.len() > 0
}

/// Whether a group depends only on groups that there are, and not on itself.
pub open spec fn references_valid(g: GroupConfig, names: Seq<Text>) -> bool {
    forall|i: int|
        0 <= i < g.depends_on.len() ==> names.contains(#[trigger] g.depends_on[i])
            && g.depends_on[i] != g.name
}

/// Whether a configuration is valid: its groups are filled and named apart, they
/// depend on each other without a circle, and their patterns and commands are
/// well.
pub open spec fn valid(groups: Seq<GroupConfig>) -> bool {
    &&& forall|i: int| 0 <= i < groups.len() ==> group_filled(#[trigger] groups[i])
    &&& graph::group_names(groups).no_duplicates()
    &&& forall|i: int|
        0 <= i < groups.len() ==> references_valid(
            #[trigger] groups[i],
            graph::group_names(groups),
        )
    &&& forall|p: Seq<Text>| !graph::is_cycle(graph::dependency_graph(groups), p)
    &&& forall|i: int| 0 <= i < groups.len() ==> patterns_valid(#[trigger] groups[i])
    &&& forall|i: int| 0 <= i < groups.len() ==> commands_valid(#[trigger] groups[i])
}

proof fn lemma_distinct_step(s: Seq<Text>)
    requires
        s.len() > 0,
    ensures
        s.no_duplicates() <==> s.drop_last().no_duplicates() && !s.drop_last().contains(s.last()),
{
    let short = s.drop_last();
    if s.no_duplicates() && short.contains(s.last()) {
        let i = short.index_of(s.last());
        assert(s[i] == s[s.len() - 1]);
    }
    if short.no_duplicates() && !short.contains(s.last()) {
        assert forall|i: int, j: int| 0 <= i < s.len() && 0 <= j < s.len() && i != j implies s[i]
            != s[j] by {
            if i < short.len() && j < short.len() {
                assert(short[i] != short[j]);
            } else if i < short.len() {
                assert(short.contains(short[i]));
            } else {
                assert(short.contains(short[j]));
            }
        }
    }
    if s.no_duplicates() {
        assert forall|i: int, j: int|
            0 <= i < short.len() && 0 <= j < short.len() && i != j implies short[i] != short[j] by {
            assert(s[i] != s[j]);
        }
    }
}

proof fn lemma_groups(groups: Seq<GroupConfig>)
    ensures
        validate::group_errors(groups).len() == 0 <==> (forall|i: int|
            0 <= i < groups.len() ==> group_filled(#[trigger] groups[i])) && graph::group_names(
            groups,
        ).no_duplicates(),
    decreases groups.len(),
{
    if groups.len() > 0 {
        let short = groups.drop_last();
        lemma_groups(short);
        let names = graph::group_names(groups);
        assert(names.drop_last() =~= graph::group_names(short));
        lemma_distinct_step(names);
        assert forall|i: int| 0 <= i < short.len() implies #[trigger] short[i] == groups[i] by {}
        if forall|i: int| 0 <= i < groups.len() ==> group_filled(#[trigger] groups[i]) {
            assert forall|i: int| 0 <= i < short.len() implies group_filled(#[trigger] short[i]) by {
                assert(group_filled(groups[i]));
            }
            assert(group_filled(groups[groups.len() - 1]));
        }
        if (forall|i: int| 0 <= i < short.len() ==> group_filled(#[trigger] short[i]))
            && group_filled(groups.last()) {
            assert forall|i: int| 0 <= i < groups.len() implies group_filled(#[trigger] groups[i]) by {
                if i < short.len() {
                    assert(group_filled(short[i]));
                }
            }
        }
    }
}

proof fn lemma_references(group: Text, depends_on: Seq<Text>, names: Seq<Text>)
    ensures
        validate::reference_errors(group, depends_on, names).len() == 0 <==> forall|i: int|
            0 <= i < depends_on.len() ==> names.contains(#[trigger] depends_on[i]) && depends_on[i]
                != group,
    decreases depends_on.len(),
{
    if depends_on.len() > 0 {
        let short = depends_on.drop_last();
        lemma_references(group, short, names);
        assert forall|i: int| 0 <= i < short.len() implies #[trigger] short[i] == depends_on[i] by {}
        if forall|i: int|
            0 <= i < depends_on.len() ==> names.contains(#[trigger] depends_on[i]) && depends_on[i]
                != group {
            assert(names.contains(depends_on[depends_on.len() - 1]));
            assert forall|i: int| 0 <= i < short.len() implies names.contains(#[trigger] short[i])
                && short[i] != group by {
                assert(names.contains(depends_on[i]));
            }
        }
        if (forall|i: int|
            0 <= i < short.len() ==> names.contains(#[trigger] short[i]) && short[i] != group)
            && names.contains(depends_on.last()) && depends_on.last() != group {
            assert forall|i: int| 0 <= i < depends_on.len() implies names.contains(
                #[trigger] depends_on[i],
            ) && depends_on[i] != group by {
                if i < short.len() {
                    assert(names.contains(short[i]));
                }
            }
        }
    }
}

proof fn lemma_all_references(groups: Seq<GroupConfig>, names: Seq<Text>)
    ensures
        validate::all_reference_errors(groups, names).len() == 0 <==> forall|i: int|
            0 <= i < groups.len() ==> references_valid(#[trigger] groups[i], names),
    decreases groups.len(),
{
    if groups.len() > 0 {
        let short = groups.drop_last();
        lemma_all_references(short, names);
        lemma_references(groups.last().name, groups.last().depends_on, names);
        assert(validate::reference_errors(
            groups.last().name,
            groups.last().depends_on,
            names,
        ).len() == 0 <==> references_valid(groups.last(), names));
        if forall|i: int| 0 <= i < groups.len() ==> references_valid(#[trigger] groups[i], names) {
            assert(references_valid(groups[groups.len() - 1], names));
            assert forall|i: int| 0 <= i < short.len() implies references_valid(
                #[trigger] short[i],
                names,
            ) by {
                assert(references_valid(groups[i], names));
            }
        }
        if (forall|i: int| 0 <= i < short.len() ==> references_valid(#[trigger] short[i], names))
            && references_valid(groups.last(), names) {
            assert forall|i: int| 0 <= i < groups.len() implies references_valid(
                #[trigger] groups[i],
                names,
            ) by {
                if i < short.len() {
                    assert(references_valid(short[i], names));
                }
            }
        }
    }
}

proof fn lemma_patterns(group: Text, patterns: Seq<Text>, ignore: bool)
    ensures
        validate::pattern_errors(group, patterns, ignore).len() == 0 <==> forall|i: int|
            0 <= i < patterns.len() ==> validate::glob_error(#[trigger] patterns[i]) is None,
    decreases patterns.len(),
{
    if patterns.len() > 0 {
        let short = patterns.drop_last();
        lemma_patterns(group, short, ignore);
        if forall|i: int|
            0 <= i < patterns.len() ==> validate::glob_error(#[trigger] patterns[i]) is None {
            assert(validate::glob_error(patterns[patterns.len() - 1]) is None);
            assert forall|i: int| 0 <= i < short.len() implies validate::glob_error(
                #[trigger] short[i],
            ) is None by {
                assert(validate::glob_error(patterns[i]) is None);
            }
        }
        if (forall|i: int| 0 <= i < short.len() ==> validate::glob_error(#[trigger] short[i]) is None)
            && validate::glob_error(patterns.last()) is None {
            assert forall|i: int| 0 <= i < patterns.len() implies validate::glob_error(
                #[trigger] patterns[i],
            ) is None by {
                if i < short.len() {
                    assert(validate::glob_error(short[i]) is None);
                }
            }
        }
    }
}

proof fn lemma_all_patterns(groups: Seq<GroupConfig>)
    ensures
        validate::all_pattern_errors(groups).len() == 0 <==> forall|i: int|
            0 <= i < groups.len() ==> patterns_valid(#[trigger] groups[i]),
    decreases groups.len(),
{
    if groups.len() > 0 {
        let short = groups.drop_last();
        let g = groups.last();
        lemma_all_patterns(short);
        lemma_patterns(g.name, g.patterns, false);
        lemma_patterns(g.name, g.ignore, true);
        if forall|i: int| 0 <= i < groups.len() ==> patterns_valid(#[trigger] groups[i]) {
            assert(patterns_valid(groups[groups.len() - 1]));
            assert forall|i: int| 0 <= i < short.len() implies patterns_valid(
                #[trigger] short[i],
            ) by {
                assert(patterns_valid(groups[i]));
            }
        }
        if (forall|i: int| 0 <= i < short.len() ==> patterns_valid(#[trigger] short[i]))
            && patterns_valid(g) {
            assert forall|i: int| 0 <= i < groups.len() implies patterns_valid(
                #[trigger] groups[i],
            ) by {
                if i < short.len() {
                    assert(patterns_valid(short[i]));
                }
            }
        }
    }
}

proof fn lemma_tasks(group: Text, tasks: Seq<TaskModel>)
    ensures
        validate::task_errors(group, tasks).len() == 0 <==> (forall|i: int|
            0 <= i < tasks.len() ==> (#[trigger] tasks[i]).command.len() > 0)
            && validate::task_names(tasks).no_duplicates(),
    decreases tasks.len(),
{
    if tasks.len() > 0 {
        let short = tasks.drop_last();
        lemma_tasks(group, short);
        let names = validate::task_names(tasks);
        assert(names.drop_last() =~= validate::task_names(short));
        lemma_distinct_step(names);
        if forall|i: int| 0 <= i < tasks.len() ==> (#[trigger] tasks[i]).command.len() > 0 {
            assert(tasks[tasks.len() - 1].command.len() > 0);
            assert forall|i: int| 0 <= i < short.len() implies (#[trigger] short[i]).command.len()
                > 0 by {
                assert(tasks[i].command.len() > 0);
            }
        }
        if (forall|i: int| 0 <= i < short.len() ==> (#[trigger] short[i]).command.len() > 0)
            && tasks.last().command.len() > 0 {
            assert forall|i: int| 0 <= i < tasks.len() implies (#[trigger] tasks[i]).command.len()
                > 0 by {
                if i < short.len() {
                    assert(short[i].command.len() > 0);
                }
            }
        }
    }
}

proof fn lemma_daemons(group: Text, daemons: Seq<DaemonModel>)
    ensures
        validate::daemon_errors(group, daemons).len() == 0 <==> (forall|i: int|
            0 <= i < daemons.len() ==> (#[trigger] daemons[i]).command.len() > 0)
            && validate::daemon_names(daemons).no_duplicates(),
    decreases daemons.len(),
{
    if daemons.len() > 0 {
        let short = daemons.drop_last();
        lemma_daemons(group, short);
        let names = validate::daemon_names(daemons);
        assert(names.drop_last() =~= validate::daemon_names(short));
        lemma_distinct_step(names);
        if forall|i: int| 0 <= i < daemons.len() ==> (#[trigger] daemons[i]).command.len() > 0 {
            assert(daemons[daemons.len() - 1].command.len() > 0);
            assert forall|i: int| 0 <= i < short.len() implies (#[trigger] short[i]).command.len()
                > 0 by {
                assert(daemons[i].command.len() > 0);
            }
        }
        if (forall|i: int| 0 <= i < short.len() ==> (#[trigger] short[i]).command.len() > 0)
            && daemons.last().command.len() > 0 {
            assert forall|i: int| 0 <= i < daemons.len() implies (
            #[trigger] daemons[i]).command.len() > 0 by {
                if i < short.len() {
                    assert(short[i].command.len() > 0);
                }
            }
        }
    }
}

proof fn lemma_commands(groups: Seq<GroupConfig>)
    ensures
        validate::command_errors(groups).len() == 0 <==> forall|i: int|
            0 <= i < groups.len() ==> commands_valid(#[trigger] groups[i]),
    decreases groups.len(),
{
    if groups.len() > 0 {
        let short = groups.drop_last();
        let g = groups.last();
        lemma_commands(short);
        lemma_tasks(g.name, g.tasks);
        lemma_daemons(g.name, g.daemons);
        if forall|i: int| 0 <= i < groups.len() ==> commands_valid(#[trigger] groups[i]) {
            assert(commands_valid(groups[groups.len() - 1]));
            assert forall|i: int| 0 <= i < short.len() implies commands_valid(
                #[trigger] short[i],
            ) by {
                assert(commands_valid(groups[i]));
            }
        }
        if (forall|i: int| 0 <= i < short.len() ==> commands_valid(#[trigger] short[i]))
            && commands_valid(g) {
            assert forall|i: int| 0 <= i < groups.len() implies commands_valid(
                #[trigger] groups[i],
            ) by {
                if i < short.len() {
                    assert(commands_valid(short[i]));
                }
            }
        }
    }
}

/// Validation finds no error exactly in a valid configuration, whichever way it
/// goes through the groups for its hints.
pub proof fn law_validation_accepts_exactly_the_valid(groups: Seq<GroupConfig>, names: Seq<Text>)
    requires
        validate::lists_names(groups, names),
    ensures
        validate::config_errors(groups, names).len() == 0 <==> valid(groups),
{
    lemma_groups(groups);
    lemma_all_references(groups, names);
    lemma_all_patterns(groups);
    lemma_commands(groups);
    graph::law_order_fails_only_on_a_cycle(groups);
    let all = graph::group_names(groups);
    assert forall|i: int| 0 <= i < groups.len() implies references_valid(
        #[trigger] groups[i],
        names,
    ) == references_valid(groups[i], all) by {
        let g = groups[i];
        assert forall|j: int| 0 <= j < g.depends_on.len() implies names.contains(
            #[trigger] g.depends_on[j],
        ) == all.contains(g.depends_on[j]) by {}
    }
    if validate::cycle_errors(groups).len() > 0 {
        let cycle = graph::group_order(groups)->Err_0;
        assert(graph::is_cycle(graph::dependency_graph(groups), cycle));
    }
}

/// Groups that pass validation have an order in which they can run: each stands
/// in it once, behind everything that it depends on.
pub proof fn law_a_valid_configuration_can_run(groups: Seq<GroupConfig>)
    requires
        valid(groups),
    ensures
        graph::group_order(groups) matches Ok(order) && order.no_duplicates()
            && graph::dependencies_first(graph::dependency_graph(groups), order) && forall|i: int|
            0 <= i < groups.len() ==> order.contains((#[trigger] groups[i]).name),
{
    graph::law_order_fails_only_on_a_cycle(groups);
    if graph::group_order(groups) is Err {
        assert(graph::is_cycle(graph::dependency_graph(groups), graph::group_order(groups)->Err_0));
    }
    graph::law_order_respects_dependencies(groups);
}

} // verus!
