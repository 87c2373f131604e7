//! Laws of what validation reports: exactly the faults that a configuration has,
//! each as what it is.

use crate::config::error::{ErrorModel, KindModel};
use crate::config::schema::{self, DaemonModel, GroupConfig, TaskModel};
use crate::config::toml_spanned::{self, SpanInfo, SpannedGroup};
use crate::config::validate;
use crate::graph;
use crate::text::Text;
use vstd::prelude::*;

verus! {

/// Whether a list of errors has one of a kind.
pub open spec fn reported(errors: Seq<ErrorModel>, kind: KindModel) -> bool {
    exists|i: int| 0 <= i < errors.len() && (#[trigger] errors[i]).kind == kind
}

/// The name that a command is known by.
pub open spec fn known_as(name: Option<Text>, command: Text) -> Text {
    if name is Some {
        name->0
    } else {
        schema::derived_name(command)
    }
}

/// Whether a configuration has a fault: a group without a name, one with a name that is
/// taken, or one with nothing in it; a dependency on a group that is not there, or of a
/// group on itself; a pattern that is none; a command that is empty, or one with a name
/// that is taken in its group.
pub open spec fn has_fault(groups: Seq<GroupConfig>, kind: KindModel) -> bool {
    match kind {
        KindModel::EmptyGroupName { index } => 0 <= index < groups.len()
            && groups[index].name.len() == 0,
        KindModel::DuplicateGroupName { name, first_index, second_index } => {
            &&& 0 <= first_index < second_index < groups.len()
            &&& groups[first_index].name == name
            &&& groups[second_index].name == name
            &&& forall|x: int| 0 <= x < first_index ==> (#[trigger] groups[x]).name != name
        },
        KindModel::EmptyGroup { name } => exists|i: int|
            0 <= i < groups.len() && (#[trigger] groups[i]).name == name
                && groups[i].patterns.len() == 0 && groups[i].tasks.len() == 0
                && groups[i].daemons.len() == 0,
        KindModel::UnknownDependency { group, dependency } => {
            &&& exists|i: int|
                0 <= i < groups.len() && (#[trigger] groups[i]).name == group
                    && groups[i].depends_on.contains(dependency)
            &&& forall|x: int| 0 <= x < groups.len() ==> (#[trigger] groups[x]).name != dependency
        },
        KindModel::SelfDependency { group } => exists|i: int|
            0 <= i < groups.len() && (#[trigger] groups[i]).name == group
                && groups[i].depends_on.contains(group),
        KindModel::InvalidPattern { group, pattern, error } => validate::glob_error(pattern)
            == Some(error) && exists|i: int|
            0 <= i < groups.len() && (#[trigger] groups[i]).name == group
                && groups[i].patterns.contains(pattern),
        KindModel::InvalidIgnorePattern { group, pattern, error } => validate::glob_error(pattern)
            == Some(error) && exists|i: int|
            0 <= i < groups.len() && (#[trigger] groups[i]).name == group
                && groups[i].ignore.contains(pattern),
        KindModel::EmptyTaskCommand { group, task } => exists|i: int|
            0 <= i < groups.len() && (#[trigger] groups[i]).name == group && has_empty_task(
                groups[i].tasks,
                task,
            ),
        KindModel::DuplicateTaskName { group, name, is_explicit } => exists|i: int|
            0 <= i < groups.len() && (#[trigger] groups[i]).name == group && has_twin_task(
                groups[i].tasks,
                name,
                is_explicit,
            ),
        KindModel::EmptyDaemonCommand { group, daemon } => exists|i: int|
            0 <= i < groups.len() && (#[trigger] groups[i]).name == group && has_empty_daemon(
                groups[i].daemons,
                daemon,
            ),
        KindModel::DuplicateDaemonName { group, name, is_explicit } => exists|i: int|
            0 <= i < groups.len() && (#[trigger] groups[i]).name == group && has_twin_daemon(
                groups[i].daemons,
                name,
                is_explicit,
            ),
        KindModel::DependencyCycle { .. } => false,
    }
}

/// Whether a task of a name has an empty command.
pub open spec fn has_empty_task(tasks: Seq<TaskModel>, name: Text) -> bool {
    exists|k: int|
        0 <= k < tasks.len() && (#[trigger] tasks[k]).command.len() == 0 && known_as(
            tasks[k].name,
            tasks[k].command,
        ) == name
}

/// Whether a task has a name that one before it has; `is_explicit` tells whether it was
/// set for the later one.
pub open spec fn has_twin_task(tasks: Seq<TaskModel>, name: Text, is_explicit: bool) -> bool {
    exists|j: int, k: int|
        0 <= j < k < tasks.len() && known_as(
            (#[trigger] tasks[j]).name,
            tasks[j].command,
        ) == name && known_as((#[trigger] tasks[k]).name, tasks[k].command) == name
            && tasks[k].name is Some == is_explicit
}

/// Whether a daemon of a name has an empty command.
pub open spec fn has_empty_daemon(daemons: Seq<DaemonModel>, name: Text) -> bool {
    exists|k: int|
        0 <= k < daemons.len() && (#[trigger] daemons[k]).command.len() == 0 && known_as(
            daemons[k].name,
            daemons[k].command,
        ) == name
}

/// Whether a daemon has a name that one before it has; `is_explicit` tells whether it
/// was set for the later one.
pub open spec fn has_twin_daemon(daemons: Seq<DaemonModel>, name: Text, is_explicit: bool) -> bool {
    exists|j: int, k: int|
        0 <= j < k < daemons.len() && known_as(
            (#[trigger] daemons[j]).name,
            daemons[j].command,
        ) == name && known_as((#[trigger] daemons[k]).name, daemons[k].command) == name
            && daemons[k].name is Some == is_explicit
}

proof fn lemma_reported_add(a: Seq<ErrorModel>, b: Seq<ErrorModel>, kind: KindModel)
    ensures
        reported(a + b, kind) <==> reported(a, kind) || reported(b, kind),
{
    let all = a + b;
    if reported(all, kind) {
        let i = choose|i: int| 0 <= i < all.len() && (#[trigger] all[i]).kind == kind;
        if i < a.len() {
            assert(a[i].kind == kind);
        } else {
            assert(b[i - a.len()].kind == kind);
        }
    }
    if reported(a, kind) {
        let i = choose|i: int| 0 <= i < a.len() && (#[trigger] a[i]).kind == kind;
        assert(all[i].kind == kind);
    }
    if reported(b, kind) {
        let i = choose|i: int| 0 <= i < b.len() && (#[trigger] b[i]).kind == kind;
        assert(all[a.len() + i].kind == kind);
    }
}

proof fn lemma_error_if(condition: bool, this: KindModel, kind: KindModel)
    ensures
        reported(validate::error_if(condition, this), kind) <==> condition && kind == this,
{
    let list = validate::error_if(condition, this);
    if condition {
        assert(list[0].kind == this);
    }
}

spec fn of_groups(kind: KindModel) -> bool {
    kind is EmptyGroupName || kind is DuplicateGroupName || kind is EmptyGroup
}

proof fn lemma_first(names: Seq<Text>, x: Text)
    requires
        names.contains(x),
    ensures
        0 <= graph::first_index(names, x) < names.len(),
        names[graph::first_index(names, x)] == x,
        forall|j: int| 0 <= j < graph::first_index(names, x) ==> names[j] != x,
    decreases names.len(),
{
    if names[0] != x {
        let rest = names.drop_first();
        let i = names.index_of(x);
        assert(rest[i - 1] == x);
        lemma_first(rest, x);
        assert forall|j: int| 0 <= j < graph::first_index(names, x) implies names[j] != x by {
            if j > 0 {
                assert(rest[j - 1] != x);
            }
        }
    }
}

proof fn lemma_groups(groups: Seq<GroupConfig>, kind: KindModel)
    ensures
        reported(validate::group_errors(groups), kind) <==> of_groups(kind) && has_fault(
            groups,
            kind,
        ),
    decreases groups.len(),
{
    if groups.len() > 0 {
        let short = groups.drop_last();
        let g = groups.last();
        let index = groups.len() - 1;
        lemma_groups(short, kind);
        let earlier = graph::group_names(short);
        let before = validate::group_errors(short);
        let a = validate::error_if(g.name.len() == 0, KindModel::EmptyGroupName { index });
        let twin = KindModel::DuplicateGroupName {
            name: g.name,
            first_index: graph::first_index(earlier, g.name),
            second_index: index,
        };
        let b = validate::error_if(earlier.contains(g.name), twin);
        let empty = g.patterns.len() == 0 && g.tasks.len() == 0 && g.daemons.len() == 0;
        let c = validate::error_if(empty, KindModel::EmptyGroup { name: g.name });
        lemma_reported_add(before, a, kind);
        lemma_reported_add(before + a, b, kind);
        lemma_reported_add(before + a + b, c, kind);
        lemma_error_if(g.name.len() == 0, KindModel::EmptyGroupName { index }, kind);
        lemma_error_if(earlier.contains(g.name), twin, kind);
        lemma_error_if(empty, KindModel::EmptyGroup { name: g.name }, kind);
        match kind {
            KindModel::DuplicateGroupName { name, first_index, second_index } => {
                if earlier.contains(g.name) {
                    lemma_first(earlier, g.name);
                    let f = graph::first_index(earlier, g.name);
                    assert(groups[f].name == earlier[f]);
                    if kind == twin {
                        assert forall|x: int| 0 <= x < first_index implies (
                        #[trigger] groups[x]).name != name by {
                            assert(earlier[x] == groups[x].name);
                        }
                    }
                }
                if has_fault(groups, kind) {
                    assert(short[first_index] == groups[first_index]);
                    assert(earlier[first_index] == name);
                    if second_index == index {
                        assert(earlier.contains(name));
                        lemma_first(earlier, name);
                        let f = graph::first_index(earlier, name);
                        if f < first_index {
                            assert(groups[f].name == earlier[f]);
                        }
                        assert(f == first_index);
                    } else {
                        assert(short[second_index] == groups[second_index]);
                        assert forall|x: int| 0 <= x < first_index implies (
                        #[trigger] short[x]).name != name by {
                            assert(groups[x].name != name);
                        }
                        assert(has_fault(short, kind));
                    }
                }
                if has_fault(short, kind) {
                    assert(short[first_index] == groups[first_index]);
                    assert(short[second_index] == groups[second_index]);
                    assert forall|x: int| 0 <= x < first_index implies (
                    #[trigger] groups[x]).name != name by {
                        assert(short[x].name != name);
                    }
                }
            },
            KindModel::EmptyGroup { name } => {
                if has_fault(groups, kind) {
                    let i = choose|i: int|
                        0 <= i < groups.len() && (#[trigger] groups[i]).name == name
                            && groups[i].patterns.len() == 0 && groups[i].tasks.len() == 0
                            && groups[i].daemons.len() == 0;
                    if i < index {
                        assert(short[i].name == name);
                    }
                }
                if has_fault(short, kind) {
                    let i = choose|i: int|
                        0 <= i < short.len() && (#[trigger] short[i]).name == name
                            && short[i].patterns.len() == 0 && short[i].tasks.len() == 0
                            && short[i].daemons.len() == 0;
                    assert(groups[i].name == name);
                }
                if empty && g.name == name {
                    assert(groups[index].name == name);
                }
            },
            _ => {},
        }
    }
}

spec fn wrong_reference(group: Text, depends_on: Seq<Text>, names: Seq<Text>, kind: KindModel) -> bool {
    match kind {
        KindModel::UnknownDependency { group: g, dependency } => g == group
            && depends_on.contains(dependency) && !names.contains(dependency),
        KindModel::SelfDependency { group: g } => g == group && depends_on.contains(group),
        _ => false,
    }
}

proof fn lemma_contains_last(s: Seq<Text>, x: Text)
    requires
        s.len() > 0,
    ensures
        s.contains(x) <==> s.drop_last().contains(x) || s.last() == x,
{
    if s.contains(x) {
        let i = s.index_of(x);
        if i < s.len() - 1 {
            assert(s.drop_last()[i] == x);
        }
    }
    if s.drop_last().contains(x) {
        assert(s[s.drop_last().index_of(x)] == x);
    }
    assert(s[s.len() - 1] == s.last());
}

proof fn lemma_references(group: Text, depends_on: Seq<Text>, names: Seq<Text>, kind: KindModel)
    ensures
        reported(validate::reference_errors(group, depends_on, names), kind) <==> wrong_reference(
            group,
            depends_on,
            names,
            kind,
        ),
    decreases depends_on.len(),
{
    if depends_on.len() > 0 {
        let short = depends_on.drop_last();
        let d = depends_on.last();
        lemma_references(group, short, names, kind);
        let before = validate::reference_errors(group, short, names);
        let unknown: Seq<ErrorModel> = if names.contains(d) {
            Seq::empty()
        } else {
            seq![
                ErrorModel {
                    span: None,
                    kind: KindModel::UnknownDependency { group, dependency: d },
                    hint: Some(validate::dependency_hint(d, names)),
                },
            ]
        };
        let own = validate::error_if(d == group, KindModel::SelfDependency { group });
        lemma_reported_add(before, unknown, kind);
        lemma_reported_add(before + unknown, own, kind);
        lemma_error_if(d == group, KindModel::SelfDependency { group }, kind);
        if !names.contains(d) {
            assert(unknown[0].kind == KindModel::UnknownDependency { group, dependency: d });
        }
        match kind {
            KindModel::UnknownDependency { group: g, dependency } => lemma_contains_last(
                depends_on,
                dependency,
            ),
            KindModel::SelfDependency { group: g } => lemma_contains_last(depends_on, group),
            _ => {},
        }
    }
}

proof fn lemma_all_references(groups: Seq<GroupConfig>, names: Seq<Text>, kind: KindModel)
    ensures
        reported(validate::all_reference_errors(groups, names), kind) <==> exists|i: int|
            0 <= i < groups.len() && wrong_reference(
                (#[trigger] groups[i]).name,
                groups[i].depends_on,
                names,
                kind,
            ),
    decreases groups.len(),
{
    if groups.len() > 0 {
        let short = groups.drop_last();
        let g = groups.last();
        lemma_all_references(short, names, kind);
        lemma_references(g.name, g.depends_on, names, kind);
        lemma_reported_add(
            validate::all_reference_errors(short, names),
            validate::reference_errors(g.name, g.depends_on, names),
            kind,
        );
        if exists|i: int|
            0 <= i < short.len() && wrong_reference(
                (#[trigger] short[i]).name,
                short[i].depends_on,
                names,
                kind,
            ) {
            let i = choose|i: int|
                0 <= i < short.len() && wrong_reference(
                    (#[trigger] short[i]).name,
                    short[i].depends_on,
                    names,
                    kind,
                );
            assert(groups[i] == short[i]);
        }
        if exists|i: int|
            0 <= i < groups.len() && wrong_reference(
                (#[trigger] groups[i]).name,
                groups[i].depends_on,
                names,
                kind,
            ) {
            let i = choose|i: int|
                0 <= i < groups.len() && wrong_reference(
                    (#[trigger] groups[i]).name,
                    groups[i].depends_on,
                    names,
                    kind,
                );
            if i < short.len() {
                assert(groups[i] == short[i]);
            }
        }
        assert(groups[groups.len() - 1] == g);
    }
}

spec fn wrong_pattern(group: Text, patterns: Seq<Text>, ignore: bool, kind: KindModel) -> bool {
    match kind {
        KindModel::InvalidPattern { group: g, pattern, error } => !ignore && g == group
            && patterns.contains(pattern) && validate::glob_error(pattern) == Some(error),
        KindModel::InvalidIgnorePattern { group: g, pattern, error } => ignore && g == group
            && patterns.contains(pattern) && validate::glob_error(pattern) == Some(error),
        _ => false,
    }
}

proof fn lemma_patterns(group: Text, patterns: Seq<Text>, ignore: bool, kind: KindModel)
    ensures
        reported(validate::pattern_errors(group, patterns, ignore), kind) <==> wrong_pattern(
            group,
            patterns,
            ignore,
            kind,
        ),
    decreases patterns.len(),
{
    if patterns.len() > 0 {
        let short = patterns.drop_last();
        let p = patterns.last();
        lemma_patterns(group, short, ignore, kind);
        let one = validate::pattern_error(group, p, ignore, validate::glob_error(p));
        lemma_reported_add(validate::pattern_errors(group, short, ignore), one, kind);
        if validate::glob_error(p) is Some {
            assert(one.len() == 1 && one[0] == one.last());
        }
        match kind {
            KindModel::InvalidPattern { group: g, pattern, error } => lemma_contains_last(
                patterns,
                pattern,
            ),
            KindModel::InvalidIgnorePattern { group: g, pattern, error } => lemma_contains_last(
                patterns,
                pattern,
            ),
            _ => {},
        }
    }
}

spec fn pattern_fault(g: GroupConfig, kind: KindModel) -> bool {
    wrong_pattern(g.name, g.patterns, false, kind) || wrong_pattern(g.name, g.ignore, true, kind)
}

proof fn lemma_all_patterns(groups: Seq<GroupConfig>, kind: KindModel)
    ensures
        reported(validate::all_pattern_errors(groups), kind) <==> exists|i: int|
            0 <= i < groups.len() && pattern_fault(#[trigger] groups[i], kind),
    decreases groups.len(),
{
    if groups.len() > 0 {
        let short = groups.drop_last();
        let g = groups.last();
        lemma_all_patterns(short, kind);
        lemma_patterns(g.name, g.patterns, false, kind);
        lemma_patterns(g.name, g.ignore, true, kind);
        let before = validate::all_pattern_errors(short);
        let a = validate::pattern_errors(g.name, g.patterns, false);
        let b = validate::pattern_errors(g.name, g.ignore, true);
        lemma_reported_add(before, a, kind);
        lemma_reported_add(before + a, b, kind);
        if exists|i: int| 0 <= i < short.len() && pattern_fault(#[trigger] short[i], kind) {
            let i = choose|i: int| 0 <= i < short.len() && pattern_fault(#[trigger] short[i], kind);
            assert(groups[i] == short[i]);
        }
        if exists|i: int| 0 <= i < groups.len() && pattern_fault(#[trigger] groups[i], kind) {
            let i = choose|i: int|
                0 <= i < groups.len() && pattern_fault(#[trigger] groups[i], kind);
            if i < short.len() {
                assert(groups[i] == short[i]);
            }
        }
        assert(groups[groups.len() - 1] == g);
    }
}

spec fn task_fault(group: Text, tasks: Seq<TaskModel>, kind: KindModel) -> bool {
    match kind {
        KindModel::EmptyTaskCommand { group: g, task } => g == group && has_empty_task(tasks, task),
        KindModel::DuplicateTaskName { group: g, name, is_explicit } => g == group && has_twin_task(
            tasks,
            name,
            is_explicit,
        ),
        _ => false,
    }
}

proof fn lemma_tasks(group: Text, tasks: Seq<TaskModel>, kind: KindModel)
    ensures
        reported(validate::task_errors(group, tasks), kind) <==> task_fault(group, tasks, kind),
    decreases tasks.len(),
{
    if tasks.len() > 0 {
        let short = tasks.drop_last();
        let t = tasks.last();
        let n = tasks.len() - 1;
        assert(tasks[n] == t);
        let name = schema::display_name(t.name, t.command);
        assert(name == known_as(t.name, t.command));
        lemma_tasks(group, short, kind);
        let before = validate::task_errors(group, short);
        let empty = KindModel::EmptyTaskCommand { group, task: name };
        let twin = KindModel::DuplicateTaskName { group, name, is_explicit: t.name is Some };
        let taken = validate::task_names(short).contains(name);
        let a = validate::error_if(t.command.len() == 0, empty);
        let b = validate::error_if(taken, twin);
        lemma_reported_add(before, a, kind);
        lemma_reported_add(before + a, b, kind);
        lemma_error_if(t.command.len() == 0, empty, kind);
        lemma_error_if(taken, twin, kind);
        match kind {
            KindModel::EmptyTaskCommand { group: g, task } => {
                if has_empty_task(short, task) {
                    let k = choose|k: int|
                        0 <= k < short.len() && (#[trigger] short[k]).command.len() == 0
                            && known_as(short[k].name, short[k].command) == task;
                    assert(tasks[k] == short[k]);
                }
                if has_empty_task(tasks, task) {
                    let k = choose|k: int|
                        0 <= k < tasks.len() && (#[trigger] tasks[k]).command.len() == 0
                            && known_as(tasks[k].name, tasks[k].command) == task;
                    if k < n {
                        assert(tasks[k] == short[k]);
                    }
                }
            },
            KindModel::DuplicateTaskName { group: g, name: x, is_explicit } => {
                if has_twin_task(short, x, is_explicit) {
                    let (j, k) = choose|j: int, k: int|
                        0 <= j < k < short.len() && known_as(
                            (#[trigger] short[j]).name,
                            short[j].command,
                        ) == x && known_as((#[trigger] short[k]).name, short[k].command) == x
                            && short[k].name is Some == is_explicit;
                    assert(tasks[j] == short[j] && tasks[k] == short[k]);
                }
                if has_twin_task(tasks, x, is_explicit) {
                    let (j, k) = choose|j: int, k: int|
                        0 <= j < k < tasks.len() && known_as(
                            (#[trigger] tasks[j]).name,
                            tasks[j].command,
                        ) == x && known_as((#[trigger] tasks[k]).name, tasks[k].command) == x
                            && tasks[k].name is Some == is_explicit;
                    assert(short[j] == tasks[j]);
                    if k < n {
                        assert(short[k] == tasks[k]);
                    } else {
                        assert(validate::task_names(short)[j] == x);
                    }
                }
                if taken && name == x {
                    let j = validate::task_names(short).index_of(name);
                    assert(short[j] == tasks[j]);
                    assert(known_as(tasks[j].name, tasks[j].command) == x);
                    assert(known_as(tasks[n].name, tasks[n].command) == x);
                }
            },
            _ => {},
        }
    }
}

spec fn daemon_fault(group: Text, daemons: Seq<DaemonModel>, kind: KindModel) -> bool {
    match kind {
        KindModel::EmptyDaemonCommand { group: g, daemon } => g == group && has_empty_daemon(
            daemons,
            daemon,
        ),
        KindModel::DuplicateDaemonName { group: g, name, is_explicit } => g == group
            && has_twin_daemon(daemons, name, is_explicit),
        _ => false,
    }
}

proof fn lemma_daemons(group: Text, daemons: Seq<DaemonModel>, kind: KindModel)
    ensures
        reported(validate::daemon_errors(group, daemons), kind) <==> daemon_fault(
            group,
            daemons,
            kind,
        ),
    decreases daemons.len(),
{
    if daemons.len() > 0 {
        let short = daemons.drop_last();
        let t = daemons.last();
        let n = daemons.len() - 1;
        assert(daemons[n] == t);
        let name = schema::display_name(t.name, t.command);
        assert(name == known_as(t.name, t.command));
        lemma_daemons(group, short, kind);
        let before = validate::daemon_errors(group, short);
        let empty = KindModel::EmptyDaemonCommand { group, daemon: name };
        let twin = KindModel::DuplicateDaemonName { group, name, is_explicit: t.name is Some };
        let taken = validate::daemon_names(short).contains(name);
        let a = validate::error_if(t.command.len() == 0, empty);
        let b = validate::error_if(taken, twin);
        lemma_reported_add(before, a, kind);
        lemma_reported_add(before + a, b, kind);
        lemma_error_if(t.command.len() == 0, empty, kind);
        lemma_error_if(taken, twin, kind);
        match kind {
            KindModel::EmptyDaemonCommand { group: g, daemon } => {
                if has_empty_daemon(short, daemon) {
                    let k = choose|k: int|
                        0 <= k < short.len() && (#[trigger] short[k]).command.len() == 0
                            && known_as(short[k].name, short[k].command) == daemon;
                    assert(daemons[k] == short[k]);
                }
                if has_empty_daemon(daemons, daemon) {
                    let k = choose|k: int|
                        0 <= k < daemons.len() && (#[trigger] daemons[k]).command.len() == 0
                            && known_as(daemons[k].name, daemons[k].command) == daemon;
                    if k < n {
                        assert(daemons[k] == short[k]);
                    }
                }
            },
            KindModel::DuplicateDaemonName { group: g, name: x, is_explicit } => {
                if has_twin_daemon(short, x, is_explicit) {
                    let (j, k) = choose|j: int, k: int|
                        0 <= j < k < short.len() && known_as(
                            (#[trigger] short[j]).name,
                            short[j].command,
                        ) == x && known_as((#[trigger] short[k]).name, short[k].command) == x
                            && short[k].name is Some == is_explicit;
                    assert(daemons[j] == short[j] && daemons[k] == short[k]);
                }
                if has_twin_daemon(daemons, x, is_explicit) {
                    let (j, k) = choose|j: int, k: int|
                        0 <= j < k < daemons.len() && known_as(
                            (#[trigger] daemons[j]).name,
                            daemons[j].command,
                        ) == x && known_as((#[trigger] daemons[k]).name, daemons[k].command) == x
                            && daemons[k].name is Some == is_explicit;
                    assert(short[j] == daemons[j]);
                    if k < n {
                        assert(short[k] == daemons[k]);
                    } else {
                        assert(validate::daemon_names(short)[j] == x);
                    }
                }
                if taken && name == x {
                    let j = validate::daemon_names(short).index_of(name);
                    assert(short[j] == daemons[j]);
                    assert(known_as(daemons[j].name, daemons[j].command) == x);
                    assert(known_as(daemons[n].name, daemons[n].command) == x);
                }
            },
            _ => {},
        }
    }
}

spec fn command_fault(g: GroupConfig, kind: KindModel) -> bool {
    task_fault(g.name, g.tasks, kind) || daemon_fault(g.name, g.daemons, kind)
}

proof fn lemma_commands(groups: Seq<GroupConfig>, kind: KindModel)
    ensures
        reported(validate::command_errors(groups), kind) <==> exists|i: int|
            0 <= i < groups.len() && command_fault(#[trigger] groups[i], kind),
    decreases groups.len(),
{
    if groups.len() > 0 {
        let short = groups.drop_last();
        let g = groups.last();
        lemma_commands(short, kind);
        lemma_tasks(g.name, g.tasks, kind);
        lemma_daemons(g.name, g.daemons, kind);
        let before = validate::command_errors(short);
        let a = validate::task_errors(g.name, g.tasks);
        let b = validate::daemon_errors(g.name, g.daemons);
        lemma_reported_add(before, a, kind);
        lemma_reported_add(before + a, b, kind);
        if exists|i: int| 0 <= i < short.len() && command_fault(#[trigger] short[i], kind) {
            let i = choose|i: int| 0 <= i < short.len() && command_fault(#[trigger] short[i], kind);
            assert(groups[i] == short[i]);
        }
        if exists|i: int| 0 <= i < groups.len() && command_fault(#[trigger] groups[i], kind) {
            let i = choose|i: int|
                0 <= i < groups.len() && command_fault(#[trigger] groups[i], kind);
            if i < short.len() {
                assert(groups[i] == short[i]);
            }
        }
        assert(groups[groups.len() - 1] == g);
    }
}

/// A fault other than a circle of dependencies is reported exactly when the
/// configuration has it.
pub proof fn law_exactly_the_faults_are_reported(
    groups: Seq<GroupConfig>,
    names: Seq<Text>,
    kind: KindModel,
)
    requires
        validate::lists_names(groups, names),
        !(kind is DependencyCycle),
    ensures
        reported(validate::config_errors(groups, names), kind) <==> has_fault(groups, kind),
{
    lemma_groups(groups, kind);
    lemma_all_references(groups, names, kind);
    lemma_all_patterns(groups, kind);
    lemma_commands(groups, kind);
    let a = validate::group_errors(groups);
    let r = validate::all_reference_errors(groups, names);
    let c = validate::cycle_errors(groups);
    let p = validate::all_pattern_errors(groups);
    let m = validate::command_errors(groups);
    lemma_reported_add(r, c, kind);
    lemma_reported_add(a, r + c, kind);
    lemma_reported_add(a + (r + c), p, kind);
    lemma_reported_add(a + (r + c) + p, m, kind);
    assert(!reported(c, kind)) by {
        if reported(c, kind) {
            let i = choose|i: int| 0 <= i < c.len() && (#[trigger] c[i]).kind == kind;
            assert(c[i].kind is DependencyCycle);
        }
    }
    match kind {
        KindModel::UnknownDependency { group, dependency } => {
            assert(names.contains(dependency) <==> graph::group_names(groups).contains(dependency));
            if graph::group_names(groups).contains(dependency) {
                let x = graph::group_names(groups).index_of(dependency);
                assert(groups[x].name == dependency);
            } else {
                assert forall|x: int| 0 <= x < groups.len() implies (#[trigger] groups[x]).name
                    != dependency by {
                    assert(graph::group_names(groups)[x] == groups[x].name);
                }
            }
            if has_fault(groups, kind) {
                let i = choose|i: int|
                    0 <= i < groups.len() && (#[trigger] groups[i]).name == group
                        && groups[i].depends_on.contains(dependency);
                assert(wrong_reference(groups[i].name, groups[i].depends_on, names, kind));
            }
            if reported(r, kind) {
                let i = choose|i: int|
                    0 <= i < groups.len() && wrong_reference(
                        (#[trigger] groups[i]).name,
                        groups[i].depends_on,
                        names,
                        kind,
                    );
                assert(groups[i].name == group);
            }
        },
        KindModel::SelfDependency { group } => {
            if has_fault(groups, kind) {
                let i = choose|i: int|
                    0 <= i < groups.len() && (#[trigger] groups[i]).name == group
                        && groups[i].depends_on.contains(group);
                assert(wrong_reference(groups[i].name, groups[i].depends_on, names, kind));
            }
            if reported(r, kind) {
                let i = choose|i: int|
                    0 <= i < groups.len() && wrong_reference(
                        (#[trigger] groups[i]).name,
                        groups[i].depends_on,
                        names,
                        kind,
                    );
                assert(groups[i].name == group);
            }
        },
        _ => {
            if exists|i: int| 0 <= i < groups.len() && pattern_fault(#[trigger] groups[i], kind) {
                let i = choose|i: int|
                    0 <= i < groups.len() && pattern_fault(#[trigger] groups[i], kind);
                assert(has_fault(groups, kind));
            }
            if exists|i: int| 0 <= i < groups.len() && command_fault(#[trigger] groups[i], kind) {
                let i = choose|i: int|
                    0 <= i < groups.len() && command_fault(#[trigger] groups[i], kind);
                assert(has_fault(groups, kind));
            }
            if has_fault(groups, kind) && !of_groups(kind) {
                lemma_fault_found(groups, kind);
            }
            if !(kind is UnknownDependency || kind is SelfDependency) {
                assert forall|i: int| 0 <= i < groups.len() implies !wrong_reference(
                    (#[trigger] groups[i]).name,
                    groups[i].depends_on,
                    names,
                    kind,
                ) by {}
            }
        },
    }
}

proof fn lemma_fault_found(groups: Seq<GroupConfig>, kind: KindModel)
    requires
        has_fault(groups, kind),
        !of_groups(kind),
        !(kind is UnknownDependency || kind is SelfDependency),
    ensures
        (exists|i: int| 0 <= i < groups.len() && pattern_fault(#[trigger] groups[i], kind)) || (
        exists|i: int| 0 <= i < groups.len() && command_fault(#[trigger] groups[i], kind)),
{
    match kind {
        KindModel::InvalidPattern { group, pattern, error } => {
            let i = choose|i: int|
                0 <= i < groups.len() && (#[trigger] groups[i]).name == group
                    && groups[i].patterns.contains(pattern);
            assert(pattern_fault(groups[i], kind));
        },
        KindModel::InvalidIgnorePattern { group, pattern, error } => {
            let i = choose|i: int|
                0 <= i < groups.len() && (#[trigger] groups[i]).name == group
                    && groups[i].ignore.contains(pattern);
            assert(pattern_fault(groups[i], kind));
        },
        KindModel::EmptyTaskCommand { group, task } => {
            let i = choose|i: int|
                0 <= i < groups.len() && (#[trigger] groups[i]).name == group && has_empty_task(
                    groups[i].tasks,
                    task,
                );
            assert(command_fault(groups[i], kind));
        },
        KindModel::DuplicateTaskName { group, name, is_explicit } => {
            let i = choose|i: int|
                0 <= i < groups.len() && (#[trigger] groups[i]).name == group && has_twin_task(
                    groups[i].tasks,
                    name,
                    is_explicit,
                );
            assert(command_fault(groups[i], kind));
        },
        KindModel::EmptyDaemonCommand { group, daemon } => {
            let i = choose|i: int|
                0 <= i < groups.len() && (#[trigger] groups[i]).name == group && has_empty_daemon(
                    groups[i].daemons,
                    daemon,
                );
            assert(command_fault(groups[i], kind));
        },
        KindModel::DuplicateDaemonName { group, name, is_explicit } => {
            let i = choose|i: int|
                0 <= i < groups.len() && (#[trigger] groups[i]).name == group && has_twin_daemon(
                    groups[i].daemons,
                    name,
                    is_explicit,
                );
            assert(command_fault(groups[i], kind));
        },
        _ => {},
    }
}

/// What a group depends on in the graph is what is configured for it.
pub proof fn law_the_graph_has_the_configured_dependencies(groups: Seq<GroupConfig>, i: int)
    requires
        0 <= i < groups.len(),
        forall|x: int| i < x < groups.len() ==> (#[trigger] groups[x]).name != groups[i].name,
    ensures
        graph::dependency_graph(groups).dom().contains(groups[i].name),
        graph::dependency_graph(groups)[groups[i].name] == groups[i].depends_on,
    decreases groups.len(),
{
    if i < groups.len() - 1 {
        let short = groups.drop_last();
        assert(groups[groups.len() - 1].name != groups[i].name);
        assert forall|x: int| i < x < short.len() implies (#[trigger] short[x]).name
            != short[i].name by {
            assert(groups[x].name != groups[i].name);
        }
        law_the_graph_has_the_configured_dependencies(short, i);
    }
}

/// A circle of dependencies is reported exactly where there is one, and the one that is
/// reported leads along the dependencies of groups back to where it starts.
pub proof fn law_circles_are_reported(groups: Seq<GroupConfig>, cycle: Seq<Text>)
    requires
        forall|a: int, b: int|
            0 <= a < b < groups.len() ==> (#[trigger] groups[a]).name != (
            #[trigger] groups[b]).name,
    ensures
        reported(validate::cycle_errors(groups), KindModel::DependencyCycle { cycle }) ==> {
            &&& cycle.len() >= 2
            &&& cycle[0] == cycle[cycle.len() - 1]
            &&& forall|t: int|
                0 <= t < cycle.len() - 1 ==> exists|i: int|
                    0 <= i < groups.len() && groups[i].name == #[trigger] cycle[t] && (
                    #[trigger] groups[i]).depends_on.contains(cycle[t + 1])
        },
        validate::cycle_errors(groups).len() == 0 ==> !exists|p: Seq<Text>|
            #[trigger] closes(groups, p),
{
    graph::law_order_fails_only_on_a_cycle(groups);
    let g = graph::dependency_graph(groups);
    if reported(validate::cycle_errors(groups), KindModel::DependencyCycle { cycle }) {
        let i = choose|i: int|
            0 <= i < validate::cycle_errors(groups).len() && (
            #[trigger] validate::cycle_errors(groups)[i]).kind == (KindModel::DependencyCycle {
                cycle,
            });
        assert(graph::is_cycle(g, cycle));
        assert forall|t: int| 0 <= t < cycle.len() - 1 implies exists|i: int|
            0 <= i < groups.len() && groups[i].name == #[trigger] cycle[t] && (
            #[trigger] groups[i]).depends_on.contains(cycle[t + 1]) by {
            assert(graph::edges(g, cycle[t]).contains(cycle[t + 1]));
            lemma_node(groups, cycle[t]);
            let i = choose|i: int| 0 <= i < groups.len() && (#[trigger] groups[i]).name == cycle[t];
            assert forall|x: int| i < x < groups.len() implies (#[trigger] groups[x]).name
                != groups[i].name by {}
            law_the_graph_has_the_configured_dependencies(groups, i);
            assert(groups[i].depends_on.contains(cycle[t + 1]));
        }
    }
    if validate::cycle_errors(groups).len() == 0 {
        assert forall|p: Seq<Text>| !#[trigger] closes(groups, p) by {
            if closes(groups, p) {
                assert(graph::is_cycle(g, p)) by {
                    assert forall|t: int| 0 <= t < p.len() - 1 implies graph::edges(
                        g,
                        #[trigger] p[t],
                    ).contains(p[t + 1]) by {
                        let i = choose|i: int|
                            0 <= i < groups.len() && groups[i].name == p[t] && (
                            #[trigger] groups[i]).depends_on.contains(p[t + 1]);
                        law_the_graph_has_the_configured_dependencies(groups, i);
                    }
                }
            }
        }
    }
}

/// Whether names lead along the dependencies of groups back to where they start.
pub open spec fn closes(groups: Seq<GroupConfig>, p: Seq<Text>) -> bool {
    &&& p.len() >= 2
    &&& p[0] == p[p.len() - 1]
    &&& forall|t: int|
        0 <= t < p.len() - 1 ==> exists|i: int|
            0 <= i < groups.len() && groups[i].name == #[trigger] p[t] && (
            #[trigger] groups[i]).depends_on.contains(p[t + 1])
}

proof fn lemma_node(groups: Seq<GroupConfig>, name: Text)
    requires
        graph::dependency_graph(groups).dom().contains(name),
    ensures
        exists|i: int| 0 <= i < groups.len() && (#[trigger] groups[i]).name == name,
    decreases groups.len(),
{
    if groups.last().name == name {
        assert(groups[groups.len() - 1].name == name);
    } else {
        lemma_node(groups.drop_last(), name);
        let i = choose|i: int|
            0 <= i < groups.drop_last().len() && (#[trigger] groups.drop_last()[i]).name == name;
        assert(groups[i].name == name);
    }
}

/// A name is suggested exactly when one is near the unknown one, and it is among the
/// nearest there are.
pub proof fn law_the_nearest_name_is_suggested(unknown: Text, valid: Seq<Text>)
    ensures
        validate::suggestion(unknown, valid) is Some <==> exists|i: int|
            0 <= i < valid.len() && 0 < validate::edit_distance(unknown, #[trigger] valid[i]) <= 2,
        validate::suggestion(unknown, valid) matches Some(s) ==> {
            &&& valid.contains(s)
            &&& 0 < validate::edit_distance(unknown, s) <= 2
            &&& forall|i: int|
                0 <= i < valid.len() && validate::edit_distance(unknown, #[trigger] valid[i]) > 0
                    ==> validate::edit_distance(unknown, s) <= validate::edit_distance(
                    unknown,
                    valid[i],
                )
        },
    decreases valid.len(),
{
    if valid.len() > 0 {
        let short = valid.drop_last();
        law_the_nearest_name_is_suggested(unknown, short);
        let last = valid.last();
        assert(valid[valid.len() - 1] == last);
        if let Some(s) = validate::suggestion(unknown, short) {
            let k = short.index_of(s);
            assert(valid[k] == s);
            assert(valid.contains(s));
        }
        assert(valid.contains(last));
        if validate::suggestion(unknown, valid) is Some {
            let s = validate::suggestion(unknown, valid)->Some_0;
            assert forall|i: int|
                0 <= i < valid.len() && validate::edit_distance(unknown, #[trigger] valid[i])
                    > 0 implies validate::edit_distance(unknown, s) <= validate::edit_distance(
                unknown,
                valid[i],
            ) by {
                if i < short.len() {
                    assert(short[i] == valid[i]);
                    if validate::suggestion(unknown, short) is None {
                        assert(!(0 < validate::edit_distance(unknown, short[i]) <= 2));
                    }
                }
            }
        } else {
            assert forall|i: int| 0 <= i < valid.len() implies !(0 < validate::edit_distance(
                unknown,
                #[trigger] valid[i],
            ) <= 2) by {
                if i < short.len() {
                    assert(short[i] == valid[i]);
                }
            }
        }
    }
}

/// Texts are at no distance exactly when they are the same, and the distance is the
/// same both ways.
pub proof fn law_distance_tells_texts_apart(a: Text, b: Text)
    ensures
        validate::edit_distance(a, b) == 0 <==> a == b,
        validate::edit_distance(a, b) == validate::edit_distance(b, a),
    decreases a.len() + b.len(),
{
    if a.len() > 0 && b.len() > 0 {
        law_distance_tells_texts_apart(a.drop_last(), b.drop_last());
        law_distance_tells_texts_apart(a.drop_last(), b);
        law_distance_tells_texts_apart(a, b.drop_last());
        if a.last() == b.last() && a.drop_last() == b.drop_last() {
            assert(a =~= a.drop_last().push(a.last()));
            assert(b =~= b.drop_last().push(b.last()));
        }
    } else {
        if a.len() == b.len() {
            assert(a =~= b);
        }
    }
}

/// Taking the spans out of a group leaves the group as it is written.
pub proof fn law_a_group_without_spans_is_the_group(g: SpannedGroup)
    ensures
        ({
            let c = toml_spanned::plain_group(g);
            &&& c.name == g.name.value@
            &&& c.depends_on.len() == g.depends_on@.len()
            &&& forall|i: int|
                0 <= i < g.depends_on@.len() ==> #[trigger] c.depends_on[i]
                    == g.depends_on@[i].value@
            &&& c.patterns.len() == g.patterns@.len()
            &&& forall|i: int|
                0 <= i < g.patterns@.len() ==> #[trigger] c.patterns[i] == g.patterns@[i]@
            &&& c.ignore.len() == g.ignore@.len()
            &&& forall|i: int| 0 <= i < g.ignore@.len() ==> #[trigger] c.ignore[i] == g.ignore@[i]@
            &&& c.working_dir is Some <==> g.working_dir is Some
            &&& c.working_dir is Some ==> c.working_dir->0 == g.working_dir->0@
            &&& c.env == g.env@
            &&& c.tasks.len() == g.tasks@.len()
            &&& forall|i: int| 0 <= i < g.tasks@.len() ==> #[trigger] c.tasks[i] == g.tasks@[i]@
            &&& c.daemons.len() == g.daemons@.len()
            &&& forall|i: int|
                0 <= i < g.daemons@.len() ==> #[trigger] c.daemons[i] == g.daemons@[i]@
        }),
{
}

/// What is known of where a name or a dependency stands is what was recorded for it.
pub proof fn law_places_are_those_recorded(info: SpanInfo, g: usize, d: usize)
    ensures
        info.group_names@.dom().contains(g) ==> info.name_at(g) == Some(info.group_names@[g]),
        !info.group_names@.dom().contains(g) ==> info.name_at(g) is None,
        info.dependencies@.dom().contains(g) && info.dependencies@[g]@.dom().contains(d)
            ==> info.dependency_at(g, d) == Some(info.dependencies@[g]@[d]),
        !(info.dependencies@.dom().contains(g) && info.dependencies@[g]@.dom().contains(d))
            ==> info.dependency_at(g, d) is None,
{
}

} // verus!
