//! Pure decisions of the engine.

use crate::config::schema::{self, Group, GroupConfig, Silence};
use crate::daemon::error::DaemonError;
use crate::daemon::state::{self, GroupStatus, ProcessState, ProcessStatus};
use crate::graph::{self, visit_groups};
use crate::text::{self, list_contains, str_eq, Text};
use vstd::prelude::*;

verus! {

broadcast use crate::text::lemma_texts_push;

/// Whether a silence setting keeps a line out of the logs.
pub open spec fn suppressed(silence: Silence, is_stderr: bool) -> bool {
    match silence {
        Silence::Off => false,
        Silence::All => true,
        Silence::Stdout => !is_stderr,
        Silence::Stderr => is_stderr,
    }
}

/// Check if output should be suppressed based on silence setting and output kind.
pub fn should_suppress(silence: Silence, is_stderr: bool) -> (r: bool)
    ensures
        r == suppressed(silence, is_stderr),
{
    match silence {
        Silence::Off => false,
        Silence::All => true,
        Silence::Stdout => !is_stderr,
        Silence::Stderr => is_stderr,
    }
}

/// Which of the changed files the patterns of a group match.
#[derive(Debug)]
pub struct PatternHits {
    /// The group.
    pub group: String,
    /// For each changed file, whether a pattern matches it.
    pub files: Vec<bool>,
}

/// The groups, in order, whose patterns match a changed file.
pub open spec fn affected(hits: Seq<PatternHits>) -> Seq<Text>
    decreases hits.len(),
{
    if hits.len() == 0 {
        Seq::empty()
    } else if hits.last().files@.contains(true) {
        affected(hits.drop_last()).push(hits.last().group@)
    } else {
        affected(hits.drop_last())
    }
}

fn any_hit(files: &Vec<bool>) -> (r: bool)
    ensures
        r == files@.contains(true),
{
    let mut i: usize = 0;
    while i < files.len()
        invariant
            0 <= i <= files@.len(),
            forall|j: int| 0 <= j < i ==> !#[trigger] files@[j],
        decreases files.len() - i,
    {
        if files[i] {
            assert(files@[i as int]);
            return true;
        }
        i = i + 1;
    }
    false
}

/// The groups that a change of files affects: those whose patterns match one of
/// the changed files.
pub fn affected_groups(hits: &Vec<PatternHits>) -> (r: Vec<String>)
    ensures
        text::texts(r@) == affected(hits@),
{
    let mut out: Vec<String> = Vec::new();
    let mut i: usize = 0;
    assert(text::texts(out@) =~= Seq::<Text>::empty());
    while i < hits.len()
        invariant
            0 <= i <= hits@.len(),
            text::texts(out@) == affected(hits@.take(i as int)),
        decreases hits.len() - i,
    {
        assert(hits@.take(i + 1).drop_last() =~= hits@.take(i as int));
        assert(hits@.take(i + 1).last() == hits@[i as int]);
        if any_hit(&hits[i].files) {
            out.push(hits[i].group.clone());
        }
        i = i + 1;
    }
    assert(hits@.take(hits@.len() as int) =~= hits@);
    out
}

/// Whether a list shares an item with another.
pub open spec fn meets(a: Seq<Text>, b: Seq<Text>) -> bool {
    exists|i: int| 0 <= i < a.len() && b.contains(#[trigger] a[i])
}

/// The affected groups, in order, none of whose dependencies is affected too;
/// `deps` gives the dependencies of each.
pub open spec fn roots(affected: Seq<Text>, deps: Seq<Seq<Text>>, n: nat) -> Seq<Text>
    decreases n,
{
    if n == 0 {
        Seq::empty()
    } else if meets(deps[n - 1], affected) {
        roots(affected, deps, (n - 1) as nat)
    } else {
        roots(affected, deps, (n - 1) as nat).push(affected[n - 1])
    }
}

/// Whether `deps` is an answer of `f` about a group.
pub open spec fn answered<F: Fn(&str) -> Vec<String>>(f: F, group: Text, deps: Seq<Text>) -> bool {
    exists|s: &str, v: Vec<String>| #[trigger]
        call_ensures(f, (s,), v) && s@ == group && text::texts(v@) == deps
}

/// Filter affected groups to only root groups (groups with no affected
/// dependencies).
///
/// When multiple groups are affected by file changes, only the "root" groups are
/// triggered: those whose dependencies are NOT also affected. Dependents will be
/// triggered through the cascade mechanism when their dependencies complete.
pub fn filter_affected_to_roots<F: Fn(&str) -> Vec<String>>(
    affected_groups: &[String],
    get_dependencies: F,
) -> (r: Vec<String>)
    requires
        forall|s: &str| call_requires(get_dependencies, (s,)),
    ensures
        exists|deps: Seq<Seq<Text>>|
            #![trigger roots(text::texts(affected_groups@), deps, affected_groups@.len())]
            deps.len() == affected_groups@.len() && (forall|i: int|
                0 <= i < deps.len() ==> answered(
                    get_dependencies,
                    affected_groups@[i]@,
                    #[trigger] deps[i],
                )) && text::texts(r@) == roots(
                text::texts(affected_groups@),
                deps,
                affected_groups@.len(),
            ),
{
    let ghost affected = text::texts(affected_groups@);
    let ghost mut all: Seq<Seq<Text>> = Seq::empty();
    let mut out: Vec<String> = Vec::new();
    let mut i: usize = 0;
    assert(text::texts(out@) =~= Seq::<Text>::empty());
    while i < affected_groups.len()
        invariant
            0 <= i <= affected_groups@.len(),
            affected == text::texts(affected_groups@),
            all.len() == i,
            forall|s: &str| call_requires(get_dependencies, (s,)),
            forall|j: int|
                0 <= j < i ==> answered(
                    get_dependencies,
                    affected_groups@[j]@,
                    #[trigger] all[j],
                ),
            text::texts(out@) == roots(affected, all, i as nat),
        decreases affected_groups.len() - i,
    {
        let deps = get_dependencies(affected_groups[i].as_str());
        let ghost list = text::texts(deps@);
        let mut hit = false;
        let mut k: usize = 0;
        while k < deps.len()
            invariant
                0 <= k <= deps@.len(),
                list == text::texts(deps@),
                affected == text::texts(affected_groups@),
                hit <==> exists|j: int| 0 <= j < k && affected.contains(#[trigger] list[j]),
            decreases deps.len() - k,
        {
            assert(list[k as int] == deps@[k as int]@);
            if list_contains(affected_groups, deps[k].as_str()) {
                hit = true;
            }
            k = k + 1;
        }
        proof {
            let before = all;
            all = all.push(list);
            assert(answered(get_dependencies, affected_groups@[i as int]@, list));
            lemma_roots_prefix(affected, before, list, i as nat);
            assert(hit == meets(list, affected));
            assert forall|j: int| 0 <= j < i + 1 implies answered(
                get_dependencies,
                affected_groups@[j]@,
                #[trigger] all[j],
            ) by {
                if j < i {
                    assert(all[j] == before[j]);
                }
            }
        }
        if !hit {
            out.push(affected_groups[i].clone());
        }
        i = i + 1;
    }
    assert(text::texts(out@) == roots(
        text::texts(affected_groups@),
        all,
        affected_groups@.len(),
    ));
    out
}

/// The roots among the first groups do not depend on what comes after them.
proof fn lemma_roots_prefix(affected: Seq<Text>, deps: Seq<Seq<Text>>, more: Seq<Text>, n: nat)
    requires
        n <= deps.len(),
    ensures
        roots(affected, deps.push(more), n) == roots(affected, deps, n),
    decreases n,
{
    if n > 0 {
        lemma_roots_prefix(affected, deps, more, (n - 1) as nat);
    }
}

/// The status of a group whose tasks are in these states, once none runs.
pub open spec fn status_of_tasks(tasks: Seq<state::ProcessModel>) -> GroupStatus {
    if exists|i: int| 0 <= i < tasks.len() && (#[trigger] tasks[i]).status == ProcessStatus::Failed {
        GroupStatus::Failed
    } else {
        GroupStatus::Ready
    }
}

/// Calculate group status from task states.
///
/// Returns `None` if there are still tasks running, otherwise returns the final
/// status.
pub fn calculate_group_status_from_tasks(
    task_states: &[ProcessState],
    has_running_tasks: bool,
) -> (r: Option<GroupStatus>)
    ensures
        r == if has_running_tasks {
            None
        } else {
            Some(status_of_tasks(state::processes(task_states@)))
        },
{
    if has_running_tasks {
        return None;
    }
    let ghost all = state::processes(task_states@);
    let mut i: usize = 0;
    while i < task_states.len()
        invariant
            0 <= i <= task_states@.len(),
            !has_running_tasks,
            all == state::processes(task_states@),
            forall|j: int| 0 <= j < i ==> (#[trigger] all[j]).status != ProcessStatus::Failed,
        decreases task_states.len() - i,
    {
        assert(all[i as int] == task_states@[i as int]@);
        if task_states[i].status == ProcessStatus::Failed {
            return Some(GroupStatus::Failed);
        }
        i = i + 1;
    }
    Some(GroupStatus::Ready)
}

/// The first group of a list with a given name.
pub open spec fn first_named(groups: Seq<GroupConfig>, name: Text) -> Option<GroupConfig>
    decreases groups.len(),
{
    if groups.len() == 0 {
        None
    } else if groups[0].name == name {
        Some(groups[0])
    } else {
        first_named(groups.drop_first(), name)
    }
}

proof fn lemma_first_named(groups: Seq<GroupConfig>, name: Text, i: int)
    requires
        0 <= i <= groups.len(),
        forall|j: int| 0 <= j < i ==> (#[trigger] groups[j]).name != name,
        i < groups.len() ==> groups[i].name == name,
    ensures
        first_named(groups, name) == if i < groups.len() {
            Some(groups[i])
        } else {
            None
        },
    decreases groups.len(),
{
    if groups.len() > 0 && groups[0].name != name {
        assert(i > 0);
        assert forall|j: int| 0 <= j < i - 1 implies (#[trigger] groups.drop_first()[j]).name
            != name by {
            assert(groups[j + 1].name != name);
        }
        lemma_first_named(groups.drop_first(), name, i - 1);
    }
}

/// The names, in order, of the new groups that the old configuration has under
/// the same name but configured otherwise.
pub open spec fn modified_names(old_groups: Seq<GroupConfig>, new_groups: Seq<GroupConfig>) -> Seq<
    Text,
>
    decreases new_groups.len(),
{
    if new_groups.len() == 0 {
        Seq::empty()
    } else {
        let before = modified_names(old_groups, new_groups.drop_last());
        let g = new_groups.last();
        match first_named(old_groups, g.name) {
            Some(o) => if o == g {
                before
            } else {
                before.push(g.name)
            },
            None => before,
        }
    }
}

/// The names of the groups of `a` that no group of `b` has, each once.
fn names_only_in(a: &Vec<Group>, b: &Vec<Group>) -> (r: Vec<String>)
    ensures
        text::texts(r@).no_duplicates(),
        forall|x: Text| #[trigger]
            text::texts(r@).contains(x) <==> graph::group_names(schema::groups(a@)).contains(x)
                && !graph::group_names(schema::groups(b@)).contains(x),
{
    let ghost na = graph::group_names(schema::groups(a@));
    let ghost nb = graph::group_names(schema::groups(b@));
    let mut out: Vec<String> = Vec::new();
    let mut i: usize = 0;
    assert(na.take(0) =~= Seq::<Text>::empty());
    assert(text::texts(out@) =~= Seq::<Text>::empty());
    while i < a.len()
        invariant
            0 <= i <= a@.len(),
            na == graph::group_names(schema::groups(a@)),
            nb == graph::group_names(schema::groups(b@)),
            text::texts(out@).no_duplicates(),
            forall|x: Text| #[trigger]
                text::texts(out@).contains(x) <==> na.take(i as int).contains(x) && !nb.contains(x),
        decreases a.len() - i,
    {
        let ghost x = na[i as int];
        assert(x == a@[i as int].name@);
        assert forall|y: Text| #[trigger]
            na.take(i + 1).contains(y) <==> na.take(i as int).contains(y) || y == x by {
            if na.take(i as int).contains(y) {
                assert(na.take(i + 1)[na.take(i as int).index_of(y)] == y);
            }
            if y == x {
                assert(na.take(i + 1)[i as int] == y);
            }
            if na.take(i + 1).contains(y) && y != x {
                assert(na.take(i as int)[na.take(i + 1).index_of(y)] == y);
            }
        }
        let ghost before = text::texts(out@);
        if !has_group(b, a[i].name.as_str()) && !list_contains(
            out.as_slice(),
            a[i].name.as_str(),
        ) {
            out.push(a[i].name.clone());
            assert forall|y: Text| #[trigger]
                text::texts(out@).contains(y) <==> before.contains(y) || y == x by {
                if before.contains(y) {
                    assert(text::texts(out@)[before.index_of(y)] == y);
                }
                if y == x {
                    assert(text::texts(out@)[before.len() as int] == y);
                }
                if text::texts(out@).contains(y) && y != x {
                    assert(before[text::texts(out@).index_of(y)] == y);
                }
            }
        }
        i = i + 1;
    }
    assert(na.take(na.len() as int) =~= na);
    out
}

/// Whether a list has a group of this name.
fn has_group(groups: &Vec<Group>, name: &str) -> (r: bool)
    ensures
        r == graph::group_names(schema::groups(groups@)).contains(name@),
{
    let ghost names = graph::group_names(schema::groups(groups@));
    let mut i: usize = 0;
    while i < groups.len()
        invariant
            0 <= i <= groups@.len(),
            names == graph::group_names(schema::groups(groups@)),
            forall|j: int| 0 <= j < i ==> names[j] != name@,
        decreases groups.len() - i,
    {
        assert(names[i as int] == groups@[i as int].name@);
        if str_eq(groups[i].name.as_str(), name) {
            assert(names.contains(name@));
            return true;
        }
        i = i + 1;
    }
    false
}

/// Compute changes between old and new group configurations.
///
/// Returns (added, removed, modified) group names. Added and removed names come
/// in no particular order.
pub fn compute_config_changes(old_groups: &Vec<Group>, new_groups: &Vec<Group>) -> (r: (
    Vec<String>,
    Vec<String>,
    Vec<String>,
))
    ensures
        text::texts(r.0@).no_duplicates(),
        forall|x: Text| #[trigger]
            text::texts(r.0@).contains(x) <==> graph::group_names(
                schema::groups(new_groups@),
            ).contains(x) && !graph::group_names(schema::groups(old_groups@)).contains(x),
        text::texts(r.1@).no_duplicates(),
        forall|x: Text| #[trigger]
            text::texts(r.1@).contains(x) <==> graph::group_names(
                schema::groups(old_groups@),
            ).contains(x) && !graph::group_names(schema::groups(new_groups@)).contains(x),
        text::texts(r.2@) == modified_names(
            schema::groups(old_groups@),
            schema::groups(new_groups@),
        ),
{
    let added = names_only_in(new_groups, old_groups);
    let removed = names_only_in(old_groups, new_groups);
    let ghost olds = schema::groups(old_groups@);
    let ghost news = schema::groups(new_groups@);
    let mut modified: Vec<String> = Vec::new();
    let mut i: usize = 0;
    assert(news.take(0) =~= Seq::<GroupConfig>::empty());
    assert(text::texts(modified@) =~= Seq::<Text>::empty());
    while i < new_groups.len()
        invariant
            0 <= i <= new_groups@.len(),
            olds == schema::groups(old_groups@),
            news == schema::groups(new_groups@),
            text::texts(modified@) == modified_names(olds, news.take(i as int)),
        decreases new_groups.len() - i,
    {
        let name = new_groups[i].name.as_str();
        assert(news.take(i + 1).drop_last() =~= news.take(i as int));
        assert(news.take(i + 1).last() == new_groups@[i as int]@);
        let mut k: usize = 0;
        while k < old_groups.len() && !str_eq(old_groups[k].name.as_str(), name)
            invariant
                0 <= k <= old_groups@.len(),
                olds == schema::groups(old_groups@),
                forall|j: int| 0 <= j < k ==> (#[trigger] olds[j]).name != name@,
            decreases old_groups.len() - k,
        {
            assert(olds[k as int].name == old_groups@[k as int].name@);
            k = k + 1;
        }
        proof {
            if k < old_groups@.len() {
                assert(olds[k as int].name == old_groups@[k as int].name@);
            }
            lemma_first_named(olds, name@, k as int);
        }
        if k < old_groups.len() {
            assert(olds[k as int] == old_groups@[k as int]@);
            if !old_groups[k].same(&new_groups[i]) {
                modified.push(new_groups[i].name.clone());
            }
        }
        i = i + 1;
    }
    assert(news.take(news.len() as int) =~= news);
    (added, removed, modified)
}

/// Topologically sort groups based on dependencies.
pub fn topological_sort(groups: &Vec<Group>) -> (r: Result<Vec<String>, DaemonError>)
    ensures
        match graph::group_order(schema::groups(groups@)) {
            Ok(order) => r is Ok && text::texts(r->Ok_0@) == order,
            Err(cycle) => r matches Err(DaemonError::CyclicDependency(name)) && name@
                == cycle.last(),
        },
{
    match visit_groups(groups) {
        Ok(order) => Ok(order),
        Err(cycle) => {
            proof {
                graph::law_order_fails_only_on_a_cycle(schema::groups(groups@));
            }
            let mut cycle = cycle;
            assert(text::texts(cycle@).last() == cycle@.last()@);
            match cycle.pop() {
                Some(name) => Err(DaemonError::CyclicDependency(name)),
                None => Err(DaemonError::CyclicDependency(String::new())),
            }
        },
    }
}

} // verus!
