//! Dependency graph management for group orchestration.
//!
//! The [`DependencyResolver`] tracks group dependencies and waiting states, and
//! computes which groups should start or be skipped when dependencies complete
//! or fail.

use crate::daemon::state::GroupStatus;
use crate::strmap::{StrMap, StrSet};
use crate::text::{self, list_to_vec, str_eq, Text};
use vstd::prelude::*;

verus! {

broadcast use crate::text::lemma_texts_push;

/// Result of marking a group as complete.
#[derive(Debug)]
pub struct CompletionResult {
    /// Groups that are now ready to start.
    pub ready_to_start: Vec<String>,
    /// Groups that should be skipped (dependency failed).
    pub needs_skip: Vec<String>,
}

impl Default for CompletionResult {
    fn default() -> (r: Self)
        ensures
            r.ready_to_start@.len() == 0,
            r.needs_skip@.len() == 0,
    {
        CompletionResult { ready_to_start: Vec::new(), needs_skip: Vec::new() }
    }
}

/// Result of marking a group as failed.
#[derive(Debug)]
pub struct FailureResult {
    /// Groups that should be skipped (transitively).
    pub to_skip: Vec<String>,
}

impl Default for FailureResult {
    fn default() -> (r: Self)
        ensures
            r.to_skip@.len() == 0,
    {
        FailureResult { to_skip: Vec::new() }
    }
}

/// Manages dependency relationships between groups.
///
/// It tracks which groups depend on which other groups (both directions), which
/// groups are waiting for dependencies, and the current status of each group.
#[derive(Debug)]
pub struct DependencyResolver {
    /// Reverse dependency map: group -> groups that depend on it.
    dependents: StrMap<Vec<String>>,
    /// Groups waiting for dependencies: group -> deps still waited for.
    waiting: StrMap<StrSet>,
    /// Current status of each group.
    statuses: StrMap<GroupStatus>,
    /// Forward dependency map: group -> groups it depends on.
    dependencies: StrMap<Vec<String>>,
}

/// The model of a [`DependencyResolver`].
#[verifier::ext_equal]
pub struct ResolverModel {
    pub dependents: Map<Text, Seq<Text>>,
    pub waiting: Map<Text, Set<Text>>,
    pub statuses: Map<Text, GroupStatus>,
    pub dependencies: Map<Text, Seq<Text>>,
}

impl View for DependencyResolver {
    type V = ResolverModel;

    closed spec fn view(&self) -> ResolverModel {
        ResolverModel {
            dependents: self.dependents@,
            waiting: self.waiting@,
            statuses: self.statuses@,
            dependencies: self.dependencies@,
        }
    }
}

/// The models of (group name, dependencies) pairs.
pub open spec fn group_pairs<'a>(v: Seq<(&'a str, &'a [String])>) -> Seq<(Text, Seq<Text>)> {
    Seq::new(v.len(), |i: int| (v[i].0@, text::texts(v[i].1@)))
}

/// The items of `s` other than `name`, in order.
pub open spec fn without_name(s: Seq<Text>, name: Text) -> Seq<Text> {
    s.filter(|d: Text| d != name)
}

/// The items of `s` in order of first occurrence, each once.
pub open spec fn distinct(s: Seq<Text>) -> Seq<Text>
    decreases s.len(),
{
    if s.len() == 0 {
        s
    } else {
        let init = distinct(s.drop_last());
        if s.drop_last().contains(s.last()) {
            init
        } else {
            init.push(s.last())
        }
    }
}

impl ResolverModel {
    /// A resolver that knows no group.
    pub open spec fn empty() -> ResolverModel {
        ResolverModel {
            dependents: Map::empty(),
            waiting: Map::empty(),
            statuses: Map::empty(),
            dependencies: Map::empty(),
        }
    }

    /// What a group depends on.
    pub open spec fn deps(self, group: Text) -> Seq<Text> {
        if self.dependencies.dom().contains(group) {
            self.dependencies[group]
        } else {
            Seq::empty()
        }
    }

    /// What depends on a group.
    pub open spec fn dependents_of(self, group: Text) -> Seq<Text> {
        if self.dependents.dom().contains(group) {
            self.dependents[group]
        } else {
            Seq::empty()
        }
    }

    /// Whether a group is Ready.
    pub open spec fn ready(self, group: Text) -> bool {
        self.statuses.dom().contains(group) && self.statuses[group] == GroupStatus::Ready
    }

    /// Whether a group is Failed or Skipped.
    pub open spec fn failed_or_skipped(self, group: Text) -> bool {
        self.statuses.dom().contains(group) && (self.statuses[group] == GroupStatus::Failed
            || self.statuses[group] == GroupStatus::Skipped)
    }

    /// Whether some dependency of a group is Failed or Skipped.
    pub open spec fn dep_failed(self, group: Text) -> bool {
        exists|i: int|
            0 <= i < self.deps(group).len() && self.failed_or_skipped(
                #[trigger] self.deps(group)[i],
            )
    }

    /// The resolver with one status changed.
    pub open spec fn with_status(self, group: Text, status: GroupStatus) -> ResolverModel {
        ResolverModel { statuses: self.statuses.insert(group, status), ..self }
    }

    /// The dependency edges from `deps[..n]` to `name`, appended to `dependents`.
    pub open spec fn link(
        dependents: Map<Text, Seq<Text>>,
        name: Text,
        deps: Seq<Text>,
    ) -> Map<Text, Seq<Text>>
        decreases deps.len(),
    {
        if deps.len() == 0 {
            dependents
        } else {
            let m = Self::link(dependents, name, deps.drop_last());
            let d = deps.last();
            m.insert(
                d,
                if m.dom().contains(d) {
                    m[d].push(name)
                } else {
                    seq![name]
                },
            )
        }
    }

    /// The resolver with a group added.
    pub open spec fn added(self, name: Text, deps: Seq<Text>) -> ResolverModel {
        ResolverModel {
            dependents: Self::link(self.dependents, name, deps),
            waiting: self.waiting,
            statuses: self.statuses.insert(name, GroupStatus::Pending),
            dependencies: self.dependencies.insert(name, deps),
        }
    }

    /// The resolver of a list of groups, added in order.
    pub open spec fn of_groups(groups: Seq<(Text, Seq<Text>)>) -> ResolverModel
        decreases groups.len(),
    {
        if groups.len() == 0 {
            Self::empty()
        } else {
            Self::of_groups(groups.drop_last()).added(groups.last().0, groups.last().1)
        }
    }

    /// The dependencies of a group that are not Ready.
    pub open spec fn unready(self, group: Text) -> Set<Text> {
        Set::new(|d: Text| self.deps(group).contains(d) && !self.ready(d))
    }

    /// The resolver after a group was made to wait for what it lacks.
    pub open spec fn marked_waiting(self, group: Text) -> ResolverModel {
        if self.unready(group) == Set::<Text>::empty() {
            self
        } else {
            ResolverModel {
                waiting: self.waiting.insert(group, self.unready(group)),
                statuses: self.statuses.insert(group, GroupStatus::Waiting),
                ..self
            }
        }
    }

    /// Whether `d` waits for `group` and for nothing else.
    pub open spec fn frees(self, group: Text, d: Text) -> bool {
        self.waiting.dom().contains(d) && self.waiting[d].remove(group) == Set::<Text>::empty()
    }

    /// The dependents of `group` that wait for nothing else, in order.
    pub open spec fn freed(self, group: Text) -> Seq<Text> {
        distinct(self.dependents_of(group)).filter(|d: Text| self.frees(group, d))
    }

    /// The waiting table once none of `among` waits for `group` any more.
    pub open spec fn waiting_without(self, group: Text, among: Seq<Text>) -> Map<Text, Set<Text>> {
        Map::new(
            |d: Text|
                self.waiting.dom().contains(d) && !(among.contains(d) && self.frees(group, d)),
            |d: Text|
                if among.contains(d) {
                    self.waiting[d].remove(group)
                } else {
                    self.waiting[d]
                },
        )
    }

    /// The resolver after a group completed.
    pub open spec fn completed(self, group: Text) -> ResolverModel {
        ResolverModel {
            waiting: self.waiting_without(group, self.dependents_of(group)),
            ..self.with_status(group, GroupStatus::Ready)
        }
    }

    /// The groups that may start once `group` has completed.
    pub open spec fn started_by(self, group: Text) -> Seq<Text> {
        let m = self.with_status(group, GroupStatus::Ready);
        m.freed(group).filter(|d: Text| !m.dep_failed(d))
    }

    /// The groups that must be skipped once `group` has completed.
    pub open spec fn skipped_by(self, group: Text) -> Seq<Text> {
        let m = self.with_status(group, GroupStatus::Ready);
        m.freed(group).filter(|d: Text| m.dep_failed(d))
    }

    /// The resolver with the groups of `list` Skipped.
    pub open spec fn statuses_skipping(self, list: Seq<Text>) -> Map<Text, GroupStatus> {
        Map::new(
            |g: Text| self.statuses.dom().contains(g) || list.contains(g),
            |g: Text|
                if list.contains(g) {
                    GroupStatus::Skipped
                } else {
                    self.statuses[g]
                },
        )
    }

    /// The resolver after the waiting dependents of a dead group were released,
    /// those that wait for nothing else being Skipped.
    pub open spec fn released(self, group: Text) -> ResolverModel {
        ResolverModel {
            waiting: self.waiting_without(group, self.dependents_of(group)),
            statuses: self.statuses_skipping(self.freed(group)),
            ..self
        }
    }

    /// Skips everything that waits only for the groups of `stack`, last first,
    /// and for what is skipped on the way. Gives the resolver after it, and the
    /// groups skipped, in order.
    pub open spec fn cascade(self, stack: Seq<Text>) -> (ResolverModel, Seq<Text>)
        decreases self.waiting.dom().len(), stack.len(),
        when self.waiting.dom().finite()
    {
        if stack.len() == 0 {
            (self, Seq::empty())
        } else {
            proof {
                self.lemma_released_shrinks(stack.last());
            }
            let freed = self.freed(stack.last());
            let rest = self.released(stack.last()).cascade(stack.drop_last() + freed);
            (rest.0, freed + rest.1)
        }
    }

    /// Releasing a group never adds a waiting group, and removes those it frees.
    pub proof fn lemma_released_shrinks(self, group: Text)
        requires
            self.waiting.dom().finite(),
        ensures
            self.released(group).waiting.dom().finite(),
            self.released(group).waiting.dom().len() <= self.waiting.dom().len(),
            self.freed(group).len() > 0 ==> self.released(group).waiting.dom().len()
                < self.waiting.dom().len(),
    {
        let a = self.waiting.dom();
        let b = self.released(group).waiting.dom();
        assert(b.subset_of(a));
        vstd::set_lib::lemma_set_subset_finite(a, b);
        vstd::set_lib::lemma_len_subset(b, a);
        if self.freed(group).len() > 0 {
            let pred = |d: Text| self.frees(group, d);
            let list = distinct(self.dependents_of(group));
            list.lemma_filter_pred(pred, 0);
            let d = self.freed(group)[0];
            list.lemma_filter_contains_rev(pred, d);
            lemma_distinct(self.dependents_of(group));
            assert(self.dependents_of(group).contains(d));
            assert(a.contains(d) && !b.contains(d));
            if b.len() == a.len() {
                vstd::set_lib::lemma_subset_equality(b, a);
            }
        }
    }

    /// The resolver without a group: it is no key, and stands in no list and in no
    /// set.
    pub open spec fn removed(self, name: Text) -> ResolverModel {
        ResolverModel {
            dependents: self.dependents.remove(name).map_values(
                |list: Seq<Text>| without_name(list, name),
            ),
            waiting: self.waiting.remove(name).map_values(|set: Set<Text>| set.remove(name)),
            statuses: self.statuses.remove(name),
            dependencies: self.dependencies.remove(name).map_values(
                |list: Seq<Text>| without_name(list, name),
            ),
        }
    }

    /// The resolver with nothing waiting and every known group Pending.
    pub open spec fn reset(self) -> ResolverModel {
        ResolverModel {
            waiting: Map::empty(),
            statuses: self.statuses.map_values(|s: GroupStatus| GroupStatus::Pending),
            ..self
        }
    }

    /// Makes each group of `order` wait for what it depends on and is not ready, in
    /// turn.
    pub open spec fn initialised(self, order: Seq<Text>) -> ResolverModel
        decreases order.len(),
    {
        if order.len() == 0 {
            self
        } else {
            self.initialised(order.drop_last()).marked_waiting(order.last())
        }
    }

    /// The groups of `order` that have nothing to wait for when it is their turn.
    pub open spec fn startable(self, order: Seq<Text>) -> Seq<Text>
        decreases order.len(),
    {
        if order.len() == 0 {
            Seq::empty()
        } else {
            let before = self.startable(order.drop_last());
            if self.initialised(order.drop_last()).unready(order.last()) == Set::<Text>::empty() {
                before.push(order.last())
            } else {
                before
            }
        }
    }
}

/// `distinct` keeps the members, and drops only repetitions.
pub proof fn lemma_distinct(s: Seq<Text>)
    ensures
        distinct(s).no_duplicates(),
        distinct(s).to_set() == s.to_set(),
        forall|x: Text| #[trigger] distinct(s).contains(x) <==> s.contains(x),
    decreases s.len(),
{
    if s.len() > 0 {
        let init = s.drop_last();
        lemma_distinct(init);
        assert forall|x: Text| #[trigger] distinct(s).contains(x) <==> s.contains(x) by {
            if s.contains(x) {
                let i = s.index_of(x);
                if i < init.len() {
                    assert(init[i] == x);
                    assert(init.contains(x) && distinct(init).contains(x));
                    let j = distinct(init).index_of(x);
                    assert(distinct(s)[j] == x);
                } else if !init.contains(x) {
                    assert(distinct(s)[distinct(init).len() as int] == x);
                }
            }
            if distinct(s).contains(x) {
                let j = distinct(s).index_of(x);
                if j < distinct(init).len() {
                    assert(distinct(init)[j] == x);
                    assert(distinct(init).contains(x));
                    assert(init.contains(x));
                    assert(s[init.index_of(x)] == x);
                } else {
                    assert(s[s.len() - 1] == x);
                }
            }
        }
    }
    assert(distinct(s).to_set() =~= s.to_set());
    if s.len() > 0 && !s.drop_last().contains(s.last()) {
        assert(!distinct(s.drop_last()).contains(s.last()));
    }
}


/// Appending one item to a list, as `distinct` sees it.
proof fn lemma_distinct_step(s: Seq<Text>, i: int)
    requires
        0 <= i < s.len(),
    ensures
        distinct(s.take(i + 1)) == if s.take(i).contains(s[i]) {
            distinct(s.take(i))
        } else {
            distinct(s.take(i)).push(s[i])
        },
{
    assert(s.take(i + 1).drop_last() =~= s.take(i));
}

/// Filtering a list with one more item.
proof fn lemma_filter_push(s: Seq<Text>, x: Text, p: spec_fn(Text) -> bool)
    ensures
        s.push(x).filter(p) == if p(x) {
            s.filter(p).push(x)
        } else {
            s.filter(p)
        },
{
    reveal(Seq::filter);
    assert(s.push(x).drop_last() =~= s);
}

impl DependencyResolver {
    /// Create a new empty dependency resolver.
    pub fn new() -> (r: Self)
        ensures
            r@ == ResolverModel::empty(),
    {
        DependencyResolver {
            dependents: StrMap::new(),
            waiting: StrMap::new(),
            statuses: StrMap::new(),
            dependencies: StrMap::new(),
        }
    }

    /// Build a dependency resolver from group configurations.
    ///
    /// Takes (group name, dependencies) pairs.
    pub fn from_groups<'a>(groups: Vec<(&'a str, &'a [String])>) -> (r: Self)
        ensures
            r@ == ResolverModel::of_groups(group_pairs(groups@)),
    {
        let mut resolver = DependencyResolver::new();
        let ghost pairs = group_pairs(groups@);
        let mut i: usize = 0;
        assert(pairs.take(0) =~= Seq::empty());
        while i < groups.len()
            invariant
                0 <= i <= groups.len(),
                pairs == group_pairs(groups@),
                resolver@ == ResolverModel::of_groups(pairs.take(i as int)),
            decreases groups.len() - i,
        {
            assert(pairs.take(i + 1).drop_last() =~= pairs.take(i as int));
            let (name, deps) = groups[i];
            resolver.add_group(name, deps);
            i = i + 1;
        }
        assert(pairs.take(pairs.len() as int) =~= pairs);
        resolver
    }

    /// Add a group with its dependencies.
    pub fn add_group(&mut self, name: &str, dependencies: &[String])
        ensures
            final(self)@ == old(self)@.added(name@, text::texts(dependencies@)),
    {
        let copy = list_to_vec(dependencies);
        assert(copy.deep_view() =~= text::texts(dependencies@));
        self.dependencies.insert(name.to_owned(), copy);
        let ghost base = self.dependents@;
        let mut i: usize = 0;
        assert(text::texts(dependencies@).take(0) =~= Seq::<Text>::empty());
        while i < dependencies.len()
            invariant
                0 <= i <= dependencies.len(),
                self.dependents@ == ResolverModel::link(
                    base,
                    name@,
                    text::texts(dependencies@).take(i as int),
                ),
                base == old(self).dependents@,
                self.waiting == old(self).waiting,
                self.statuses == old(self).statuses,
                self.dependencies@ == old(self).dependencies@.insert(
                    name@,
                    text::texts(dependencies@),
                ),
            decreases dependencies.len() - i,
        {
            let ghost deps = text::texts(dependencies@);
            let ghost before = self.dependents@;
            assert(deps.take(i + 1).drop_last() =~= deps.take(i as int));
            let dep = dependencies[i].clone();
            let mut list = self.get_dependents(dep.as_str());
            list.push(name.to_owned());
            assert(list.deep_view() =~= if before.dom().contains(dep@) {
                before[dep@].push(name@)
            } else {
                seq![name@]
            });
            self.dependents.insert(dep, list);
            i = i + 1;
        }
        assert(text::texts(dependencies@).take(dependencies@.len() as int) =~= text::texts(dependencies@));
        self.statuses.insert(name.to_owned(), GroupStatus::Pending);
    }

    /// Get the dependencies for a group.
    pub fn get_dependencies(&self, group: &str) -> (r: Vec<String>)
        ensures
            text::texts(r@) == self@.deps(group@),
    {
        match self.dependencies.get(group) {
            Some(list) => {
                let r = list.clone();
                assert(text::texts(r@) =~= list.deep_view());
                r
            },
            None => {
                let r: Vec<String> = Vec::new();
                assert(text::texts(r@) =~= Seq::<Text>::empty());
                r
            },
        }
    }

    /// Get the dependents (reverse dependencies) for a group.
    pub fn get_dependents(&self, group: &str) -> (r: Vec<String>)
        ensures
            text::texts(r@) == self@.dependents_of(group@),
    {
        match self.dependents.get(group) {
            Some(list) => {
                let r = list.clone();
                assert(text::texts(r@) =~= list.deep_view());
                r
            },
            None => {
                let r: Vec<String> = Vec::new();
                assert(text::texts(r@) =~= Seq::<Text>::empty());
                r
            },
        }
    }

    /// Set the status of a group.
    pub fn set_status(&mut self, group: &str, status: GroupStatus)
        ensures
            final(self)@ == old(self)@.with_status(group@, status),
    {
        self.statuses.insert(group.to_owned(), status);
    }

    /// Get the status of a group.
    pub fn get_status(&self, group: &str) -> (r: Option<GroupStatus>)
        ensures
            r == if self@.statuses.dom().contains(group@) {
                Some(self@.statuses[group@])
            } else {
                None
            },
    {
        match self.statuses.get(group) {
            Some(s) => Some(*s),
            None => None,
        }
    }

    /// Check if a group is in Ready status.
    pub fn is_ready(&self, group: &str) -> (r: bool)
        ensures
            r == self@.ready(group@),
    {
        match self.statuses.get(group) {
            Some(s) => *s == GroupStatus::Ready,
            None => false,
        }
    }

    /// Check if a group is in Failed or Skipped status.
    pub fn is_failed_or_skipped(&self, group: &str) -> (r: bool)
        ensures
            r == self@.failed_or_skipped(group@),
    {
        match self.statuses.get(group) {
            Some(s) => *s == GroupStatus::Failed || *s == GroupStatus::Skipped,
            None => false,
        }
    }

    /// Check if any dependents are waiting for this group.
    ///
    /// This is used to determine the lifecycle phase: if dependents are waiting,
    /// the group is in its startup phase; otherwise it is in its runtime phase.
    pub fn has_waiting_dependents(&self, group: &str) -> (r: bool)
        ensures
            r == exists|i: int|
                0 <= i < self@.dependents_of(group@).len() && self@.waiting.dom().contains(
                    #[trigger] self@.dependents_of(group@)[i],
                ) && self@.waiting[self@.dependents_of(group@)[i]].contains(group@),
    {
        let dependents = self.get_dependents(group);
        let ghost list = text::texts(dependents@);
        let mut i: usize = 0;
        while i < dependents.len()
            invariant
                0 <= i <= dependents.len(),
                list == text::texts(dependents@),
                list == self@.dependents_of(group@),
                forall|j: int|
                    0 <= j < i ==> !(self@.waiting.dom().contains(#[trigger] list[j])
                        && self@.waiting[list[j]].contains(group@)),
            decreases dependents.len() - i,
        {
            assert(list[i as int] == dependents@[i as int]@);
            if let Some(waiting_for) = self.waiting.get(dependents[i].as_str()) {
                if waiting_for.contains(group) {
                    return true;
                }
            }
            i = i + 1;
        }
        false
    }

    /// Check if any dependency of a group has failed or been skipped.
    pub fn any_dependency_failed(&self, group: &str) -> (r: bool)
        ensures
            r == self@.dep_failed(group@),
    {
        let deps = self.get_dependencies(group);
        let ghost list = text::texts(deps@);
        let mut i: usize = 0;
        while i < deps.len()
            invariant
                0 <= i <= deps.len(),
                list == text::texts(deps@),
                list == self@.deps(group@),
                forall|j: int| 0 <= j < i ==> !self@.failed_or_skipped(#[trigger] list[j]),
            decreases deps.len() - i,
        {
            assert(list[i as int] == deps@[i as int]@);
            if self.is_failed_or_skipped(deps[i].as_str()) {
                return true;
            }
            i = i + 1;
        }
        false
    }

    /// Check if all dependencies of a group are ready.
    pub fn all_dependencies_ready(&self, group: &str) -> (r: bool)
        ensures
            r == forall|i: int|
                0 <= i < self@.deps(group@).len() ==> self@.ready(#[trigger] self@.deps(group@)[i]),
    {
        let deps = self.get_dependencies(group);
        let ghost list = text::texts(deps@);
        let mut i: usize = 0;
        while i < deps.len()
            invariant
                0 <= i <= deps.len(),
                list == text::texts(deps@),
                list == self@.deps(group@),
                forall|j: int| 0 <= j < i ==> self@.ready(#[trigger] list[j]),
            decreases deps.len() - i,
        {
            assert(list[i as int] == deps@[i as int]@);
            if !self.is_ready(deps[i].as_str()) {
                return false;
            }
            i = i + 1;
        }
        true
    }

    /// Check if a group is in the waiting state.
    pub fn is_waiting(&self, group: &str) -> (r: bool)
        ensures
            r == self@.waiting.dom().contains(group@),
    {
        self.waiting.contains_key(group)
    }

    /// Get the set of dependencies a group is waiting for.
    pub fn waiting_for(&self, group: &str) -> (r: Option<&StrSet>)
        ensures
            match r {
                Some(s) => self@.waiting.dom().contains(group@) && s@ == self@.waiting[group@],
                None => !self@.waiting.dom().contains(group@),
            },
    {
        self.waiting.get(group)
    }

    /// Mark a group as waiting for its dependencies.
    ///
    /// Returns the set of dependencies the group is waiting for, or None if all
    /// dependencies are already satisfied.
    pub fn mark_waiting(&mut self, group: &str) -> (r: Option<StrSet>)
        ensures
            final(self)@ == old(self)@.marked_waiting(group@),
            match r {
                Some(s) => s@ == old(self)@.unready(group@) && s@ != Set::<Text>::empty(),
                None => old(self)@.unready(group@) == Set::<Text>::empty(),
            },
    {
        let deps = self.get_dependencies(group);
        let ghost list = text::texts(deps@);
        let mut unready = StrSet::new();
        let mut i: usize = 0;
        while i < deps.len()
            invariant
                0 <= i <= deps.len(),
                list == text::texts(deps@),
                list == self@.deps(group@),
                *self == *old(self),
                forall|d: Text| #[trigger]
                    unready@.contains(d) <==> list.take(i as int).contains(d) && !self@.ready(d),
            decreases deps.len() - i,
        {
            assert(list[i as int] == deps@[i as int]@);
            assert(list.take(i + 1) =~= list.take(i as int).push(list[i as int]));
            assert forall|d: Text| #[trigger]
                list.take(i + 1).contains(d) <==> list.take(i as int).contains(d) || d
                    == list[i as int] by {
                if list.take(i as int).contains(d) {
                    let j = list.take(i as int).index_of(d);
                    assert(list.take(i + 1)[j] == d);
                }
                if d == list[i as int] {
                    assert(list.take(i + 1)[i as int] == d);
                }
                if list.take(i + 1).contains(d) && d != list[i as int] {
                    let j = list.take(i + 1).index_of(d);
                    assert(list.take(i as int)[j] == d);
                }
            }
            if !self.is_ready(deps[i].as_str()) {
                unready.insert(deps[i].clone());
            }
            i = i + 1;
        }
        assert(list.take(list.len() as int) =~= list);
        assert(unready@ =~= self@.unready(group@));
        if unready.is_empty() {
            None
        } else {
            self.waiting.insert(group.to_owned(), unready.copy());
            self.set_status(group, GroupStatus::Waiting);
            Some(unready)
        }
    }

    /// Lets no dependent of `group` wait for it any more; hands out those that
    /// waited for nothing else, in order.
    fn release(&mut self, group: &str) -> (r: Vec<String>)
        ensures
            text::texts(r@) == old(self)@.freed(group@),
            final(self)@ == (ResolverModel {
                waiting: old(self)@.waiting_without(group@, old(self)@.dependents_of(group@)),
                ..old(self)@
            }),
    {
        let dependents = self.get_dependents(group);
        let ghost m = self@;
        let ghost list = text::texts(dependents@);
        let ghost pred = |d: Text| m.frees(group@, d);
        let mut freed: Vec<String> = Vec::new();
        let mut i: usize = 0;
        proof {
            assert(list.take(0) =~= Seq::<Text>::empty());
            reveal(Seq::filter);
            assert(text::texts(freed@) =~= distinct(list.take(0)).filter(pred));
            assert(self@ =~= (ResolverModel { waiting: m.waiting_without(group@, list.take(0)), ..m }));
        }
        while i < dependents.len()
            invariant
                0 <= i <= dependents.len(),
                m == old(self)@,
                list == text::texts(dependents@),
                list == m.dependents_of(group@),
                pred == (|d: Text| m.frees(group@, d)),
                text::texts(freed@) == distinct(list.take(i as int)).filter(pred),
                self@ == (ResolverModel {
                    waiting: m.waiting_without(group@, list.take(i as int)),
                    ..m
                }),
            decreases dependents.len() - i,
        {
            let ghost x = list[i as int];
            let ghost before = self@;
            proof {
                assert(x == dependents@[i as int]@);
                lemma_distinct_step(list, i as int);
                lemma_filter_push(distinct(list.take(i as int)), x, pred);
                assert forall|d: Text| #[trigger]
                    list.take(i + 1).contains(d) <==> list.take(i as int).contains(d) || d == x by {
                    if list.take(i as int).contains(d) {
                        let j = list.take(i as int).index_of(d);
                        assert(list.take(i + 1)[j] == d);
                    }
                    if d == x {
                        assert(list.take(i + 1)[i as int] == d);
                    }
                    if list.take(i + 1).contains(d) && d != x {
                        let j = list.take(i + 1).index_of(d);
                        assert(list.take(i as int)[j] == d);
                    }
                }
            }
            if let Some(waiting_for) = self.waiting.get(dependents[i].as_str()) {
                let mut left = waiting_for.copy();
                left.remove(group);
                assert(m.waiting[x].remove(group@).remove(group@) =~= m.waiting[x].remove(group@));
                if left.is_empty() {
                    assert(!list.take(i as int).contains(x));
                    self.waiting.remove(dependents[i].as_str());
                    freed.push(dependents[i].clone());
                    assert(text::texts(freed@) =~= distinct(list.take(i as int)).filter(pred).push(x));
                } else {
                    self.waiting.insert(dependents[i].clone(), left);
                }
            }
            i = i + 1;
            assert(self@.waiting =~= m.waiting_without(group@, list.take(i as int)));
        }
        assert(list.take(list.len() as int) =~= list);
        freed
    }

    /// Mark a group as complete (Ready status).
    ///
    /// Returns groups that are now ready to start because all their dependencies
    /// are satisfied, and groups that should be skipped because a dependency
    /// failed.
    pub fn mark_complete(&mut self, group: &str) -> (r: CompletionResult)
        ensures
            final(self)@ == old(self)@.completed(group@),
            text::texts(r.ready_to_start@) == old(self)@.started_by(group@),
            text::texts(r.needs_skip@) == old(self)@.skipped_by(group@),
    {
        self.set_status(group, GroupStatus::Ready);
        let ghost m = self@;
        assert(m.dependents_of(group@) == old(self)@.dependents_of(group@));
        assert(m.waiting_without(group@, m.dependents_of(group@)) =~= old(self)@.waiting_without(
            group@,
            m.dependents_of(group@),
        ));
        let freed = self.release(group);
        let ghost list = text::texts(freed@);
        let ghost good = |d: Text| !m.dep_failed(d);
        let ghost bad = |d: Text| m.dep_failed(d);
        let mut ready_to_start: Vec<String> = Vec::new();
        let mut needs_skip: Vec<String> = Vec::new();
        let mut i: usize = 0;
        proof {
            assert(list.take(0) =~= Seq::<Text>::empty());
            reveal(Seq::filter);
            assert(text::texts(ready_to_start@) =~= list.take(0).filter(good));
            assert(text::texts(needs_skip@) =~= list.take(0).filter(bad));
        }
        while i < freed.len()
            invariant
                0 <= i <= freed.len(),
                list == text::texts(freed@),
                list == m.freed(group@),
                good == (|d: Text| !m.dep_failed(d)),
                bad == (|d: Text| m.dep_failed(d)),
                m == old(self)@.with_status(group@, GroupStatus::Ready),
                self@ == old(self)@.completed(group@),
                self@.dependencies == m.dependencies,
                self@.statuses == m.statuses,
                text::texts(ready_to_start@) == list.take(i as int).filter(good),
                text::texts(needs_skip@) == list.take(i as int).filter(bad),
            decreases freed.len() - i,
        {
            let ghost x = list[i as int];
            proof {
                assert(x == freed@[i as int]@);
                assert(list.take(i + 1) =~= list.take(i as int).push(x));
                lemma_filter_push(list.take(i as int), x, good);
                lemma_filter_push(list.take(i as int), x, bad);
                assert(self@.deps(x) == m.deps(x));
                assert(forall|y: Text| self@.failed_or_skipped(y) == m.failed_or_skipped(y));
                assert(self@.dep_failed(x) == m.dep_failed(x));
            }
            if self.any_dependency_failed(freed[i].as_str()) {
                needs_skip.push(freed[i].clone());
                assert(text::texts(needs_skip@) =~= list.take(i as int).filter(bad).push(x));
            } else {
                ready_to_start.push(freed[i].clone());
                assert(text::texts(ready_to_start@) =~= list.take(i as int).filter(good).push(x));
            }
            i = i + 1;
        }
        assert(list.take(list.len() as int) =~= list);
        CompletionResult { ready_to_start, needs_skip }
    }

    /// Compute groups to skip starting from a failed or skipped group, without
    /// changing that group's own status.
    fn cascade_skip_from(&mut self, group: &str) -> (r: FailureResult)
        ensures
            final(self)@ == old(self)@.cascade(seq![group@]).0,
            text::texts(r.to_skip@) == old(self)@.cascade(seq![group@]).1,
    {
        let mut to_skip: Vec<String> = Vec::new();
        let mut to_process: Vec<String> = Vec::new();
        to_process.push(group.to_owned());
        let _ = self.waiting.len();
        let ghost full = self@.cascade(seq![group@]);
        assert(text::texts(to_process@) =~= seq![group@]);
        assert(text::texts(to_skip@) + full.1 =~= full.1);
        while to_process.len() > 0
            invariant
                self@.waiting.dom().finite(),
                full == old(self)@.cascade(seq![group@]),
                full.0 == self@.cascade(text::texts(to_process@)).0,
                full.1 == text::texts(to_skip@) + self@.cascade(text::texts(to_process@)).1,
            decreases self@.waiting.dom().len(), to_process.len(),
        {
            let ghost stack = text::texts(to_process@);
            let ghost m = self@;
            let ghost done = text::texts(to_skip@);
            let current: String = match to_process.pop() {
                Some(c) => c,
                None => {
                    return FailureResult { to_skip };
                },
            };
            proof {
                assert(current@ == stack.last());
                assert(text::texts(to_process@) =~= stack.drop_last());
                m.lemma_released_shrinks(current@);
            }
            let freed = self.release(current.as_str());
            let ghost list = text::texts(freed@);
            let ghost waiting = self@.waiting;
            let mut i: usize = 0;
            proof {
                assert(self@.statuses =~= m.statuses_skipping(list.take(0)));
                assert(text::texts(to_skip@) =~= done + list.take(0));
                assert(text::texts(to_process@) =~= stack.drop_last() + list.take(0));
            }
            while i < freed.len()
                invariant
                    0 <= i <= freed.len(),
                    list == text::texts(freed@),
                    self@ == (ResolverModel {
                        waiting,
                        statuses: m.statuses_skipping(list.take(i as int)),
                        ..m
                    }),
                    text::texts(to_skip@) == done + list.take(i as int),
                    text::texts(to_process@) == stack.drop_last() + list.take(i as int),
                decreases freed.len() - i,
            {
                let ghost x = list[i as int];
                proof {
                    assert(x == freed@[i as int]@);
                    assert(list.take(i + 1) =~= list.take(i as int).push(x));
                    assert forall|d: Text| #[trigger]
                        list.take(i + 1).contains(d) <==> list.take(i as int).contains(d) || d
                            == x by {
                        if list.take(i as int).contains(d) {
                            assert(list.take(i + 1)[list.take(i as int).index_of(d)] == d);
                        }
                        if d == x {
                            assert(list.take(i + 1)[i as int] == d);
                        }
                        if list.take(i + 1).contains(d) && d != x {
                            assert(list.take(i as int)[list.take(i + 1).index_of(d)] == d);
                        }
                    }
                }
                self.set_status(freed[i].as_str(), GroupStatus::Skipped);
                to_skip.push(freed[i].clone());
                to_process.push(freed[i].clone());
                i = i + 1;
                proof {
                    assert(self@.statuses =~= m.statuses_skipping(list.take(i as int)));
                    assert(text::texts(to_skip@) =~= done + list.take(i as int));
                    assert(text::texts(to_process@) =~= stack.drop_last() + list.take(i as int));
                }
            }
            proof {
                assert(list.take(list.len() as int) =~= list);
                assert(self@ == m.released(current@));
                let rest = self@.cascade(stack.drop_last() + list);
                assert(done + (list + rest.1) =~= (done + list) + rest.1);
            }
        }
        assert(text::texts(to_process@) =~= Seq::<Text>::empty());
        assert(text::texts(to_skip@) + Seq::<Text>::empty() =~= text::texts(to_skip@));
        FailureResult { to_skip }
    }

    /// Mark a group as skipped and compute cascade skips.
    ///
    /// Use this when a group should be skipped due to a failed dependency.
    /// Returns all dependent groups that should also be skipped (transitively).
    pub fn mark_skipped(&mut self, group: &str) -> (r: FailureResult)
        ensures
            final(self)@ == old(self)@.with_status(group@, GroupStatus::Skipped).cascade(
                seq![group@],
            ).0,
            text::texts(r.to_skip@) == old(self)@.with_status(group@, GroupStatus::Skipped).cascade(
                seq![group@],
            ).1,
    {
        self.set_status(group, GroupStatus::Skipped);
        self.cascade_skip_from(group)
    }

    /// Mark a group as failed and compute cascade skips.
    pub fn mark_failed(&mut self, group: &str) -> (r: FailureResult)
        ensures
            final(self)@ == old(self)@.with_status(group@, GroupStatus::Failed).cascade(
                seq![group@],
            ).0,
            text::texts(r.to_skip@) == old(self)@.with_status(group@, GroupStatus::Failed).cascade(
                seq![group@],
            ).1,
    {
        self.set_status(group, GroupStatus::Failed);
        self.cascade_skip_from(group)
    }

    /// Reset waiting state and statuses for a new full execution wave.
    pub fn reset_for_rerun(&mut self)
        ensures
            final(self)@ == old(self)@.reset(),
    {
        self.waiting.clear();
        let n = self.statuses.len();
        let ghost before = self.statuses@;
        let ghost keys = self.statuses.keys();
        let mut i: usize = 0;
        while i < n
            invariant
                0 <= i <= n,
                n == keys.len(),
                self.statuses.keys() == keys,
                keys.to_set() == before.dom(),
                self.statuses@.dom() == before.dom(),
                forall|j: int|
                    0 <= j < i ==> self.statuses@[#[trigger] keys[j]] == GroupStatus::Pending,
                self.waiting@ == Map::<Text, Set<Text>>::empty(),
                self.dependents == old(self).dependents,
                self.dependencies == old(self).dependencies,
            decreases n - i,
        {
            let key = self.statuses.key_at(i).clone();
            self.statuses.insert(key, GroupStatus::Pending);
            assert(self.statuses@.dom() =~= before.dom());
            i = i + 1;
        }
        assert(self.statuses@ =~= before.map_values(|s: GroupStatus| GroupStatus::Pending)) by {
            assert forall|g: Text| before.dom().contains(g) implies self.statuses@[g]
                == GroupStatus::Pending by {
                assert(keys.contains(g));
                assert(keys[keys.index_of(g)] == g);
            }
        }
    }

    /// Reset all statuses to Pending, and let nothing wait.
    pub fn reset_statuses(&mut self)
        ensures
            final(self)@ == old(self)@.reset(),
    {
        self.reset_for_rerun();
    }

    /// Clear all waiting state.
    pub fn clear_waiting(&mut self)
        ensures
            final(self)@ == (ResolverModel { waiting: Map::empty(), ..old(self)@ }),
    {
        self.waiting.clear();
    }

    /// Remove a group and all its references.
    pub fn remove_group(&mut self, name: &str)
        ensures
            final(self)@ == old(self)@.removed(name@),
    {
        self.dependencies.remove(name);
        strip_lists(&mut self.dependencies, name);
        self.dependents.remove(name);
        strip_lists(&mut self.dependents, name);
        self.statuses.remove(name);
        self.waiting.remove(name);
        strip_sets(&mut self.waiting, name);
    }

    /// Compute the initial state for all groups: each waits for the dependencies
    /// that are not ready.
    ///
    /// Returns the list of groups that are ready to start immediately: those that
    /// have nothing to wait for. The groups are gone through in no particular order.
    pub fn compute_initial_state(&mut self) -> (r: Vec<String>)
        ensures
            exists|order: Seq<Text>|
                #![trigger old(self)@.initialised(order)]
                order.no_duplicates() && order.to_set() == old(self)@.statuses.dom()
                    && final(self)@ == old(self)@.initialised(order) && text::texts(r@)
                    == old(self)@.startable(order),
    {
        let n = self.statuses.len();
        let ghost order = self.statuses.keys();
        let ghost m = self@;
        let mut groups: Vec<String> = Vec::new();
        let mut k: usize = 0;
        while k < n
            invariant
                0 <= k <= n,
                n == order.len(),
                order == self.statuses.keys(),
                *self == *old(self),
                text::texts(groups@) == order.take(k as int),
            decreases n - k,
        {
            groups.push(self.statuses.key_at(k).clone());
            k = k + 1;
            assert(text::texts(groups@) =~= order.take(k as int));
        }
        assert(order.take(n as int) =~= order);
        let mut ready_to_start: Vec<String> = Vec::new();
        let mut i: usize = 0;
        assert(text::texts(ready_to_start@) =~= m.startable(order.take(0)));
        while i < groups.len()
            invariant
                0 <= i <= groups.len(),
                text::texts(groups@) == order,
                self@ == m.initialised(order.take(i as int)),
                text::texts(ready_to_start@) == m.startable(order.take(i as int)),
            decreases groups.len() - i,
        {
            let ghost x = order[i as int];
            let ghost before = m.startable(order.take(i as int));
            assert(x == groups@[i as int]@);
            assert(order.take(i + 1).drop_last() =~= order.take(i as int));
            assert(order.take(i + 1).last() == x);
            if self.mark_waiting(groups[i].as_str()).is_none() {
                ready_to_start.push(groups[i].clone());
                assert(text::texts(ready_to_start@) =~= before.push(x));
            }
            i = i + 1;
        }
        assert(order.take(order.len() as int) =~= order);
        ready_to_start
    }
}

/// The list without an item.
fn without(list: &Vec<String>, name: &str) -> (r: Vec<String>)
    ensures
        text::texts(r@) == without_name(text::texts(list@), name@),
{
    let ghost keep = |d: Text| d != name@;
    let ghost all = text::texts(list@);
    let mut out: Vec<String> = Vec::new();
    let mut i: usize = 0;
    proof {
        assert(all.take(0) =~= Seq::<Text>::empty());
        reveal(Seq::filter);
        assert(text::texts(out@) =~= all.take(0).filter(keep));
    }
    while i < list.len()
        invariant
            0 <= i <= list.len(),
            all == text::texts(list@),
            keep == (|d: Text| d != name@),
            text::texts(out@) == all.take(i as int).filter(keep),
        decreases list.len() - i,
    {
        let ghost x = all[i as int];
        proof {
            assert(x == list@[i as int]@);
            assert(all.take(i + 1) =~= all.take(i as int).push(x));
            lemma_filter_push(all.take(i as int), x, keep);
        }
        if !str_eq(list[i].as_str(), name) {
            out.push(list[i].clone());
            assert(text::texts(out@) =~= all.take(i as int).filter(keep).push(x));
        }
        i = i + 1;
    }
    assert(all.take(all.len() as int) =~= all);
    out
}

/// Takes a name out of every list of a map.
fn strip_lists(map: &mut StrMap<Vec<String>>, name: &str)
    ensures
        final(map)@ == old(map)@.map_values(|list: Seq<Text>| without_name(list, name@)),
{
    let n = map.len();
    let ghost before = map@;
    let ghost keys = map.keys();
    let mut i: usize = 0;
    while i < n
        invariant
            0 <= i <= n,
            n == keys.len(),
            map.keys() == keys,
            keys.no_duplicates(),
            keys.to_set() == before.dom(),
            map@.dom() == before.dom(),
            forall|j: int|
                0 <= j < n ==> map@[#[trigger] keys[j]] == if j < i {
                    without_name(before[keys[j]], name@)
                } else {
                    before[keys[j]]
                },
        decreases n - i,
    {
        let ghost now = map@;
        let key = map.key_at(i).clone();
        assert(keys.contains(keys[i as int]));
        if let Some(list) = map.get(key.as_str()) {
            let kept = without(list, name);
            proof {
                assert(kept.deep_view() =~= text::texts(kept@));
                assert(list.deep_view() =~= text::texts(list@));
            }
            map.insert(key, kept);
            assert(map@.dom() =~= before.dom());
            assert forall|j: int| 0 <= j < n implies map@[#[trigger] keys[j]] == if j < i + 1 {
                without_name(before[keys[j]], name@)
            } else {
                before[keys[j]]
            } by {
                if j != i {
                    assert(keys[j] != keys[i as int]);
                    assert(map@[keys[j]] == now[keys[j]]);
                }
            }
        }
        i = i + 1;
    }
    proof {
        let want = before.map_values(|list: Seq<Text>| without_name(list, name@));
        assert forall|k: Text| #[trigger] before.dom().contains(k) implies map@[k] == want[k] by {
            assert(keys.contains(k));
            assert(keys[keys.index_of(k)] == k);
        }
        assert(map@ =~= want);
    }
}

/// Takes a name out of every set of a map.
fn strip_sets(map: &mut StrMap<StrSet>, name: &str)
    ensures
        final(map)@ == old(map)@.map_values(|set: Set<Text>| set.remove(name@)),
{
    let n = map.len();
    let ghost before = map@;
    let ghost keys = map.keys();
    let mut i: usize = 0;
    while i < n
        invariant
            0 <= i <= n,
            n == keys.len(),
            map.keys() == keys,
            keys.no_duplicates(),
            keys.to_set() == before.dom(),
            map@.dom() == before.dom(),
            forall|j: int|
                0 <= j < n ==> map@[#[trigger] keys[j]] == if j < i {
                    before[keys[j]].remove(name@)
                } else {
                    before[keys[j]]
                },
        decreases n - i,
    {
        let ghost now = map@;
        let key = map.key_at(i).clone();
        assert(keys.contains(keys[i as int]));
        if let Some(set) = map.get(key.as_str()) {
            let mut kept = set.copy();
            kept.remove(name);
            map.insert(key, kept);
            assert(map@.dom() =~= before.dom());
            assert forall|j: int| 0 <= j < n implies map@[#[trigger] keys[j]] == if j < i + 1 {
                before[keys[j]].remove(name@)
            } else {
                before[keys[j]]
            } by {
                if j != i {
                    assert(keys[j] != keys[i as int]);
                    assert(map@[keys[j]] == now[keys[j]]);
                }
            }
        }
        i = i + 1;
    }
    proof {
        let want = before.map_values(|set: Set<Text>| set.remove(name@));
        assert forall|k: Text| #[trigger] before.dom().contains(k) implies map@[k] == want[k] by {
            assert(keys.contains(k));
            assert(keys[keys.index_of(k)] == k);
        }
        assert(map@ =~= want);
    }
}

impl Default for DependencyResolver {
    fn default() -> (r: Self)
        ensures
            r@ == ResolverModel::empty(),
    {
        DependencyResolver::new()
    }
}

} // verus!
