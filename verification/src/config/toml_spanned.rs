//! Source positions of a TOML configuration, for error reporting.

use crate::config::error::{self, Span};
use crate::config::schema::{
    self, Config, DaemonCommand, Group, GroupConfig, Settings, TaskCommand,
};
use crate::strmap::StrMap;
use crate::text::{self, Text};
use std::collections::HashMap;
use std::ops::Range;
use vstd::prelude::*;

verus! {

broadcast use {crate::text::lemma_texts_push, vstd::std_specs::hash::group_hash_axioms};

/// Span information extracted from TOML parsing.
#[derive(Debug)]
pub struct SpanInfo {
    /// Spans for group names, keyed by group index.
    pub group_names: HashMap<usize, Range<usize>>,
    /// Spans for dependency references, keyed by group index and then by
    /// dependency index.
    pub dependencies: HashMap<usize, HashMap<usize, Range<usize>>>,
}

impl SpanInfo {
    /// Where the name of a group stands, if that is known.
    pub open spec fn name_at(self, group: usize) -> Option<Range<usize>> {
        if self.group_names@.dom().contains(group) {
            Some(self.group_names@[group])
        } else {
            None
        }
    }

    /// Where a dependency of a group stands, if that is known.
    pub open spec fn dependency_at(self, group: usize, dep: usize) -> Option<Range<usize>> {
        if self.dependencies@.dom().contains(group)
            && self.dependencies@[group]@.dom().contains(dep) {
            Some(self.dependencies@[group]@[dep])
        } else {
            None
        }
    }
}

/// The line and column where a range begins.
pub open spec fn begins_at(source: Text, range: Range<usize>, span: Span) -> bool {
    (span.line as int, span.column as int) == error::position_after(
        source,
        range.start as int,
        1,
        1,
    )
}

impl Default for SpanInfo {
    fn default() -> (r: Self)
        ensures
            r.group_names@ == Map::<usize, Range<usize>>::empty(),
            r.dependencies@ == Map::<usize, HashMap<usize, Range<usize>>>::empty(),
    {
        SpanInfo { group_names: HashMap::new(), dependencies: HashMap::new() }
    }
}

impl SpanInfo {
    /// Get a Span for a group name, converting byte offset to line/column.
    pub fn group_name_span(&self, source: &str, group_index: usize) -> (r: Option<Span>)
        requires
            source@.len() < usize::MAX,
        ensures
            match r {
                Some(span) => self.name_at(group_index) matches Some(range) && begins_at(
                    source@,
                    range,
                    span,
                ),
                None => self.name_at(group_index) is None,
            },
    {
        match self.group_names.get(&group_index) {
            Some(range) => Some(Span::from_byte_offset(source, range.start)),
            None => None,
        }
    }

    /// Get a Span for a dependency reference, converting byte offset to
    /// line/column.
    pub fn dependency_span(&self, source: &str, group_index: usize, dep_index: usize) -> (r: Option<
        Span,
    >)
        requires
            source@.len() < usize::MAX,
        ensures
            match r {
                Some(span) => self.dependency_at(group_index, dep_index) matches Some(range)
                    && begins_at(source@, range, span),
                None => self.dependency_at(group_index, dep_index) is None,
            },
    {
        match self.dependencies.get(&group_index) {
            Some(ranges) => match ranges.get(&dep_index) {
                Some(range) => Some(Span::from_byte_offset(source, range.start)),
                None => None,
            },
            None => None,
        }
    }
}

/// A text with the bytes of the source that it stands at.
#[derive(Debug)]
pub struct SpannedText {
    /// The bytes that it stands at.
    pub span: Range<usize>,
    /// The text.
    pub value: String,
}

/// A group with spanned name and dependencies.
#[derive(Debug)]
pub struct SpannedGroup {
    pub name: SpannedText,
    pub patterns: Vec<String>,
    pub ignore: Vec<String>,
    pub depends_on: Vec<SpannedText>,
    pub working_dir: Option<String>,
    pub env: StrMap<String>,
    pub tasks: Vec<TaskCommand>,
    pub daemons: Vec<DaemonCommand>,
}

/// A configuration with spanned groups.
#[derive(Debug)]
pub struct SpannedConfig {
    pub settings: Settings,
    pub variables: StrMap<String>,
    pub groups: Vec<SpannedGroup>,
}

/// The texts without their spans.
pub open spec fn values(v: Seq<SpannedText>) -> Seq<Text> {
    Seq::new(v.len(), |i: int| v[i].value@)
}

/// The spans without their texts, by position.
pub open spec fn spans(v: Seq<SpannedText>) -> Map<usize, Range<usize>> {
    Map::new(|k: usize| k < v.len(), |k: usize| v[k as int].span)
}

/// A group without its spans.
pub open spec fn plain_group(g: SpannedGroup) -> GroupConfig {
    GroupConfig {
        name: g.name.value@,
        patterns: text::texts(g.patterns@),
        ignore: text::texts(g.ignore@),
        depends_on: values(g.depends_on@),
        working_dir: text::opt_text(g.working_dir),
        env: g.env@,
        tasks: schema::tasks(g.tasks@),
        daemons: schema::daemons(g.daemons@),
    }
}

fn separate_texts(list: Vec<SpannedText>) -> (r: (Vec<String>, HashMap<usize, Range<usize>>))
    ensures
        text::texts(r.0@) == values(list@),
        r.1@ == spans(list@),
{
    let mut texts: Vec<String> = Vec::new();
    let mut ranges: HashMap<usize, Range<usize>> = HashMap::new();
    let n = list.len();
    let mut i: usize = 0;
    assert(text::texts(texts@) =~= Seq::empty());
    assert(ranges@ =~= spans(list@.take(0)));
    while i < n
        invariant
            0 <= i <= n,
            n == list@.len(),
            text::texts(texts@) == values(list@).take(i as int),
            ranges@ == spans(list@.take(i as int)),
        decreases n - i,
    {
        texts.push(list[i].value.clone());
        ranges.insert(i, Range { start: list[i].span.start, end: list[i].span.end });
        proof {
            assert(values(list@).take(i + 1) =~= values(list@).take(i as int).push(
                list@[i as int].value@,
            ));
            assert(ranges@ =~= spans(list@.take(i + 1)));
        }
        i = i + 1;
    }
    assert(values(list@).take(n as int) =~= values(list@));
    assert(list@.take(n as int) =~= list@);
    (texts, ranges)
}

fn separate_group(sg: SpannedGroup) -> (r: (
    Group,
    Range<usize>,
    HashMap<usize, Range<usize>>,
))
    ensures
        r.0@ == plain_group(sg),
        r.1 == sg.name.span,
        r.2@ == spans(sg.depends_on@),
{
    let (depends_on, ranges) = separate_texts(sg.depends_on);
    let group = Group {
        name: sg.name.value,
        patterns: sg.patterns,
        ignore: sg.ignore,
        depends_on,
        working_dir: sg.working_dir,
        env: sg.env,
        tasks: sg.tasks,
        daemons: sg.daemons,
    };
    (group, sg.name.span, ranges)
}

/// Takes the spans out of a parsed configuration: the configuration itself, and
/// where the names and the dependencies of its groups stand.
pub fn separate_spans(spanned: SpannedConfig) -> (r: (Config, SpanInfo))
    ensures
        r.0.settings == spanned.settings,
        r.0.variables == spanned.variables,
        schema::groups(r.0.groups@) == Seq::new(
            spanned.groups@.len(),
            |i: int| plain_group(spanned.groups@[i]),
        ),
        forall|g: usize| #[trigger]
            r.1.name_at(g) == if g < spanned.groups@.len() {
                Some(spanned.groups@[g as int].name.span)
            } else {
                None
            },
        forall|g: usize, d: usize| #[trigger]
            r.1.dependency_at(g, d) == if g < spanned.groups@.len() && d
                < spanned.groups@[g as int].depends_on@.len() {
                Some(spanned.groups@[g as int].depends_on@[d as int].span)
            } else {
                None
            },
{
    let ghost all = spanned.groups@;
    let mut rest = spanned.groups;
    let mut groups: Vec<Group> = Vec::new();
    let mut info: SpanInfo = Default::default();
    let n = rest.len();
    let mut i: usize = 0;
    while i < n
        invariant
            0 <= i <= n,
            n == all.len(),
            rest@ == all.skip(i as int),
            groups@.len() == i,
            forall|g: usize| #[trigger] info.group_names@.dom().contains(g) <==> g < i,
            forall|g: usize| #[trigger] info.dependencies@.dom().contains(g) <==> g < i,
            forall|j: int| 0 <= j < i ==> (#[trigger] groups@[j])@ == plain_group(all[j]),
            forall|g: usize|
                g < i ==> #[trigger] info.group_names@[g] == all[g as int].name.span,
            forall|g: usize|
                g < i ==> (#[trigger] info.dependencies@[g])@ == spans(all[g as int].depends_on@),
        decreases n - i,
    {
        let sg = rest.remove(0);
        assert(sg == all[i as int]);
        assert(rest@ =~= all.skip(i + 1));
        let (group, name, dependencies) = separate_group(sg);
        groups.push(group);
        info.group_names.insert(i, name);
        info.dependencies.insert(i, dependencies);
        i = i + 1;
    }
    proof {
        assert(schema::groups(groups@) =~= Seq::new(n as nat, |i: int| plain_group(all[i])));
    }
    (Config { settings: spanned.settings, variables: spanned.variables, groups }, info)
}

} // verus!
