//! Configuration validation.

use crate::config::error::{
    ErrorModel, KindModel, ValidationError, ValidationErrorKind, ValidationErrors,
};
use crate::config::schema::{self, Config, DaemonModel, Group, GroupConfig, TaskModel};
use crate::graph::{self, visit_groups};
use crate::text::{self, cat2, cat3, cat4, decimal_of, join, list_contains, str_eq, Text};
use vstd::prelude::*;

verus! {

broadcast use crate::text::lemma_texts_push;

/// Maximum Levenshtein distance to consider a suggestion.
pub const MAX_SUGGESTION_DISTANCE: usize = 2;

/// The lesser of two numbers.
pub open spec fn least(a: nat, b: nat) -> nat {
    if a <= b {
        a
    } else {
        b
    }
}

/// The least number of insertions, deletions and substitutions that turn one
/// text into the other.
pub open spec fn edit_distance(a: Text, b: Text) -> nat
    decreases a.len() + b.len(),
{
    if a.len() == 0 {
        b.len()
    } else if b.len() == 0 {
        a.len()
    } else if a.last() == b.last() {
        edit_distance(a.drop_last(), b.drop_last())
    } else {
        1 + least(
            edit_distance(a.drop_last(), b.drop_last()),
            least(edit_distance(a.drop_last(), b), edit_distance(a, b.drop_last())),
        )
    }
}

/// `strsim::levenshtein`: the least number of insertions, deletions and
/// substitutions of characters that turn one text into the other.
#[verifier::external_body]
fn levenshtein(a: &str, b: &str) -> (r: usize)
    ensures
        r == edit_distance(a@, b@),
{
    strsim::levenshtein(a, b)
}

/// Why a text is no glob pattern, if it is none (`globset::Glob::new`).
pub uninterp spec fn glob_error(pattern: Text) -> Option<Text>;

/// `globset::Glob::new`, where `/` separates paths: whether a text is a glob
/// pattern and, if not, the error in words. The grammar of patterns is left
/// unsaid.
#[verifier::external_body]
fn check_glob(pattern: &str) -> (r: Option<String>)
    ensures
        text::opt_text(r) == glob_error(pattern@),
{
    globset::Glob::new(pattern).err().map(|e| e.to_string())
}

/// Whether a name is close enough to be meant by another.
pub open spec fn near(unknown: Text, name: Text) -> bool {
    0 < edit_distance(unknown, name) <= MAX_SUGGESTION_DISTANCE
}

/// The first of the closest names, if any is close enough.
pub open spec fn suggestion(unknown: Text, valid: Seq<Text>) -> Option<Text>
    decreases valid.len(),
{
    if valid.len() == 0 {
        None
    } else {
        let last = valid.last();
        match suggestion(unknown, valid.drop_last()) {
            Some(best) => if near(unknown, last) && edit_distance(unknown, last) < edit_distance(
                unknown,
                best,
            ) {
                Some(last)
            } else {
                Some(best)
            },
            None => if near(unknown, last) {
                Some(last)
            } else {
                None
            },
        }
    }
}

/// Suggest a similar name from a list of valid options.
pub fn suggest_similar<'a>(unknown: &str, valid: &'a Vec<String>) -> (r: Option<&'a str>)
    ensures
        match r {
            Some(s) => Some(s@),
            None => None,
        } == suggestion(unknown@, text::texts(valid@)),
{
    let ghost all = text::texts(valid@);
    let mut best: Option<usize> = None;
    let mut least: usize = 0;
    let mut i: usize = 0;
    assert(all.take(0) =~= Seq::empty());
    while i < valid.len()
        invariant
            0 <= i <= valid.len(),
            all == text::texts(valid@),
            match best {
                Some(b) => b < i && suggestion(unknown@, all.take(i as int)) == Some(all[b as int])
                    && least == edit_distance(unknown@, all[b as int]),
                None => suggestion(unknown@, all.take(i as int)) is None,
            },
        decreases valid.len() - i,
    {
        let distance = levenshtein(unknown, valid[i].as_str());
        proof {
            assert(all.take(i + 1).drop_last() =~= all.take(i as int));
            assert(all.take(i + 1).last() == all[i as int]);
        }
        if distance <= MAX_SUGGESTION_DISTANCE && distance > 0 {
            if best.is_none() || distance < least {
                best = Some(i);
                least = distance;
            }
        }
        i = i + 1;
    }
    assert(all.take(all.len() as int) =~= all);
    match best {
        Some(b) => Some(valid[b].as_str()),
        None => None,
    }
}

/// The hint that lists the groups.
pub open spec fn available_hint(available: Seq<Text>) -> Text {
    let named = available.filter(|s: Text| s.len() > 0);
    if named.len() == 0 {
        "no groups are defined"@
    } else if named.len() <= 5 {
        "available groups are: "@ + text::joined(named, ", "@)
    } else {
        "available groups are: "@ + text::joined(named.take(4), ", "@) + ", and "@ + text::decimal(
            (named.len() - 4) as nat,
        ) + " more"@
    }
}

/// Format available options as a hint.
pub fn format_available_hint(available: &Vec<String>) -> (r: String)
    ensures
        r@ == available_hint(text::texts(available@)),
{
    let ghost all = text::texts(available@);
    let ghost keep = |s: Text| s.len() > 0;
    let mut named: Vec<String> = Vec::new();
    let mut i: usize = 0;
    proof {
        reveal(Seq::filter);
        assert(all.take(0) =~= Seq::empty());
        assert(text::texts(named@) =~= Seq::empty());
    }
    while i < available.len()
        invariant
            0 <= i <= available.len(),
            all == text::texts(available@),
            keep == (|s: Text| s.len() > 0),
            text::texts(named@) == all.take(i as int).filter(keep),
        decreases available.len() - i,
    {
        proof {
            reveal(Seq::filter);
            assert(all.take(i + 1).drop_last() =~= all.take(i as int));
            assert(all.take(i + 1).last() == all[i as int]);
        }
        if available[i].as_str().unicode_len() > 0 {
            named.push(available[i].clone());
        }
        i = i + 1;
    }
    assert(all.take(all.len() as int) =~= all);
    let ghost kept = text::texts(named@);
    let n = named.len();
    assert(kept.take(n as int) =~= kept);
    if n == 0 {
        "no groups are defined".to_owned()
    } else if n <= 5 {
        cat2("available groups are: ", join(&named, n, ", ").as_str())
    } else {
        let mut s = cat4(
            "available groups are: ",
            join(&named, 4, ", ").as_str(),
            ", and ",
            decimal_of((n - 4) as u64).as_str(),
        );
        s.append(" more");
        s
    }
}

/// An error list of one error, or of none.
pub open spec fn error_if(condition: bool, kind: KindModel) -> Seq<ErrorModel> {
    if condition {
        seq![ErrorModel::plain(kind)]
    } else {
        Seq::empty()
    }
}

/// The errors in the definitions of the groups: names that are empty or taken,
/// and groups with nothing in them.
pub open spec fn group_errors(groups: Seq<GroupConfig>) -> Seq<ErrorModel>
    decreases groups.len(),
{
    if groups.len() == 0 {
        Seq::empty()
    } else {
        let g = groups.last();
        let index = groups.len() - 1;
        let earlier = graph::group_names(groups.drop_last());
        group_errors(groups.drop_last()) + error_if(
            g.name.len() == 0,
            KindModel::EmptyGroupName { index },
        ) + error_if(
            earlier.contains(g.name),
            KindModel::DuplicateGroupName {
                name: g.name,
                first_index: graph::first_index(earlier, g.name),
                second_index: index,
            },
        ) + error_if(
            g.patterns.len() == 0 && g.tasks.len() == 0 && g.daemons.len() == 0,
            KindModel::EmptyGroup { name: g.name },
        )
    }
}

/// The hint for an unknown dependency: a similar name, or the groups there are.
pub open spec fn dependency_hint(dependency: Text, names: Seq<Text>) -> Text {
    match suggestion(dependency, names) {
        Some(s) => "did you mean '"@ + s + "'?"@,
        None => available_hint(names),
    }
}

/// The errors in the dependencies of a group: unknown groups, and itself.
pub open spec fn reference_errors(
    group: Text,
    depends_on: Seq<Text>,
    names: Seq<Text>,
) -> Seq<ErrorModel>
    decreases depends_on.len(),
{
    if depends_on.len() == 0 {
        Seq::empty()
    } else {
        let dependency = depends_on.last();
        reference_errors(group, depends_on.drop_last(), names) + (if names.contains(dependency) {
            Seq::empty()
        } else {
            seq![
                ErrorModel {
                    span: None,
                    kind: KindModel::UnknownDependency { group, dependency },
                    hint: Some(dependency_hint(dependency, names)),
                },
            ]
        }) + error_if(dependency == group, KindModel::SelfDependency { group })
    }
}

/// The errors in the dependencies of all groups.
pub open spec fn all_reference_errors(groups: Seq<GroupConfig>, names: Seq<Text>) -> Seq<ErrorModel>
    decreases groups.len(),
{
    if groups.len() == 0 {
        Seq::empty()
    } else {
        all_reference_errors(groups.drop_last(), names) + reference_errors(
            groups.last().name,
            groups.last().depends_on,
            names,
        )
    }
}

/// The error of groups that depend on each other in a circle.
pub open spec fn cycle_errors(groups: Seq<GroupConfig>) -> Seq<ErrorModel> {
    match graph::group_order(groups) {
        Ok(_) => Seq::empty(),
        Err(cycle) => seq![
            ErrorModel {
                span: None,
                kind: KindModel::DependencyCycle { cycle },
                hint: Some("cycle: "@ + text::joined(cycle, " -> "@)),
            },
        ],
    }
}

/// The error of a pattern, if it has one.
pub open spec fn pattern_error(
    group: Text,
    pattern: Text,
    ignore: bool,
    error: Option<Text>,
) -> Seq<ErrorModel> {
    match error {
        Some(error) => seq![
            ErrorModel::plain(
                if ignore {
                    KindModel::InvalidIgnorePattern { group, pattern, error }
                } else {
                    KindModel::InvalidPattern { group, pattern, error }
                },
            ),
        ],
        None => Seq::empty(),
    }
}

/// The errors of some patterns.
pub open spec fn pattern_errors(group: Text, patterns: Seq<Text>, ignore: bool) -> Seq<ErrorModel>
    decreases patterns.len(),
{
    if patterns.len() == 0 {
        Seq::empty()
    } else {
        pattern_errors(group, patterns.drop_last(), ignore) + pattern_error(
            group,
            patterns.last(),
            ignore,
            glob_error(patterns.last()),
        )
    }
}

/// The errors in the patterns of all groups.
pub open spec fn all_pattern_errors(groups: Seq<GroupConfig>) -> Seq<ErrorModel>
    decreases groups.len(),
{
    if groups.len() == 0 {
        Seq::empty()
    } else {
        let g = groups.last();
        all_pattern_errors(groups.drop_last()) + pattern_errors(g.name, g.patterns, false)
            + pattern_errors(g.name, g.ignore, true)
    }
}

/// The names of some tasks.
pub open spec fn task_names(tasks: Seq<TaskModel>) -> Seq<Text> {
    Seq::new(tasks.len(), |i: int| schema::display_name(tasks[i].name, tasks[i].command))
}

/// The errors in the tasks of a group: empty commands and names that are taken.
pub open spec fn task_errors(group: Text, tasks: Seq<TaskModel>) -> Seq<ErrorModel>
    decreases tasks.len(),
{
    if tasks.len() == 0 {
        Seq::empty()
    } else {
        let t = tasks.last();
        let name = schema::display_name(t.name, t.command);
        task_errors(group, tasks.drop_last()) + error_if(
            t.command.len() == 0,
            KindModel::EmptyTaskCommand { group, task: name },
        ) + error_if(
            task_names(tasks.drop_last()).contains(name),
            KindModel::DuplicateTaskName { group, name, is_explicit: t.name is Some },
        )
    }
}

/// The names of some daemons.
pub open spec fn daemon_names(daemons: Seq<DaemonModel>) -> Seq<Text> {
    Seq::new(daemons.len(), |i: int| schema::display_name(daemons[i].name, daemons[i].command))
}

/// The errors in the daemons of a group: empty commands and names that are
/// taken.
pub open spec fn daemon_errors(group: Text, daemons: Seq<DaemonModel>) -> Seq<ErrorModel>
    decreases daemons.len(),
{
    if daemons.len() == 0 {
        Seq::empty()
    } else {
        let d = daemons.last();
        let name = schema::display_name(d.name, d.command);
        daemon_errors(group, daemons.drop_last()) + error_if(
            d.command.len() == 0,
            KindModel::EmptyDaemonCommand { group, daemon: name },
        ) + error_if(
            daemon_names(daemons.drop_last()).contains(name),
            KindModel::DuplicateDaemonName { group, name, is_explicit: d.name is Some },
        )
    }
}

/// The errors in the commands of all groups.
pub open spec fn command_errors(groups: Seq<GroupConfig>) -> Seq<ErrorModel>
    decreases groups.len(),
{
    if groups.len() == 0 {
        Seq::empty()
    } else {
        let g = groups.last();
        command_errors(groups.drop_last()) + task_errors(g.name, g.tasks) + daemon_errors(
            g.name,
            g.daemons,
        )
    }
}

/// Whether a list holds the name of each group once.
pub open spec fn lists_names(groups: Seq<GroupConfig>, names: Seq<Text>) -> bool {
    &&& names.no_duplicates()
    &&& forall|n: Text| #[trigger] names.contains(n) <==> graph::group_names(groups).contains(n)
}

/// All errors of a configuration, given the names of its groups in the order in
/// which hints go through them.
pub open spec fn config_errors(groups: Seq<GroupConfig>, names: Seq<Text>) -> Seq<ErrorModel> {
    group_errors(groups) + (all_reference_errors(groups, names) + cycle_errors(groups))
        + all_pattern_errors(groups) + command_errors(groups)
}

/// Validate a configuration and return detailed errors. The order in which the
/// groups are gone through for hints is left open.
pub fn validate(config: &Config) -> (r: Result<(), ValidationErrors>)
    ensures
        exists|names: Seq<Text>| #[trigger]
            lists_names(schema::groups(config.groups@), names) && ({
                let errors = config_errors(schema::groups(config.groups@), names);
                match r {
                    Ok(()) => errors.len() == 0,
                    Err(e) => errors.len() > 0 && e@ == errors,
                }
            }),
{
    let mut errors = ValidationErrors::new();
    let ghost groups = schema::groups(config.groups@);
    let names = distinct_names(&config.groups);
    validate_groups(config, &mut errors);
    validate_dependencies(config, &names, &mut errors);
    validate_patterns(config, &mut errors);
    validate_commands(config, &mut errors);
    assert(errors@ =~= config_errors(groups, text::texts(names@)));
    errors.into_result()
}

/// The names of the groups, each once.
fn distinct_names(groups: &Vec<Group>) -> (r: Vec<String>)
    ensures
        lists_names(schema::groups(groups@), text::texts(r@)),
{
    let ghost all = graph::group_names(schema::groups(groups@));
    let mut names: Vec<String> = Vec::new();
    let mut i: usize = 0;
    assert(text::texts(names@) =~= Seq::empty());
    while i < groups.len()
        invariant
            0 <= i <= groups.len(),
            all == graph::group_names(schema::groups(groups@)),
            text::texts(names@).no_duplicates(),
            forall|n: Text| #[trigger]
                text::texts(names@).contains(n) <==> all.take(i as int).contains(n),
        decreases groups.len() - i,
    {
        let ghost known = text::texts(names@);
        let ghost name = groups@[i as int].name@;
        proof {
            assert(all[i as int] == name);
            assert(all.take(i + 1) =~= all.take(i as int).push(name));
            let before = all.take(i as int);
            assert forall|n: Text| #[trigger] all.take(i + 1).contains(n) <==> before.contains(n)
                || n == name by {
                if before.contains(n) {
                    let j = before.index_of(n);
                    assert(all.take(i + 1)[j] == n);
                }
                assert(all.take(i + 1)[i as int] == name);
            }
        }
        if !list_contains(names.as_slice(), groups[i].name.as_str()) {
            names.push(groups[i].name.clone());
            proof {
                assert forall|n: Text| #[trigger] known.push(name).contains(n) <==> known.contains(n)
                    || n == name by {
                    if known.contains(n) {
                        let j = known.index_of(n);
                        assert(known.push(name)[j] == n);
                    }
                    assert(known.push(name)[known.len() as int] == name);
                }
            }
        }
        i = i + 1;
    }
    assert(all.take(all.len() as int) =~= all);
    names
}

/// The first position of a name among the first groups, if it is there.
fn first_named(groups: &Vec<Group>, n: usize, name: &str) -> (r: Option<usize>)
    requires
        n <= groups@.len(),
    ensures
        ({
            let earlier = graph::group_names(schema::groups(groups@).take(n as int));
            match r {
                Some(i) => earlier.contains(name@) && i == graph::first_index(earlier, name@),
                None => !earlier.contains(name@),
            }
        }),
{
    let ghost earlier = graph::group_names(schema::groups(groups@).take(n as int));
    let mut i: usize = 0;
    while i < n
        invariant
            0 <= i <= n <= groups@.len(),
            earlier == graph::group_names(schema::groups(groups@).take(n as int)),
            forall|j: int| 0 <= j < i ==> #[trigger] earlier[j] != name@,
        decreases n - i,
    {
        assert(earlier[i as int] == groups@[i as int].name@);
        if str_eq(groups[i].name.as_str(), name) {
            proof {
                graph::lemma_first_index(earlier, name@, i as int);
            }
            return Some(i);
        }
        i = i + 1;
    }
    None
}

/// Validate group definitions.
fn validate_groups(config: &Config, errors: &mut ValidationErrors)
    ensures
        final(errors)@ == old(errors)@ + group_errors(schema::groups(config.groups@)),
{
    let ghost all = schema::groups(config.groups@);
    let mut i: usize = 0;
    assert(all.take(0) =~= Seq::empty());
    assert(errors@ + Seq::<ErrorModel>::empty() =~= errors@);
    while i < config.groups.len()
        invariant
            0 <= i <= config.groups.len(),
            all == schema::groups(config.groups@),
            errors@ == old(errors)@ + group_errors(all.take(i as int)),
        decreases config.groups.len() - i,
    {
        let group = &config.groups[i];
        let ghost before = errors@;
        proof {
            assert(all.take(i + 1).drop_last() =~= all.take(i as int));
            assert(all.take(i + 1).last() == group@);
        }
        if group.name.as_str().unicode_len() == 0 {
            errors.push(ValidationError::new(ValidationErrorKind::EmptyGroupName { index: i }));
        }
        match first_named(&config.groups, i, group.name.as_str()) {
            Some(first_index) => {
                errors.push(
                    ValidationError::new(
                        ValidationErrorKind::DuplicateGroupName {
                            name: group.name.clone(),
                            first_index,
                            second_index: i,
                        },
                    ),
                );
            },
            None => {},
        }
        if group.patterns.len() == 0 && group.tasks.len() == 0 && group.daemons.len() == 0 {
            errors.push(
                ValidationError::new(
                    ValidationErrorKind::EmptyGroup { name: group.name.clone() },
                ),
            );
        }
        assert(errors@ =~= old(errors)@ + group_errors(all.take(i + 1)));
        i = i + 1;
    }
    assert(all.take(all.len() as int) =~= all);
}

/// Validate dependency references and detect cycles.
fn validate_dependencies(config: &Config, names: &Vec<String>, errors: &mut ValidationErrors)
    requires
        lists_names(schema::groups(config.groups@), text::texts(names@)),
    ensures
        final(errors)@ == old(errors)@ + (all_reference_errors(
            schema::groups(config.groups@),
            text::texts(names@),
        ) + cycle_errors(schema::groups(config.groups@))),
{
    let ghost all = schema::groups(config.groups@);
    let ghost known = text::texts(names@);
    let mut i: usize = 0;
    assert(all.take(0) =~= Seq::empty());
    assert(errors@ + Seq::<ErrorModel>::empty() =~= errors@);
    while i < config.groups.len()
        invariant
            0 <= i <= config.groups.len(),
            all == schema::groups(config.groups@),
            known == text::texts(names@),
            errors@ == old(errors)@ + all_reference_errors(all.take(i as int), known),
        decreases config.groups.len() - i,
    {
        proof {
            assert(all.take(i + 1).drop_last() =~= all.take(i as int));
            assert(all.take(i + 1).last() == config.groups@[i as int]@);
        }
        validate_references(&config.groups[i], names, errors);
        assert(errors@ =~= old(errors)@ + all_reference_errors(all.take(i + 1), known));
        i = i + 1;
    }
    assert(all.take(all.len() as int) =~= all);
    match detect_cycle(config) {
        Some(cycle) => {
            let ghost path = text::texts(cycle@);
            assert(path.take(path.len() as int) =~= path);
            let cycle_str = join(&cycle, cycle.len(), " -> ");
            errors.push(
                ValidationError::new(ValidationErrorKind::DependencyCycle { cycle }).with_hint(
                    cat2("cycle: ", cycle_str.as_str()).as_str(),
                ),
            );
        },
        None => {},
    }
    assert(errors@ =~= old(errors)@ + (all_reference_errors(all, known) + cycle_errors(all)));
}

/// Validate the dependencies of a group.
fn validate_references(group: &Group, names: &Vec<String>, errors: &mut ValidationErrors)
    ensures
        final(errors)@ == old(errors)@ + reference_errors(
            group@.name,
            group@.depends_on,
            text::texts(names@),
        ),
{
    let ghost all = group@.depends_on;
    let ghost known = text::texts(names@);
    let mut j: usize = 0;
    assert(all.take(0) =~= Seq::empty());
    assert(errors@ + Seq::<ErrorModel>::empty() =~= errors@);
    while j < group.depends_on.len()
        invariant
            0 <= j <= group.depends_on.len(),
            all == group@.depends_on,
            known == text::texts(names@),
            errors@ == old(errors)@ + reference_errors(group@.name, all.take(j as int), known),
        decreases group.depends_on.len() - j,
    {
        let dep = &group.depends_on[j];
        proof {
            assert(all.take(j + 1).drop_last() =~= all.take(j as int));
            assert(all.take(j + 1).last() == dep@);
        }
        if !list_contains(names.as_slice(), dep.as_str()) {
            let error = ValidationError::new(
                ValidationErrorKind::UnknownDependency {
                    group: group.name.clone(),
                    dependency: dep.clone(),
                },
            );
            let hint = match suggest_similar(dep.as_str(), names) {
                Some(suggestion) => cat3("did you mean '", suggestion, "'?"),
                None => format_available_hint(names),
            };
            errors.push(error.with_hint(hint.as_str()));
        }
        if str_eq(dep.as_str(), group.name.as_str()) {
            errors.push(
                ValidationError::new(
                    ValidationErrorKind::SelfDependency { group: group.name.clone() },
                ),
            );
        }
        assert(errors@ =~= old(errors)@ + reference_errors(group@.name, all.take(j + 1), known));
        j = j + 1;
    }
    assert(all.take(all.len() as int) =~= all);
}

/// Detect dependency cycles: a walk along dependencies back to where it started.
pub fn detect_cycle(config: &Config) -> (r: Option<Vec<String>>)
    ensures
        match graph::group_order(schema::groups(config.groups@)) {
            Ok(_) => r is None,
            Err(cycle) => r matches Some(c) && text::texts(c@) == cycle,
        },
{
    match visit_groups(&config.groups) {
        Ok(_) => None,
        Err(cycle) => Some(cycle),
    }
}

/// Reports a pattern of a group, if there is something wrong with it.
pub fn report_pattern(
    group: &str,
    pattern: &str,
    ignore: bool,
    error: Option<String>,
    errors: &mut ValidationErrors,
)
    ensures
        final(errors)@ == old(errors)@ + pattern_error(
            group@,
            pattern@,
            ignore,
            text::opt_text(error),
        ),
{
    let ghost words = text::opt_text(error);
    match error {
        Some(error) => {
            let kind = if ignore {
                ValidationErrorKind::InvalidIgnorePattern {
                    group: group.to_owned(),
                    pattern: pattern.to_owned(),
                    error,
                }
            } else {
                ValidationErrorKind::InvalidPattern {
                    group: group.to_owned(),
                    pattern: pattern.to_owned(),
                    error,
                }
            };
            errors.push(ValidationError::new(kind));
        },
        None => {},
    }
    assert(errors@ =~= old(errors)@ + pattern_error(group@, pattern@, ignore, words));
}

fn validate_pattern_list(
    group: &str,
    patterns: &Vec<String>,
    ignore: bool,
    errors: &mut ValidationErrors,
)
    ensures
        final(errors)@ == old(errors)@ + pattern_errors(group@, text::texts(patterns@), ignore),
{
    let ghost all = text::texts(patterns@);
    let mut i: usize = 0;
    assert(all.take(0) =~= Seq::empty());
    assert(errors@ + Seq::<ErrorModel>::empty() =~= errors@);
    while i < patterns.len()
        invariant
            0 <= i <= patterns.len(),
            all == text::texts(patterns@),
            errors@ == old(errors)@ + pattern_errors(group@, all.take(i as int), ignore),
        decreases patterns.len() - i,
    {
        proof {
            assert(all.take(i + 1).drop_last() =~= all.take(i as int));
            assert(all.take(i + 1).last() == all[i as int]);
        }
        let pattern = patterns[i].as_str();
        report_pattern(group, pattern, ignore, check_glob(pattern), errors);
        assert(errors@ =~= old(errors)@ + pattern_errors(group@, all.take(i + 1), ignore));
        i = i + 1;
    }
    assert(all.take(all.len() as int) =~= all);
}

/// Validate glob patterns.
fn validate_patterns(config: &Config, errors: &mut ValidationErrors)
    ensures
        final(errors)@ == old(errors)@ + all_pattern_errors(schema::groups(config.groups@)),
{
    let ghost all = schema::groups(config.groups@);
    let mut i: usize = 0;
    assert(all.take(0) =~= Seq::empty());
    assert(errors@ + Seq::<ErrorModel>::empty() =~= errors@);
    while i < config.groups.len()
        invariant
            0 <= i <= config.groups.len(),
            all == schema::groups(config.groups@),
            errors@ == old(errors)@ + all_pattern_errors(all.take(i as int)),
        decreases config.groups.len() - i,
    {
        let group = &config.groups[i];
        proof {
            assert(all.take(i + 1).drop_last() =~= all.take(i as int));
            assert(all.take(i + 1).last() == group@);
        }
        validate_pattern_list(group.name.as_str(), &group.patterns, false, errors);
        validate_pattern_list(group.name.as_str(), &group.ignore, true, errors);
        assert(errors@ =~= old(errors)@ + all_pattern_errors(all.take(i + 1)));
        i = i + 1;
    }
    assert(all.take(all.len() as int) =~= all);
}

fn validate_tasks(group: &Group, errors: &mut ValidationErrors)
    ensures
        final(errors)@ == old(errors)@ + task_errors(group@.name, group@.tasks),
{
    let ghost all = group@.tasks;
    let mut names: Vec<String> = Vec::new();
    let mut i: usize = 0;
    assert(all.take(0) =~= Seq::empty());
    assert(errors@ + Seq::<ErrorModel>::empty() =~= errors@);
    assert(text::texts(names@) =~= task_names(all.take(0)));
    while i < group.tasks.len()
        invariant
            0 <= i <= group.tasks.len(),
            all == group@.tasks,
            text::texts(names@) == task_names(all.take(i as int)),
            errors@ == old(errors)@ + task_errors(group@.name, all.take(i as int)),
        decreases group.tasks.len() - i,
    {
        let task = &group.tasks[i];
        let name = task.name();
        proof {
            assert(all.take(i + 1).drop_last() =~= all.take(i as int));
            assert(all.take(i + 1).last() == task@);
            assert(task_names(all.take(i + 1)) =~= task_names(all.take(i as int)).push(name@));
        }
        if task.command.as_str().unicode_len() == 0 {
            errors.push(
                ValidationError::new(
                    ValidationErrorKind::EmptyTaskCommand {
                        group: group.name.clone(),
                        task: name.to_owned(),
                    },
                ),
            );
        }
        if list_contains(names.as_slice(), name) {
            errors.push(
                ValidationError::new(
                    ValidationErrorKind::DuplicateTaskName {
                        group: group.name.clone(),
                        name: name.to_owned(),
                        is_explicit: task.has_explicit_name(),
                    },
                ),
            );
        }
        names.push(name.to_owned());
        assert(errors@ =~= old(errors)@ + task_errors(group@.name, all.take(i + 1)));
        i = i + 1;
    }
    assert(all.take(all.len() as int) =~= all);
}

fn validate_daemons(group: &Group, errors: &mut ValidationErrors)
    ensures
        final(errors)@ == old(errors)@ + daemon_errors(group@.name, group@.daemons),
{
    let ghost all = group@.daemons;
    let mut names: Vec<String> = Vec::new();
    let mut i: usize = 0;
    assert(all.take(0) =~= Seq::empty());
    assert(errors@ + Seq::<ErrorModel>::empty() =~= errors@);
    assert(text::texts(names@) =~= daemon_names(all.take(0)));
    while i < group.daemons.len()
        invariant
            0 <= i <= group.daemons.len(),
            all == group@.daemons,
            text::texts(names@) == daemon_names(all.take(i as int)),
            errors@ == old(errors)@ + daemon_errors(group@.name, all.take(i as int)),
        decreases group.daemons.len() - i,
    {
        let daemon = &group.daemons[i];
        let name = daemon.name();
        proof {
            assert(all.take(i + 1).drop_last() =~= all.take(i as int));
            assert(all.take(i + 1).last() == daemon@);
            assert(daemon_names(all.take(i + 1)) =~= daemon_names(all.take(i as int)).push(name@));
        }
        if daemon.command.as_str().unicode_len() == 0 {
            errors.push(
                ValidationError::new(
                    ValidationErrorKind::EmptyDaemonCommand {
                        group: group.name.clone(),
                        daemon: name.to_owned(),
                    },
                ),
            );
        }
        if list_contains(names.as_slice(), name) {
            errors.push(
                ValidationError::new(
                    ValidationErrorKind::DuplicateDaemonName {
                        group: group.name.clone(),
                        name: name.to_owned(),
                        is_explicit: daemon.has_explicit_name(),
                    },
                ),
            );
        }
        names.push(name.to_owned());
        assert(errors@ =~= old(errors)@ + daemon_errors(group@.name, all.take(i + 1)));
        i = i + 1;
    }
    assert(all.take(all.len() as int) =~= all);
}

/// Validate command definitions.
fn validate_commands(config: &Config, errors: &mut ValidationErrors)
    ensures
        final(errors)@ == old(errors)@ + command_errors(schema::groups(config.groups@)),
{
    let ghost all = schema::groups(config.groups@);
    let mut i: usize = 0;
    assert(all.take(0) =~= Seq::empty());
    assert(errors@ + Seq::<ErrorModel>::empty() =~= errors@);
    while i < config.groups.len()
        invariant
            0 <= i <= config.groups.len(),
            all == schema::groups(config.groups@),
            errors@ == old(errors)@ + command_errors(all.take(i as int)),
        decreases config.groups.len() - i,
    {
        let group = &config.groups[i];
        proof {
            assert(all.take(i + 1).drop_last() =~= all.take(i as int));
            assert(all.take(i + 1).last() == group@);
        }
        validate_tasks(group, errors);
        validate_daemons(group, errors);
        assert(errors@ =~= old(errors)@ + command_errors(all.take(i + 1)));
        i = i + 1;
    }
    assert(all.take(all.len() as int) =~= all);
}

} // verus!
