//! Error types for configuration parsing.

use crate::text::{self, cat2, cat3, cat5, cat7, chars_of, decimal_of, join, utf8_len_of, Text};
use std::ops::Range;
use vstd::prelude::*;

verus! {

/// Location in source file.
#[derive(Debug, Clone, Copy, PartialEq, Eq, Structural)]
pub struct Span {
    /// Line number (1-indexed).
    pub line: usize,
    /// Column number (1-indexed).
    pub column: usize,
}

/// The line and column reached from (`line`, `column`) by going through
/// `source` until `offset` bytes are behind.
pub open spec fn position_after(source: Text, offset: int, line: int, column: int) -> (int, int)
    decreases source.len(),
{
    if source.len() == 0 || offset <= 0 {
        (line, column)
    } else {
        let rest = source.drop_first();
        let left = offset - text::utf8_len(source[0]);
        if source[0] == '\n' {
            position_after(rest, left, line + 1, 1)
        } else {
            position_after(rest, left, line, column + 1)
        }
    }
}

/// The text of a location.
pub open spec fn span_text(span: Span) -> Text {
    text::decimal(span.line as nat) + ":"@ + text::decimal(span.column as nat)
}

impl Span {
    /// Create a new span.
    pub fn new(line: usize, column: usize) -> (r: Self)
        ensures
            r == (Span { line, column }),
    {
        Span { line, column }
    }

    /// Convert a byte offset to a Span (line/column position).
    ///
    /// Both line and column are 1-indexed.
    pub fn from_byte_offset(source: &str, byte_offset: usize) -> (r: Self)
        requires
            source@.len() < usize::MAX,
        ensures
            (r.line as int, r.column as int) == position_after(
                source@,
                byte_offset as int,
                1,
                1,
            ),
    {
        let chars = chars_of(source);
        let mut line: usize = 1;
        let mut column: usize = 1;
        let mut left: usize = byte_offset;
        let mut i: usize = 0;
        assert(source@.skip(0) =~= source@);
        while i < chars.len() && left > 0
            invariant
                0 <= i <= chars@.len(),
                chars@ == source@,
                source@.len() < usize::MAX,
                1 <= line <= i + 1,
                1 <= column <= i + 1,
                position_after(source@, byte_offset as int, 1, 1) == position_after(
                    source@.skip(i as int),
                    left as int,
                    line as int,
                    column as int,
                ),
            decreases chars.len() - i,
        {
            let c = chars[i];
            let w = utf8_len_of(c);
            proof {
                let rest = source@.skip(i as int);
                assert(rest[0] == c);
                assert(rest.drop_first() =~= source@.skip(i + 1));
                if left < w {
                    lemma_position_done(
                        source@.skip(i + 1),
                        left - w,
                        if c == '\n' { line + 1 } else { line as int },
                        if c == '\n' { 1 } else { column + 1 },
                    );
                }
            }
            left = if left < w { 0 } else { left - w };
            if c == '\n' {
                line = line + 1;
                column = 1;
            } else {
                column = column + 1;
            }
            i = i + 1;
        }
        Span { line, column }
    }

    /// The location as `line:column`.
    pub fn to_string(&self) -> (r: String)
        ensures
            r@ == span_text(*self),
    {
        cat3(
            decimal_of(self.line as u64).as_str(),
            ":",
            decimal_of(self.column as u64).as_str(),
        )
    }
}

/// No way is left once the offset is behind.
proof fn lemma_position_done(source: Text, offset: int, line: int, column: int)
    requires
        offset <= 0,
    ensures
        position_after(source, offset, line, column) == (line, column),
        position_after(source, 0, line, column) == (line, column),
{
}

/// Categories of validation errors.
#[derive(Debug)]
pub enum ValidationErrorKind {
    /// Group name is empty.
    EmptyGroupName {
        /// Index of the group in the config.
        index: usize,
    },
    /// Duplicate group name.
    DuplicateGroupName {
        /// The duplicated name.
        name: String,
        /// Index of the first occurrence.
        first_index: usize,
        /// Index of the duplicate.
        second_index: usize,
    },
    /// Group has no patterns and no commands.
    EmptyGroup {
        /// Name of the empty group.
        name: String,
    },
    /// Unknown dependency reference.
    UnknownDependency {
        /// Name of the group with the bad dependency.
        group: String,
        /// Name of the unknown dependency.
        dependency: String,
    },
    /// Group depends on itself.
    SelfDependency {
        /// Name of the group.
        group: String,
    },
    /// Dependency cycle detected.
    DependencyCycle {
        /// The cycle path.
        cycle: Vec<String>,
    },
    /// Invalid glob pattern.
    InvalidPattern {
        /// Name of the group.
        group: String,
        /// The invalid pattern.
        pattern: String,
        /// Error message from the glob parser.
        error: String,
    },
    /// Invalid ignore pattern.
    InvalidIgnorePattern {
        /// Name of the group.
        group: String,
        /// The invalid pattern.
        pattern: String,
        /// Error message from the glob parser.
        error: String,
    },
    /// Task has empty command.
    EmptyTaskCommand {
        /// Name of the group.
        group: String,
        /// Name of the task.
        task: String,
    },
    /// Duplicate task name.
    DuplicateTaskName {
        /// Name of the group.
        group: String,
        /// The duplicated name.
        name: String,
        /// Whether the name was explicitly set.
        is_explicit: bool,
    },
    /// Daemon has empty command.
    EmptyDaemonCommand {
        /// Name of the group.
        group: String,
        /// Name of the daemon.
        daemon: String,
    },
    /// Duplicate daemon name.
    DuplicateDaemonName {
        /// Name of the group.
        group: String,
        /// The duplicated name.
        name: String,
        /// Whether the name was explicitly set.
        is_explicit: bool,
    },
}

/// The model of a [`ValidationErrorKind`].
pub enum KindModel {
    EmptyGroupName { index: int },
    DuplicateGroupName { name: Text, first_index: int, second_index: int },
    EmptyGroup { name: Text },
    UnknownDependency { group: Text, dependency: Text },
    SelfDependency { group: Text },
    DependencyCycle { cycle: Seq<Text> },
    InvalidPattern { group: Text, pattern: Text, error: Text },
    InvalidIgnorePattern { group: Text, pattern: Text, error: Text },
    EmptyTaskCommand { group: Text, task: Text },
    DuplicateTaskName { group: Text, name: Text, is_explicit: bool },
    EmptyDaemonCommand { group: Text, daemon: Text },
    DuplicateDaemonName { group: Text, name: Text, is_explicit: bool },
}

impl View for ValidationErrorKind {
    type V = KindModel;

    open spec fn view(&self) -> KindModel {
        match *self {
            ValidationErrorKind::EmptyGroupName { index } => KindModel::EmptyGroupName {
                index: index as int,
            },
            ValidationErrorKind::DuplicateGroupName { name, first_index, second_index } =>
                KindModel::DuplicateGroupName {
                name: name@,
                first_index: first_index as int,
                second_index: second_index as int,
            },
            ValidationErrorKind::EmptyGroup { name } => KindModel::EmptyGroup { name: name@ },
            ValidationErrorKind::UnknownDependency { group, dependency } =>
                KindModel::UnknownDependency { group: group@, dependency: dependency@ },
            ValidationErrorKind::SelfDependency { group } => KindModel::SelfDependency {
                group: group@,
            },
            ValidationErrorKind::DependencyCycle { cycle } => KindModel::DependencyCycle {
                cycle: text::texts(cycle@),
            },
            ValidationErrorKind::InvalidPattern { group, pattern, error } =>
                KindModel::InvalidPattern { group: group@, pattern: pattern@, error: error@ },
            ValidationErrorKind::InvalidIgnorePattern { group, pattern, error } =>
                KindModel::InvalidIgnorePattern {
                group: group@,
                pattern: pattern@,
                error: error@,
            },
            ValidationErrorKind::EmptyTaskCommand { group, task } => KindModel::EmptyTaskCommand {
                group: group@,
                task: task@,
            },
            ValidationErrorKind::DuplicateTaskName { group, name, is_explicit } =>
                KindModel::DuplicateTaskName { group: group@, name: name@, is_explicit },
            ValidationErrorKind::EmptyDaemonCommand { group, daemon } =>
                KindModel::EmptyDaemonCommand { group: group@, daemon: daemon@ },
            ValidationErrorKind::DuplicateDaemonName { group, name, is_explicit } =>
                KindModel::DuplicateDaemonName { group: group@, name: name@, is_explicit },
        }
    }
}

/// What is added to a clash of derived names.
pub open spec fn name_hint(is_explicit: bool) -> Text {
    if is_explicit {
        ""@
    } else {
        " (use explicit 'name' field to disambiguate)"@
    }
}

impl KindModel {
    /// The error in words.
    pub open spec fn message(self) -> Text {
        match self {
            KindModel::EmptyGroupName { index } => "group["@ + text::decimal(index as nat)
                + "]: name cannot be empty"@,
            KindModel::DuplicateGroupName { name, first_index, second_index } => "group["@
                + text::decimal(second_index as nat) + "]: duplicate name '"@ + name
                + "' (first defined at group["@ + text::decimal(first_index as nat) + "])"@,
            KindModel::EmptyGroup { name } => "group '"@ + name
                + "': has no patterns and no commands"@,
            KindModel::UnknownDependency { group, dependency } => "group '"@ + group
                + "': depends_on references unknown group '"@ + dependency + "'"@,
            KindModel::SelfDependency { group } => "group '"@ + group
                + "': cannot depend on itself"@,
            KindModel::DependencyCycle { cycle } => "dependency cycle detected: "@ + text::joined(
                cycle,
                " -> "@,
            ),
            KindModel::InvalidPattern { group, pattern, error } => "group '"@ + group
                + "': invalid pattern '"@ + pattern + "': "@ + error,
            KindModel::InvalidIgnorePattern { group, pattern, error } => "group '"@ + group
                + "': invalid ignore pattern '"@ + pattern + "': "@ + error,
            KindModel::EmptyTaskCommand { group, task } => "group '"@ + group + "': task '"@ + task
                + "' has empty command"@,
            KindModel::DuplicateTaskName { group, name, is_explicit } => "group '"@ + group
                + "': duplicate task name '"@ + name + "'"@ + name_hint(is_explicit),
            KindModel::EmptyDaemonCommand { group, daemon } => "group '"@ + group
                + "': daemon '"@ + daemon + "' has empty command"@,
            KindModel::DuplicateDaemonName { group, name, is_explicit } => "group '"@ + group
                + "': duplicate daemon name '"@ + name + "'"@ + name_hint(is_explicit),
        }
    }

    /// The code of the error's category.
    pub open spec fn code(self) -> Text {
        match self {
            KindModel::EmptyGroupName { .. } => "empty_group_name"@,
            KindModel::DuplicateGroupName { .. } => "duplicate_group_name"@,
            KindModel::EmptyGroup { .. } => "empty_group"@,
            KindModel::UnknownDependency { .. } => "unknown_dependency"@,
            KindModel::SelfDependency { .. } => "self_dependency"@,
            KindModel::DependencyCycle { .. } => "dependency_cycle"@,
            KindModel::InvalidPattern { .. } => "invalid_pattern"@,
            KindModel::InvalidIgnorePattern { .. } => "invalid_ignore_pattern"@,
            KindModel::EmptyTaskCommand { .. } => "empty_task_command"@,
            KindModel::DuplicateTaskName { .. } => "duplicate_task_name"@,
            KindModel::EmptyDaemonCommand { .. } => "empty_daemon_command"@,
            KindModel::DuplicateDaemonName { .. } => "duplicate_daemon_name"@,
        }
    }
}

/// What is added to a clash of derived names.
fn name_hint_of(is_explicit: bool) -> (r: &'static str)
    ensures
        r@ == name_hint(is_explicit),
{
    if is_explicit {
        ""
    } else {
        " (use explicit 'name' field to disambiguate)"
    }
}

impl ValidationErrorKind {
    /// Get error code for JSON output.
    pub fn code(&self) -> (r: &'static str)
        ensures
            r@ == self@.code(),
    {
        match self {
            ValidationErrorKind::EmptyGroupName { .. } => "empty_group_name",
            ValidationErrorKind::DuplicateGroupName { .. } => "duplicate_group_name",
            ValidationErrorKind::EmptyGroup { .. } => "empty_group",
            ValidationErrorKind::UnknownDependency { .. } => "unknown_dependency",
            ValidationErrorKind::SelfDependency { .. } => "self_dependency",
            ValidationErrorKind::DependencyCycle { .. } => "dependency_cycle",
            ValidationErrorKind::InvalidPattern { .. } => "invalid_pattern",
            ValidationErrorKind::InvalidIgnorePattern { .. } => "invalid_ignore_pattern",
            ValidationErrorKind::EmptyTaskCommand { .. } => "empty_task_command",
            ValidationErrorKind::DuplicateTaskName { .. } => "duplicate_task_name",
            ValidationErrorKind::EmptyDaemonCommand { .. } => "empty_daemon_command",
            ValidationErrorKind::DuplicateDaemonName { .. } => "duplicate_daemon_name",
        }
    }

    /// The error in words.
    pub fn to_string(&self) -> (r: String)
        ensures
            r@ == self@.message(),
    {
        match self {
            ValidationErrorKind::EmptyGroupName { index } => cat3(
                "group[",
                decimal_of(*index as u64).as_str(),
                "]: name cannot be empty",
            ),
            ValidationErrorKind::DuplicateGroupName { name, first_index, second_index } => cat7(
                "group[",
                decimal_of(*second_index as u64).as_str(),
                "]: duplicate name '",
                name.as_str(),
                "' (first defined at group[",
                decimal_of(*first_index as u64).as_str(),
                "])",
            ),
            ValidationErrorKind::EmptyGroup { name } => cat3(
                "group '",
                name.as_str(),
                "': has no patterns and no commands",
            ),
            ValidationErrorKind::UnknownDependency { group, dependency } => cat5(
                "group '",
                group.as_str(),
                "': depends_on references unknown group '",
                dependency.as_str(),
                "'",
            ),
            ValidationErrorKind::SelfDependency { group } => cat3(
                "group '",
                group.as_str(),
                "': cannot depend on itself",
            ),
            ValidationErrorKind::DependencyCycle { cycle } => {
                assert(text::texts(cycle@).take(cycle@.len() as int) =~= text::texts(cycle@));
                cat2("dependency cycle detected: ", join(cycle, cycle.len(), " -> ").as_str())
            },
            ValidationErrorKind::InvalidPattern { group, pattern, error } => {
                let mut s = cat5(
                    "group '",
                    group.as_str(),
                    "': invalid pattern '",
                    pattern.as_str(),
                    "': ",
                );
                s.append(error.as_str());
                s
            },
            ValidationErrorKind::InvalidIgnorePattern { group, pattern, error } => {
                let mut s = cat5(
                    "group '",
                    group.as_str(),
                    "': invalid ignore pattern '",
                    pattern.as_str(),
                    "': ",
                );
                s.append(error.as_str());
                s
            },
            ValidationErrorKind::EmptyTaskCommand { group, task } => cat5(
                "group '",
                group.as_str(),
                "': task '",
                task.as_str(),
                "' has empty command",
            ),
            ValidationErrorKind::DuplicateTaskName { group, name, is_explicit } => {
                let mut s = cat5(
                    "group '",
                    group.as_str(),
                    "': duplicate task name '",
                    name.as_str(),
                    "'",
                );
                s.append(name_hint_of(*is_explicit));
                s
            },
            ValidationErrorKind::EmptyDaemonCommand { group, daemon } => cat5(
                "group '",
                group.as_str(),
                "': daemon '",
                daemon.as_str(),
                "' has empty command",
            ),
            ValidationErrorKind::DuplicateDaemonName { group, name, is_explicit } => {
                let mut s = cat5(
                    "group '",
                    group.as_str(),
                    "': duplicate daemon name '",
                    name.as_str(),
                    "'",
                );
                s.append(name_hint_of(*is_explicit));
                s
            },
        }
    }
}

/// A single validation error.
#[derive(Debug)]
pub struct ValidationError {
    /// Location in source file (if known).
    pub span: Option<Span>,
    /// Error category with details.
    pub kind: ValidationErrorKind,
    /// Suggested fix (if available).
    pub hint: Option<String>,
}

/// The model of a [`ValidationError`].
pub struct ErrorModel {
    pub span: Option<Span>,
    pub kind: KindModel,
    pub hint: Option<Text>,
}

impl View for ValidationError {
    type V = ErrorModel;

    open spec fn view(&self) -> ErrorModel {
        ErrorModel { span: self.span, kind: self.kind@, hint: text::opt_text(self.hint) }
    }
}

impl ErrorModel {
    /// An error without a location or a hint.
    pub open spec fn plain(kind: KindModel) -> ErrorModel {
        ErrorModel { span: None, kind, hint: None }
    }

    /// The error in words: its location, the message, and the hint on a line of
    /// its own.
    pub open spec fn message(self) -> Text {
        let place = match self.span {
            Some(span) => span_text(span) + ": "@,
            None => Seq::empty(),
        };
        let hint = match self.hint {
            Some(h) => "\n               hint: "@ + h,
            None => Seq::empty(),
        };
        place + self.kind.message() + hint
    }
}

impl ValidationError {
    /// Create a new validation error.
    pub fn new(kind: ValidationErrorKind) -> (r: Self)
        ensures
            r@ == ErrorModel::plain(kind@),
    {
        ValidationError { span: None, kind, hint: None }
    }

    /// Add a span to this error.
    pub fn with_span(self, span: Span) -> (r: Self)
        ensures
            r@ == (ErrorModel { span: Some(span), ..self@ }),
    {
        let mut e = self;
        e.span = Some(span);
        e
    }

    /// Add a hint to this error.
    pub fn with_hint(self, hint: &str) -> (r: Self)
        ensures
            r@ == (ErrorModel { hint: Some(hint@), ..self@ }),
    {
        let mut e = self;
        e.hint = Some(hint.to_owned());
        e
    }

    /// Get error code for JSON output.
    pub fn code(&self) -> (r: &'static str)
        ensures
            r@ == self@.kind.code(),
    {
        self.kind.code()
    }

    /// The error in words.
    pub fn to_string(&self) -> (r: String)
        ensures
            r@ == self@.message(),
    {
        let mut s = String::new();
        if let Some(span) = &self.span {
            s.append(span.to_string().as_str());
            s.append(": ");
            assert(s@ =~= span_text(*span) + ": "@);
        }
        s.append(self.kind.to_string().as_str());
        if let Some(hint) = &self.hint {
            let ghost before = s@;
            s.append("\n               hint: ");
            s.append(hint.as_str());
            assert(s@ =~= before + ("\n               hint: "@ + hint@));
        } else {
            assert(s@ + Seq::<char>::empty() =~= s@);
        }
        s
    }
}

/// Collection of validation errors.
#[derive(Debug)]
pub struct ValidationErrors {
    pub errors: Vec<ValidationError>,
}

impl View for ValidationErrors {
    type V = Seq<ErrorModel>;

    open spec fn view(&self) -> Seq<ErrorModel> {
        Seq::new(self.errors@.len(), |i: int| self.errors@[i]@)
    }
}

/// The messages of a list of errors, each on a line of its own.
pub open spec fn error_lines(errors: Seq<ErrorModel>) -> Text
    decreases errors.len(),
{
    if errors.len() == 0 {
        Seq::empty()
    } else {
        error_lines(errors.drop_last()) + "\n"@ + errors.last().message()
    }
}

impl Default for ValidationErrors {
    fn default() -> (r: Self)
        ensures
            r@ == Seq::<ErrorModel>::empty(),
    {
        ValidationErrors::new()
    }
}

impl ValidationErrors {
    /// Create a new empty collection.
    pub fn new() -> (r: Self)
        ensures
            r@ == Seq::<ErrorModel>::empty(),
    {
        let r = ValidationErrors { errors: Vec::new() };
        assert(r@ =~= Seq::<ErrorModel>::empty());
        r
    }

    /// Check if there are no errors.
    pub fn is_empty(&self) -> (r: bool)
        ensures
            r == (self@.len() == 0),
    {
        self.errors.len() == 0
    }

    /// Get the number of errors.
    pub fn len(&self) -> (r: usize)
        ensures
            r == self@.len(),
    {
        self.errors.len()
    }

    /// Add an error to the collection.
    pub fn push(&mut self, error: ValidationError)
        ensures
            final(self)@ == old(self)@.push(error@),
    {
        self.errors.push(error);
        assert(self@ =~= old(self)@.push(error@));
    }

    /// Get an iterator over the errors.
    pub fn iter(&self) -> (r: std::slice::Iter<'_, ValidationError>)
        ensures
            vstd::std_specs::iter::IteratorSpec::remaining(&r) == self.errors@.as_ref(),
    {
        self.errors.iter()
    }

    /// Convert to a Result, returning Ok if empty.
    pub fn into_result(self) -> (r: Result<(), Self>)
        ensures
            r is Ok <==> self@.len() == 0,
            r is Err ==> r->Err_0 == self,
    {
        if self.is_empty() {
            Ok(())
        } else {
            Err(self)
        }
    }

    /// The errors in words.
    pub fn to_string(&self) -> (r: String)
        ensures
            r@ == "configuration validation failed:"@ + error_lines(self@),
    {
        let mut lines = String::new();
        let mut i: usize = 0;
        assert(self@.take(0) =~= Seq::<ErrorModel>::empty());
        while i < self.errors.len()
            invariant
                0 <= i <= self.errors.len(),
                lines@ == error_lines(self@.take(i as int)),
            decreases self.errors.len() - i,
        {
            assert(self@.take(i + 1).drop_last() =~= self@.take(i as int));
            assert(self@.take(i + 1).last() == self.errors@[i as int]@);
            lines.append("\n");
            lines.append(self.errors[i].to_string().as_str());
            i = i + 1;
        }
        assert(self@.take(self@.len() as int) =~= self@);
        cat2("configuration validation failed:", lines.as_str())
    }
}

/// Errors that can occur when loading or parsing configuration.
#[derive(Debug)]
pub enum ConfigError {
    /// No configuration file found.
    NotFound { searched: Vec<String> },
    /// Failed to read configuration file.
    Io { path: String, source: String },
    /// Unknown configuration file format.
    UnknownFormat { path: String },
    /// TOML parsing error.
    Toml { message: String, span: Option<Range<usize>> },
    /// JSON parsing error.
    Json(String),
    /// Validation errors (one or more).
    Validation(ValidationErrors),
}

/// The text of a byte range.
pub open spec fn range_text(span: Option<Range<usize>>) -> Text {
    match span {
        Some(range) => " at bytes "@ + text::decimal(range.start as nat) + ".."@ + text::decimal(
            range.end as nat,
        ),
        None => Seq::empty(),
    }
}

/// The text of a configuration error.
pub open spec fn config_error_text(e: ConfigError) -> Text {
    match e {
        ConfigError::NotFound { searched } => "no configuration file found, searched: "@
            + text::joined(text::texts(searched@), ", "@),
        ConfigError::Io { path, source } => "failed to read config file "@ + path@ + ": "@
            + source@,
        ConfigError::UnknownFormat { path } => "unknown config format for "@ + path@
            + " (expected .toml or .json)"@,
        ConfigError::Toml { message, span } => "TOML parse error: "@ + message@ + range_text(span),
        ConfigError::Json(m) => "JSON parse error: "@ + m@,
        ConfigError::Validation(errors) => "configuration validation failed:"@ + error_lines(
            errors@,
        ),
    }
}

fn format_paths(paths: &Vec<String>) -> (r: String)
    ensures
        r@ == text::joined(text::texts(paths@), ", "@),
{
    assert(text::texts(paths@).take(paths@.len() as int) =~= text::texts(paths@));
    join(paths, paths.len(), ", ")
}

fn format_span(span: &Option<Range<usize>>) -> (r: String)
    ensures
        r@ == range_text(*span),
{
    match span {
        Some(range) => {
            let mut s = cat2(" at bytes ", decimal_of(range.start as u64).as_str());
            s.append("..");
            s.append(decimal_of(range.end as u64).as_str());
            s
        },
        None => String::new(),
    }
}

impl ConfigError {
    /// Check if this is a "not found" error.
    pub fn is_not_found(&self) -> (r: bool)
        ensures
            r == (self is NotFound),
    {
        match self {
            ConfigError::NotFound { .. } => true,
            _ => false,
        }
    }

    /// Check if this is a validation error.
    pub fn is_validation(&self) -> (r: bool)
        ensures
            r == (self is Validation),
    {
        match self {
            ConfigError::Validation(_) => true,
            _ => false,
        }
    }

    /// The error in words.
    pub fn to_string(&self) -> (r: String)
        ensures
            r@ == config_error_text(*self),
    {
        match self {
            ConfigError::NotFound { searched } => cat2(
                "no configuration file found, searched: ",
                format_paths(searched).as_str(),
            ),
            ConfigError::Io { path, source } => {
                let mut s = cat3("failed to read config file ", path.as_str(), ": ");
                s.append(source.as_str());
                s
            },
            ConfigError::UnknownFormat { path } => cat3(
                "unknown config format for ",
                path.as_str(),
                " (expected .toml or .json)",
            ),
            ConfigError::Toml { message, span } => cat3(
                "TOML parse error: ",
                message.as_str(),
                format_span(span).as_str(),
            ),
            ConfigError::Json(m) => cat2("JSON parse error: ", m.as_str()),
            ConfigError::Validation(errors) => errors.to_string(),
        }
    }
}

} // verus!
