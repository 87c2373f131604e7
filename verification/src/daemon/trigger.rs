//! What sets a group in motion.

use crate::strmap::StrMap;
use crate::text::{self, cat2, cat3, cat5, decimal_of, Text};
use vstd::prelude::*;

verus! {

/// Scope of a manual restart request.
#[derive(Debug)]
pub enum RestartScope {
    /// Restart a single group.
    Group(String),
    /// Restart a specific process within a group.
    Process {
        /// Group name.
        group: String,
        /// Process name (task or daemon).
        process: String,
    },
    /// Restart all groups.
    All,
}

/// The scope in words.
pub open spec fn scope_text(scope: RestartScope) -> Text {
    match scope {
        RestartScope::Group(name) => "group '"@ + name@ + "'"@,
        RestartScope::Process { group, process } => "process '"@ + process@ + "' in group '"@
            + group@ + "'"@,
        RestartScope::All => "all groups"@,
    }
}

impl RestartScope {
    /// The scope in words.
    pub fn to_string(&self) -> (r: String)
        ensures
            r@ == scope_text(*self),
    {
        match self {
            RestartScope::Group(name) => cat3("group '", name.as_str(), "'"),
            RestartScope::Process { group, process } => cat5(
                "process '",
                process.as_str(),
                "' in group '",
                group.as_str(),
                "'",
            ),
            RestartScope::All => "all groups".to_owned(),
        }
    }
}

/// Source of a trigger event that initiates group execution.
#[derive(Debug)]
pub enum TriggerSource {
    /// Initial daemon startup.
    Startup,
    /// File system change detected.
    FileChange {
        /// Files that changed.
        files: Vec<String>,
    },
    /// Task completed successfully, triggering dependents.
    TaskCompletion {
        /// Group whose task completed.
        group: String,
    },
    /// Daemon restarted, triggering dependent groups.
    DaemonRestart {
        /// Group whose daemon restarted.
        group: String,
    },
    /// Manual restart via API request.
    ManualRestart {
        /// Scope of the restart.
        scope: RestartScope,
    },
    /// Dependency became ready during startup.
    DependencyReady {
        /// Group that completed.
        completed_group: String,
    },
}

/// The source in words.
pub open spec fn source_text(source: TriggerSource) -> Text {
    match source {
        TriggerSource::Startup => "startup"@,
        TriggerSource::FileChange { files } => "file change ("@ + text::decimal(files@.len())
            + " files)"@,
        TriggerSource::TaskCompletion { group } => "task completion in '"@ + group@ + "'"@,
        TriggerSource::DaemonRestart { group } => "daemon restart in '"@ + group@ + "'"@,
        TriggerSource::ManualRestart { scope } => "manual restart ("@ + scope_text(scope) + ")"@,
        TriggerSource::DependencyReady { completed_group } => "dependency '"@ + completed_group@
            + "' ready"@,
    }
}

impl TriggerSource {
    /// The source in words.
    pub fn to_string(&self) -> (r: String)
        ensures
            r@ == source_text(*self),
    {
        match self {
            TriggerSource::Startup => "startup".to_owned(),
            TriggerSource::FileChange { files } => cat3(
                "file change (",
                decimal_of(files.len() as u64).as_str(),
                " files)",
            ),
            TriggerSource::TaskCompletion { group } => cat3(
                "task completion in '",
                group.as_str(),
                "'",
            ),
            TriggerSource::DaemonRestart { group } => cat3(
                "daemon restart in '",
                group.as_str(),
                "'",
            ),
            TriggerSource::ManualRestart { scope } => cat3(
                "manual restart (",
                scope.to_string().as_str(),
                ")",
            ),
            TriggerSource::DependencyReady { completed_group } => cat3(
                "dependency '",
                completed_group.as_str(),
                "' ready",
            ),
        }
    }
}

/// Lifecycle phase determines how triggers propagate to dependents.
#[derive(Debug, Clone, Copy, PartialEq, Eq, Structural)]
pub enum LifecyclePhase {
    /// Initial startup - groups go Pending -> Waiting -> Running -> Ready.
    Startup,
    /// Runtime phase - groups already Ready, being re-triggered.
    Runtime,
}

/// What commands are expanded with.
#[derive(Debug)]
pub struct Context {
    /// User-defined variables.
    pub variables: StrMap<String>,
    /// Files that changed.
    pub files: Vec<String>,
    /// The directory of the configuration file.
    pub root: String,
}

/// Complete context for processing a trigger event.
#[derive(Debug)]
pub struct TriggerContext {
    /// The source of this trigger.
    pub source: TriggerSource,
    /// Variable expansion context for commands.
    pub vars: Context,
    /// Whether to run `on_change_only` tasks.
    ///
    /// - `true` for file change triggers (run all tasks including on_change_only)
    /// - `false` for startup, manual restarts, and dependency triggers
    pub run_on_change_tasks: bool,
    /// Whether to cascade/propagate to dependent groups after completion.
    pub should_cascade: bool,
}

/// Result of a config reload operation.
#[derive(Debug)]
pub enum ReloadResult {
    /// Reload succeeded with details about what changed.
    Success { added: Vec<String>, removed: Vec<String>, modified: Vec<String> },
    /// Reload failed with an error message.
    Failed(String),
}

/// Commands with their variables expanded: for each command template what it
/// expands to, or why it does not.
#[derive(Debug)]
pub struct Expansions {
    pub expanded: StrMap<String>,
    pub failed: StrMap<String>,
}

/// The model of [`Expansions`].
pub struct ExpansionModel {
    pub expanded: Map<Text, Text>,
    pub failed: Map<Text, Text>,
}

impl View for Expansions {
    type V = ExpansionModel;

    open spec fn view(&self) -> ExpansionModel {
        ExpansionModel { expanded: self.expanded@, failed: self.failed@ }
    }
}

impl ExpansionModel {
    /// What a template expands to. A template that is not listed does not expand.
    pub open spec fn of(self, template: Text) -> Result<Text, Text> {
        if self.expanded.dom().contains(template) {
            Ok(self.expanded[template])
        } else if self.failed.dom().contains(template) {
            Err(self.failed[template])
        } else {
            Err(Seq::empty())
        }
    }
}

impl Expansions {
    /// No template expands.
    pub fn new() -> (r: Self)
        ensures
            r@ == (ExpansionModel { expanded: Map::empty(), failed: Map::empty() }),
    {
        Expansions { expanded: StrMap::new(), failed: StrMap::new() }
    }

    /// Records what a template expands to, or why it does not.
    pub fn record(&mut self, template: String, result: Result<String, String>)
        ensures
            match result {
                Ok(command) => final(self)@ == (ExpansionModel {
                    expanded: old(self)@.expanded.insert(template@, command@),
                    failed: old(self)@.failed,
                }),
                Err(error) => final(self)@ == (ExpansionModel {
                    expanded: old(self)@.expanded,
                    failed: old(self)@.failed.insert(template@, error@),
                }),
            },
    {
        match result {
            Ok(command) => self.expanded.insert(template, command),
            Err(error) => self.failed.insert(template, error),
        }
    }

    /// What a template expands to.
    pub fn expand(&self, template: &str) -> (r: Result<String, String>)
        ensures
            match r {
                Ok(command) => self@.of(template@) == Ok::<Text, Text>(command@),
                Err(error) => self@.of(template@) == Err::<Text, Text>(error@),
            },
    {
        match self.expanded.get(template) {
            Some(command) => Ok(command.clone()),
            None => match self.failed.get(template) {
                Some(error) => Err(error.clone()),
                None => Err(String::new()),
            },
        }
    }
}

} // verus!
