//! Configuration schema types.

use crate::strmap::StrMap;
use crate::text::{self, chars_of, is_white, trim_str, Text};
use vstd::prelude::*;

verus! {

/// Log output format.
#[derive(Debug, Clone, Copy, PartialEq, Eq, Structural)]
pub enum LogFormat {
    Pretty,
    Plain,
    Json,
}

/// Unix signals for daemon control.
#[derive(Debug, Clone, Copy, PartialEq, Eq, Structural)]
pub enum Signal {
    Sigterm,
    Sigint,
    Sighup,
    Sigkill,
    Sigquit,
    Sigusr1,
    Sigusr2,
}

/// Which output of a process is kept out of the logs.
#[derive(Debug, Clone, Copy, PartialEq, Eq, Structural)]
pub enum Silence {
    /// Nothing is kept out.
    Off,
    Stdout,
    Stderr,
    All,
}

impl Default for LogFormat {
    fn default() -> (r: Self)
        ensures
            r == LogFormat::Pretty,
    {
        LogFormat::Pretty
    }
}

impl Default for Signal {
    fn default() -> (r: Self)
        ensures
            r == Signal::Sigterm,
    {
        Signal::Sigterm
    }
}

impl Default for Silence {
    fn default() -> (r: Self)
        ensures
            r == Silence::Off,
    {
        Silence::Off
    }
}

/// Global settings.
#[derive(Debug)]
pub struct Settings {
    /// Shell to use for command execution (defaults to $SHELL).
    pub shell: Option<String>,
    /// Debounce time in milliseconds.
    pub debounce_ms: u64,
    /// Log output format.
    pub log_format: LogFormat,
}

impl Default for Settings {
    fn default() -> (r: Self)
        ensures
            r.shell is None,
            r.debounce_ms == 100,
            r.log_format == LogFormat::Pretty,
    {
        Settings { shell: None, debounce_ms: 100, log_format: LogFormat::Pretty }
    }
}

/// A task command that runs to completion.
#[derive(Debug)]
pub struct TaskCommand {
    /// Display name for this command (derived from command if not set).
    pub name: Option<String>,
    /// Shell command to execute.
    pub command: String,
    /// Only run on file changes, not on initial startup.
    pub on_change_only: bool,
    /// Which output is kept out of the logs.
    pub silence: Silence,
    /// Working directory, in place of the group's.
    pub working_dir: Option<String>,
    /// Environment variables, on top of the group's.
    pub env: StrMap<String>,
}

/// The model of a [`TaskCommand`].
pub struct TaskModel {
    pub name: Option<Text>,
    pub command: Text,
    pub on_change_only: bool,
    pub silence: Silence,
    pub working_dir: Option<Text>,
    pub env: Map<Text, Text>,
}

impl View for TaskCommand {
    type V = TaskModel;

    open spec fn view(&self) -> TaskModel {
        TaskModel {
            name: text::opt_text(self.name),
            command: self.command@,
            on_change_only: self.on_change_only,
            silence: self.silence,
            working_dir: text::opt_text(self.working_dir),
            env: self.env@,
        }
    }
}

/// Whether a name ends before a position of a command: a variable, a pipe or a
/// redirection begins there, or a flag, which is a word that starts with `-`.
pub open spec fn ends_name(s: Text, i: int) -> bool {
    ||| s[i] == '$' || s[i] == '|' || s[i] == '>' || s[i] == '<'
    ||| s[i] == '-' && (i == 0 || text::white(s[i - 1]))
}

/// The first position from one on where a name ends; the length of the command if
/// there is none.
pub open spec fn name_end(s: Text, from: int) -> int
    decreases s.len() - from,
{
    if from < 0 || from >= s.len() || ends_name(s, from) {
        from
    } else {
        name_end(s, from + 1)
    }
}

/// The display name of a command.
pub open spec fn derived_name(command: Text) -> Text {
    text::trim(command.take(name_end(command, 0)))
}

/// The display name of a command with an optional explicit name.
pub open spec fn display_name(name: Option<Text>, command: Text) -> Text {
    match name {
        Some(n) => n,
        None => derived_name(command),
    }
}

/// Derive a display name from a command string.
///
/// Takes words until hitting a flag (starts with '-') or special char.
pub fn derive_name(command: &str) -> (r: &str)
    ensures
        r@ == derived_name(command@),
{
    let chars = chars_of(command);
    let mut n: usize = 0;
    while n < chars.len() && !(chars[n] == '$' || chars[n] == '|' || chars[n] == '>' || chars[n]
        == '<' || (chars[n] == '-' && (n == 0 || is_white(chars[n - 1]))))
        invariant
            0 <= n <= chars@.len(),
            chars@ == command@,
            name_end(command@, 0) == name_end(command@, n as int),
        decreases chars.len() - n,
    {
        n = n + 1;
    }
    let prefix = command.substring_char(0, n);
    assert(prefix@ =~= command@.take(n as int));
    trim_str(prefix)
}

impl TaskCommand {
    /// Create a new task command with explicit name.
    pub fn new(name: &str, command: &str) -> (r: Self)
        ensures
            r@ == (TaskModel {
                name: Some(name@),
                command: command@,
                on_change_only: false,
                silence: Silence::Off,
                working_dir: None,
                env: Map::empty(),
            }),
    {
        TaskCommand {
            name: Some(name.to_owned()),
            command: command.to_owned(),
            on_change_only: false,
            silence: Silence::Off,
            working_dir: None,
            env: StrMap::new(),
        }
    }

    /// Create a task command where name is derived from command.
    pub fn from_command(command: &str) -> (r: Self)
        ensures
            r@ == (TaskModel {
                name: None,
                command: command@,
                on_change_only: false,
                silence: Silence::Off,
                working_dir: None,
                env: Map::empty(),
            }),
    {
        TaskCommand {
            name: None,
            command: command.to_owned(),
            on_change_only: false,
            silence: Silence::Off,
            working_dir: None,
            env: StrMap::new(),
        }
    }

    /// Get the display name, deriving from command if not explicitly set.
    ///
    /// For commands like "cargo build", derives "cargo build".
    /// For commands with flags, takes words until the first flag.
    pub fn name(&self) -> (r: &str)
        ensures
            r@ == display_name(self@.name, self@.command),
    {
        match &self.name {
            Some(n) => n.as_str(),
            None => derive_name(self.command.as_str()),
        }
    }

    /// Whether the name was set, not derived.
    pub fn has_explicit_name(&self) -> (r: bool)
        ensures
            r == self@.name is Some,
    {
        self.name.is_some()
    }

    /// Whether two commands are configured alike.
    pub fn same(&self, other: &Self) -> (r: bool)
        ensures
            r == (self@ == other@),
    {
        text::opt_eq(&self.name, &other.name) && text::str_eq(
            self.command.as_str(),
            other.command.as_str(),
        ) && self.on_change_only == other.on_change_only && self.silence == other.silence
            && text::opt_eq(&self.working_dir, &other.working_dir) && self.env.same(&other.env)
    }
}

impl Clone for TaskCommand {
    fn clone(&self) -> (r: Self)
        ensures
            r@ == self@,
    {
        TaskCommand {
            name: self.name.clone(),
            command: self.command.clone(),
            on_change_only: self.on_change_only,
            silence: self.silence,
            working_dir: self.working_dir.clone(),
            env: self.env.copy(),
        }
    }
}

/// A daemon command that runs continuously.
#[derive(Debug)]
pub struct DaemonCommand {
    /// Display name for this daemon (derived from command if not set).
    pub name: Option<String>,
    /// Shell command to execute.
    pub command: String,
    /// Signal to send when restarting.
    pub signal: Signal,
    /// Disable PTY allocation for this process.
    /// By default, PTY is enabled (no_pty = false).
    pub no_pty: bool,
    /// Which output is kept out of the logs.
    pub silence: Silence,
    /// Working directory, in place of the group's.
    pub working_dir: Option<String>,
    /// How long to wait before the first start, in milliseconds.
    pub delay_ms: Option<u64>,
    /// Environment variables, on top of the group's.
    pub env: StrMap<String>,
}

/// The model of a [`DaemonCommand`].
pub struct DaemonModel {
    pub name: Option<Text>,
    pub command: Text,
    pub signal: Signal,
    pub no_pty: bool,
    pub silence: Silence,
    pub working_dir: Option<Text>,
    pub delay_ms: Option<u64>,
    pub env: Map<Text, Text>,
}

impl View for DaemonCommand {
    type V = DaemonModel;

    open spec fn view(&self) -> DaemonModel {
        DaemonModel {
            name: text::opt_text(self.name),
            command: self.command@,
            signal: self.signal,
            no_pty: self.no_pty,
            silence: self.silence,
            working_dir: text::opt_text(self.working_dir),
            delay_ms: self.delay_ms,
            env: self.env@,
        }
    }
}

/// A daemon command with default settings.
pub open spec fn plain_daemon(name: Option<Text>, command: Text) -> DaemonModel {
    DaemonModel {
        name,
        command,
        signal: Signal::Sigterm,
        no_pty: false,
        silence: Silence::Off,
        working_dir: None,
        delay_ms: None,
        env: Map::empty(),
    }
}

impl DaemonCommand {
    /// Create a new daemon command with explicit name.
    pub fn new(name: &str, command: &str) -> (r: Self)
        ensures
            r@ == plain_daemon(Some(name@), command@),
    {
        DaemonCommand {
            name: Some(name.to_owned()),
            command: command.to_owned(),
            signal: Signal::Sigterm,
            no_pty: false,
            silence: Silence::Off,
            working_dir: None,
            delay_ms: None,
            env: StrMap::new(),
        }
    }

    /// Create a daemon command where name is derived from command.
    pub fn from_command(command: &str) -> (r: Self)
        ensures
            r@ == plain_daemon(None, command@),
    {
        DaemonCommand {
            name: None,
            command: command.to_owned(),
            signal: Signal::Sigterm,
            no_pty: false,
            silence: Silence::Off,
            working_dir: None,
            delay_ms: None,
            env: StrMap::new(),
        }
    }

    /// Get the display name, deriving from command if not explicitly set.
    pub fn name(&self) -> (r: &str)
        ensures
            r@ == display_name(self@.name, self@.command),
    {
        match &self.name {
            Some(n) => n.as_str(),
            None => derive_name(self.command.as_str()),
        }
    }

    /// Whether the name was set, not derived.
    pub fn has_explicit_name(&self) -> (r: bool)
        ensures
            r == self@.name is Some,
    {
        self.name.is_some()
    }

    /// Whether two commands are configured alike.
    pub fn same(&self, other: &Self) -> (r: bool)
        ensures
            r == (self@ == other@),
    {
        text::opt_eq(&self.name, &other.name) && text::str_eq(
            self.command.as_str(),
            other.command.as_str(),
        ) && self.signal == other.signal && self.no_pty == other.no_pty && self.silence
            == other.silence && text::opt_eq(&self.working_dir, &other.working_dir)
            && opt_u64_eq(self.delay_ms, other.delay_ms) && self.env.same(&other.env)
    }
}

/// Equality of two optional numbers.
fn opt_u64_eq(a: Option<u64>, b: Option<u64>) -> (r: bool)
    ensures
        r == (a == b),
{
    match (a, b) {
        (Some(x), Some(y)) => x == y,
        (None, None) => true,
        _ => false,
    }
}

impl Clone for DaemonCommand {
    fn clone(&self) -> (r: Self)
        ensures
            r@ == self@,
    {
        DaemonCommand {
            name: self.name.clone(),
            command: self.command.clone(),
            signal: self.signal,
            no_pty: self.no_pty,
            silence: self.silence,
            working_dir: self.working_dir.clone(),
            delay_ms: self.delay_ms,
            env: self.env.copy(),
        }
    }
}

/// A watch group that pairs file patterns with commands.
#[derive(Debug)]
pub struct Group {
    /// Unique name for this group.
    pub name: String,
    /// Glob patterns to watch.
    pub patterns: Vec<String>,
    /// Glob patterns to ignore.
    pub ignore: Vec<String>,
    /// Groups that must complete before this one runs.
    pub depends_on: Vec<String>,
    /// Working directory for commands (defaults to config file directory).
    pub working_dir: Option<String>,
    /// Environment variables for every command of the group.
    pub env: StrMap<String>,
    /// Task commands (run to completion).
    pub tasks: Vec<TaskCommand>,
    /// Daemon commands (long-running).
    pub daemons: Vec<DaemonCommand>,
}

/// The model of a [`Group`].
pub struct GroupConfig {
    pub name: Text,
    pub patterns: Seq<Text>,
    pub ignore: Seq<Text>,
    pub depends_on: Seq<Text>,
    pub working_dir: Option<Text>,
    pub env: Map<Text, Text>,
    pub tasks: Seq<TaskModel>,
    pub daemons: Seq<DaemonModel>,
}

/// The models of a list of tasks.
pub open spec fn tasks(v: Seq<TaskCommand>) -> Seq<TaskModel> {
    Seq::new(v.len(), |i: int| v[i]@)
}

/// The models of a list of daemons.
pub open spec fn daemons(v: Seq<DaemonCommand>) -> Seq<DaemonModel> {
    Seq::new(v.len(), |i: int| v[i]@)
}

/// The models of a list of groups.
pub open spec fn groups(v: Seq<Group>) -> Seq<GroupConfig> {
    Seq::new(v.len(), |i: int| v[i]@)
}

impl View for Group {
    type V = GroupConfig;

    open spec fn view(&self) -> GroupConfig {
        GroupConfig {
            name: self.name@,
            patterns: text::texts(self.patterns@),
            ignore: text::texts(self.ignore@),
            depends_on: text::texts(self.depends_on@),
            working_dir: text::opt_text(self.working_dir),
            env: self.env@,
            tasks: tasks(self.tasks@),
            daemons: daemons(self.daemons@),
        }
    }
}

impl Default for Group {
    fn default() -> (r: Self)
        ensures
            r@ == (GroupConfig {
                name: Seq::empty(),
                patterns: Seq::empty(),
                ignore: Seq::empty(),
                depends_on: Seq::empty(),
                working_dir: None,
                env: Map::empty(),
                tasks: Seq::empty(),
                daemons: Seq::empty(),
            }),
    {
        let r = Group {
            name: String::new(),
            patterns: Vec::new(),
            ignore: Vec::new(),
            depends_on: Vec::new(),
            working_dir: None,
            env: StrMap::new(),
            tasks: Vec::new(),
            daemons: Vec::new(),
        };
        assert(text::texts(r.patterns@) =~= Seq::<Text>::empty());
        assert(text::texts(r.ignore@) =~= Seq::<Text>::empty());
        assert(text::texts(r.depends_on@) =~= Seq::<Text>::empty());
        assert(tasks(r.tasks@) =~= Seq::<TaskModel>::empty());
        assert(daemons(r.daemons@) =~= Seq::<DaemonModel>::empty());
        r
    }
}

impl Clone for Group {
    fn clone(&self) -> (r: Self)
        ensures
            r@ == self@,
    {
        let mut task_list: Vec<TaskCommand> = Vec::new();
        let mut i: usize = 0;
        while i < self.tasks.len()
            invariant
                0 <= i <= self.tasks.len(),
                task_list.len() == i,
                forall|j: int| 0 <= j < i ==> (#[trigger] task_list@[j])@ == self.tasks@[j]@,
            decreases self.tasks.len() - i,
        {
            task_list.push(self.tasks[i].clone());
            i = i + 1;
        }
        let mut daemon_list: Vec<DaemonCommand> = Vec::new();
        let mut k: usize = 0;
        while k < self.daemons.len()
            invariant
                0 <= k <= self.daemons.len(),
                daemon_list.len() == k,
                forall|j: int| 0 <= j < k ==> (#[trigger] daemon_list@[j])@ == self.daemons@[j]@,
            decreases self.daemons.len() - k,
        {
            daemon_list.push(self.daemons[k].clone());
            k = k + 1;
        }
        assert(tasks(task_list@) =~= tasks(self.tasks@));
        assert(daemons(daemon_list@) =~= daemons(self.daemons@));
        Group {
            name: self.name.clone(),
            patterns: self.patterns.clone(),
            ignore: self.ignore.clone(),
            depends_on: self.depends_on.clone(),
            working_dir: self.working_dir.clone(),
            env: self.env.copy(),
            tasks: task_list,
            daemons: daemon_list,
        }
    }
}

impl Group {
    /// Whether two groups are configured alike.
    pub fn same(&self, other: &Self) -> (r: bool)
        ensures
            r == (self@ == other@),
    {
        if self.tasks.len() != other.tasks.len() || self.daemons.len() != other.daemons.len() {
            assert(self@.tasks.len() != other@.tasks.len() || self@.daemons.len()
                != other@.daemons.len());
            return false;
        }
        let mut i: usize = 0;
        while i < self.tasks.len()
            invariant
                0 <= i <= self.tasks.len(),
                self.tasks.len() == other.tasks.len(),
                forall|j: int| 0 <= j < i ==> (#[trigger] self.tasks@[j])@ == other.tasks@[j]@,
            decreases self.tasks.len() - i,
        {
            if !self.tasks[i].same(&other.tasks[i]) {
                assert(self@.tasks[i as int] != other@.tasks[i as int]);
                return false;
            }
            i = i + 1;
        }
        let mut k: usize = 0;
        while k < self.daemons.len()
            invariant
                0 <= k <= self.daemons.len(),
                self.daemons.len() == other.daemons.len(),
                forall|j: int| 0 <= j < k ==> (#[trigger] self.daemons@[j])@ == other.daemons@[j]@,
            decreases self.daemons.len() - k,
        {
            if !self.daemons[k].same(&other.daemons[k]) {
                assert(self@.daemons[k as int] != other@.daemons[k as int]);
                return false;
            }
            k = k + 1;
        }
        assert(self@.tasks =~= other@.tasks);
        assert(self@.daemons =~= other@.daemons);
        text::str_eq(self.name.as_str(), other.name.as_str()) && text::list_eq(
            &self.patterns,
            &other.patterns,
        ) && text::list_eq(&self.ignore, &other.ignore) && text::list_eq(
            &self.depends_on,
            &other.depends_on,
        ) && text::opt_eq(&self.working_dir, &other.working_dir) && self.env.same(&other.env)
    }
}

/// Root configuration structure.
#[derive(Debug)]
pub struct Config {
    /// Global settings.
    pub settings: Settings,
    /// User-defined variables.
    pub variables: StrMap<String>,
    /// Watch groups.
    pub groups: Vec<Group>,
}

impl Default for Config {
    fn default() -> (r: Self)
        ensures
            r.settings.shell is None,
            r.settings.debounce_ms == 100,
            r.settings.log_format == LogFormat::Pretty,
            r.variables@ == Map::<Text, Text>::empty(),
            r.groups@.len() == 0,
    {
        Config {
            settings: Default::default(),
            variables: StrMap::new(),
            groups: Vec::new(),
        }
    }
}

} // verus!
