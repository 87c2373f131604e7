//! Command execution.

use crate::strmap::StrMap;
use crate::text::{self, Text};
use vstd::prelude::*;

verus! {

broadcast use crate::text::lemma_texts_push;

/// A line of output from a running command.
#[derive(Debug)]
pub enum OutputLine {
    /// Standard output line.
    Stdout(String),
    /// Standard error line.
    Stderr(String),
}

/// The lines of `events` that came from standard output, or from standard error.
pub open spec fn lines_of(events: Seq<OutputLine>, stderr: bool) -> Seq<Text>
    decreases events.len(),
{
    if events.len() == 0 {
        Seq::empty()
    } else {
        let before = lines_of(events.drop_last(), stderr);
        match events.last() {
            OutputLine::Stdout(s) => if stderr {
                before
            } else {
                before.push(s@)
            },
            OutputLine::Stderr(s) => if stderr {
                before.push(s@)
            } else {
                before
            },
        }
    }
}

/// Output from a command execution.
#[derive(Debug)]
pub struct CommandOutput {
    /// Standard output lines.
    pub stdout: Vec<String>,
    /// Standard error lines.
    pub stderr: Vec<String>,
    /// Exit code (if process exited normally).
    pub exit_code: Option<i32>,
}

impl CommandOutput {
    /// The output of a command that has printed nothing yet.
    pub fn new() -> (r: Self)
        ensures
            text::texts(r.stdout@) == lines_of(Seq::empty(), false),
            text::texts(r.stderr@) == lines_of(Seq::empty(), true),
            r.exit_code is None,
    {
        let r = CommandOutput { stdout: Vec::new(), stderr: Vec::new(), exit_code: None };
        assert(text::texts(r.stdout@) =~= Seq::<Text>::empty());
        assert(text::texts(r.stderr@) =~= Seq::<Text>::empty());
        r
    }

    /// Takes in one more line; the lines of each stream keep their order.
    pub fn collect(&mut self, line: OutputLine)
        ensures
            final(self).exit_code == old(self).exit_code,
            forall|events: Seq<OutputLine>|
                text::texts(old(self).stdout@) == #[trigger] lines_of(events, false) ==> text::texts(
                    final(self).stdout@,
                ) == lines_of(events.push(line), false),
            forall|events: Seq<OutputLine>|
                text::texts(old(self).stderr@) == #[trigger] lines_of(events, true) ==> text::texts(
                    final(self).stderr@,
                ) == lines_of(events.push(line), true),
    {
        assert forall|events: Seq<OutputLine>| #[trigger] events.push(line).drop_last() == events by {
            assert(events.push(line).drop_last() =~= events);
        }
        match line {
            OutputLine::Stdout(s) => self.stdout.push(s),
            OutputLine::Stderr(s) => self.stderr.push(s),
        }
    }

    /// The command has exited. The output counts whatever the exit code.
    pub fn finish(&mut self, exit_code: Option<i32>)
        ensures
            final(self).exit_code == exit_code,
            final(self).stdout == old(self).stdout,
            final(self).stderr == old(self).stderr,
    {
        self.exit_code = exit_code;
    }

    /// Whether the command succeeded: it exited with code 0, or left no code.
    pub fn is_success(&self) -> (r: bool)
        ensures
            r == exit_ok(self.exit_code),
    {
        match self.exit_code {
            Some(c) => c == 0,
            None => true,
        }
    }
}

/// Whether an exit code tells of success.
pub open spec fn exit_ok(code: Option<i32>) -> bool {
    code is None || code == Some(0i32)
}

/// The output of a command after all that it printed, and its exit code.
pub fn collect_output(events: Vec<OutputLine>, exit_code: Option<i32>) -> (r: CommandOutput)
    ensures
        text::texts(r.stdout@) == lines_of(events@, false),
        text::texts(r.stderr@) == lines_of(events@, true),
        r.exit_code == exit_code,
{
    let mut out = CommandOutput::new();
    let ghost all = events@;
    let n: usize = events.len();
    let mut rest = events;
    let mut i: usize = 0;
    assert(all.take(0) =~= Seq::<OutputLine>::empty());
    assert(all.skip(0) =~= all);
    while rest.len() > 0
        invariant
            i + rest.len() == n,
            n == all.len(),
            rest@ == all.skip(i as int),
            text::texts(out.stdout@) == lines_of(all.take(i as int), false),
            text::texts(out.stderr@) == lines_of(all.take(i as int), true),
        decreases rest.len(),
    {
        let line = rest.remove(0);
        assert(all.take(i + 1) =~= all.take(i as int).push(line));
        out.collect(line);
        i = i + 1;
        assert(rest@ =~= all.skip(i as int));
    }
    assert(all.take(all.len() as int) =~= all);
    out.finish(exit_code);
    out
}

/// Executes shell commands.
#[derive(Debug)]
pub struct Executor {
    pub shell: String,
    pub working_dir: Option<String>,
    pub env: StrMap<String>,
}

/// The model of an [`Executor`].
pub struct ExecutorModel {
    pub shell: Text,
    pub working_dir: Option<Text>,
    pub env: Map<Text, Text>,
}

impl View for Executor {
    type V = ExecutorModel;

    open spec fn view(&self) -> ExecutorModel {
        ExecutorModel {
            shell: self.shell@,
            working_dir: text::opt_text(self.working_dir),
            env: self.env@,
        }
    }
}

impl ExecutorModel {
    /// The executor of a shell: the configured one, else the environment's, else
    /// `/bin/sh`.
    pub open spec fn of_shell(shell: Option<Text>, env_shell: Option<Text>) -> ExecutorModel {
        ExecutorModel {
            shell: match (shell, env_shell) {
                (Some(s), _) => s,
                (None, Some(e)) => e,
                (None, None) => "/bin/sh"@,
            },
            working_dir: None,
            env: Map::empty(),
        }
    }

    /// The executor with a command's own working directory and variables.
    pub open spec fn refined(self, working_dir: Option<Text>, env: Map<Text, Text>) -> ExecutorModel {
        ExecutorModel {
            shell: self.shell,
            working_dir: match working_dir {
                Some(d) => Some(d),
                None => self.working_dir,
            },
            env: self.env.union_prefer_right(env),
        }
    }
}

/// How to start a command: the program, its arguments, where and with what
/// variables on top of the inherited ones, and whether in a pseudo-terminal.
#[derive(Debug)]
pub struct SpawnPlan {
    pub program: String,
    pub args: Vec<String>,
    pub working_dir: Option<String>,
    pub env: StrMap<String>,
    pub pty: bool,
}

impl Executor {
    /// Create a new executor with the given shell. `env_shell` is the value of
    /// the `SHELL` environment variable, where it is set.
    pub fn new(shell: Option<String>, env_shell: Option<String>) -> (r: Self)
        ensures
            r@ == ExecutorModel::of_shell(text::opt_text(shell), text::opt_text(env_shell)),
    {
        let shell = match shell {
            Some(s) => s,
            None => match env_shell {
                Some(e) => e,
                None => "/bin/sh".to_owned(),
            },
        };
        Executor { shell, working_dir: None, env: StrMap::new() }
    }

    /// Set the working directory for commands.
    pub fn with_working_dir(self, dir: String) -> (r: Self)
        ensures
            r@ == (ExecutorModel { working_dir: Some(dir@), ..self@ }),
    {
        let mut e = self;
        e.working_dir = Some(dir);
        e
    }

    /// Set environment variables for commands.
    /// These are added to the inherited process environment.
    pub fn with_env(self, env: StrMap<String>) -> (r: Self)
        ensures
            r@ == (ExecutorModel { env: env@, ..self@ }),
    {
        let mut e = self;
        e.env = env;
        e
    }

    /// Extend the environment variables for commands.
    /// New vars override existing ones with the same key.
    pub fn extend_env(self, env: &StrMap<String>) -> (r: Self)
        ensures
            r@ == (ExecutorModel { env: self@.env.union_prefer_right(env@), ..self@ }),
    {
        let mut e = self;
        e.env.extend(env);
        e
    }

    /// A copy.
    pub fn copy(&self) -> (r: Self)
        ensures
            r@ == self@,
    {
        Executor {
            shell: self.shell.clone(),
            working_dir: self.working_dir.clone(),
            env: self.env.copy(),
        }
    }

    /// A copy with a command's own working directory, if it has one, and its own
    /// variables.
    pub fn refine(&self, working_dir: &Option<String>, env: &StrMap<String>) -> (r: Self)
        ensures
            r@ == self@.refined(text::opt_text(*working_dir), env@),
    {
        let mut e = self.copy();
        if let Some(dir) = working_dir {
            e = e.with_working_dir(dir.clone());
        }
        if !env.is_empty() {
            e = e.extend_env(env);
        } else {
            assert(e@.env.union_prefer_right(env@) =~= e@.env);
        }
        e
    }

    /// How to spawn a command: `shell -c command`.
    ///
    /// If `use_pty` is true, the command runs in a pseudo-terminal, which is
    /// required for some interactive programs.
    pub fn spawn(&self, command: &str, use_pty: bool) -> (r: SpawnPlan)
        ensures
            r.program@ == self@.shell,
            text::texts(r.args@) == seq!["-c"@, command@],
            text::opt_text(r.working_dir) == self@.working_dir,
            r.env@ == self@.env,
            r.pty == use_pty,
    {
        let mut args: Vec<String> = Vec::new();
        args.push("-c".to_owned());
        args.push(command.to_owned());
        assert(text::texts(args@) =~= seq!["-c"@, command@]);
        SpawnPlan {
            program: self.shell.clone(),
            args,
            working_dir: self.working_dir.clone(),
            env: self.env.copy(),
            pty: use_pty,
        }
    }
}

} // verus!
