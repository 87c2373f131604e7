//! What it takes to launch a daemon detached from the terminal.

use crate::process::error::ProcessError;
use crate::text::{self, cat2, cat4, Text};
use vstd::prelude::*;

verus! {

broadcast use crate::text::lemma_texts_push;

/// A daemon process to launch: the program, its arguments, and the file that its
/// output goes to.
#[derive(Debug)]
pub struct DaemonLauncher {
    pub exe: String,
    pub args: Vec<String>,
    pub output_log: String,
}

/// The model of a launcher.
pub struct LauncherModel {
    pub exe: Text,
    pub args: Seq<Text>,
    pub output_log: Text,
}

impl View for DaemonLauncher {
    type V = LauncherModel;

    open spec fn view(&self) -> LauncherModel {
        LauncherModel {
            exe: self.exe@,
            args: text::texts(self.args@),
            output_log: self.output_log@,
        }
    }
}

impl DaemonLauncher {
    /// Create a launcher for the given executable, logging output to
    /// `output_log`.
    pub fn new(exe: &str, output_log: &str) -> (r: Self)
        ensures
            r@ == (LauncherModel { exe: exe@, args: Seq::empty(), output_log: output_log@ }),
    {
        let r = DaemonLauncher {
            exe: exe.to_owned(),
            args: Vec::new(),
            output_log: output_log.to_owned(),
        };
        assert(text::texts(r.args@) =~= Seq::empty());
        r
    }

    /// Append a single argument.
    pub fn arg(&mut self, arg: &str)
        ensures
            final(self)@ == (LauncherModel { args: old(self)@.args.push(arg@), ..old(self)@ }),
    {
        self.args.push(arg.to_owned());
    }

    /// Append multiple arguments.
    pub fn args(&mut self, args: &Vec<String>)
        ensures
            final(self)@ == (LauncherModel {
                args: old(self)@.args + text::texts(args@),
                ..old(self)@
            }),
    {
        let ghost all = text::texts(args@);
        let mut i: usize = 0;
        assert(self@.args + all.take(0) =~= self@.args);
        while i < args.len()
            invariant
                0 <= i <= args.len(),
                all == text::texts(args@),
                self@ == (LauncherModel {
                    args: old(self)@.args + all.take(i as int),
                    ..old(self)@
                }),
            decreases args.len() - i,
        {
            self.args.push(args[i].clone());
            assert(old(self)@.args + all.take(i + 1) =~= (old(self)@.args + all.take(
                i as int,
            )).push(all[i as int]));
            i = i + 1;
        }
        assert(all.take(all.len() as int) =~= all);
    }

    /// The error of a log file that cannot be opened.
    pub fn open_error(&self, error: &str) -> (r: ProcessError)
        ensures
            r matches ProcessError::LaunchDaemon(m) && m@ == "opening output log "@
                + self@.output_log + ": "@ + error@,
    {
        ProcessError::LaunchDaemon(
            cat4("opening output log ", self.output_log.as_str(), ": ", error),
        )
    }

    /// The error of a log file that cannot be shared between the two streams.
    pub fn clone_error(&self, error: &str) -> (r: ProcessError)
        ensures
            r matches ProcessError::LaunchDaemon(m) && m@ == "cloning log fd: "@ + error@,
    {
        ProcessError::LaunchDaemon(cat2("cloning log fd: ", error))
    }

    /// The error of a program that cannot be started.
    pub fn spawn_error(&self, error: &str) -> (r: ProcessError)
        ensures
            r matches ProcessError::LaunchDaemon(m) && m@ == "spawning "@ + self@.exe + ": "@
                + error@,
    {
        ProcessError::LaunchDaemon(cat4("spawning ", self.exe.as_str(), ": ", error))
    }
}

} // verus!
