//! Service process management.

use crate::config::schema::{self, DaemonCommand, Signal};
use crate::process::error::ProcessError;
use crate::process::executor::{Executor, ExecutorModel, SpawnPlan};
use crate::text::{self, Text};
use vstd::prelude::*;

verus! {

/// Minimum restart delay, in milliseconds.
pub const MIN_RESTART_DELAY: u64 = 500;

/// Maximum restart delay, in milliseconds.
pub const MAX_RESTART_DELAY: u64 = 8000;

/// Multiplier for exponential backoff.
pub const BACKOFF_MULTIPLIER: u64 = 2;

/// Information about a service that has exited.
#[derive(Debug)]
pub struct ServiceExitInfo {
    /// How long the service was running before it exited, in nanoseconds.
    pub duration: u128,
    /// The exit code, if available.
    pub exit_code: Option<i32>,
}

/// State of a service process.
#[derive(Debug, Clone, Copy, PartialEq, Eq, Structural)]
pub enum ServiceState {
    /// Not yet started.
    Stopped,
    /// Currently running.
    Running,
    /// Waiting to restart after crash.
    Backoff,
    /// Shutting down.
    Stopping,
}

/// A child process: its ID, where it is known, and whether it runs in a
/// pseudo-terminal.
#[derive(Debug, Clone, Copy)]
pub struct Child {
    pub pid: Option<u32>,
    pub pty: bool,
}

/// What a look at a child process shows.
#[derive(Debug)]
pub enum ChildStatus {
    /// It runs.
    Running,
    /// It has exited.
    Exited { success: bool, code: Option<i32> },
    /// The look failed.
    Unknown(String),
}

/// A child in a pseudo-terminal tells success from failure only: its exit code
/// is given as 0 or 1.
pub fn pty_exit(success: bool) -> (r: ChildStatus)
    ensures
        r == (ChildStatus::Exited {
            success,
            code: if success {
                Some(0i32)
            } else {
                Some(1i32)
            },
        }),
{
    if success {
        ChildStatus::Exited { success: true, code: Some(0) }
    } else {
        ChildStatus::Exited { success: false, code: Some(1) }
    }
}

/// Manages a long-running service process.
#[derive(Debug)]
pub struct Service {
    pub config: DaemonCommand,
    pub executor: Executor,
    pub child: Option<Child>,
    pub state: ServiceState,
    /// In milliseconds.
    pub restart_delay: u64,
    /// On a clock that counts nanoseconds.
    pub last_start: Option<u128>,
}

/// The model of a [`Service`].
pub struct ServiceModel {
    pub config: schema::DaemonModel,
    pub executor: ExecutorModel,
    pub child: Option<Child>,
    pub state: ServiceState,
    pub restart_delay: u64,
    pub last_start: Option<u128>,
}

impl View for Service {
    type V = ServiceModel;

    open spec fn view(&self) -> ServiceModel {
        ServiceModel {
            config: self.config@,
            executor: self.executor@,
            child: self.child,
            state: self.state,
            restart_delay: self.restart_delay,
            last_start: self.last_start,
        }
    }
}

impl ServiceModel {
    /// A service that has not been started.
    pub open spec fn fresh(config: schema::DaemonModel, executor: ExecutorModel) -> ServiceModel {
        ServiceModel {
            config,
            executor,
            child: None,
            state: ServiceState::Stopped,
            restart_delay: MIN_RESTART_DELAY,
            last_start: None,
        }
    }

    /// The service's display name.
    pub open spec fn name(self) -> Text {
        schema::display_name(self.config.name, self.config.command)
    }

    /// The ID of the service's process.
    pub open spec fn pid(self) -> Option<u32> {
        match self.child {
            Some(c) => c.pid,
            None => None,
        }
    }

    /// The service once a child has been started for it.
    pub open spec fn started(self, child: Child, now: u128) -> ServiceModel {
        ServiceModel {
            child: Some(child),
            state: ServiceState::Running,
            last_start: Some(now),
            ..self
        }
    }

    /// How long the child has run at a time.
    pub open spec fn ran(self, now: u128) -> u128 {
        match self.last_start {
            Some(t) => if now >= t {
                (now - t) as u128
            } else {
                0
            },
            None => 0,
        }
    }

    /// The delay before the next restart, after an exit: back to the minimum
    /// after a long run or a clean exit, doubled up to the maximum after a quick
    /// failure.
    pub open spec fn delay_after(self, now: u128, success: bool) -> u64 {
        if self.ran(now) > MAX_RESTART_DELAY * 1_000_000 || success {
            MIN_RESTART_DELAY
        } else if self.restart_delay * BACKOFF_MULTIPLIER < MAX_RESTART_DELAY {
            (self.restart_delay * BACKOFF_MULTIPLIER) as u64
        } else {
            MAX_RESTART_DELAY
        }
    }

    /// The service once its child was seen to have exited.
    pub open spec fn exited(self, now: u128, success: bool) -> ServiceModel {
        ServiceModel {
            child: None,
            state: ServiceState::Stopped,
            restart_delay: self.delay_after(now, success),
            ..self
        }
    }

    /// The restart delay stays within its limits.
    pub open spec fn delay_ok(self) -> bool {
        MIN_RESTART_DELAY <= self.restart_delay <= MAX_RESTART_DELAY
    }
}

impl Service {
    /// Create a new service manager.
    pub fn new(config: DaemonCommand, executor: Executor) -> (r: Self)
        ensures
            r@ == ServiceModel::fresh(config@, executor@),
            r@.delay_ok(),
    {
        Service {
            config,
            executor,
            child: None,
            state: ServiceState::Stopped,
            restart_delay: MIN_RESTART_DELAY,
            last_start: None,
        }
    }

    /// Get the service name.
    pub fn name(&self) -> (r: &str)
        ensures
            r@ == self@.name(),
    {
        self.config.name()
    }

    /// Get the configured command template, before variable expansion.
    pub fn command_template(&self) -> (r: &str)
        ensures
            r@ == self@.config.command,
    {
        self.config.command.as_str()
    }

    /// Get the current state.
    pub fn state(&self) -> (r: ServiceState)
        ensures
            r == self@.state,
    {
        self.state
    }

    /// Get the process ID if running.
    pub fn pid(&self) -> (r: Option<u32>)
        ensures
            r == self@.pid(),
    {
        match self.child {
            Some(c) => c.pid,
            None => None,
        }
    }

    /// How to start the service with the given fully expanded command; nothing is
    /// to be done where it runs already.
    pub fn start(&self, command: &str) -> (r: Option<SpawnPlan>)
        ensures
            match r {
                Some(plan) => self@.state != ServiceState::Running && plan.program@
                    == self@.executor.shell && text::texts(plan.args@) == seq!["-c"@, command@]
                    && text::opt_text(plan.working_dir) == self@.executor.working_dir
                    && plan.env@ == self@.executor.env && plan.pty == !self@.config.no_pty,
                None => self@.state == ServiceState::Running,
            },
    {
        match self.state {
            ServiceState::Running => None,
            _ => Some(self.executor.spawn(command, !self.config.no_pty)),
        }
    }

    /// A child has been started for the service.
    pub fn started(&mut self, child: Child, now: u128)
        ensures
            final(self)@ == old(self)@.started(child, now),
    {
        self.child = Some(child);
        self.state = ServiceState::Running;
        self.last_start = Some(now);
    }

    /// The restart signal to send, and the process that leads the group to send
    /// it to, where there is one.
    pub fn signal_restart(&self) -> (r: Option<(u32, Signal)>)
        ensures
            r == match self@.pid() {
                Some(pid) => Some((pid, self@.config.signal)),
                None => None,
            },
    {
        match self.pid() {
            Some(pid) => Some((pid, self.config.signal)),
            None => None,
        }
    }

    /// The service is being stopped gracefully; hands out the process whose group
    /// is to get SIGTERM, where there is one.
    pub fn stop(&mut self) -> (r: Option<u32>)
        ensures
            final(self)@ == (ServiceModel { state: ServiceState::Stopping, ..old(self)@ }),
            r == old(self)@.pid(),
    {
        self.state = ServiceState::Stopping;
        self.pid()
    }

    /// The service's process has been killed.
    pub fn killed(&mut self)
        ensures
            final(self)@ == (ServiceModel {
                child: None,
                state: ServiceState::Stopped,
                ..old(self)@
            }),
    {
        self.child = None;
        self.state = ServiceState::Stopped;
    }

    /// Check if the service is still running, from a look at its child.
    pub fn is_running(&self, seen: &ChildStatus) -> (r: bool)
        ensures
            r == (self@.child is Some && *seen == ChildStatus::Running),
    {
        match (&self.child, seen) {
            (Some(_), ChildStatus::Running) => true,
            _ => false,
        }
    }

    /// Check if the service has exited, from a look at its child, and handle
    /// restart logic.
    ///
    /// Returns `Some(ServiceExitInfo)` if the service has exited, `None` if it
    /// still runs or has no child.
    pub fn check(&mut self, seen: ChildStatus, now: u128) -> (r: Result<
        Option<ServiceExitInfo>,
        ProcessError,
    >)
        requires
            old(self)@.delay_ok(),
        ensures
            final(self)@.delay_ok(),
            match seen {
                ChildStatus::Exited { success, code } if old(self)@.child is Some => final(self)@
                    == old(self)@.exited(now, success) && r == Ok::<
                    Option<ServiceExitInfo>,
                    ProcessError,
                >(Some(ServiceExitInfo { duration: old(self)@.ran(now), exit_code: code })),
                ChildStatus::Unknown(e) if old(self)@.child is Some => final(self)@ == old(self)@
                    && r == Err::<Option<ServiceExitInfo>, ProcessError>(ProcessError::Spawn(e)),
                _ => final(self)@ == old(self)@ && r == Ok::<Option<ServiceExitInfo>, ProcessError>(
                    None,
                ),
            },
    {
        if self.child.is_none() {
            return Ok(None);
        }
        match seen {
            ChildStatus::Exited { success, code } => {
                let duration: u128 = match self.last_start {
                    Some(t) => if now >= t {
                        now - t
                    } else {
                        0
                    },
                    None => 0,
                };
                let ran_long = duration > MAX_RESTART_DELAY as u128 * 1_000_000;
                if ran_long || success {
                    self.restart_delay = MIN_RESTART_DELAY;
                } else {
                    let doubled: u64 = self.restart_delay * BACKOFF_MULTIPLIER;
                    self.restart_delay = if doubled < MAX_RESTART_DELAY {
                        doubled
                    } else {
                        MAX_RESTART_DELAY
                    };
                }
                self.child = None;
                self.state = ServiceState::Stopped;
                Ok(Some(ServiceExitInfo { duration, exit_code: code }))
            },
            ChildStatus::Running => Ok(None),
            ChildStatus::Unknown(e) => Err(ProcessError::Spawn(e)),
        }
    }

    /// Get the current restart delay, in milliseconds.
    pub fn restart_delay(&self) -> (r: u64)
        ensures
            r == self@.restart_delay,
    {
        self.restart_delay
    }

    /// Get the startup delay configured for this service, in milliseconds.
    /// Returns None if no delay is configured.
    pub fn startup_delay(&self) -> (r: Option<u64>)
        ensures
            r == self@.config.delay_ms,
    {
        self.config.delay_ms
    }

    /// Check if this service uses a PTY.
    pub fn is_pty(&self) -> (r: bool)
        ensures
            r == match self@.child {
                Some(c) => c.pty,
                None => false,
            },
    {
        match self.child {
            Some(c) => c.pty,
            None => false,
        }
    }
}

/// The service after `n` quick failures in a row, each after a restart.
pub open spec fn after_failures(s: ServiceModel, n: nat) -> ServiceModel
    decreases n,
{
    if n == 0 {
        s
    } else {
        ServiceModel { last_start: None, ..after_failures(s, (n - 1) as nat) }.exited(0, false)
    }
}

/// Quick failures make a fresh service wait longer each time, twice as long up
/// to the maximum, where the delay stays.
pub proof fn law_backoff_doubles_up_to_the_maximum(s: ServiceModel, n: nat)
    requires
        s.restart_delay == MIN_RESTART_DELAY,
    ensures
        after_failures(s, n).restart_delay == if n == 0 {
            500u64
        } else if n == 1 {
            1000u64
        } else if n == 2 {
            2000u64
        } else if n == 3 {
            4000u64
        } else {
            8000u64
        },
    decreases n,
{
    if n > 0 {
        law_backoff_doubles_up_to_the_maximum(s, (n - 1) as nat);
    }
}

/// A clean exit, or any exit after a long run, brings the delay back to the
/// minimum.
pub proof fn law_backoff_resets(s: ServiceModel, now: u128, success: bool)
    requires
        success || s.ran(now) > MAX_RESTART_DELAY * 1_000_000,
    ensures
        s.exited(now, success).restart_delay == MIN_RESTART_DELAY,
{
}

} // verus!
