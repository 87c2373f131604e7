//! Running a group in sequence: its tasks one after the other, then its services.
//!
//! The engine says what is to be done next, and is told what came of it.

use crate::config::schema::TaskModel;
use crate::daemon::api::{LogLine, LogModel, LogSource, OutputKind};
use crate::daemon::engine::{self, Engine, ServiceStep};
use crate::daemon::engine_model::{self, EngineModel};
use crate::daemon::error::DaemonError;
use crate::daemon::service_round;
use crate::daemon::state::GroupStatus;
use crate::daemon::tasks;
use crate::daemon::trigger::{ExpansionModel, Expansions};
use crate::process;
use crate::process::error::ProcessError;
use crate::process::executor::{self, Executor, OutputLine};
use crate::process::service::Child;
use crate::text::Text;
use vstd::prelude::*;

verus! {

/// How far the run of a group has come.
#[derive(Debug, Clone, Copy, PartialEq, Eq, Structural)]
pub enum RunPoint {
    /// The tasks before a position are behind it.
    Task(usize),
    /// The task at a position is being executed.
    Executing(usize),
    /// The tasks are behind it, and so are the services before a position.
    Service(usize),
    /// The service at a position is being started or signalled.
    Acting(usize),
    /// It is over.
    Over,
}

/// The run of a group.
#[derive(Debug)]
pub struct GroupRun {
    /// The group.
    pub group: String,
    /// The position of the group.
    pub position: usize,
    /// Whether a change of files set it off.
    pub change: bool,
    /// How far it has come.
    pub point: RunPoint,
}

/// The model of the run of a group.
pub struct GroupRunModel {
    pub group: Text,
    pub position: int,
    pub change: bool,
    pub point: RunPoint,
}

impl View for GroupRun {
    type V = GroupRunModel;

    open spec fn view(&self) -> GroupRunModel {
        GroupRunModel {
            group: self.group@,
            position: self.position as int,
            change: self.change,
            point: self.point,
        }
    }
}

/// What the run of a group comes to next.
#[derive(Debug)]
pub enum RunStep {
    /// Execute a command.
    Execute { command: String, executor: Executor },
    /// Start or signal a service.
    Service(ServiceStep),
    /// Nothing more.
    Over,
}

impl GroupRunModel {
    /// Whether this is a run of a group of an engine.
    pub open spec fn fits(self, m: EngineModel) -> bool {
        &&& 0 <= self.position < m.managed.len()
        &&& self.position < m.groups.len()
        &&& m.groups[self.position].0 == self.group
        &&& match self.point {
            RunPoint::Task(k) => k <= m.managed[self.position].config.tasks.len(),
            RunPoint::Executing(k) => k < m.managed[self.position].config.tasks.len(),
            RunPoint::Service(k) => k <= m.managed[self.position].services.len(),
            RunPoint::Acting(k) => k < m.managed[self.position].services.len(),
            RunPoint::Over => true,
        }
    }

    /// The run at another point.
    pub open spec fn at(self, point: RunPoint) -> GroupRunModel {
        GroupRunModel { point, ..self }
    }
}

/// Whether a task is left out: it runs on changes only, and there was none.
pub open spec fn left_out(t: TaskModel, change: bool) -> bool {
    t.on_change_only && !change
}

/// The first task from a position on that is not left out; the number of tasks if
/// there is none.
pub open spec fn next_task(tasks: Seq<TaskModel>, from: int, change: bool) -> int
    decreases tasks.len() - from,
{
    if from < 0 || from >= tasks.len() || !left_out(tasks[from], change) {
        from
    } else {
        next_task(tasks, from + 1, change)
    }
}

/// A run leaves out no task that is to run, and comes to one that is or to the end.
pub proof fn law_a_run_leaves_out_no_task(tasks: Seq<TaskModel>, from: int, change: bool)
    requires
        0 <= from <= tasks.len(),
    ensures
        from <= next_task(tasks, from, change) <= tasks.len(),
        forall|j: int|
            from <= j < next_task(tasks, from, change) ==> left_out(#[trigger] tasks[j], change),
        next_task(tasks, from, change) < tasks.len() ==> !left_out(
            tasks[next_task(tasks, from, change)],
            change,
        ),
    decreases tasks.len() - from,
{
    if from < tasks.len() && left_out(tasks[from], change) {
        law_a_run_leaves_out_no_task(tasks, from + 1, change);
    }
}

/// What a run comes to at its services: one is started, or signalled after a
/// change of files; behind the last, the run is over and the group is ready.
pub open spec fn at_services(
    m: EngineModel,
    run: GroupRunModel,
    k: usize,
    exp: ExpansionModel,
    after: EngineModel,
    run_after: GroupRunModel,
    r: Result<RunStep, DaemonError>,
) -> bool {
    if k < m.managed[run.position].services.len() {
        &&& after == m
        &&& run_after == run.at(RunPoint::Acting(k))
        &&& r matches Ok(RunStep::Service(step)) && if run.change {
            engine::signals(step, m.managed[run.position].services[k as int])
        } else {
            engine::starts(step, m.managed[run.position].services[k as int])
        }
    } else {
        &&& after == m.run_done(run.group, run.change, exp)
        &&& run_after == run.at(RunPoint::Over)
        &&& r matches Ok(RunStep::Over)
    }
}

/// What a run comes to at its tasks: the next one that is not left out is
/// executed, if its command expands; behind the last, the services are announced.
pub open spec fn at_tasks(
    m: EngineModel,
    run: GroupRunModel,
    k: usize,
    exp: ExpansionModel,
    after: EngineModel,
    run_after: GroupRunModel,
    r: Result<RunStep, DaemonError>,
) -> bool {
    let all = m.managed[run.position].config.tasks;
    let t = next_task(all, k as int, run.change);
    if t < all.len() {
        match exp.of(all[t].command) {
            Ok(text) => {
                &&& after == m.run_task(run.group, t, engine_model::task_name(all[t]), text)
                &&& run_after == run.at(RunPoint::Executing(t as usize))
                &&& r matches Ok(RunStep::Execute { command, executor }) && command@ == text
                    && executor@ == m.managed[run.position].executor
            },
            Err(error) => {
                &&& after == m
                &&& run_after == run.at(RunPoint::Over)
                &&& r matches Err(DaemonError::VarExpansion(e)) && e@ == error
            },
        }
    } else {
        at_services(m.announced(run.group, !run.change), run, 0, exp, after, run_after, r)
    }
}

/// The group of a run is found where the run says.
proof fn lemma_found(m: EngineModel, run: GroupRunModel)
    requires
        m.wf(),
        run.fits(m),
    ensures
        engine_model::find(m.groups, run.group) == Some(run.position),
{
    engine::lemma_find(m.groups, run.group, run.position);
}

impl Engine {
    /// Begins to run a group.
    pub fn run_group(&mut self, group_name: &str, change: bool) -> (r: Result<
        GroupRun,
        DaemonError,
    >)
        requires
            old(self)@.wf(),
        ensures
            match engine_model::find(old(self)@.groups, group_name@) {
                Some(i) => final(self)@ == old(self)@.with_group_status(
                    group_name@,
                    GroupStatus::Running,
                ).updated() && (r matches Ok(run) && run@ == (GroupRunModel {
                    group: group_name@,
                    position: i,
                    change,
                    point: RunPoint::Task(0),
                }) && run@.fits(final(self)@)),
                None => final(self)@ == old(self)@ && (r matches Err(DaemonError::GroupNotFound(g))
                    && g@ == group_name@),
            },
            final(self)@.wf(),
            final(self)@.resolver == old(self)@.resolver,
            final(self)@.order == old(self)@.order,
    {
        match self.enter_group(group_name) {
            Ok(position) => Ok(
                GroupRun {
                    group: group_name.to_owned(),
                    position,
                    change,
                    point: RunPoint::Task(0),
                },
            ),
            Err(e) => Err(e),
        }
    }

    /// What the run of a group comes to next.
    pub fn run_next(&mut self, run: &mut GroupRun, exp: &Expansions) -> (r: Result<
        RunStep,
        DaemonError,
    >)
        requires
            old(self)@.wf(),
            old(run)@.fits(old(self)@),
            old(run)@.point is Task || old(run)@.point is Service,
            old(run)@.change ==> old(self)@.acyclic(),
        ensures
            match old(run)@.point {
                RunPoint::Task(k) => at_tasks(
                    old(self)@,
                    old(run)@,
                    k,
                    exp@,
                    final(self)@,
                    final(run)@,
                    r,
                ),
                RunPoint::Service(k) => at_services(
                    old(self)@,
                    old(run)@,
                    k,
                    exp@,
                    final(self)@,
                    final(run)@,
                    r,
                ),
                _ => false,
            },
            final(self)@.wf(),
            !(final(run)@.point is Over) ==> final(run)@.fits(final(self)@),
            final(self)@.resolver == old(self)@.resolver,
            final(self)@.order == old(self)@.order,
    {
        let ghost m0 = self@;
        let ghost run0 = run@;
        let i: usize = run.position;
        proof {
            lemma_found(m0, run0);
        }
        let k: usize = match run.point {
            RunPoint::Task(k) => {
                let n: usize = self.task_count(i);
                let mut t: usize = k;
                while t < n && self.task_left_out(i, t, run.change)
                    invariant
                        k <= t <= n,
                        i == run0.position,
                        i < m0.managed.len(),
                        n == m0.managed[i as int].config.tasks.len(),
                        self@ == m0,
                        run@ == run0,
                        next_task(m0.managed[i as int].config.tasks, k as int, run0.change)
                            == next_task(m0.managed[i as int].config.tasks, t as int, run0.change),
                    decreases n - t,
                {
                    t = t + 1;
                }
                if t < n {
                    return match self.run_task(i, t, run.change, exp) {
                        Ok(Some((command, executor))) => {
                            run.point = RunPoint::Executing(t);
                            Ok(RunStep::Execute { command, executor })
                        },
                        Ok(None) => Ok(RunStep::Over),
                        Err(e) => {
                            run.point = RunPoint::Over;
                            Err(e)
                        },
                    };
                }
                self.announce_services(run.group.as_str(), !run.change);
                proof {
                    service_round::lemma_announce_logs(
                        m0,
                        run0.group,
                        !run0.change,
                        m0.managed[i as int].services.len(),
                    );
                }
                0
            },
            RunPoint::Service(k) => k,
            _ => 0,
        };
        match self.run_service_step(i, k, run.change) {
            Some(step) => {
                run.point = RunPoint::Acting(k);
                Ok(RunStep::Service(step))
            },
            None => {
                proof {
                    if run0.change {
                        engine::lemma_acyclic_kept(m0, self@);
                    }
                }
                self.run_group_done(run.group.as_str(), run.change, exp);
                run.point = RunPoint::Over;
                Ok(RunStep::Over)
            },
        }
    }

    /// The line that output of the task that is being executed is logged as.
    pub fn run_output(&self, run: &GroupRun, line: OutputLine) -> (r: LogLine)
        requires
            run@.fits(self@),
            run@.point is Executing,
        ensures
            r@ == (LogModel {
                timestamp: r.timestamp,
                process: engine_model::task_name(
                    self@.managed[run@.position].config.tasks[run.point->Executing_0 as int],
                ),
                group: Some(run.group@),
                content: tasks::output_parts(line).0,
                source: LogSource::Process,
                output_kind: OutputKind::Combined,
            }),
    {
        let k: usize = match run.point {
            RunPoint::Executing(k) => k,
            _ => 0,
        };
        let content: String = match line {
            OutputLine::Stdout(s) => s,
            OutputLine::Stderr(s) => s,
        };
        LogLine::process(self.task_name(run.position, k), content.as_str()).with_group(
            run.group.as_str(),
        )
    }

    /// The task that was executed has ended, after a time in milliseconds, and in
    /// `seconds` with two decimals: with an exit code, or not run at all. A failure
    /// ends the run.
    pub fn run_executed(
        &mut self,
        run: &mut GroupRun,
        outcome: Result<Option<i32>, ProcessError>,
        duration_ms: u64,
        seconds: &str,
    ) -> (r: Result<(), DaemonError>)
        requires
            old(self)@.wf(),
            old(run)@.fits(old(self)@),
            old(run)@.point is Executing,
        ensures
            ({
                let i = old(run)@.position;
                let k = old(run)@.point->Executing_0;
                let name = engine_model::task_name(old(self)@.managed[i].config.tasks[k as int]);
                if tasks::task_succeeded(outcome) {
                    &&& r is Ok
                    &&& final(run)@ == old(run)@.at(RunPoint::Task((k + 1) as usize))
                    &&& final(self)@ == old(self)@.run_task_succeeded(
                        i,
                        k as int,
                        name,
                        outcome->Ok_0,
                        duration_ms,
                        seconds@,
                    )
                } else {
                    let (text, code) = match outcome {
                        Ok(code) => (engine_model::exit_failure(code), code),
                        Err(e) => (process::error::process_error_text(e), None),
                    };
                    &&& final(run)@ == old(run)@.at(RunPoint::Over)
                    &&& final(self)@ == old(self)@.run_task_failed(i, k as int, name, text, code)
                    &&& r matches Err(DaemonError::TaskFailed { task, error }) && task@ == name
                        && error@ == text
                }
            }),
            final(self)@.wf(),
            final(run)@.fits(final(self)@),
            final(self)@.resolver == old(self)@.resolver,
            final(self)@.order == old(self)@.order,
    {
        let ghost m0 = self@;
        proof {
            lemma_found(m0, run@);
        }
        let k: usize = match run.point {
            RunPoint::Executing(k) => k,
            _ => 0,
        };
        let n: usize = self.task_count(run.position);
        assert(k < n);
        match self.run_task_done(run.position, k, outcome, duration_ms, seconds) {
            Ok(()) => {
                run.point = RunPoint::Task(k + 1);
                Ok(())
            },
            Err(e) => {
                run.point = RunPoint::Over;
                Err(e)
            },
        }
    }

    /// The service that was acted on runs: a child was started for it, or it was
    /// signalled or left alone.
    pub fn run_acted(&mut self, run: &mut GroupRun, started: Option<(Child, u128)>)
        requires
            old(self)@.wf(),
            old(run)@.fits(old(self)@),
            old(run)@.point is Acting,
        ensures
            final(self)@ == old(self)@.service_runs(
                old(run)@.position,
                old(run)@.point->Acting_0 as int,
                started,
            ),
            final(run)@ == old(run)@.at(
                RunPoint::Service((old(run)@.point->Acting_0 + 1) as usize),
            ),
            final(self)@.wf(),
            final(run)@.fits(final(self)@),
            final(self)@.resolver == old(self)@.resolver,
            final(self)@.order == old(self)@.order,
    {
        let k: usize = match run.point {
            RunPoint::Acting(k) => k,
            _ => 0,
        };
        let n: usize = self.service_count(run.position);
        assert(k < n);
        self.service_runs(run.position, k, started);
        run.point = RunPoint::Service(k + 1);
    }
}

} // verus!
