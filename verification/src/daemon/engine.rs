//! Core orchestration engine for zaz.
//!
//! The engine decides what happens to groups, tasks and services. What it wants
//! done outside (processes spawned and signalled, messages logged, states
//! broadcast) it leaves in its outbox; what happened outside is told to it.

use crate::config::schema::{
    self, Config, Group, GroupConfig, Signal, Silence, TaskCommand, TaskModel};
use crate::config::error::{self, ConfigError};
use crate::daemon::dependency::{self, DependencyResolver, ResolverModel};
use crate::daemon::dependency_laws;
use crate::daemon::engine_model::{
    self, ActionModel, BatchModel, CompletionModel, EngineModel, ManagedModel, RunModel, SetupModel,
    DAEMON_START,
};
use crate::daemon::error::DaemonError;
use crate::daemon::notify::NotifyEvent;
use crate::daemon::planning::{
    self, affected_groups, calculate_group_status_from_tasks, compute_config_changes,
    filter_affected_to_roots, topological_sort, PatternHits,
};
use crate::daemon::state::{
    self, map_clone, map_entry, map_index_of, map_insert, map_len, map_new, DaemonState,
    DaemonStatus, GroupModel, GroupState, GroupStatus, ProcessModel, ProcessState, ProcessStatus,
};
use crate::daemon::trigger::{
    Context, ExpansionModel, Expansions, LifecyclePhase, ReloadResult, RestartScope, TriggerContext,
    TriggerSource,
};
use crate::graph;
use crate::process;
use crate::process::error::ProcessError;
use crate::process::executor::{self, Executor, ExecutorModel, SpawnPlan};
use crate::process::service::{
    Child, ChildStatus, Service, ServiceExitInfo, ServiceModel, ServiceState,
};
use crate::strmap::StrSet;
use crate::text::{
    self, cat2, cat3, cat5, cat7, decimal_of, has_prefix, signed_decimal_of, split_once, str_eq, Text,
};
use indexmap::IndexMap;
use vstd::prelude::*;

verus! {

broadcast use crate::text::lemma_texts_push;

/// A task execution to be spawned.
#[derive(Debug)]
pub struct TaskExecutionContext {
    /// Unique task identifier ("group_name:task_name").
    pub task_id: String,
    /// Group name.
    pub group_name: String,
    /// Task name.
    pub task_name: String,
    /// Task index in the group.
    pub task_index: usize,
    /// Command to execute.
    pub command: String,
    /// Executor for running commands.
    pub executor: Executor,
    /// Log suppression level.
    pub silence: Silence,
}

impl View for TaskExecutionContext {
    type V = RunModel;

    open spec fn view(&self) -> RunModel {
        RunModel {
            task_id: self.task_id@,
            group_name: self.group_name@,
            task_name: self.task_name@,
            task_index: self.task_index as int,
            command: self.command@,
            executor: self.executor@,
            silence: self.silence,
        }
    }
}

/// Completion signal from a spawned task execution.
#[derive(Debug)]
pub struct TaskCompletion {
    /// Unique task identifier ("group_name:task_name").
    pub task_id: String,
    /// Group name (for state updates).
    pub group_name: String,
    /// Task index in the group (for state updates).
    pub task_index: usize,
    /// Whether the task execution succeeded.
    pub success: bool,
    /// Final status.
    pub status: ProcessStatus,
    /// Duration in milliseconds.
    pub duration_ms: Option<u64>,
    /// Exit code.
    pub exit_code: Option<i32>,
}

impl View for TaskCompletion {
    type V = CompletionModel;

    open spec fn view(&self) -> CompletionModel {
        CompletionModel {
            task_id: self.task_id@,
            group_name: self.group_name@,
            task_index: self.task_index as int,
            success: self.success,
            status: self.status,
            duration_ms: self.duration_ms,
            exit_code: self.exit_code,
        }
    }
}

impl TaskCompletion {
    /// The completion that asks for the services of a group without tasks.
    pub fn services_due(group_name: String) -> (r: Self)
        ensures
            r@ == (CompletionModel {
                task_id: engine_model::daemon_start_id(),
                group_name: group_name@,
                task_index: 0,
                success: true,
                status: ProcessStatus::Success,
                duration_ms: None,
                exit_code: None,
            }),
    {
        TaskCompletion {
            task_id: DAEMON_START.to_owned(),
            group_name,
            task_index: 0,
            success: true,
            status: ProcessStatus::Success,
            duration_ms: None,
            exit_code: None,
        }
    }
}

/// The models of a list of completions.
pub open spec fn completions(v: Seq<TaskCompletion>) -> Seq<CompletionModel> {
    Seq::new(v.len(), |i: int| v[i]@)
}

/// What the engine asks to be done.
#[derive(Debug)]
pub enum Action {
    /// Log a daemon message about a process.
    Log { process: String, group: Option<String>, content: String },
    /// Send a desktop notification.
    Notify(NotifyEvent),
    /// Spawn a task execution; its completion is to be reported.
    Run(TaskExecutionContext),
    /// Report a completion that asks for the services of a group.
    StartServices(String),
    /// Signal the running services of a group to restart.
    SignalServices(String),
    /// Send the process group of a service SIGTERM.
    Terminate(u32),
    /// Broadcast the daemon state.
    Broadcast(DaemonState),
}

impl View for Action {
    type V = ActionModel;

    open spec fn view(&self) -> ActionModel {
        match *self {
            Action::Log { process, group, content } => ActionModel::Log {
                process: process@,
                group: text::opt_text(group),
                content: content@,
            },
            Action::Notify(event) => ActionModel::Notify(event@),
            Action::Run(run) => ActionModel::Run(run@),
            Action::StartServices(group) => ActionModel::StartServices(group@),
            Action::SignalServices(group) => ActionModel::SignalServices(group@),
            Action::Terminate(pid) => ActionModel::Terminate(pid),
            Action::Broadcast(state) => ActionModel::Broadcast(state@),
        }
    }
}

/// The models of a list of actions.
pub open spec fn actions(v: Seq<Action>) -> Seq<ActionModel> {
    Seq::new(v.len(), |i: int| v[i]@)
}

/// A managed watch group with its processes.
#[derive(Debug)]
pub struct ManagedGroup {
    /// Group configuration.
    pub config: Group,
    /// Task executor.
    pub executor: Executor,
    /// Managed services.
    pub services: Vec<Service>,
    /// Whether services have been started at least once.
    pub daemons_started: bool,
    /// Pending restart times for services, on a clock that counts nanoseconds.
    pub pending_restarts: Vec<Option<u128>>,
}

/// The models of a list of services.
pub open spec fn services(v: Seq<Service>) -> Seq<ServiceModel> {
    Seq::new(v.len(), |i: int| v[i]@)
}

impl View for ManagedGroup {
    type V = ManagedModel;

    open spec fn view(&self) -> ManagedModel {
        ManagedModel {
            config: self.config@,
            executor: self.executor@,
            services: services(self.services@),
            daemons_started: self.daemons_started,
            pending_restarts: self.pending_restarts@,
        }
    }
}

/// The models of a list of managed groups.
pub open spec fn managed_groups(v: Seq<ManagedGroup>) -> Seq<ManagedModel> {
    Seq::new(v.len(), |i: int| v[i]@)
}

/// The core orchestration engine.
pub struct Engine {
    /// Loaded configuration.
    config: Config,
    /// The directory of the configuration file.
    root: String,
    /// The shell that the environment names.
    env_shell: Option<String>,
    /// How long the watcher of the directory waits for more changes, in
    /// milliseconds.
    debounce_ms: u64,
    /// Whether the engine is running embedded in another process (e.g., TUI).
    /// When embedded, remote shutdown commands are rejected.
    embedded: bool,
    /// The state of each group (ordered by config file order).
    groups: IndexMap<String, GroupState>,
    /// Managed groups, in the order of their states.
    managed: Vec<ManagedGroup>,
    /// Current daemon state (for status queries).
    state: DaemonState,
    /// Topologically sorted group names for dependency ordering.
    execution_order: Vec<String>,
    /// Currently running tasks (by "group:task" id). All tasks can run in parallel.
    running_tasks: StrSet,
    /// Tasks that need to re-run after their current execution completes.
    pending_tasks: StrSet,
    /// Dependency resolver for managing group dependencies and waiting state.
    dependency_resolver: DependencyResolver,
    /// What is to be done outside, in order.
    outbox: Vec<Action>,
}

impl View for Engine {
    type V = EngineModel;

    closed spec fn view(&self) -> EngineModel {
        EngineModel {
            groups: state::group_entries(self.groups),
            managed: managed_groups(self.managed@),
            status: self.state.status,
            snapshot: state::group_entries(self.state.groups),
            watched_files: self.state.watched_files,
            last_change: self.state.last_change,
            order: text::texts(self.execution_order@),
            running: self.running_tasks@,
            pending: self.pending_tasks@,
            resolver: self.dependency_resolver@,
            out: actions(self.outbox@),
            setup: SetupModel {
                groups: schema::groups(self.config.groups@),
                variables: self.config.variables@,
                shell: text::opt_text(self.config.settings.shell),
                log_format: self.config.settings.log_format,
                env_shell: text::opt_text(self.env_shell),
                root: self.root@,
                debounce_ms: self.debounce_ms,
                embedded: self.embedded,
            },
        }
    }
}

/// A group is where it is found.
pub proof fn lemma_find(groups: Seq<(Text, GroupModel)>, name: Text, i: int)
    requires
        0 <= i < groups.len(),
        groups[i].0 == name,
        forall|j: int| 0 <= j < groups.len() && #[trigger] groups[j].0 == name ==> j == i,
    ensures
        engine_model::find(groups, name) == Some(i),
{
    assert(groups[i].0 == name);
    let k = choose|k: int| 0 <= k < groups.len() && (#[trigger] groups[k]).0 == name;
    assert(groups[k].0 == name);
}

/// Replacing a group's state by one that fits keeps the parts together.
proof fn lemma_with_group_wf(m: EngineModel, i: int, g: GroupModel)
    requires
        m.wf(),
        0 <= i < m.groups.len(),
        engine_model::fits(g, m.managed[i]),
    ensures
        m.with_group(i, g).wf(),
{
    let n = m.with_group(i, g);
    assert forall|k: int| 0 <= k < n.groups.len() implies engine_model::fits(
        (#[trigger] n.groups[k]).1,
        n.managed[k],
    ) by {
        assert(engine_model::fits(m.groups[k].1, m.managed[k]));
    }
    assert forall|a: int, b: int| 0 <= a < b < n.groups.len() implies (#[trigger] n.groups[a]).0
        != (#[trigger] n.groups[b]).0 by {
        assert(m.groups[a].0 != m.groups[b].0);
    }
}

impl Engine {
    /// Get current daemon state.
    pub fn state(&self) -> (r: &DaemonState)
        ensures
            r@ == self@.daemon_state(),
    {
        &self.state
    }

    /// The actions that have been asked for since the last call, in order.
    pub fn take_actions(&mut self) -> (r: Vec<Action>)
        ensures
            actions(r@) == old(self)@.out,
            final(self)@ == (EngineModel { out: Seq::empty(), ..old(self)@ }),
    {
        let mut taken: Vec<Action> = Vec::new();
        std::mem::swap(&mut taken, &mut self.outbox);
        assert(actions(self.outbox@) =~= Seq::<ActionModel>::empty());
        taken
    }

    /// Whether a task is running.
    pub fn is_task_running(&self, task_id: &str) -> (r: bool)
        ensures
            r == self@.running.contains(task_id@),
    {
        self.running_tasks.contains(task_id)
    }

    /// Whether no task is running.
    pub fn is_idle(&self) -> (r: bool)
        ensures
            r == (self@.running == Set::<Text>::empty()),
    {
        self.running_tasks.is_empty()
    }

    /// Whether a task is queued to run again.
    pub fn is_task_pending(&self, task_id: &str) -> (r: bool)
        ensures
            r == self@.pending.contains(task_id@),
    {
        self.pending_tasks.contains(task_id)
    }

    /// The current state of a group.
    pub fn group(&self, name: &str) -> (r: Option<&GroupState>)
        ensures
            match r {
                Some(g) => engine_model::find(self@.groups, name@) is Some && g@
                    == self@.groups[engine_model::find(self@.groups, name@)->Some_0].1,
                None => engine_model::find(self@.groups, name@) is None,
            },
    {
        match self.find_group(name) {
            Some(i) => match map_entry(&self.groups, i) {
                Some((_, g)) => Some(g),
                None => None,
            },
            None => None,
        }
    }

    /// What a group waits for, if it waits.
    pub fn waiting_for(&self, group: &str) -> (r: Option<&StrSet>)
        ensures
            match r {
                Some(s) => self@.resolver.waiting.dom().contains(group@) && s@
                    == self@.resolver.waiting[group@],
                None => !self@.resolver.waiting.dom().contains(group@),
            },
    {
        self.dependency_resolver.waiting_for(group)
    }

    /// The groups in execution order.
    pub fn execution_order(&self) -> (r: &Vec<String>)
        ensures
            text::texts(r@) == self@.order,
    {
        &self.execution_order
    }

    fn find_group(&self, name: &str) -> (r: Option<usize>)
        ensures
            match r {
                Some(i) => engine_model::find(self@.groups, name@) == Some(i as int) && i
                    < self@.groups.len() && self@.groups[i as int].0 == name@,
                None => engine_model::find(self@.groups, name@) is None,
            },
    {
        let r = map_index_of(&self.groups, name);
        if let Some(i) = r {
            proof {
                lemma_find(self@.groups, name@, i as int);
            }
        }
        r
    }

    fn emit(&mut self, action: Action)
        ensures
            final(self)@ == old(self)@.emit(action@),
    {
        self.outbox.push(action);
        assert(self@.out =~= old(self)@.out.push(action@));
    }

    fn log(&mut self, process: &str, group: &str, content: &str)
        ensures
            final(self)@ == old(self)@.log(process@, group@, content@),
    {
        self.emit(
            Action::Log {
                process: process.to_owned(),
                group: Some(group.to_owned()),
                content: content.to_owned(),
            },
        );
    }

    /// Update the internal state from group states and broadcast to subscribers.
    pub fn update_state(&mut self)
        ensures
            final(self)@ == old(self)@.updated(),
    {
        self.state.groups = map_clone(&self.groups);
        let state = self.state.clone();
        self.emit(Action::Broadcast(state));
    }

    fn put_group(&mut self, i: usize, g: GroupState)
        requires
            i < old(self)@.groups.len(),
        ensures
            final(self)@ == old(self)@.with_group(i as int, g@),
    {
        let key: String = match map_entry(&self.groups, i) {
            Some((k, _)) => k.clone(),
            None => String::new(),
        };
        let ghost before = self@.groups;
        assert(before[i as int].0 == key@);
        map_insert(&mut self.groups, key, g);
        assert(self@.groups == before.update(i as int, (key@, g@)));
    }

    fn set_engine_status(&mut self, name: &str, status: GroupStatus)
        requires
            old(self)@.wf(),
        ensures
            final(self)@ == old(self)@.with_group_status(name@, status),
            final(self)@.wf(),
    {
        if let Some(i) = self.find_group(name) {
            if let Some((_, g)) = map_entry(&self.groups, i) {
                let mut g = g.clone();
                g.status = status;
                proof {
                    let m = self@;
                    assert(g@ == (GroupModel { status, ..m.groups[i as int].1 }));
                    lemma_with_group_wf(m, i as int, g@);
                }
                self.put_group(i, g);
            }
        }
    }

    /// Set a group's status (keeps Engine and DependencyResolver in sync).
    fn set_group_status(&mut self, group_name: &str, status: GroupStatus)
        requires
            old(self)@.wf(),
        ensures
            final(self)@ == old(self)@.set_group_status(group_name@, status),
            final(self)@.wf(),
    {
        self.set_engine_status(group_name, status);
        self.dependency_resolver.set_status(group_name, status);
    }

    fn set_task_status(&mut self, name: &str, index: usize, status: ProcessStatus)
        requires
            old(self)@.wf(),
        ensures
            final(self)@ == old(self)@.with_task_status(name@, index as int, status),
            final(self)@.wf(),
    {
        if let Some(i) = self.find_group(name) {
            if let Some((_, g)) = map_entry(&self.groups, i) {
                if index < g.tasks.len() {
                    let mut g = g.clone();
                    let ghost before = g@;
                    let mut t = g.tasks[index].clone();
                    t.status = status;
                    g.tasks.set(index, t);
                    proof {
                        let m = self@;
                        assert(t@ == (ProcessModel { status, ..before.tasks[index as int] }));
                        assert(g@.tasks =~= before.tasks.update(index as int, t@));
                        assert(g@.services =~= before.services);
                        assert(engine_model::fits(m.groups[i as int].1, m.managed[i as int]));
                        lemma_with_group_wf(m, i as int, g@);
                    }
                    self.put_group(i, g);
                }
            }
        }
    }

    /// Spawn a single task if not already running.
    /// If already running, it is queued to run again later.
    fn spawn_task(
        &mut self,
        group_name: &str,
        task_name: &str,
        task_index: usize,
        command: String,
        executor: Executor,
        silence: Silence,
    )
        requires
            old(self)@.wf(),
        ensures
            final(self)@ == old(self)@.spawn_task(
                group_name@,
                task_name@,
                task_index as int,
                command@,
                executor@,
                silence,
            ),
            final(self)@.wf(),
    {
        let task_id = cat3(group_name, ":", task_name);
        if self.running_tasks.contains(task_id.as_str()) {
            self.pending_tasks.insert(task_id);
            return;
        }
        self.running_tasks.insert(task_id.clone());
        self.set_task_status(group_name, task_index, ProcessStatus::Running);
        self.emit(
            Action::Run(
                TaskExecutionContext {
                    task_id,
                    group_name: group_name.to_owned(),
                    task_name: task_name.to_owned(),
                    task_index,
                    command,
                    executor,
                    silence,
                },
            ),
        );
    }

    /// Spawn all tasks in a group. Each task runs in parallel with per-task
    /// deduplication.
    fn spawn_group_tasks(&mut self, group_name: &str, run_on_change: bool, exp: &Expansions)
        requires
            old(self)@.wf(),
        ensures
            final(self)@ == old(self)@.spawn_group(group_name@, run_on_change, exp@),
            final(self)@.wf(),
            final(self)@.resolver == old(self)@.resolver,
            final(self)@.order == old(self)@.order,
            final(self)@.managed == old(self)@.managed,
    {
        let gi: usize = match self.find_group(group_name) {
            Some(i) => i,
            None => {
                return;
            },
        };
        self.set_engine_status(group_name, GroupStatus::Running);
        let ghost m0 = self@;
        let ghost managed = m0.managed[gi as int];
        let n: usize = self.managed[gi].config.tasks.len();
        let mut i: usize = 0;
        while i < n
            invariant
                0 <= i <= n,
                gi < m0.managed.len(),
                managed == m0.managed[gi as int],
                n == managed.config.tasks.len(),
                self@.wf(),
                self@.managed == m0.managed,
                self@.resolver == m0.resolver,
                self@.order == m0.order,
                self@ == m0.spawn_tasks(
                    group_name@,
                    managed.config.tasks,
                    managed.executor,
                    run_on_change,
                    exp@,
                    i as nat,
                ),
            decreases n - i,
        {
            let task = &self.managed[gi].config.tasks[i];
            assert(task@ == managed.config.tasks[i as int]);
            if task.on_change_only && !run_on_change {
                i = i + 1;
                continue;
            }
            let command: String = match exp.expand(task.command.as_str()) {
                Ok(c) => c,
                Err(_) => {
                    i = i + 1;
                    continue;
                },
            };
            let executor = self.managed[gi].executor.refine(&task.working_dir, &task.env);
            let name = task.name().to_owned();
            let silence = task.silence;
            self.spawn_task(group_name, name.as_str(), i, command, executor, silence);
            i = i + 1;
        }
        self.update_state();
    }

    /// Whether a group has a task that runs at startup.
    fn has_startup_tasks(&self, group_name: &str) -> (r: bool)
        requires
            self@.wf(),
        ensures
            r == self@.has_startup_tasks(group_name@),
    {
        match self.find_group(group_name) {
            Some(gi) => {
                let ghost list = self@.managed[gi as int].config.tasks;
                let mut i: usize = 0;
                while i < self.managed[gi].config.tasks.len()
                    invariant
                        gi < self.managed@.len(),
                        engine_model::find(self@.groups, group_name@) == Some(gi as int),
                        list == self.managed@[gi as int]@.config.tasks,
                        0 <= i <= list.len(),
                        forall|j: int| 0 <= j < i ==> (#[trigger] list[j]).on_change_only,
                    decreases list.len() - i,
                {
                    assert(list[i as int] == self.managed@[gi as int].config.tasks@[i as int]@);
                    if !self.managed[gi].config.tasks[i].on_change_only {
                        assert(engine_model::any_startup_task(list));
                        assert(self@.managed[gi as int] == self.managed@[gi as int]@);
                        return true;
                    }
                    i = i + 1;
                }
                assert(self@.managed[gi as int] == self.managed@[gi as int]@);
                false
            },
            None => false,
        }
    }

    /// Whether a group has services.
    pub fn has_services(&self, group_name: &str) -> (r: bool)
        requires
            self@.wf(),
        ensures
            r == self@.has_services(group_name@),
    {
        match self.find_group(group_name) {
            Some(gi) => {
                assert(self@.managed[gi as int] == self.managed@[gi as int]@);
                self.managed[gi].services.len() > 0
            },
            None => false,
        }
    }

    /// Cascade skip status to dependents when a group fails.
    ///
    /// Marks the group as Skipped and recursively skips all dependents that were
    /// waiting for it.
    fn cascade_skip(&mut self, group_name: &str)
        requires
            old(self)@.wf(),
        ensures
            final(self)@ == old(self)@.cascade_skip(group_name@),
            final(self)@.wf(),
            final(self)@.resolver.waiting.dom().len() <= old(self)@.resolver.waiting.dom().len(),
            final(self)@.resolver.dependents == old(self)@.resolver.dependents,
            final(self)@.order == old(self)@.order,
            final(self)@.managed == old(self)@.managed,
    {
        let ghost m0 = self@;
        let ghost start = m0.resolver.with_status(group_name@, GroupStatus::Skipped);
        proof {
            lemma_cascade_shrinks(start, seq![group_name@]);
        }
        let result = self.dependency_resolver.mark_skipped(group_name);
        self.set_engine_status(group_name, GroupStatus::Skipped);
        let ghost m1 = self@;
        let ghost list = text::texts(result.to_skip@);
        let mut i: usize = 0;
        assert(list.take(0) =~= Seq::<Text>::empty());
        while i < result.to_skip.len()
            invariant
                0 <= i <= result.to_skip@.len(),
                list == text::texts(result.to_skip@),
                self@.wf(),
                self@ == m1.with_skipped(list.take(i as int)),
                self@.resolver == m1.resolver,
                self@.order == m1.order,
                self@.managed == m1.managed,
            decreases result.to_skip.len() - i,
        {
            assert(list.take(i + 1).drop_last() =~= list.take(i as int));
            assert(list.take(i + 1).last() == result.to_skip@[i as int]@);
            self.set_engine_status(result.to_skip[i].as_str(), GroupStatus::Skipped);
            i = i + 1;
        }
        assert(list.take(list.len() as int) =~= list);
    }

    /// Skips each group of a list in turn.
    fn cascade_skips(&mut self, names: &Vec<String>)
        requires
            old(self)@.wf(),
        ensures
            final(self)@ == old(self)@.cascade_skips(text::texts(names@)),
            final(self)@.wf(),
            final(self)@.resolver.waiting.dom().len() <= old(self)@.resolver.waiting.dom().len(),
            final(self)@.resolver.dependents == old(self)@.resolver.dependents,
            final(self)@.order == old(self)@.order,
            final(self)@.managed == old(self)@.managed,
    {
        let ghost m0 = self@;
        let ghost list = text::texts(names@);
        let mut i: usize = 0;
        assert(list.take(0) =~= Seq::<Text>::empty());
        while i < names.len()
            invariant
                0 <= i <= names@.len(),
                list == text::texts(names@),
                self@.wf(),
                self@ == m0.cascade_skips(list.take(i as int)),
                self@.resolver.waiting.dom().len() <= m0.resolver.waiting.dom().len(),
                self@.resolver.dependents == m0.resolver.dependents,
                self@.order == m0.order,
                self@.managed == m0.managed,
            decreases names.len() - i,
        {
            assert(list.take(i + 1).drop_last() =~= list.take(i as int));
            assert(list.take(i + 1).last() == names@[i as int]@);
            self.cascade_skip(names[i].as_str());
            i = i + 1;
        }
        assert(list.take(list.len() as int) =~= list);
    }

    /// Start a group that was waiting for dependencies.
    fn start_waiting_group(&mut self, group_name: &str, exp: &Expansions)
        requires
            old(self)@.wf(),
        ensures
            final(self)@ == if old(self)@.has_startup_tasks(group_name@) {
                old(self)@.spawn_group(group_name@, false, exp@)
            } else if old(self)@.has_services(group_name@) {
                old(self)@.emit(ActionModel::StartServices(group_name@))
            } else {
                old(self)@.set_group_status(group_name@, GroupStatus::Ready).trigger_dependents(
                    group_name@,
                    exp@,
                )
            },
            final(self)@.wf(),
            final(self)@.resolver.waiting.dom().len() <= old(self)@.resolver.waiting.dom().len(),
            final(self)@.resolver.dependents == old(self)@.resolver.dependents,
            final(self)@.order == old(self)@.order,
            final(self)@.managed == old(self)@.managed,
        decreases old(self)@.resolver.waiting.dom().len(), 2nat,
    {
        if self.has_startup_tasks(group_name) {
            self.spawn_group_tasks(group_name, false, exp);
        } else if self.has_services(group_name) {
            self.emit(Action::StartServices(group_name.to_owned()));
        } else {
            self.set_group_status(group_name, GroupStatus::Ready);
            self.trigger_dependents(group_name, exp);
        }
    }

    /// Trigger dependents of a completed group.
    ///
    /// Called when a group successfully completes (reaches Ready status). The
    /// groups that depend on it are started if all their dependencies are now
    /// satisfied.
    pub fn trigger_dependents(&mut self, completed_group: &str, exp: &Expansions)
        requires
            old(self)@.wf(),
        ensures
            final(self)@ == old(self)@.trigger_dependents(completed_group@, exp@),
            final(self)@.wf(),
            final(self)@.resolver.waiting.dom().len() <= old(self)@.resolver.waiting.dom().len(),
            final(self)@.resolver.dependents == old(self)@.resolver.dependents,
            final(self)@.order == old(self)@.order,
            final(self)@.managed == old(self)@.managed,
        decreases old(self)@.resolver.waiting.dom().len(), 1nat,
    {
        let ghost m0 = self@;
        let ghost bound = m0.resolver.waiting.dom().len();
        proof {
            lemma_completed_shrinks(m0.resolver, completed_group@);
        }
        let result = self.dependency_resolver.mark_complete(completed_group);
        self.set_engine_status(completed_group, GroupStatus::Ready);
        let ghost m1 = self@;
        let ghost list = text::texts(result.ready_to_start@);
        let mut i: usize = 0;
        assert(list.take(0) =~= Seq::<Text>::empty());
        while i < result.ready_to_start.len()
            invariant
                0 <= i <= result.ready_to_start@.len(),
                list == text::texts(result.ready_to_start@),
                bound == old(self)@.resolver.waiting.dom().len(),
                list.len() > 0 ==> self@.resolver.waiting.dom().len() < bound,
                self@.resolver.waiting.dom().len() <= bound,
                self@.wf(),
                self@ == m1.start_waiting_groups(list.take(i as int), exp@, bound),
                self@.resolver.dependents == m1.resolver.dependents,
                self@.order == m1.order,
                self@.managed == m1.managed,
            decreases result.ready_to_start.len() - i,
        {
            assert(list.take(i + 1).drop_last() =~= list.take(i as int));
            assert(list.take(i + 1).last() == result.ready_to_start@[i as int]@);
            self.start_waiting_group(result.ready_to_start[i].as_str(), exp);
            i = i + 1;
        }
        assert(list.take(list.len() as int) =~= list);
        self.cascade_skips(&result.needs_skip);
    }

    /// Cascade restart to dependent groups.
    ///
    /// When a group is restarted, this propagates the restart to all dependent
    /// groups (transitively). For each dependent:
    /// - If it has startup tasks: spawn those tasks (cascade continues when they complete)
    /// - If it has no tasks but has services: signal services directly and continue cascade
    pub fn cascade_daemon_restart(&mut self, source_group: &str, exp: &Expansions)
        requires
            old(self)@.wf(),
            old(self)@.acyclic(),
        ensures
            final(self)@ == old(self)@.restart_dependents(source_group@, exp@),
            final(self)@.wf(),
            final(self)@.resolver == old(self)@.resolver,
            final(self)@.order == old(self)@.order,
            final(self)@.managed == old(self)@.managed,
        decreases engine_model::rank(old(self)@.order, source_group@),
    {
        let ghost m0 = self@;
        let dependents = self.dependency_resolver.get_dependents(source_group);
        let ghost list = text::texts(dependents@);
        let mut i: usize = 0;
        assert(list.take(0) =~= Seq::<Text>::empty());
        while i < dependents.len()
            invariant
                0 <= i <= dependents@.len(),
                list == text::texts(dependents@),
                list == m0.resolver.dependents_of(source_group@),
                m0 == old(self)@,
                m0.acyclic(),
                self@.wf(),
                self@ == m0.cascade_restarts(
                    list.take(i as int),
                    source_group@,
                    m0.resolver,
                    m0.order,
                    exp@,
                ),
                self@.resolver == m0.resolver,
                self@.order == m0.order,
                self@.managed == m0.managed,
            decreases dependents.len() - i,
        {
            let ghost d = list[i as int];
            assert(list.take(i + 1).drop_last() =~= list.take(i as int));
            assert(list.take(i + 1).last() == dependents@[i as int]@);
            assert(m0.resolver.dependents_of(source_group@).contains(d));
            let dependent = dependents[i].as_str();
            let mut is_ready = false;
            let mut has_running = false;
            if let Some(gi) = self.find_group(dependent) {
                if let Some((_, g)) = map_entry(&self.groups, gi) {
                    is_ready = g.status == GroupStatus::Ready;
                }
                assert(self@.managed[gi as int] == self.managed@[gi as int]@);
                has_running = self.managed[gi].daemons_started && self.managed[gi].services.len()
                    > 0;
            }
            let has_startup_tasks = self.has_startup_tasks(dependent);
            if is_ready && (has_startup_tasks || has_running) {
                if has_startup_tasks {
                    self.spawn_group_tasks(dependent, false, exp);
                } else {
                    self.emit(Action::SignalServices(dependent.to_owned()));
                    self.cascade_daemon_restart(dependent, exp);
                }
            }
            i = i + 1;
        }
        assert(list.take(list.len() as int) =~= list);
    }

    /// Determine the lifecycle phase for a group.
    ///
    /// A group is in Runtime phase if it has already completed initial startup:
    /// - For groups with services: when services have been started at least once
    /// - For groups without services: when no dependents are waiting for it
    pub fn determine_lifecycle_phase(&self, group_name: &str) -> (r: LifecyclePhase)
        requires
            self@.wf(),
        ensures
            r == self@.phase(group_name@),
    {
        match self.find_group(group_name) {
            Some(gi) => {
                assert(self@.managed[gi as int] == self.managed@[gi as int]@);
                let startup = if self.managed[gi].services.len() > 0 {
                    !self.managed[gi].daemons_started
                } else {
                    self.dependency_resolver.has_waiting_dependents(group_name)
                };
                if startup {
                    LifecyclePhase::Startup
                } else {
                    LifecyclePhase::Runtime
                }
            },
            None => LifecyclePhase::Startup,
        }
    }

    /// Propagate completion to dependent groups based on lifecycle phase.
    ///
    /// - **Startup phase**: groups are completing for the first time; groups that
    ///   were waiting for dependencies are started.
    /// - **Runtime phase**: groups are already Ready and being re-triggered;
    ///   restarts go on to dependent groups.
    pub fn propagate_to_dependents(&mut self, completed_group: &str, exp: &Expansions)
        requires
            old(self)@.wf(),
            old(self)@.acyclic(),
        ensures
            final(self)@ == old(self)@.propagate(completed_group@, exp@),
            final(self)@.wf(),
            final(self)@.acyclic(),
    {
        match self.determine_lifecycle_phase(completed_group) {
            LifecyclePhase::Startup => {
                self.trigger_dependents(completed_group, exp);
                proof {
                    lemma_acyclic_kept(old(self)@, self@);
                }
            },
            LifecyclePhase::Runtime => {
                self.cascade_daemon_restart(completed_group, exp);
                proof {
                    lemma_acyclic_kept(old(self)@, self@);
                }
            },
        }
    }

    /// Run the initial startup sequence.
    ///
    /// This runs all tasks (respecting on_change_only). Groups with no tasks (or
    /// only on_change_only tasks) that have services are handed out: their
    /// services are to be started immediately, and their dependents triggered
    /// after that. Groups with tasks will have services started after all tasks
    /// complete successfully.
    pub fn startup(&mut self, exp: &Expansions) -> (r: Vec<String>)
        requires
            old(self)@.wf(),
        ensures
            (final(self)@, text::texts(r@)) == (EngineModel {
                status: DaemonStatus::Running,
                ..old(self)@
            }).started_up(exp@, old(self)@.order.len()),
            final(self)@.wf(),
            final(self)@.resolver.dependents == old(self)@.resolver.dependents,
            final(self)@.order == old(self)@.order,
            final(self)@.managed == old(self)@.managed,
    {
        self.state.status = DaemonStatus::Running;
        let ghost m0 = self@;
        let order = self.execution_order.clone();
        assert(text::texts(order@) == m0.order);
        let mut needing: Vec<String> = Vec::new();
        let mut i: usize = 0;
        assert(text::texts(needing@) =~= Seq::<Text>::empty());
        while i < order.len()
            invariant
                0 <= i <= order@.len(),
                text::texts(order@) == m0.order,
                self@.wf(),
                (self@, text::texts(needing@)) == m0.started_up(exp@, i as nat),
                self@.resolver.dependents == m0.resolver.dependents,
                self@.order == m0.order,
                self@.managed == m0.managed,
            decreases order.len() - i,
        {
            assert(m0.order[i as int] == order@[i as int]@);
            let name = order[i].as_str();
            let ghost before = self@;
            match self.dependency_resolver.mark_waiting(name) {
                Some(_) => {
                    assert(self@.wf());
                    self.set_engine_status(name, GroupStatus::Waiting);
                },
                None => {
                    assert(self@ == before);
                    if self.has_startup_tasks(name) {
                        self.spawn_group_tasks(name, false, exp);
                    } else if self.has_services(name) {
                        needing.push(order[i].clone());
                    } else {
                        self.set_group_status(name, GroupStatus::Ready);
                    }
                },
            }
            i = i + 1;
        }
        needing
    }

    fn any_running_in(&self, group: &str) -> (r: bool)
        ensures
            r == self@.group_running(group@),
    {
        let prefix = cat2(group, ":");
        let n: usize = self.running_tasks.len();
        let ghost items = self.running_tasks.items();
        let mut i: usize = 0;
        while i < n
            invariant
                0 <= i <= n,
                n == items.len(),
                items == self.running_tasks.items(),
                self@.running == items.to_set(),
                prefix@ == group@ + ":"@,
                forall|j: int| 0 <= j < i ==> !text::starts_with(#[trigger] items[j], prefix@),
            decreases n - i,
        {
            if has_prefix(self.running_tasks.item_at(i).as_str(), prefix.as_str()) {
                assert(items.contains(items[i as int]));
                assert(self@.running.contains(items[i as int]));
                return true;
            }
            i = i + 1;
        }
        assert forall|id: Text| #[trigger] self@.running.contains(id) implies !text::starts_with(
            id,
            prefix@,
        ) by {
            assert(items.contains(id));
            assert(items[items.index_of(id)] == id);
        }
        false
    }

    fn record_completion(&mut self, c: &TaskCompletion)
        requires
            old(self)@.wf(),
        ensures
            final(self)@ == old(self)@.record(c@),
            final(self)@.wf(),
    {
        if let Some(i) = self.find_group(c.group_name.as_str()) {
            if let Some((_, g)) = map_entry(&self.groups, i) {
                if c.task_index < g.tasks.len() {
                    let mut g = g.clone();
                    let ghost before = g@;
                    let mut t = g.tasks[c.task_index].clone();
                    t.status = c.status;
                    t.duration_ms = c.duration_ms;
                    t.exit_code = c.exit_code;
                    g.tasks.set(c.task_index, t);
                    proof {
                        let m = self@;
                        assert(g@.tasks =~= before.tasks.update(c.task_index as int, t@));
                        assert(g@.services =~= before.services);
                        assert(engine_model::fits(m.groups[i as int].1, m.managed[i as int]));
                        lemma_with_group_wf(m, i as int, g@);
                    }
                    self.put_group(i, g);
                }
            }
        }
    }

    fn notify_completion(&mut self, c: &TaskCompletion)
        ensures
            final(self)@ == old(self)@.notify_completion(c@),
    {
        let task: &str = match split_once(c.task_id.as_str(), ':') {
            Some((_, name)) => name,
            None => c.task_id.as_str(),
        };
        let event = if c.success {
            let duration: u64 = match c.duration_ms {
                Some(d) => d,
                None => 0,
            };
            NotifyEvent::task_success(task, c.group_name.as_str(), duration)
        } else {
            NotifyEvent::task_failed(task, c.group_name.as_str(), c.exit_code)
        };
        self.emit(Action::Notify(event));
    }

    fn settle(&mut self, group: &str, due: &mut Vec<(String, bool)>, failed: &mut Vec<String>)
        requires
            old(self)@.wf(),
        ensures
            (BatchModel {
                engine: final(self)@,
                due: dues(final(due)@),
                failed: text::texts(final(failed)@),
            }) == (BatchModel {
                engine: old(self)@,
                due: dues(old(due)@),
                failed: text::texts(old(failed)@),
            }).settle(group@),
            final(self)@.wf(),
            final(self)@.managed == old(self)@.managed,
            final(self)@.resolver == old(self)@.resolver,
            final(self)@.order == old(self)@.order,
    {
        if let Some(i) = self.find_group(group) {
            let running = self.any_running_in(group);
            let status: Option<GroupStatus> = match map_entry(&self.groups, i) {
                Some((_, g)) => calculate_group_status_from_tasks(g.tasks.as_slice(), running),
                None => None,
            };
            assert(self@.managed[i as int] == self.managed@[i as int]@);
            let fresh = self.managed[i].services.len() == 0 || !self.managed[i].daemons_started;
            if let Some(status) = status {
                self.set_engine_status(group, status);
                if status == GroupStatus::Failed {
                    self.emit(Action::Notify(NotifyEvent::group_failed(group)));
                    failed.push(group.to_owned());
                } else {
                    self.emit(Action::Notify(NotifyEvent::group_complete(group)));
                    due.push((group.to_owned(), fresh));
                    assert(dues(due@) =~= dues(old(due)@).push((group@, fresh)));
                }
            }
        }
    }

    fn rerun(&mut self, c: &TaskCompletion, exp: &Expansions)
        requires
            old(self)@.wf(),
        ensures
            final(self)@ == old(self)@.rerun(c@, exp@),
            final(self)@.wf(),
            final(self)@.managed == old(self)@.managed,
            final(self)@.resolver == old(self)@.resolver,
            final(self)@.order == old(self)@.order,
    {
        if !self.pending_tasks.remove(c.task_id.as_str()) {
            assert(self@.pending =~= old(self)@.pending);
            return;
        }
        if let Some((group, task)) = split_once(c.task_id.as_str(), ':') {
            if let Some(gi) = self.find_group(group) {
                assert(self@.managed[gi as int] == self.managed@[gi as int]@);
                if let Some(k) = find_task(&self.managed[gi].config.tasks, task) {
                    let t = &self.managed[gi].config.tasks[k];
                    assert(t@ == self@.managed[gi as int].config.tasks[k as int]);
                    if let Ok(command) = exp.expand(t.command.as_str()) {
                        let executor = self.managed[gi].executor.refine(&t.working_dir, &t.env);
                        let silence = t.silence;
                        self.spawn_task(group, task, c.task_index, command, executor, silence);
                    }
                }
            }
        }
    }

    fn complete_one(
        &mut self,
        c: &TaskCompletion,
        exp: &Expansions,
        due: &mut Vec<(String, bool)>,
        failed: &mut Vec<String>,
    )
        requires
            old(self)@.wf(),
        ensures
            (BatchModel {
                engine: final(self)@,
                due: dues(final(due)@),
                failed: text::texts(final(failed)@),
            }) == (BatchModel {
                engine: old(self)@,
                due: dues(old(due)@),
                failed: text::texts(old(failed)@),
            }).complete(c@, exp@),
            final(self)@.wf(),
            final(self)@.managed == old(self)@.managed,
            final(self)@.resolver == old(self)@.resolver,
            final(self)@.order == old(self)@.order,
    {
        if str_eq(c.task_id.as_str(), DAEMON_START) {
            due.push((c.group_name.clone(), true));
            assert(dues(due@) =~= dues(old(due)@).push((c.group_name@, true)));
            return;
        }
        let _ = self.running_tasks.remove(c.task_id.as_str());
        self.notify_completion(c);
        self.record_completion(c);
        self.settle(c.group_name.as_str(), due, failed);
        self.rerun(c, exp);
        self.update_state();
    }

    /// Process completed task executions and handle pending re-runs.
    ///
    /// Hands out the groups whose services are due, each with whether to start
    /// them (or signal them to restart). After the services of a group have been
    /// seen to, its completion is to be propagated to its dependents.
    pub fn process_task_completions(&mut self, batch: &Vec<TaskCompletion>, exp: &Expansions) -> (r:
        Vec<(String, bool)>)
        requires
            old(self)@.wf(),
        ensures
            ({
                let b = BatchModel::new(old(self)@).complete_all(completions(batch@), exp@);
                final(self)@ == b.engine.cascade_skips(b.failed) && dues(r@) == b.due
            }),
            final(self)@.wf(),
            final(self)@.managed == old(self)@.managed,
            final(self)@.resolver.dependents == old(self)@.resolver.dependents,
            final(self)@.order == old(self)@.order,
    {
        let mut due: Vec<(String, bool)> = Vec::new();
        let mut failed: Vec<String> = Vec::new();
        let ghost m0 = BatchModel::new(self@);
        let ghost list = completions(batch@);
        let mut i: usize = 0;
        proof {
            assert(list.take(0) =~= Seq::<CompletionModel>::empty());
            assert(dues(due@) =~= Seq::<(Text, bool)>::empty());
            assert(text::texts(failed@) =~= Seq::<Text>::empty());
        }
        while i < batch.len()
            invariant
                0 <= i <= batch@.len(),
                list == completions(batch@),
                self@.wf(),
                (BatchModel {
                    engine: self@,
                    due: dues(due@),
                    failed: text::texts(failed@),
                }) == m0.complete_all(list.take(i as int), exp@),
                self@.managed == m0.engine.managed,
                self@.resolver == m0.engine.resolver,
                self@.order == m0.engine.order,
            decreases batch.len() - i,
        {
            assert(list.take(i + 1).drop_last() =~= list.take(i as int));
            assert(list.take(i + 1).last() == batch@[i as int]@);
            self.complete_one(&batch[i], exp, &mut due, &mut failed);
            i = i + 1;
        }
        assert(list.take(list.len() as int) =~= list);
        self.cascade_skips(&failed);
        due
    }

    /// Spawns the tasks of each group of a list in turn.
    fn spawn_all(&mut self, names: &Vec<String>, run_on_change: bool, exp: &Expansions)
        requires
            old(self)@.wf(),
        ensures
            final(self)@ == old(self)@.spawn_groups(text::texts(names@), run_on_change, exp@),
            final(self)@.wf(),
            final(self)@.managed == old(self)@.managed,
            final(self)@.resolver == old(self)@.resolver,
            final(self)@.order == old(self)@.order,
    {
        let ghost m0 = self@;
        let ghost list = text::texts(names@);
        let mut i: usize = 0;
        assert(list.take(0) =~= Seq::<Text>::empty());
        while i < names.len()
            invariant
                0 <= i <= names@.len(),
                list == text::texts(names@),
                self@.wf(),
                self@ == m0.spawn_groups(list.take(i as int), run_on_change, exp@),
                self@.managed == m0.managed,
                self@.resolver == m0.resolver,
                self@.order == m0.order,
            decreases names.len() - i,
        {
            assert(list.take(i + 1).drop_last() =~= list.take(i as int));
            assert(list.take(i + 1).last() == names@[i as int]@);
            self.spawn_group_tasks(names[i].as_str(), run_on_change, exp);
            i = i + 1;
        }
        assert(list.take(list.len() as int) =~= list);
    }

    /// Process a change of a number of files at a time, in milliseconds since the
    /// Unix epoch; `hits` tells which of them the patterns of each group match.
    /// Of the groups that are affected, only those none of whose dependencies is
    /// affected are set off: dependents follow by the cascade.
    ///
    /// All tasks run in parallel. Same task cannot run concurrently - it gets
    /// queued.
    pub fn handle_changes(
        &mut self,
        files: usize,
        hits: &Vec<PatternHits>,
        now: u64,
        exp: &Expansions,
    )
        requires
            old(self)@.wf(),
        ensures
            final(self)@ == if files == 0 {
                old(self)@
            } else {
                old(self)@.changed(planning::affected(hits@), now, exp@)
            },
            final(self)@.wf(),
            final(self)@.managed == old(self)@.managed,
            final(self)@.resolver == old(self)@.resolver,
            final(self)@.order == old(self)@.order,
    {
        if files == 0 {
            return;
        }
        let affected = affected_groups(hits);
        let ghost m0 = self@;
        let ghost expected = Seq::new(
            affected@.len(),
            |i: int| m0.resolver.deps(affected@[i]@),
        );
        let roots: Vec<String>;
        {
            let resolver = &self.dependency_resolver;
            let get = |g: &str| -> (v: Vec<String>)
                ensures
                    text::texts(v@) == resolver@.deps(g@),
                { resolver.get_dependencies(g) };
            roots = filter_affected_to_roots(affected.as_slice(), get);
            proof {
                let deps = choose|deps: Seq<Seq<Text>>|
                    #![trigger planning::roots(text::texts(affected@), deps, affected@.len())]
                    deps.len() == affected@.len() && (forall|i: int|
                        0 <= i < deps.len() ==> planning::answered(
                            get,
                            affected@[i]@,
                            #[trigger] deps[i],
                        )) && text::texts(roots@) == planning::roots(
                        text::texts(affected@),
                        deps,
                        affected@.len(),
                    );
                assert forall|i: int| 0 <= i < deps.len() implies deps[i] == expected[i] by {
                    assert(planning::answered(get, affected@[i]@, deps[i]));
                }
                assert(deps =~= expected);
                let names = planning::affected(hits@);
                assert(expected =~= Seq::new(names.len(), |i: int| m0.resolver.deps(names[i])));
            }
        }
        self.state.last_change = Some(now);
        assert(self@ == (EngineModel { last_change: Some(now), ..m0 }));
        self.spawn_all(&roots, true, exp);
    }

    /// Restart a specific group.
    pub fn restart_group(&mut self, group_name: &str, exp: &Expansions) -> (r: Result<
        (),
        DaemonError,
    >)
        requires
            old(self)@.wf(),
        ensures
            match r {
                Ok(()) => engine_model::find(old(self)@.groups, group_name@) is Some
                    && final(self)@ == old(self)@.spawn_group(group_name@, false, exp@),
                Err(e) => engine_model::find(old(self)@.groups, group_name@) is None && final(self)@
                    == old(self)@ && (e matches DaemonError::GroupNotFound(g) && g@ == group_name@),
            },
            final(self)@.wf(),
            final(self)@.managed == old(self)@.managed,
            final(self)@.resolver == old(self)@.resolver,
            final(self)@.order == old(self)@.order,
    {
        if self.find_group(group_name).is_none() {
            return Err(DaemonError::GroupNotFound(group_name.to_owned()));
        }
        self.spawn_group_tasks(group_name, false, exp);
        Ok(())
    }

    /// Restart all groups, in execution order.
    pub fn restart_all(&mut self, exp: &Expansions)
        requires
            old(self)@.wf(),
        ensures
            final(self)@ == old(self)@.spawn_groups(old(self)@.order, false, exp@),
            final(self)@.wf(),
            final(self)@.managed == old(self)@.managed,
            final(self)@.resolver == old(self)@.resolver,
            final(self)@.order == old(self)@.order,
    {
        let order = self.execution_order.clone();
        assert(text::texts(order@) == self@.order);
        self.spawn_all(&order, false, exp);
    }

    /// Create a new engine from a loaded configuration.
    ///
    /// `root` is the directory of the configuration file, `env_shell` the shell
    /// that the environment names. Groups whose names are distinct have no cyclic
    /// dependency left in the engine.
    pub fn from_config(
        config: Config,
        root: String,
        env_shell: Option<String>,
        embedded: bool,
    ) -> (r: Result<Self, DaemonError>)
        ensures
            ({
                let setup = SetupModel {
                    groups: schema::groups(config.groups@),
                    variables: config.variables@,
                    shell: text::opt_text(config.settings.shell),
                    log_format: config.settings.log_format,
                    env_shell: text::opt_text(env_shell),
                    root: root@,
                    debounce_ms: config.settings.debounce_ms,
                    embedded,
                };
                match graph::group_order(setup.groups) {
                    Ok(order) => r is Ok && r->Ok_0@ == EngineModel::initial(setup, order)
                        && r->Ok_0@.wf() && (graph::group_names(setup.groups).no_duplicates()
                        ==> r->Ok_0@.acyclic()),
                    Err(cycle) => r matches Err(DaemonError::CyclicDependency(name)) && name@
                        == cycle.last(),
                }
            }),
    {
        let ghost setup = SetupModel {
            groups: schema::groups(config.groups@),
            variables: config.variables@,
            shell: text::opt_text(config.settings.shell),
            log_format: config.settings.log_format,
            env_shell: text::opt_text(env_shell),
            root: root@,
            debounce_ms: config.settings.debounce_ms,
            embedded,
        };
        let execution_order = match topological_sort(&config.groups) {
            Ok(order) => order,
            Err(e) => {
                return Err(e);
            },
        };
        let (groups, managed) = build_groups(&config, &root, &env_shell);
        let dependency_resolver = build_resolver(&config.groups);
        let state = DaemonState {
            status: DaemonStatus::Starting,
            groups: map_clone(&groups),
            watched_files: 0,
            last_change: None,
        };
        let debounce_ms: u64 = config.settings.debounce_ms;
        let engine = Engine {
            config,
            root,
            env_shell,
            debounce_ms,
            embedded,
            groups,
            managed,
            state,
            execution_order,
            running_tasks: StrSet::new(),
            pending_tasks: StrSet::new(),
            dependency_resolver,
            outbox: Vec::new(),
        };
        proof {
            assert(actions(engine.outbox@) =~= Seq::<ActionModel>::empty());
            assert(engine@ == EngineModel::initial(setup, engine@.order));
            lemma_built_wf(setup.groups, setup);
            lemma_pairs_nothing_waits(engine_model::config_pairs(setup.groups));
            if graph::group_names(setup.groups).no_duplicates() {
                lemma_order_acyclic(setup.groups, engine@);
            }
        }
        Ok(engine)
    }

    /// The number of groups.
    pub fn group_count(&self) -> (r: usize)
        ensures
            r == self@.managed.len(),
    {
        self.managed.len()
    }

    /// The number of services of the group at a position.
    pub fn service_count(&self, i: usize) -> (r: usize)
        ensures
            r == if i < self@.managed.len() {
                self@.managed[i as int].services.len()
            } else {
                0
            },
    {
        if i < self.managed.len() {
            assert(self@.managed[i as int] == self.managed@[i as int]@);
            self.managed[i].services.len()
        } else {
            0
        }
    }

    /// The name of the group at a position.
    pub fn group_at(&self, i: usize) -> (r: Option<&str>)
        ensures
            match r {
                Some(name) => i < self@.groups.len() && name@ == self@.groups[i as int].0,
                None => i >= self@.groups.len(),
            },
    {
        match map_entry(&self.groups, i) {
            Some((name, _)) => Some(name.as_str()),
            None => None,
        }
    }

    /// The position of a group.
    pub fn position(&self, group: &str) -> (r: Option<usize>)
        ensures
            match r {
                Some(i) => engine_model::find(self@.groups, group@) == Some(i as int) && i
                    < self@.groups.len(),
                None => engine_model::find(self@.groups, group@) is None,
            },
    {
        self.find_group(group)
    }

    /// The service at a position of the group at a position.
    pub fn service(&self, i: usize, k: usize) -> (r: Option<&Service>)
        ensures
            match r {
                Some(s) => i < self@.managed.len() && k < self@.managed[i as int].services.len()
                    && s@ == self@.managed[i as int].services[k as int],
                None => i >= self@.managed.len() || k >= self@.managed[i as int].services.len(),
            },
    {
        if i < self.managed.len() {
            assert(self@.managed[i as int] == self.managed@[i as int]@);
            if k < self.managed[i].services.len() {
                return Some(&self.managed[i].services[k]);
            }
        }
        None
    }

    /// Announces that the services of a group are started, or restarted.
    pub(crate) fn announce_services(&mut self, group_name: &str, start: bool)
        requires
            old(self)@.wf(),
        ensures
            final(self)@ == old(self)@.announced(group_name@, start),
            final(self)@.wf(),
    {
        if let Some(gi) = self.find_group(group_name) {
            let ghost m0 = self@;
            assert(m0.managed[gi as int] == self.managed@[gi as int]@);
            let n: usize = self.managed[gi].services.len();
            let mut k: usize = 0;
            while k < n
                invariant
                    0 <= k <= n,
                    gi < m0.managed.len(),
                    n == m0.managed[gi as int].services.len(),
                    engine_model::find(m0.groups, group_name@) == Some(gi as int),
                    self@.wf(),
                    self@.managed == m0.managed,
                    self@ == m0.announce(group_name@, start, k as nat),
                decreases n - k,
            {
                assert(self@.managed[gi as int] == self.managed@[gi as int]@);
                let name = self.managed[gi].services[k].name().to_owned();
                let word: &str = if start {
                    "starting"
                } else {
                    "restarting"
                };
                self.log(name.as_str(), group_name, word);
                k = k + 1;
            }
        }
    }

    /// What to do with a service after the tasks of its group have completed, from
    /// a look at its child: start it, the first time or where it does not run;
    /// else signal it to restart.
    pub(crate) fn service_step(&self, i: usize, k: usize, should_start: bool, seen: &ChildStatus) -> (r:
        Option<ServiceStep>)
        ensures
            match r {
                Some(step) => i < self@.managed.len() && k
                    < self@.managed[i as int].services.len() && ({
                    let s = self@.managed[i as int].services[k as int];
                    let running = s.child is Some && *seen == ChildStatus::Running;
                    if should_start || !running {
                        starts(step, s)
                    } else {
                        signals(step, s)
                    }
                }),
                None => i >= self@.managed.len() || k >= self@.managed[i as int].services.len(),
            },
    {
        match self.service(i, k) {
            Some(s) => if should_start || !s.is_running(seen) {
                Some(start_step(s))
            } else {
                Some(ServiceStep::Signal(s.signal_restart()))
            },
            None => None,
        }
    }

    /// A service of a group runs: a child was started for it, or it was signalled
    /// or left alone.
    pub(crate) fn service_runs(&mut self, i: usize, k: usize, started: Option<(Child, u128)>)
        requires
            old(self)@.wf(),
            i < old(self)@.managed.len(),
            k < old(self)@.managed[i as int].services.len(),
        ensures
            final(self)@ == old(self)@.service_runs(i as int, k as int, started),
            final(self)@.wf(),
            final(self)@.resolver == old(self)@.resolver,
            final(self)@.order == old(self)@.order,
    {
        let ghost m0 = self@;
        assert(m0.managed[i as int] == self.managed@[i as int]@);
        assert(engine_model::fits(m0.groups[i as int].1, m0.managed[i as int]));
        let mut s = copy_service(&self.managed[i].services[k]);
        assert(s@ == m0.managed[i as int].services[k as int]);
        if let Some((child, now)) = started {
            s.started(child, now);
        }
        let pid = s.pid();
        self.put_service(i, k, s);
        self.put_service_state(i, k, ProcessStatus::Running, pid);
    }

    fn put_service(&mut self, i: usize, k: usize, s: Service)
        requires
            old(self)@.wf(),
            i < old(self)@.managed.len(),
            k < old(self)@.managed[i as int].services.len(),
            s@.delay_ok(),
        ensures
            final(self)@ == old(self)@.with_service(i as int, k as int, s@),
            final(self)@.wf(),
    {
        let ghost m0 = self@;
        assert(m0.managed[i as int] == self.managed@[i as int]@);
        let ghost before = self.managed@[i as int];
        let mut group = self.take_managed(i);
        group.services.set(k, s);
        assert(services(group.services@) =~= services(before.services@).update(k as int, s@));
        self.managed.set(i, group);
        proof {
            assert(self@.managed =~= m0.with_service(i as int, k as int, s@).managed);
            assert(engine_model::fits(m0.groups[i as int].1, m0.managed[i as int]));
            lemma_with_managed_wf(m0, i as int, group@);
        }
    }

    /// Takes a managed group out, to be put back.
    fn take_managed(&mut self, i: usize) -> (r: ManagedGroup)
        requires
            i < old(self).managed@.len(),
        ensures
            r == old(self).managed@[i as int],
            final(self).managed@.len() == old(self).managed@.len(),
            forall|j: int|
                0 <= j < old(self).managed@.len() && j != i ==> final(self).managed@[j]
                    == old(self).managed@[j],
            (EngineModel { managed: old(self)@.managed, ..final(self)@ }) == old(self)@,
    {
        let mut placeholder = ManagedGroup {
            config: Default::default(),
            executor: Executor::new(None, None),
            services: Vec::new(),
            daemons_started: false,
            pending_restarts: Vec::new(),
        };
        std::mem::swap(&mut placeholder, &mut self.managed[i]);
        placeholder
    }

    fn put_service_state(&mut self, i: usize, k: usize, status: ProcessStatus, pid: Option<u32>)
        requires
            old(self)@.wf(),
            i < old(self)@.managed.len(),
            k < old(self)@.managed[i as int].services.len(),
        ensures
            final(self)@ == old(self)@.with_service_state(i as int, k as int, status, pid),
            final(self)@.wf(),
    {
        let ghost m = self@;
        assert(engine_model::fits(m.groups[i as int].1, m.managed[i as int]));
        if let Some((_, g)) = map_entry(&self.groups, i) {
            let mut g = g.clone();
            let ghost before = g@;
            let mut p = g.services[k].clone();
            p.status = status;
            p.pid = pid;
            g.services.set(k, p);
            proof {
                assert(g@.services =~= before.services.update(k as int, p@));
                assert(g@.tasks =~= before.tasks);
                lemma_with_group_wf(m, i as int, g@);
            }
            self.put_group(i, g);
        }
    }

    fn put_pending(&mut self, i: usize, k: usize, at: Option<u128>)
        requires
            old(self)@.wf(),
            i < old(self)@.managed.len(),
            k < old(self)@.managed[i as int].services.len(),
        ensures
            final(self)@ == old(self)@.with_pending_restart(i as int, k as int, at),
            final(self)@.wf(),
    {
        let ghost m0 = self@;
        assert(engine_model::fits(m0.groups[i as int].1, m0.managed[i as int]));
        assert(m0.managed[i as int] == self.managed@[i as int]@);
        let mut group = self.take_managed(i);
        group.pending_restarts.set(k, at);
        self.managed.set(i, group);
        proof {
            assert(self@.managed =~= m0.with_pending_restart(i as int, k as int, at).managed);
            lemma_with_managed_wf(m0, i as int, group@);
        }
    }

    /// All services of a group have been seen to.
    pub(crate) fn services_done(&mut self, group_name: &str)
        requires
            old(self)@.wf(),
        ensures
            final(self)@ == old(self)@.services_done(group_name@),
            final(self)@.wf(),
            final(self)@.resolver == old(self)@.resolver,
            final(self)@.order == old(self)@.order,
    {
        if let Some(gi) = self.find_group(group_name) {
            let ghost m0 = self@;
            assert(m0.managed[gi as int] == self.managed@[gi as int]@);
            assert(engine_model::fits(m0.groups[gi as int].1, m0.managed[gi as int]));
            let mut group = self.take_managed(gi);
            group.daemons_started = true;
            self.managed.set(gi, group);
            proof {
                let want = ManagedModel { daemons_started: true, ..m0.managed[gi as int] };
                assert(self@.managed =~= m0.managed.update(gi as int, want));
                lemma_with_managed_wf(m0, gi as int, want);
            }
            self.set_engine_status(group_name, GroupStatus::Ready);
        }
        self.update_state();
    }

    /// What a periodic check does about a service at a time: restart it once its
    /// pending restart is due, leave it until then, and look at its child
    /// otherwise.
    pub fn check_step(&self, i: usize, k: usize, now: u128) -> (r: CheckStep)
        requires
            self@.wf(),
            i < self@.managed.len(),
            k < self@.managed[i as int].services.len(),
        ensures
            match self@.managed[i as int].pending_restarts[k as int] {
                Some(at) => if now >= at {
                    r matches CheckStep::Restart(step) && starts(
                        step,
                        self@.managed[i as int].services[k as int],
                    )
                } else {
                    r is Wait
                },
                None => r is Look,
            },
    {
        assert(engine_model::fits(self@.groups[i as int].1, self@.managed[i as int]));
        assert(self@.managed[i as int] == self.managed@[i as int]@);
        match self.managed[i].pending_restarts[k] {
            Some(at) => if now >= at {
                assert(self@.managed[i as int].services[k as int]
                    == self.managed@[i as int].services@[k as int]@);
                CheckStep::Restart(start_step(&self.managed[i].services[k]))
            } else {
                CheckStep::Wait
            },
            None => CheckStep::Look,
        }
    }

    /// A service whose restart was pending has been restarted.
    pub fn service_restarted(&mut self, i: usize, k: usize, started: Option<(Child, u128)>)
        requires
            old(self)@.wf(),
            i < old(self)@.managed.len(),
            k < old(self)@.managed[i as int].services.len(),
        ensures
            final(self)@ == old(self)@.service_restarted(i as int, k as int, started),
            final(self)@.wf(),
            final(self)@.resolver == old(self)@.resolver,
            final(self)@.order == old(self)@.order,
    {
        self.service_runs(i, k, started);
        self.put_pending(i, k, None);
    }

    /// Takes in a look at the child of a service at a time. A service that has
    /// exited is shown as waiting for its restart, which is due after its delay;
    /// how long it ran and its exit code are handed out.
    pub fn service_seen(&mut self, i: usize, k: usize, seen: ChildStatus, now: u128) -> (r: Result<
        Option<ServiceExitInfo>,
        DaemonError,
    >)
        requires
            old(self)@.wf(),
            i < old(self)@.managed.len(),
            k < old(self)@.managed[i as int].services.len(),
            now + 8_000_000_000 <= u128::MAX,
        ensures
            final(self)@.wf(),
            final(self)@.resolver == old(self)@.resolver,
            final(self)@.order == old(self)@.order,
            ({
                let s = old(self)@.managed[i as int].services[k as int];
                match seen {
                    ChildStatus::Exited { success, code } if s.child is Some => final(self)@ == old(
                        self,
                    )@.service_exited(i as int, k as int, now, success) && (r matches Ok(
                        Some(info),
                    ) && info.duration == s.ran(now) && info.exit_code == code),
                    ChildStatus::Unknown(e) if s.child is Some => final(self)@ == old(self)@ && (
                    r matches Err(DaemonError::Process(ProcessError::Spawn(m))) && m == e),
                    _ => final(self)@ == old(self)@ && (r matches Ok(None)),
                }
            }),
    {
        let ghost m0 = self@;
        assert(m0.managed[i as int] == self.managed@[i as int]@);
        assert(engine_model::fits(m0.groups[i as int].1, m0.managed[i as int]));
        let mut s = copy_service(&self.managed[i].services[k]);
        assert(s@ == m0.managed[i as int].services[k as int]);
        match s.check(seen, now) {
            Ok(Some(info)) => {
                let delay: u64 = s.restart_delay();
                self.put_service(i, k, s);
                self.put_service_state(i, k, ProcessStatus::Backoff, None);
                self.put_pending(i, k, Some(now + delay as u128 * 1_000_000));
                Ok(Some(info))
            },
            Ok(None) => Ok(None),
            Err(e) => Err(DaemonError::Process(e)),
        }
    }

    /// Logs that a service has exited after `seconds`, in seconds with two
    /// decimals.
    pub fn log_exit(&mut self, i: usize, k: usize, seconds: &str, code: Option<i32>)
        requires
            old(self)@.wf(),
            i < old(self)@.managed.len(),
            k < old(self)@.managed[i as int].services.len(),
        ensures
            final(self)@ == old(self)@.log(
                old(self)@.managed[i as int].services[k as int].name(),
                old(self)@.groups[i as int].0,
                "exited after "@ + seconds@ + "s (exit code: "@ + engine_model::exit_text(code)
                    + ")"@,
            ),
            final(self)@.wf(),
            final(self)@.resolver == old(self)@.resolver,
            final(self)@.order == old(self)@.order,
    {
        assert(self@.managed[i as int] == self.managed@[i as int]@);
        assert(self@.managed[i as int].services[k as int]
            == self.managed@[i as int].services@[k as int]@);
        let name = self.managed[i].services[k].name().to_owned();
        let group: String = match map_entry(&self.groups, i) {
            Some((key, _)) => key.clone(),
            None => String::new(),
        };
        let message = cat5(
            "exited after ",
            seconds,
            "s (exit code: ",
            exit_text_of(code).as_str(),
            ")",
        );
        self.log(name.as_str(), group.as_str(), message.as_str());
    }

    /// The daemon is shutting down.
    pub fn begin_shutdown(&mut self)
        ensures
            final(self)@ == (EngineModel { status: DaemonStatus::Stopping, ..old(self)@ }),
    {
        self.state.status = DaemonStatus::Stopping;
    }

    /// A service is being stopped; hands out the process whose group is to get
    /// SIGTERM, where there is one.
    pub fn stop_service(&mut self, i: usize, k: usize) -> (r: Option<u32>)
        requires
            old(self)@.wf(),
            i < old(self)@.managed.len(),
            k < old(self)@.managed[i as int].services.len(),
        ensures
            final(self)@ == old(self)@.with_service(
                i as int,
                k as int,
                ServiceModel {
                    state: ServiceState::Stopping,
                    ..old(self)@.managed[i as int].services[k as int]
                },
            ),
            r == old(self)@.managed[i as int].services[k as int].pid(),
            final(self)@.wf(),
            final(self)@.resolver == old(self)@.resolver,
            final(self)@.order == old(self)@.order,
            final(self)@.managed.len() == old(self)@.managed.len(),
    {
        assert(self@.managed[i as int] == self.managed@[i as int]@);
        assert(engine_model::fits(self@.groups[i as int].1, self@.managed[i as int]));
        let mut s = copy_service(&self.managed[i].services[k]);
        assert(s@ == self@.managed[i as int].services[k as int]);
        let pid = s.stop();
        self.put_service(i, k, s);
        pid
    }

    /// A service has been killed.
    pub fn service_killed(&mut self, i: usize, k: usize)
        requires
            old(self)@.wf(),
            i < old(self)@.managed.len(),
            k < old(self)@.managed[i as int].services.len(),
        ensures
            final(self)@ == old(self)@.with_service(
                i as int,
                k as int,
                ServiceModel {
                    child: None,
                    state: ServiceState::Stopped,
                    ..old(self)@.managed[i as int].services[k as int]
                },
            ),
            final(self)@.wf(),
            final(self)@.resolver == old(self)@.resolver,
            final(self)@.order == old(self)@.order,
    {
        assert(self@.managed[i as int] == self.managed@[i as int]@);
        assert(engine_model::fits(self@.groups[i as int].1, self@.managed[i as int]));
        let mut s = copy_service(&self.managed[i].services[k]);
        assert(s@ == self@.managed[i as int].services[k as int]);
        s.killed();
        self.put_service(i, k, s);
    }

    /// Shows a group as running; hands out its position.
    pub(crate) fn enter_group(&mut self, group_name: &str) -> (r: Result<usize, DaemonError>)
        requires
            old(self)@.wf(),
        ensures
            match engine_model::find(old(self)@.groups, group_name@) {
                Some(i) => final(self)@ == old(self)@.with_group_status(
                    group_name@,
                    GroupStatus::Running,
                ).updated() && (r matches Ok(p) && p == i),
                None => final(self)@ == old(self)@ && (r matches Err(DaemonError::GroupNotFound(g))
                    && g@ == group_name@),
            },
            final(self)@.wf(),
    {
        match self.find_group(group_name) {
            Some(gi) => {
                self.set_engine_status(group_name, GroupStatus::Running);
                self.update_state();
                Ok(gi)
            },
            None => Err(DaemonError::GroupNotFound(group_name.to_owned())),
        }
    }

    /// The number of tasks of the group at a position.
    pub(crate) fn task_count(&self, i: usize) -> (r: usize)
        requires
            i < self@.managed.len(),
        ensures
            r == self@.managed[i as int].config.tasks.len(),
    {
        assert(self@.managed[i as int] == self.managed@[i as int]@);
        self.managed[i].config.tasks.len()
    }

    /// Whether a task runs on changes only, and there was none.
    pub(crate) fn task_left_out(&self, i: usize, k: usize, change: bool) -> (r: bool)
        requires
            i < self@.managed.len(),
            k < self@.managed[i as int].config.tasks.len(),
        ensures
            r == (self@.managed[i as int].config.tasks[k as int].on_change_only && !change),
    {
        assert(self@.managed[i as int] == self.managed@[i as int]@);
        assert(self@.managed[i as int].config.tasks[k as int]
            == self.managed@[i as int].config.tasks@[k as int]@);
        self.managed[i].config.tasks[k].on_change_only && !change
    }

    /// The name of a task.
    pub(crate) fn task_name(&self, i: usize, k: usize) -> (r: &str)
        requires
            i < self@.managed.len(),
            k < self@.managed[i as int].config.tasks.len(),
        ensures
            r@ == engine_model::task_name(self@.managed[i as int].config.tasks[k as int]),
    {
        assert(self@.managed[i as int] == self.managed@[i as int]@);
        assert(self@.managed[i as int].config.tasks[k as int]
            == self.managed@[i as int].config.tasks@[k as int]@);
        self.managed[i].config.tasks[k].name()
    }

    /// The next task of a group run in sequence: its command and the executor to
    /// run it with, unless it runs on changes only and there was none.
    pub(crate) fn run_task(&mut self, i: usize, k: usize, change: bool, exp: &Expansions) -> (r: Result<
        Option<(String, Executor)>,
        DaemonError,
    >)
        requires
            old(self)@.wf(),
            i < old(self)@.managed.len(),
            k < old(self)@.managed[i as int].config.tasks.len(),
        ensures
            ({
                let t = old(self)@.managed[i as int].config.tasks[k as int];
                if t.on_change_only && !change {
                    final(self)@ == old(self)@ && (r matches Ok(None))
                } else {
                    match exp@.of(t.command) {
                        Ok(command) => final(self)@ == old(self)@.run_task(
                            old(self)@.groups[i as int].0,
                            k as int,
                            engine_model::task_name(t),
                            command,
                        ) && (r matches Ok(Some(x)) && x.0@ == command && x.1@
                            == old(self)@.managed[i as int].executor),
                        Err(error) => final(self)@ == old(self)@ && (r matches Err(
                            DaemonError::VarExpansion(e),
                        ) && e@ == error),
                    }
                }
            }),
            final(self)@.wf(),
    {
        let ghost m0 = self@;
        assert(m0.managed[i as int] == self.managed@[i as int]@);
        let t = &self.managed[i].config.tasks[k];
        assert(t@ == m0.managed[i as int].config.tasks[k as int]);
        if t.on_change_only && !change {
            return Ok(None);
        }
        let command: String = match exp.expand(t.command.as_str()) {
            Ok(c) => c,
            Err(e) => {
                return Err(DaemonError::VarExpansion(e));
            },
        };
        let name = t.name().to_owned();
        let executor = self.managed[i].executor.copy();
        let group: String = match map_entry(&self.groups, i) {
            Some((key, _)) => key.clone(),
            None => String::new(),
        };
        self.set_task_status(group.as_str(), k, ProcessStatus::Running);
        self.update_state();
        let message = cat2("running: ", command.as_str());
        self.log(name.as_str(), group.as_str(), message.as_str());
        Ok(Some((command, executor)))
    }

    /// A task of a group run in sequence has ended, after a time in milliseconds,
    /// and in `seconds` with two decimals: with an exit code, or not run at all. A
    /// failure ends the run of the group.
    pub(crate) fn run_task_done(
        &mut self,
        i: usize,
        k: usize,
        outcome: Result<Option<i32>, ProcessError>,
        duration_ms: u64,
        seconds: &str,
    ) -> (r: Result<(), DaemonError>)
        requires
            old(self)@.wf(),
            i < old(self)@.managed.len(),
            k < old(self)@.managed[i as int].config.tasks.len(),
        ensures
            ({
                let name = engine_model::task_name(
                    old(self)@.managed[i as int].config.tasks[k as int],
                );
                match outcome {
                    Ok(code) => if executor::exit_ok(code) {
                        r is Ok && final(self)@ == old(self)@.run_task_succeeded(
                            i as int,
                            k as int,
                            name,
                            code,
                            duration_ms,
                            seconds@,
                        )
                    } else {
                        final(self)@ == old(self)@.run_task_failed(
                            i as int,
                            k as int,
                            name,
                            engine_model::exit_failure(code),
                            code,
                        ) && (r matches Err(DaemonError::TaskFailed { task, error }) && task@
                            == name && error@ == engine_model::exit_failure(code))
                    },
                    Err(e) => final(self)@ == old(self)@.run_task_failed(
                        i as int,
                        k as int,
                        name,
                        process::error::process_error_text(e),
                        None,
                    ) && (r matches Err(DaemonError::TaskFailed { task, error }) && task@ == name
                        && error@ == process::error::process_error_text(e)),
                }
            }),
            final(self)@.wf(),
    {
        let ghost m0 = self@;
        assert(m0.managed[i as int] == self.managed@[i as int]@);
        assert(engine_model::fits(m0.groups[i as int].1, m0.managed[i as int]));
        assert(m0.managed[i as int].config.tasks[k as int]
            == self.managed@[i as int].config.tasks@[k as int]@);
        let name = self.managed[i].config.tasks[k].name().to_owned();
        let group: String = match map_entry(&self.groups, i) {
            Some((key, _)) => key.clone(),
            None => String::new(),
        };
        let (error, code): (String, Option<i32>) = match outcome {
            Ok(code) => {
                let ok = match code {
                    Some(c) => c == 0,
                    None => true,
                };
                if ok {
                    let message = cat5(
                        "completed in ",
                        seconds,
                        "s (exit code: ",
                        exit_text_of(code).as_str(),
                        ")",
                    );
                    self.log(name.as_str(), group.as_str(), message.as_str());
                    let mut t = self.task_state(i, k);
                    t.status = ProcessStatus::Success;
                    t.duration_ms = Some(duration_ms);
                    t.exit_code = code;
                    self.put_task(i, k, t);
                    self.emit(
                        Action::Notify(
                            NotifyEvent::task_success(name.as_str(), group.as_str(), duration_ms),
                        ),
                    );
                    return Ok(());
                }
                let number: i32 = match code {
                    Some(c) => c,
                    None => -1,
                };
                (cat2("process exited with status ", signed_decimal_of(number).as_str()), code)
            },
            Err(e) => (e.to_string(), None),
        };
        let message = cat2("failed: ", error.as_str());
        self.log(name.as_str(), group.as_str(), message.as_str());
        let mut t = self.task_state(i, k);
        t.status = ProcessStatus::Failed;
        if let Some(c) = code {
            t.exit_code = Some(c);
        }
        self.put_task(i, k, t);
        self.set_engine_status(group.as_str(), GroupStatus::Failed);
        self.emit(
            Action::Notify(NotifyEvent::task_failed(name.as_str(), group.as_str(), code)),
        );
        self.update_state();
        Err(DaemonError::TaskFailed { task: name, error })
    }

    fn task_state(&self, i: usize, k: usize) -> (r: ProcessState)
        requires
            i < self@.groups.len(),
            k < self@.groups[i as int].1.tasks.len(),
        ensures
            r@ == self@.groups[i as int].1.tasks[k as int],
    {
        match map_entry(&self.groups, i) {
            Some((_, g)) => g.tasks[k].clone(),
            None => ProcessState::pending(String::new()),
        }
    }

    fn put_task(&mut self, i: usize, k: usize, t: ProcessState)
        requires
            old(self)@.wf(),
            i < old(self)@.groups.len(),
            k < old(self)@.groups[i as int].1.tasks.len(),
        ensures
            final(self)@ == old(self)@.with_task(i as int, k as int, t@),
            final(self)@.wf(),
    {
        let ghost m = self@;
        assert(engine_model::fits(m.groups[i as int].1, m.managed[i as int]));
        if let Some((_, g)) = map_entry(&self.groups, i) {
            let mut g = g.clone();
            let ghost before = g@;
            g.tasks.set(k, t);
            proof {
                assert(g@.tasks =~= before.tasks.update(k as int, t@));
                assert(g@.services =~= before.services);
                lemma_with_group_wf(m, i as int, g@);
            }
            self.put_group(i, g);
        }
    }

    /// What to do with a service when a group is run in sequence: signal it after
    /// a change of files, else start it.
    pub(crate) fn run_service_step(&self, i: usize, k: usize, change: bool) -> (r: Option<ServiceStep>)
        ensures
            match r {
                Some(step) => i < self@.managed.len() && k
                    < self@.managed[i as int].services.len() && if change {
                    signals(step, self@.managed[i as int].services[k as int])
                } else {
                    starts(step, self@.managed[i as int].services[k as int])
                },
                None => i >= self@.managed.len() || k >= self@.managed[i as int].services.len(),
            },
    {
        match self.service(i, k) {
            Some(s) => if change {
                Some(ServiceStep::Signal(s.signal_restart()))
            } else {
                Some(start_step(s))
            },
            None => None,
        }
    }

    /// A group run in sequence is done. After a change of files, its dependents
    /// restart.
    pub(crate) fn run_group_done(&mut self, group_name: &str, change: bool, exp: &Expansions)
        requires
            old(self)@.wf(),
            change ==> old(self)@.acyclic(),
        ensures
            final(self)@ == old(self)@.run_done(group_name@, change, exp@),
            final(self)@.wf(),
            final(self)@.resolver == old(self)@.resolver,
            final(self)@.order == old(self)@.order,
    {
        self.set_engine_status(group_name, GroupStatus::Ready);
        if change {
            proof {
                lemma_acyclic_kept(old(self)@, self@);
            }
            self.cascade_daemon_restart(group_name, exp);
        }
        self.update_state();
    }

    /// Restart a specific process (task or service) within a group. A task is
    /// spawned; for a service the signal to send is handed out, after which its
    /// restart is to go on to dependents.
    pub fn restart_process(&mut self, group_name: &str, process_name: &str, exp: &Expansions) -> (r:
        Result<ProcessRestart, DaemonError>)
        requires
            old(self)@.wf(),
        ensures
            match engine_model::find(old(self)@.groups, group_name@) {
                None => final(self)@ == old(self)@ && (r matches Err(DaemonError::GroupNotFound(g))
                    && g@ == group_name@),
                Some(i) => {
                    let g = old(self)@.managed[i];
                    match engine_model::task_named(g.config.tasks, process_name@) {
                        Some(k) => {
                            let t = g.config.tasks[k];
                            match exp@.of(t.command) {
                                Ok(command) => final(self)@ == old(self)@.spawn_task(
                                    group_name@,
                                    process_name@,
                                    k,
                                    command,
                                    g.executor.refined(t.working_dir, t.env),
                                    t.silence,
                                ) && (r matches Ok(ProcessRestart::Task)),
                                Err(error) => final(self)@ == old(self)@ && (r matches Err(
                                    DaemonError::VarExpansion(e),
                                ) && e@ == error),
                            }
                        },
                        None => match engine_model::service_named(g.services, process_name@) {
                            Some(k) => final(self)@ == old(self)@.log(
                                process_name@,
                                group_name@,
                                "restarting"@,
                            ) && (r matches Ok(ProcessRestart::Service(signal)) && signal
                                == match g.services[k].pid() {
                                Some(pid) => Some((pid, g.services[k].config.signal)),
                                None => None,
                            }),
                            None => final(self)@ == old(self)@ && (r matches Err(
                                DaemonError::TaskFailed { task, error },
                            ) && task@ == process_name@ && error@ == "process '"@ + process_name@
                                + "' not found in group '"@ + group_name@ + "'"@),
                        },
                    }
                },
            },
            final(self)@.wf(),
            final(self)@.resolver == old(self)@.resolver,
            final(self)@.order == old(self)@.order,
    {
        let gi: usize = match self.find_group(group_name) {
            Some(i) => i,
            None => {
                return Err(DaemonError::GroupNotFound(group_name.to_owned()));
            },
        };
        let ghost g = self@.managed[gi as int];
        assert(g == self.managed@[gi as int]@);
        if let Some(k) = find_task(&self.managed[gi].config.tasks, process_name) {
            let t = &self.managed[gi].config.tasks[k];
            assert(t@ == g.config.tasks[k as int]);
            let command: String = match exp.expand(t.command.as_str()) {
                Ok(c) => c,
                Err(e) => {
                    return Err(DaemonError::VarExpansion(e));
                },
            };
            let executor = self.managed[gi].executor.refine(&t.working_dir, &t.env);
            let silence = t.silence;
            self.spawn_task(group_name, process_name, k, command, executor, silence);
            return Ok(ProcessRestart::Task);
        }
        if let Some(k) = find_service(&self.managed[gi].services, process_name) {
            assert(self.managed@[gi as int].services@[k as int]@ == g.services[k as int]);
            let signal = self.managed[gi].services[k].signal_restart();
            self.log(process_name, group_name, "restarting");
            return Ok(ProcessRestart::Service(signal));
        }
        Err(
            DaemonError::TaskFailed {
                task: process_name.to_owned(),
                error: cat5("process '", process_name, "' not found in group '", group_name, "'"),
            },
        )
    }

    /// A single service was signalled to restart: its dependents restart.
    pub fn process_signalled(&mut self, group_name: &str, exp: &Expansions)
        requires
            old(self)@.wf(),
            old(self)@.acyclic(),
        ensures
            final(self)@ == old(self)@.restart_dependents(group_name@, exp@).updated(),
            final(self)@.wf(),
            final(self)@.acyclic(),
    {
        self.cascade_daemon_restart(group_name, exp);
        self.update_state();
        proof {
            lemma_acyclic_kept(old(self)@, self@);
        }
    }

    fn stop_group_services(&mut self, gi: usize)
        requires
            old(self)@.wf(),
            gi < old(self)@.managed.len(),
        ensures
            final(self)@ == old(self)@.stop_services(
                gi as int,
                old(self)@.managed[gi as int].services.len(),
            ),
            final(self)@.wf(),
            final(self)@.groups == old(self)@.groups,
    {
        let ghost m0 = self@;
        assert(m0.managed[gi as int] == self.managed@[gi as int]@);
        let n: usize = self.managed[gi].services.len();
        let mut k: usize = 0;
        while k < n
            invariant
                0 <= k <= n,
                gi < m0.managed.len(),
                n == m0.managed[gi as int].services.len(),
                self@.wf(),
                self@.managed.len() == m0.managed.len(),
                self@.managed[gi as int].services.len() == n,
                self@.groups == m0.groups,
                self@ == m0.stop_services(gi as int, k as nat),
            decreases n - k,
        {
            if let Some(pid) = self.stop_service(gi, k) {
                self.emit(Action::Terminate(pid));
            }
            k = k + 1;
        }
    }

    fn stop_groups(&mut self, names: &Vec<String>)
        requires
            old(self)@.wf(),
        ensures
            final(self)@ == old(self)@.stop_groups(text::texts(names@)),
            final(self)@.wf(),
    {
        let ghost m0 = self@;
        let ghost list = text::texts(names@);
        let mut i: usize = 0;
        assert(list.take(0) =~= Seq::<Text>::empty());
        while i < names.len()
            invariant
                0 <= i <= names@.len(),
                list == text::texts(names@),
                self@.wf(),
                self@ == m0.stop_groups(list.take(i as int)),
            decreases names.len() - i,
        {
            assert(list.take(i + 1).drop_last() =~= list.take(i as int));
            assert(list.take(i + 1).last() == names@[i as int]@);
            if let Some(gi) = self.find_group(names[i].as_str()) {
                self.stop_group_services(gi);
            }
            i = i + 1;
        }
        assert(list.take(list.len() as int) =~= list);
    }

    /// Reload a configuration that was read anew. `patterns` tells whether the
    /// patterns of its groups could be compiled.
    ///
    /// Services of removed and modified groups are stopped; then the order, the
    /// dependencies and the groups are replaced: every group is built anew from the
    /// configuration, also one that was not modified. Hands out the groups that were
    /// added, removed and modified: the added and modified ones are to be run.
    pub fn reload_config(
        &mut self,
        parsed: Result<Config, ConfigError>,
        patterns: Result<(), String>,
    ) -> (r: Result<ConfigChanges, String>)
        requires
            old(self)@.wf(),
        ensures
            final(self)@.wf(),
            match parsed {
                Err(e) => final(self)@ == old(self)@ && (r matches Err(m) && m@ == "parse error: "@
                    + error::config_error_text(e)),
                Ok(config) => exists|removed: Seq<Text>|
                    #![trigger old(self)@.stop_groups(removed)]
                    {
                        let olds = old(self)@.setup.groups;
                        let news = schema::groups(config.groups@);
                        let setup = SetupModel {
                            groups: news,
                            variables: config.variables@,
                            shell: text::opt_text(config.settings.shell),
                            log_format: config.settings.log_format,
                            ..old(self)@.setup
                        };
                        let stopped = old(self)@.stop_groups(removed).stop_groups(
                            planning::modified_names(olds, news),
                        );
                        &&& removed.no_duplicates()
                        &&& forall|x: Text| #[trigger]
                            removed.contains(x) <==> graph::group_names(olds).contains(x)
                                && !graph::group_names(news).contains(x)
                        &&& match graph::group_order(news) {
                            Err(cycle) => final(self)@ == stopped && (r matches Err(m) && m@
                                == "dependency error: cyclic dependency detected involving: "@
                                + cycle.last()),
                            Ok(order) => match patterns {
                                Err(e) => final(self)@ == stopped.reconfigured(setup, order) && (
                                r matches Err(m) && m@ == "rebuild error: watch error: "@ + e@),
                                Ok(()) => final(self)@ == stopped.reconfigured(
                                    setup,
                                    order,
                                ).rebuilt() && (graph::group_names(news).no_duplicates()
                                    ==> final(self)@.acyclic()) && (r matches Ok(changes)
                                    && text::texts(changes.removed@) == removed && text::texts(
                                    changes.modified@,
                                ) == planning::modified_names(olds, news) && text::texts(
                                    changes.added@,
                                ).no_duplicates() && forall|x: Text| #[trigger]
                                    text::texts(changes.added@).contains(x)
                                        <==> graph::group_names(news).contains(x)
                                        && !graph::group_names(olds).contains(x)),
                            },
                        }
                    },
            },
    {
        let config = match parsed {
            Ok(c) => c,
            Err(e) => {
                return Err(cat2("parse error: ", e.to_string().as_str()));
            },
        };
        let ghost olds = self@.setup.groups;
        let ghost news = schema::groups(config.groups@);
        let ghost setup = SetupModel {
            groups: news,
            variables: config.variables@,
            shell: text::opt_text(config.settings.shell),
            log_format: config.settings.log_format,
            ..old(self)@.setup
        };
        let (added, removed, modified) = compute_config_changes(
            &self.config.groups,
            &config.groups,
        );
        self.stop_groups(&removed);
        proof {
            lemma_stop_keeps_setup(old(self)@, text::texts(removed@));
        }
        self.stop_groups(&modified);
        let ghost stopped = self@;
        proof {
            lemma_stop_keeps_setup(
                old(self)@.stop_groups(text::texts(removed@)),
                text::texts(modified@),
            );
            assert(stopped == old(self)@.stop_groups(text::texts(removed@)).stop_groups(
                planning::modified_names(olds, news),
            ));
        }
        let execution_order = match topological_sort(&config.groups) {
            Ok(order) => order,
            Err(e) => {
                let message = cat2("dependency error: ", e.to_string().as_str());
                proof {
                    reveal_strlit("dependency error: ");
                    reveal_strlit("cyclic dependency detected involving: ");
                    reveal_strlit("dependency error: cyclic dependency detected involving: ");
                    let cycle = graph::group_order(news)->Err_0;
                    assert(message@ =~= "dependency error: cyclic dependency detected involving: "@
                        + cycle.last());
                }
                return Err(message);
            },
        };
        let resolver = build_resolver(&config.groups);
        self.config = config;
        self.execution_order = execution_order;
        self.dependency_resolver = resolver;
        proof {
            lemma_pairs_nothing_waits(engine_model::config_pairs(news));
            assert(self@ == stopped.reconfigured(setup, self@.order));
        }
        if let Err(e) = patterns {
            let message = cat2("rebuild error: watch error: ", e.as_str());
            return Err(message);
        }
        let (groups, managed) = build_groups(&self.config, &self.root, &self.env_shell);
        self.groups = groups;
        self.managed = managed;
        self.state.groups = map_clone(&self.groups);
        proof {
            assert((state::group_entries(self.groups), managed_groups(self.managed@))
                == engine_model::built(news, setup));
            lemma_built_wf(news, setup);
            assert(self@ == stopped.reconfigured(setup, self@.order).rebuilt());
            if graph::group_names(news).no_duplicates() {
                lemma_order_acyclic(news, self@);
            }
        }
        Ok(ConfigChanges { added, removed, modified })
    }

    /// A reload is done: it is logged, and the state broadcast.
    pub fn reload_done(&mut self, changes: ConfigChanges) -> (r: ReloadResult)
        ensures
            final(self)@ == old(self)@.emit(
                ActionModel::Log {
                    process: "zaz"@,
                    group: None,
                    content: reload_text(
                        "configuration reloaded: "@,
                        changes.added@.len(),
                        changes.removed@.len(),
                        changes.modified@.len(),
                    ),
                },
            ).updated(),
            r == (ReloadResult::Success {
                added: changes.added,
                removed: changes.removed,
                modified: changes.modified,
            }),
    {
        let content = reload_text_of(
            "configuration reloaded: ",
            changes.added.len(),
            changes.removed.len(),
            changes.modified.len(),
        );
        self.emit(Action::Log { process: "zaz".to_owned(), group: None, content });
        self.update_state();
        ReloadResult::Success {
            added: changes.added,
            removed: changes.removed,
            modified: changes.modified,
        }
    }

    /// How long the watcher waits for more changes before it reports any, in
    /// milliseconds. It is made once, so that a reload leaves it as it is.
    pub fn debounce_ms(&self) -> (r: u64)
        ensures
            r == self@.setup.debounce_ms,
    {
        self.debounce_ms
    }

    /// Whether the engine runs embedded in another process.
    pub fn is_embedded(&self) -> (r: bool)
        ensures
            r == self@.setup.embedded,
    {
        self.embedded
    }

    fn context(&self, source: TriggerSource, files: Vec<String>, run_on_change_tasks: bool) -> (r:
        TriggerContext)
        ensures
            r.source == source,
            r.vars.variables@ == self@.setup.variables,
            r.vars.files == files,
            r.vars.root@ == self@.setup.root,
            r.run_on_change_tasks == run_on_change_tasks,
            r.should_cascade,
    {
        TriggerContext {
            source,
            vars: Context {
                variables: self.config.variables.copy(),
                files,
                root: self.root.clone(),
            },
            run_on_change_tasks,
            should_cascade: true,
        }
    }

    /// Create a trigger context for initial startup.
    pub fn startup_context(&self) -> (r: TriggerContext)
        ensures
            r.source is Startup,
            r.vars.variables@ == self@.setup.variables,
            r.vars.files@.len() == 0,
            r.vars.root@ == self@.setup.root,
            !r.run_on_change_tasks,
            r.should_cascade,
    {
        self.context(TriggerSource::Startup, Vec::new(), false)
    }

    /// Create a trigger context for file change events.
    pub fn file_change_context(&self, files: Vec<String>) -> (r: TriggerContext)
        ensures
            r.source matches TriggerSource::FileChange { files: f } && f@ == files@,
            r.vars.variables@ == self@.setup.variables,
            r.vars.files@ == files@,
            r.vars.root@ == self@.setup.root,
            r.run_on_change_tasks,
            r.should_cascade,
    {
        let copy = files.clone();
        self.context(TriggerSource::FileChange { files: copy }, files, true)
    }

    /// Create a trigger context for manual restart requests.
    pub fn manual_restart_context(&self, scope: RestartScope) -> (r: TriggerContext)
        ensures
            r.source == (TriggerSource::ManualRestart { scope }),
            r.vars.variables@ == self@.setup.variables,
            r.vars.files@.len() == 0,
            r.vars.root@ == self@.setup.root,
            !r.run_on_change_tasks,
            r.should_cascade,
    {
        self.context(TriggerSource::ManualRestart { scope }, Vec::new(), false)
    }

    /// Create a trigger context for when a dependency becomes ready.
    pub fn dependency_ready_context(&self, completed_group: &str) -> (r: TriggerContext)
        ensures
            r.source matches TriggerSource::DependencyReady { completed_group: g } && g@
                == completed_group@,
            r.vars.variables@ == self@.setup.variables,
            r.vars.files@.len() == 0,
            r.vars.root@ == self@.setup.root,
            !r.run_on_change_tasks,
            r.should_cascade,
    {
        self.context(
            TriggerSource::DependencyReady { completed_group: completed_group.to_owned() },
            Vec::new(),
            false,
        )
    }

    /// Create a trigger context for daemon restart cascades.
    pub fn daemon_restart_context(&self, source_group: &str) -> (r: TriggerContext)
        ensures
            r.source matches TriggerSource::DaemonRestart { group } && group@ == source_group@,
            r.vars.variables@ == self@.setup.variables,
            r.vars.files@.len() == 0,
            r.vars.root@ == self@.setup.root,
            !r.run_on_change_tasks,
            r.should_cascade,
    {
        self.context(
            TriggerSource::DaemonRestart { group: source_group.to_owned() },
            Vec::new(),
            false,
        )
    }

    /// Create a trigger context for task completion events.
    pub fn task_completion_context(&self, completed_group: &str) -> (r: TriggerContext)
        ensures
            r.source matches TriggerSource::TaskCompletion { group } && group@ == completed_group@,
            r.vars.variables@ == self@.setup.variables,
            r.vars.files@.len() == 0,
            r.vars.root@ == self@.setup.root,
            !r.run_on_change_tasks,
            r.should_cascade,
    {
        self.context(
            TriggerSource::TaskCompletion { group: completed_group.to_owned() },
            Vec::new(),
            false,
        )
    }

    /// The patterns to watch and those to ignore, of all groups together.
    pub fn combined_patterns(&self) -> (r: (Vec<String>, Vec<String>))
        ensures
            text::texts(r.0@) == all_patterns(self@.setup.groups),
            text::texts(r.1@) == all_ignores(self@.setup.groups),
    {
        let ghost all = self@.setup.groups;
        let mut includes: Vec<String> = Vec::new();
        let mut ignores: Vec<String> = Vec::new();
        let mut i: usize = 0;
        proof {
            assert(all.take(0) =~= Seq::<GroupConfig>::empty());
            assert(text::texts(includes@) =~= Seq::<Text>::empty());
            assert(text::texts(ignores@) =~= Seq::<Text>::empty());
        }
        while i < self.config.groups.len()
            invariant
                0 <= i <= self.config.groups@.len(),
                all == schema::groups(self.config.groups@),
                text::texts(includes@) == all_patterns(all.take(i as int)),
                text::texts(ignores@) == all_ignores(all.take(i as int)),
            decreases self.config.groups.len() - i,
        {
            assert(all.take(i + 1).drop_last() =~= all.take(i as int));
            assert(all.take(i + 1).last() == self.config.groups@[i as int]@);
            append_all(&mut includes, &self.config.groups[i].patterns);
            append_all(&mut ignores, &self.config.groups[i].ignore);
            i = i + 1;
        }
        assert(all.take(all.len() as int) =~= all);
        (includes, ignores)
    }
}

/// The watched patterns of a list of groups.
pub open spec fn all_patterns(groups: Seq<GroupConfig>) -> Seq<Text>
    decreases groups.len(),
{
    if groups.len() == 0 {
        Seq::empty()
    } else {
        all_patterns(groups.drop_last()) + groups.last().patterns
    }
}

/// The ignored patterns of a list of groups.
pub open spec fn all_ignores(groups: Seq<GroupConfig>) -> Seq<Text>
    decreases groups.len(),
{
    if groups.len() == 0 {
        Seq::empty()
    } else {
        all_ignores(groups.drop_last()) + groups.last().ignore
    }
}

fn append_all(to: &mut Vec<String>, from: &Vec<String>)
    ensures
        text::texts(final(to)@) == text::texts(old(to)@) + text::texts(from@),
{
    let ghost before = text::texts(to@);
    let mut i: usize = 0;
    assert(before + text::texts(from@).take(0) =~= before);
    while i < from.len()
        invariant
            0 <= i <= from@.len(),
            text::texts(to@) == before + text::texts(from@).take(i as int),
        decreases from.len() - i,
    {
        to.push(from[i].clone());
        assert(text::texts(from@).take(i + 1) =~= text::texts(from@).take(i as int).push(
            from@[i as int]@,
        ));
        i = i + 1;
        assert(text::texts(to@) =~= before + text::texts(from@).take(i as int));
    }
    assert(text::texts(from@).take(from@.len() as int) =~= text::texts(from@));
}

/// What a reload changed, by group name.
#[derive(Debug)]
pub struct ConfigChanges {
    pub added: Vec<String>,
    pub removed: Vec<String>,
    pub modified: Vec<String>,
}

/// The numbers of a reload in words.
pub open spec fn reload_text(prefix: Text, added: nat, removed: nat, modified: nat) -> Text {
    prefix + text::decimal(added) + " added, "@ + text::decimal(removed) + " removed, "@
        + text::decimal(modified) + " modified"@
}

/// The numbers of a reload in words.
pub fn reload_text_of(prefix: &str, added: usize, removed: usize, modified: usize) -> (r: String)
    ensures
        r@ == reload_text(prefix@, added as nat, removed as nat, modified as nat),
{
    cat7(
        prefix,
        decimal_of(added as u64).as_str(),
        " added, ",
        decimal_of(removed as u64).as_str(),
        " removed, ",
        decimal_of(modified as u64).as_str(),
        " modified",
    )
}

/// How a process is restarted.
#[derive(Debug)]
pub enum ProcessRestart {
    /// The task was spawned, or queued.
    Task,
    /// The service is to be signalled: the process that leads its group, and the
    /// signal, where there is one.
    Service(Option<(u32, Signal)>),
}

/// Stopping services changes nothing of what the engine was set up with.
proof fn lemma_stop_keeps_setup(m: EngineModel, names: Seq<Text>)
    ensures
        m.stop_groups(names).setup == m.setup,
    decreases names.len(),
{
    if names.len() > 0 {
        lemma_stop_keeps_setup(m, names.drop_last());
        let n = m.stop_groups(names.drop_last());
        if let Some(i) = engine_model::find(n.groups, names.last()) {
            lemma_stop_services_keeps_setup(n, i, n.managed[i].services.len());
        }
    }
}

proof fn lemma_stop_services_keeps_setup(m: EngineModel, i: int, n: nat)
    ensures
        m.stop_services(i, n).setup == m.setup,
    decreases n,
{
    if n > 0 {
        lemma_stop_services_keeps_setup(m, i, (n - 1) as nat);
    }
}

/// The first service of a list with a name.
fn find_service(list: &Vec<Service>, name: &str) -> (r: Option<usize>)
    ensures
        match r {
            Some(i) => i < list@.len() && engine_model::service_named(services(list@), name@)
                == Some(i as int),
            None => engine_model::service_named(services(list@), name@) is None,
        },
{
    let ghost all = services(list@);
    let mut i: usize = 0;
    while i < list.len()
        invariant
            0 <= i <= list@.len(),
            all == services(list@),
            forall|j: int| 0 <= j < i ==> (#[trigger] all[j]).name() != name@,
        decreases list.len() - i,
    {
        assert(all[i as int] == list@[i as int]@);
        if str_eq(list[i].name(), name) {
            proof {
                lemma_service_named(all, name@, i as int);
            }
            return Some(i);
        }
        i = i + 1;
    }
    proof {
        lemma_service_named(all, name@, i as int);
    }
    None
}

proof fn lemma_service_named(list: Seq<ServiceModel>, name: Text, i: int)
    requires
        0 <= i <= list.len(),
        forall|j: int| 0 <= j < i ==> (#[trigger] list[j]).name() != name,
        i < list.len() ==> list[i].name() == name,
    ensures
        engine_model::service_named(list, name) == if i < list.len() {
            Some(i)
        } else {
            None
        },
    decreases list.len(),
{
    if list.len() > 0 && list[0].name() != name {
        assert forall|j: int| 0 <= j < i - 1 implies (#[trigger] list.drop_first()[j]).name()
            != name by {
            assert(list[j + 1].name() != name);
        }
        lemma_service_named(list.drop_first(), name, i - 1);
    }
}

/// An exit code in words.
pub fn exit_text_of(code: Option<i32>) -> (r: String)
    ensures
        r@ == engine_model::exit_text(code),
{
    match code {
        Some(c) => signed_decimal_of(c),
        None => "?".to_owned(),
    }
}

/// What a periodic check does about a service.
#[derive(Debug)]
pub enum CheckStep {
    /// Restart it.
    Restart(ServiceStep),
    /// Leave it until its restart is due.
    Wait,
    /// Look at its child.
    Look,
}

/// What to do with a service.
#[derive(Debug)]
pub enum ServiceStep {
    /// Start it after its startup delay, in milliseconds; nothing is to be spawned
    /// for a service that runs.
    Start { delay_ms: Option<u64>, plan: Option<SpawnPlan> },
    /// Signal the process group that this process leads, where there is one.
    Signal(Option<(u32, Signal)>),
}

/// Whether a step starts a service.
pub open spec fn starts(step: ServiceStep, s: ServiceModel) -> bool {
    match step {
        ServiceStep::Start { delay_ms, plan } => delay_ms == s.config.delay_ms && match plan {
            Some(p) => s.state != ServiceState::Running && p.program@ == s.executor.shell
                && text::texts(p.args@) == seq!["-c"@, s.config.command] && text::opt_text(
                p.working_dir,
            ) == s.executor.working_dir && p.env@ == s.executor.env && p.pty == !s.config.no_pty,
            None => s.state == ServiceState::Running,
        },
        ServiceStep::Signal(_) => false,
    }
}

/// Whether a step signals a service to restart.
pub open spec fn signals(step: ServiceStep, s: ServiceModel) -> bool {
    step == ServiceStep::Signal(
        match s.pid() {
            Some(pid) => Some((pid, s.config.signal)),
            None => None,
        },
    )
}

fn start_step(s: &Service) -> (r: ServiceStep)
    ensures
        starts(r, s@),
{
    ServiceStep::Start { delay_ms: s.startup_delay(), plan: s.start(s.command_template()) }
}

/// A copy of a service.
fn copy_service(s: &Service) -> (r: Service)
    ensures
        r@ == s@,
{
    Service {
        config: s.config.clone(),
        executor: s.executor.copy(),
        child: s.child,
        state: s.state,
        restart_delay: s.restart_delay,
        last_start: s.last_start,
    }
}

/// Replacing a managed group by one that fits keeps the parts together.
proof fn lemma_with_managed_wf(m: EngineModel, i: int, g: ManagedModel)
    requires
        m.wf(),
        0 <= i < m.managed.len(),
        engine_model::fits(m.groups[i].1, g),
    ensures
        m.with_managed(i, g).wf(),
{
    let n = m.with_managed(i, g);
    assert forall|k: int| 0 <= k < n.groups.len() implies engine_model::fits(
        (#[trigger] n.groups[k]).1,
        n.managed[k],
    ) by {
        assert(engine_model::fits(m.groups[k].1, m.managed[k]));
    }
}

/// Builds the states and the managed groups of a configuration.
fn build_groups(config: &Config, root: &String, env_shell: &Option<String>) -> (r: (
    IndexMap<String, GroupState>,
    Vec<ManagedGroup>,
))
    ensures
        forall|variables: Map<Text, Text>, debounce_ms: u64, embedded: bool|
            (state::group_entries(r.0), managed_groups(r.1@)) == #[trigger] engine_model::built(
                schema::groups(config.groups@),
                SetupModel {
                    groups: schema::groups(config.groups@),
                    variables,
                    shell: text::opt_text(config.settings.shell),
                    log_format: config.settings.log_format,
                    env_shell: text::opt_text(*env_shell),
                    root: root@,
                    debounce_ms,
                    embedded,
                },
            ),
{
    let ghost all = schema::groups(config.groups@);
    let ghost setup = SetupModel {
        groups: all,
        variables: Map::empty(),
        shell: text::opt_text(config.settings.shell),
        log_format: config.settings.log_format,
        env_shell: text::opt_text(*env_shell),
        root: root@,
        debounce_ms: 0,
        embedded: false,
    };
    let mut states = map_new();
    let mut managed: Vec<ManagedGroup> = Vec::new();
    let mut i: usize = 0;
    proof {
        assert(all.take(0) =~= Seq::<GroupConfig>::empty());
        assert(managed_groups(managed@) =~= Seq::<ManagedModel>::empty());
    }
    while i < config.groups.len()
        invariant
            0 <= i <= config.groups@.len(),
            all == schema::groups(config.groups@),
            setup == (SetupModel {
                groups: all,
                variables: Map::empty(),
                shell: text::opt_text(config.settings.shell),
                log_format: config.settings.log_format,
                env_shell: text::opt_text(*env_shell),
                root: root@,
                debounce_ms: 0,
                embedded: false,
            }),
            (state::group_entries(states), managed_groups(managed@)) == engine_model::built(
                all.take(i as int),
                setup,
            ),
            state::group_entries(states).len() == managed@.len(),
        decreases config.groups.len() - i,
    {
        let group = &config.groups[i];
        proof {
            assert(all.take(i + 1).drop_last() =~= all.take(i as int));
            assert(all.take(i + 1).last() == group@);
        }
        let fresh = fresh_managed_group(config, group, root, env_shell, Ghost(setup));
        let fresh_state = fresh_group_state(group);
        let ghost before = state::group_entries(states);
        let ghost managed_before = managed_groups(managed@);
        match map_index_of(&states, group.name.as_str()) {
            Some(k) => {
                proof {
                    lemma_find(before, group.name@, k as int);
                }
                managed.set(k, fresh);
                assert(managed_groups(managed@) =~= managed_before.update(k as int, fresh@));
            },
            None => {
                managed.push(fresh);
                assert(managed_groups(managed@) =~= managed_before.push(fresh@));
            },
        }
        map_insert(&mut states, group.name.clone(), fresh_state);
        i = i + 1;
    }
    assert(all.take(all.len() as int) =~= all);
    proof {
        assert forall|variables: Map<Text, Text>, debounce_ms: u64, embedded: bool|
            (state::group_entries(states), managed_groups(managed@))
                == #[trigger] engine_model::built(
            all,
            SetupModel {
                groups: all,
                variables,
                shell: text::opt_text(config.settings.shell),
                log_format: config.settings.log_format,
                env_shell: text::opt_text(*env_shell),
                root: root@,
                debounce_ms,
                embedded,
            },
        ) by {
            lemma_built_same(
                all,
                setup,
                SetupModel {
                    groups: all,
                    variables,
                    shell: text::opt_text(config.settings.shell),
                    log_format: config.settings.log_format,
                    env_shell: text::opt_text(*env_shell),
                    root: root@,
                    debounce_ms,
                    embedded,
                },
            );
        }
    }
    (states, managed)
}

/// A managed group that has not run yet.
fn fresh_managed_group(
    config: &Config,
    group: &Group,
    root: &String,
    env_shell: &Option<String>,
    Ghost(setup): Ghost<SetupModel>,
) -> (r: ManagedGroup)
    requires
        setup.shell == text::opt_text(config.settings.shell),
        setup.env_shell == text::opt_text(*env_shell),
        setup.root == root@,
    ensures
        r@ == engine_model::fresh_managed(group@, setup),
{
    let working_dir: String = match &group.working_dir {
        Some(d) => d.clone(),
        None => root.clone(),
    };
    let executor = Executor::new(
        config.settings.shell.clone(),
        env_shell.clone(),
    ).with_working_dir(working_dir).with_env(group.env.copy());
    let ghost model = engine_model::group_executor(group@, setup);
    assert(executor@ == model);
    let mut list: Vec<Service> = Vec::new();
    let mut pending: Vec<Option<u128>> = Vec::new();
    let mut k: usize = 0;
    while k < group.daemons.len()
        invariant
            0 <= k <= group.daemons@.len(),
            executor@ == model,
            list@.len() == k,
            pending@.len() == k,
            forall|j: int|
                0 <= j < k ==> (#[trigger] list@[j])@ == ServiceModel::fresh(
                    group.daemons@[j]@,
                    model.refined(group.daemons@[j]@.working_dir, group.daemons@[j]@.env),
                ),
            forall|j: int| 0 <= j < k ==> #[trigger] pending@[j] == None::<u128>,
        decreases group.daemons.len() - k,
    {
        let d = &group.daemons[k];
        let own = executor.refine(&d.working_dir, &d.env);
        list.push(Service::new(d.clone(), own));
        pending.push(None);
        k = k + 1;
    }
    let r = ManagedGroup {
        config: group.clone(),
        executor,
        services: list,
        daemons_started: false,
        pending_restarts: pending,
    };
    proof {
        let want = engine_model::fresh_managed(group@, setup);
        assert(r@.services =~= want.services);
        assert(r@.pending_restarts =~= want.pending_restarts);
    }
    r
}

/// The state of a group that has not run yet.
fn fresh_group_state(group: &Group) -> (r: GroupState)
    ensures
        r@ == engine_model::fresh_group(group@),
{
    let mut tasks: Vec<ProcessState> = Vec::new();
    let mut i: usize = 0;
    while i < group.tasks.len()
        invariant
            0 <= i <= group.tasks@.len(),
            tasks@.len() == i,
            forall|j: int|
                0 <= j < i ==> (#[trigger] tasks@[j])@ == state::fresh_process(
                    engine_model::task_name(group.tasks@[j]@),
                ),
        decreases group.tasks.len() - i,
    {
        tasks.push(ProcessState::pending(group.tasks[i].name().to_owned()));
        i = i + 1;
    }
    let mut list: Vec<ProcessState> = Vec::new();
    let mut k: usize = 0;
    while k < group.daemons.len()
        invariant
            0 <= k <= group.daemons@.len(),
            list@.len() == k,
            forall|j: int|
                0 <= j < k ==> (#[trigger] list@[j])@ == state::fresh_process(
                    schema::display_name(group.daemons@[j]@.name, group.daemons@[j]@.command),
                ),
        decreases group.daemons.len() - k,
    {
        list.push(ProcessState::pending(group.daemons[k].name().to_owned()));
        k = k + 1;
    }
    let r = GroupState {
        name: group.name.clone(),
        status: GroupStatus::Pending,
        tasks,
        services: list,
    };
    proof {
        let want = engine_model::fresh_group(group@);
        assert(r@.tasks =~= want.tasks);
        assert(r@.services =~= want.services);
    }
    r
}

/// Builds the dependency resolver of a configuration.
fn build_resolver(groups: &Vec<Group>) -> (r: DependencyResolver)
    ensures
        r@ == ResolverModel::of_groups(engine_model::config_pairs(schema::groups(groups@))),
{
    let mut pairs: Vec<(&str, &[String])> = Vec::new();
    let mut i: usize = 0;
    while i < groups.len()
        invariant
            0 <= i <= groups@.len(),
            pairs@.len() == i,
            forall|j: int|
                0 <= j < i ==> (#[trigger] pairs@[j]).0@ == groups@[j].name@ && pairs@[j].1@
                    == groups@[j].depends_on@,
        decreases groups.len() - i,
    {
        pairs.push((groups[i].name.as_str(), groups[i].depends_on.as_slice()));
        i = i + 1;
    }
    assert(dependency::group_pairs(pairs@) =~= engine_model::config_pairs(
        schema::groups(groups@),
    ));
    DependencyResolver::from_groups(pairs)
}

/// Only the shells and the directory matter to how groups are built.
proof fn lemma_built_same(groups: Seq<GroupConfig>, a: SetupModel, b: SetupModel)
    requires
        a.shell == b.shell,
        a.env_shell == b.env_shell,
        a.root == b.root,
    ensures
        engine_model::built(groups, a) == engine_model::built(groups, b),
    decreases groups.len(),
{
    if groups.len() > 0 {
        lemma_built_same(groups.drop_last(), a, b);
        let c = groups.last();
        assert(engine_model::group_executor(c, a) == engine_model::group_executor(c, b));
        assert(engine_model::fresh_managed(c, a).services =~= engine_model::fresh_managed(
            c,
            b,
        ).services);
        assert(engine_model::fresh_managed(c, a) == engine_model::fresh_managed(c, b));
    }
}

/// Built groups fit together, and have distinct names.
proof fn lemma_built_wf(groups: Seq<GroupConfig>, setup: SetupModel)
    ensures
        ({
            let (states, managed) = engine_model::built(groups, setup);
            &&& states.len() == managed.len()
            &&& forall|i: int|
                0 <= i < states.len() ==> engine_model::fits((#[trigger] states[i]).1, managed[i])
            &&& forall|i: int, j: int|
                0 <= i < j < states.len() ==> (#[trigger] states[i]).0 != (#[trigger] states[j]).0
        }),
    decreases groups.len(),
{
    if groups.len() > 0 {
        lemma_built_wf(groups.drop_last(), setup);
        let (states, managed) = engine_model::built(groups.drop_last(), setup);
        let c = groups.last();
        assert(engine_model::fits(
            engine_model::fresh_group(c),
            engine_model::fresh_managed(c, setup),
        ));
    }
}

/// Nothing waits in a resolver that was just built.
proof fn lemma_pairs_nothing_waits(pairs: Seq<(Text, Seq<Text>)>)
    ensures
        ResolverModel::of_groups(pairs).waiting == Map::<Text, Set<Text>>::empty(),
        ResolverModel::of_groups(pairs).waiting.dom().finite(),
    decreases pairs.len(),
{
    if pairs.len() > 0 {
        lemma_pairs_nothing_waits(pairs.drop_last());
    }
    assert(Map::<Text, Set<Text>>::empty().dom() =~= Set::<Text>::empty());
}

/// The dependencies that a resolver knows are those of the dependency graph.
proof fn lemma_resolver_graph(groups: Seq<GroupConfig>)
    ensures
        ResolverModel::of_groups(engine_model::config_pairs(groups)).dependencies
            == graph::dependency_graph(groups),
    decreases groups.len(),
{
    let pairs = engine_model::config_pairs(groups);
    if groups.len() > 0 {
        lemma_resolver_graph(groups.drop_last());
        assert(pairs.drop_last() =~= engine_model::config_pairs(groups.drop_last()));
    }
}

/// An engine built from groups with distinct names that have an order is free of
/// cycles.
proof fn lemma_order_acyclic(groups: Seq<GroupConfig>, m: EngineModel)
    requires
        graph::group_names(groups).no_duplicates(),
        graph::group_order(groups) == Ok::<Seq<Text>, Seq<Text>>(m.order),
        m.resolver == ResolverModel::of_groups(engine_model::config_pairs(groups)),
    ensures
        m.acyclic(),
{
    let pairs = engine_model::config_pairs(groups);
    let names = graph::group_names(groups);
    graph::law_order_respects_dependencies(groups);
    assert forall|i: int, j: int| 0 <= i < j < pairs.len() implies pairs[i].0 != pairs[j].0 by {
        assert(names[i] != names[j]);
    }
    dependency_laws::law_built_is_mirrored(pairs);
    lemma_resolver_graph(groups);
    let g = graph::dependency_graph(groups);
    assert forall|x: Text, d: Text| #[trigger]
        m.resolver.dependents_of(x).contains(d) implies engine_model::rank(m.order, d)
        < engine_model::rank(m.order, x) by {
        assert(m.resolver.deps(d).contains(x));
        assert(graph::edges(g, d).contains(x));
        assert(exists|i: int| 0 <= i < groups.len() && (#[trigger] groups[i]).name == d) by {
            let k = choose|k: int| 0 <= k < pairs.len() && (#[trigger] pairs[k]).0 == d;
            assert(groups[k].name == d);
        }
        let i = m.order.index_of(d);
        assert(m.order[i] == d);
        assert(graph::edges(g, m.order[i]).contains(x));
        assert(m.order.take(i).contains(x));
        let j = m.order.take(i).index_of(x);
        assert(m.order[j] == x);
        engine_model::lemma_rank(m.order, i);
        engine_model::lemma_rank(m.order, j);
    }
}

/// The models of a list of groups whose services are due.
pub open spec fn dues(v: Seq<(String, bool)>) -> Seq<(Text, bool)> {
    Seq::new(v.len(), |i: int| (v[i].0@, v[i].1))
}

/// The first task of a list with a name.
fn find_task(tasks: &Vec<TaskCommand>, name: &str) -> (r: Option<usize>)
    ensures
        match r {
            Some(i) => i < tasks@.len() && engine_model::task_named(schema::tasks(tasks@), name@)
                == Some(i as int),
            None => engine_model::task_named(schema::tasks(tasks@), name@) is None,
        },
{
    let ghost all = schema::tasks(tasks@);
    let mut i: usize = 0;
    while i < tasks.len()
        invariant
            0 <= i <= tasks@.len(),
            all == schema::tasks(tasks@),
            forall|j: int| 0 <= j < i ==> engine_model::task_name(#[trigger] all[j]) != name@,
        decreases tasks.len() - i,
    {
        assert(all[i as int] == tasks@[i as int]@);
        if str_eq(tasks[i].name(), name) {
            proof {
                lemma_task_named(all, name@, i as int);
            }
            return Some(i);
        }
        i = i + 1;
    }
    proof {
        lemma_task_named(all, name@, i as int);
    }
    None
}

proof fn lemma_task_named(tasks: Seq<TaskModel>, name: Text, i: int)
    requires
        0 <= i <= tasks.len(),
        forall|j: int| 0 <= j < i ==> engine_model::task_name(#[trigger] tasks[j]) != name,
        i < tasks.len() ==> engine_model::task_name(tasks[i]) == name,
    ensures
        engine_model::task_named(tasks, name) == if i < tasks.len() {
            Some(i)
        } else {
            None
        },
    decreases tasks.len(),
{
    if tasks.len() > 0 && engine_model::task_name(tasks[0]) != name {
        assert forall|j: int| 0 <= j < i - 1 implies engine_model::task_name(
            #[trigger] tasks.drop_first()[j],
        ) != name by {
            assert(engine_model::task_name(tasks[j + 1]) != name);
        }
        lemma_task_named(tasks.drop_first(), name, i - 1);
    }
}

/// A cascade never adds a waiting group, and leaves the dependencies alone.
proof fn lemma_cascade_shrinks(m: ResolverModel, stack: Seq<Text>)
    requires
        m.waiting.dom().finite(),
    ensures
        m.cascade(stack).0.waiting.dom().finite(),
        m.cascade(stack).0.waiting.dom().len() <= m.waiting.dom().len(),
        m.cascade(stack).0.dependents == m.dependents,
        m.cascade(stack).0.dependencies == m.dependencies,
    decreases m.waiting.dom().len(), stack.len(),
{
    if stack.len() > 0 {
        let c = stack.last();
        m.lemma_released_shrinks(c);
        lemma_cascade_shrinks(m.released(c), stack.drop_last() + m.freed(c));
    }
}

/// A completion never adds a waiting group, and frees what it starts.
proof fn lemma_completed_shrinks(m: ResolverModel, group: Text)
    requires
        m.waiting.dom().finite(),
    ensures
        m.completed(group).waiting.dom().finite(),
        m.completed(group).waiting.dom().len() <= m.waiting.dom().len(),
        m.started_by(group).len() > 0 ==> m.completed(group).waiting.dom().len()
            < m.waiting.dom().len(),
{
    let m1 = m.with_status(group, GroupStatus::Ready);
    m1.lemma_released_shrinks(group);
    assert(m.completed(group).waiting =~= m1.released(group).waiting);
    if m.started_by(group).len() > 0 {
        m1.freed(group).lemma_filter_len(|d: Text| !m1.dep_failed(d));
    }
}

/// What keeps the order and the dependents keeps the engine free of cycles.
pub proof fn lemma_acyclic_kept(a: EngineModel, b: EngineModel)
    requires
        a.acyclic(),
        b.order == a.order,
        b.resolver.dependents == a.resolver.dependents,
    ensures
        b.acyclic(),
{
    assert forall|x: Text, d: Text| #[trigger]
        b.resolver.dependents_of(x).contains(d) implies engine_model::rank(b.order, d)
        < engine_model::rank(b.order, x) by {
        assert(a.resolver.dependents_of(x).contains(d));
    }
}

} // verus!
