//! The mathematical model of the engine: its state, and how each event changes
//! it.

use crate::config::schema::{self, GroupConfig, LogFormat, Silence, TaskModel};
use crate::daemon::dependency::ResolverModel;
use crate::daemon::notify::NotifyModel;
use crate::daemon::planning;
use crate::daemon::state::{self, DaemonModel, DaemonStatus, GroupModel, GroupStatus, ProcessStatus};
use crate::daemon::trigger::{ExpansionModel, LifecyclePhase};
use crate::process::executor::ExecutorModel;
use crate::process::service::{Child, ServiceModel, ServiceState};
use crate::text::{self, Text};
use vstd::prelude::*;

verus! {

/// A task execution to be spawned.
pub struct RunModel {
    pub task_id: Text,
    pub group_name: Text,
    pub task_name: Text,
    pub task_index: int,
    pub command: Text,
    pub executor: ExecutorModel,
    pub silence: Silence,
}

/// The end of a task execution.
pub struct CompletionModel {
    pub task_id: Text,
    pub group_name: Text,
    pub task_index: int,
    pub success: bool,
    pub status: ProcessStatus,
    pub duration_ms: Option<u64>,
    pub exit_code: Option<i32>,
}

/// What the engine asks to be done.
pub enum ActionModel {
    /// Log a daemon message about a process.
    Log { process: Text, group: Option<Text>, content: Text },
    /// Send a desktop notification.
    Notify(NotifyModel),
    /// Spawn a task execution.
    Run(RunModel),
    /// Have the services of a group started.
    StartServices(Text),
    /// Signal the running services of a group to restart.
    SignalServices(Text),
    /// Send the process group of a service SIGTERM.
    Terminate(u32),
    /// Broadcast the daemon state.
    Broadcast(DaemonModel),
}

/// A managed watch group with its processes.
pub struct ManagedModel {
    pub config: GroupConfig,
    pub executor: ExecutorModel,
    pub services: Seq<ServiceModel>,
    pub daemons_started: bool,
    pub pending_restarts: Seq<Option<u128>>,
}

/// What the engine was set up with.
pub struct SetupModel {
    pub groups: Seq<GroupConfig>,
    pub variables: Map<Text, Text>,
    pub shell: Option<Text>,
    pub log_format: LogFormat,
    pub env_shell: Option<Text>,
    pub root: Text,
    pub debounce_ms: u64,
    pub embedded: bool,
}

/// The engine's state. The managed groups stand in the order of the group
/// states.
#[verifier::ext_equal]
pub struct EngineModel {
    pub groups: Seq<(Text, GroupModel)>,
    pub managed: Seq<ManagedModel>,
    pub status: DaemonStatus,
    pub snapshot: Seq<(Text, GroupModel)>,
    pub watched_files: usize,
    pub last_change: Option<u64>,
    pub order: Seq<Text>,
    pub running: Set<Text>,
    pub pending: Set<Text>,
    pub resolver: ResolverModel,
    pub out: Seq<ActionModel>,
    pub setup: SetupModel,
}

/// The position of a group.
pub open spec fn find(groups: Seq<(Text, GroupModel)>, name: Text) -> Option<int> {
    if exists|i: int| 0 <= i < groups.len() && (#[trigger] groups[i]).0 == name {
        Some(choose|i: int| 0 <= i < groups.len() && (#[trigger] groups[i]).0 == name)
    } else {
        None
    }
}

/// The identifier of a task.
pub open spec fn task_id(group: Text, task: Text) -> Text {
    group + ":"@ + task
}

/// The id of the completion that asks for the services of a group without tasks.
pub const DAEMON_START: &'static str = "__daemon_start__";

/// The identifier that asks for the services of a group without tasks.
pub open spec fn daemon_start_id() -> Text {
    DAEMON_START@
}

/// Whether a list of tasks has one that runs at startup.
pub open spec fn any_startup_task(tasks: Seq<TaskModel>) -> bool {
    exists|i: int| 0 <= i < tasks.len() && !(#[trigger] tasks[i]).on_change_only
}

/// The display name of a task.
pub open spec fn task_name(t: TaskModel) -> Text {
    schema::display_name(t.name, t.command)
}

/// The first task of a list with a name.
pub open spec fn task_named(tasks: Seq<TaskModel>, name: Text) -> Option<int>
    decreases tasks.len(),
{
    if tasks.len() == 0 {
        None
    } else if task_name(tasks[0]) == name {
        Some(0int)
    } else {
        match task_named(tasks.drop_first(), name) {
            Some(i) => Some(i + 1),
            None => None,
        }
    }
}

/// The first service of a list with a name.
pub open spec fn service_named(services: Seq<ServiceModel>, name: Text) -> Option<int>
    decreases services.len(),
{
    if services.len() == 0 {
        None
    } else if services[0].name() == name {
        Some(0int)
    } else {
        match service_named(services.drop_first(), name) {
            Some(i) => Some(i + 1),
            None => None,
        }
    }
}

impl EngineModel {
    /// The parts fit together: each group state has its managed group, with as
    /// many tasks and services.
    pub open spec fn wf(self) -> bool {
        &&& self.managed.len() == self.groups.len()
        &&& self.resolver.waiting.dom().finite()
        &&& forall|i: int|
            0 <= i < self.groups.len() ==> fits(
                (#[trigger] self.groups[i]).1,
                self.managed[i],
            )
        &&& forall|i: int, j: int|
            0 <= i < j < self.groups.len() ==> (#[trigger] self.groups[i]).0 != (
            #[trigger] self.groups[j]).0
    }

    /// The state that the daemon shows.
    pub open spec fn daemon_state(self) -> DaemonModel {
        DaemonModel {
            status: self.status,
            groups: self.snapshot,
            watched_files: self.watched_files,
            last_change: self.last_change,
        }
    }

    /// With one more action asked for.
    pub open spec fn emit(self, action: ActionModel) -> EngineModel {
        EngineModel { out: self.out.push(action), ..self }
    }

    /// With a daemon message about a process of a group.
    pub open spec fn log(self, process: Text, group: Text, content: Text) -> EngineModel {
        self.emit(ActionModel::Log { process, group: Some(group), content })
    }

    /// With the shown state brought up to date and broadcast.
    pub open spec fn updated(self) -> EngineModel {
        let m = EngineModel { snapshot: self.groups, ..self };
        m.emit(ActionModel::Broadcast(m.daemon_state()))
    }

    /// With the state of a group replaced.
    pub open spec fn with_group(self, i: int, g: GroupModel) -> EngineModel {
        EngineModel { groups: self.groups.update(i, (self.groups[i].0, g)), ..self }
    }

    /// With the managed group at a position replaced.
    pub open spec fn with_managed(self, i: int, g: ManagedModel) -> EngineModel {
        EngineModel { managed: self.managed.update(i, g), ..self }
    }

    /// With the status of a group changed, if there is such a group.
    pub open spec fn with_group_status(self, name: Text, status: GroupStatus) -> EngineModel {
        match find(self.groups, name) {
            Some(i) => self.with_group(i, GroupModel { status, ..self.groups[i].1 }),
            None => self,
        }
    }

    /// With the status of a group changed, for dependents to see too.
    pub open spec fn set_group_status(self, name: Text, status: GroupStatus) -> EngineModel {
        EngineModel {
            resolver: self.resolver.with_status(name, status),
            ..self.with_group_status(name, status)
        }
    }

    /// With the status of a task changed, if there is such a task.
    pub open spec fn with_task_status(self, name: Text, index: int, status: ProcessStatus) -> EngineModel {
        match find(self.groups, name) {
            Some(i) => {
                let g = self.groups[i].1;
                if 0 <= index < g.tasks.len() {
                    self.with_group(
                        i,
                        GroupModel {
                            tasks: g.tasks.update(
                                index,
                                state::ProcessModel { status, ..g.tasks[index] },
                            ),
                            ..g
                        },
                    )
                } else {
                    self
                }
            },
            None => self,
        }
    }

    /// Spawns a task if it is not running; else it is queued to run again.
    pub open spec fn spawn_task(
        self,
        group: Text,
        task: Text,
        index: int,
        command: Text,
        executor: ExecutorModel,
        silence: Silence,
    ) -> EngineModel {
        let id = task_id(group, task);
        if self.running.contains(id) {
            EngineModel { pending: self.pending.insert(id), ..self }
        } else {
            EngineModel {
                running: self.running.insert(id),
                ..self.with_task_status(group, index, ProcessStatus::Running)
            }.emit(
                ActionModel::Run(
                    RunModel {
                        task_id: id,
                        group_name: group,
                        task_name: task,
                        task_index: index,
                        command,
                        executor,
                        silence,
                    },
                ),
            )
        }
    }

    /// Spawns the first `n` tasks of a group, each unless it runs on changes only
    /// and there was none, or its command does not expand.
    pub open spec fn spawn_tasks(
        self,
        group: Text,
        tasks: Seq<TaskModel>,
        executor: ExecutorModel,
        run_on_change: bool,
        exp: ExpansionModel,
        n: nat,
    ) -> EngineModel
        decreases n,
    {
        if n == 0 {
            self
        } else {
            let m = self.spawn_tasks(group, tasks, executor, run_on_change, exp, (n - 1) as nat);
            let t = tasks[n - 1];
            if t.on_change_only && !run_on_change {
                m
            } else {
                match exp.of(t.command) {
                    Ok(command) => m.spawn_task(
                        group,
                        task_name(t),
                        n - 1,
                        command,
                        executor.refined(t.working_dir, t.env),
                        t.silence,
                    ),
                    Err(_) => m,
                }
            }
        }
    }

    /// Spawns the tasks of a group, if there is such a group.
    pub open spec fn spawn_group(self, group: Text, run_on_change: bool, exp: ExpansionModel) -> EngineModel {
        match find(self.groups, group) {
            Some(i) => {
                let managed = self.managed[i];
                self.with_group_status(group, GroupStatus::Running).spawn_tasks(
                    group,
                    managed.config.tasks,
                    managed.executor,
                    run_on_change,
                    exp,
                    managed.config.tasks.len(),
                ).updated()
            },
            None => self,
        }
    }

    /// Spawns the tasks of each group of a list in turn.
    pub open spec fn spawn_groups(self, names: Seq<Text>, run_on_change: bool, exp: ExpansionModel) -> EngineModel
        decreases names.len(),
    {
        if names.len() == 0 {
            self
        } else {
            self.spawn_groups(names.drop_last(), run_on_change, exp).spawn_group(
                names.last(),
                run_on_change,
                exp,
            )
        }
    }

    /// Whether a group has a task that runs at startup.
    pub open spec fn has_startup_tasks(self, group: Text) -> bool {
        match find(self.groups, group) {
            Some(i) => any_startup_task(self.managed[i].config.tasks),
            None => false,
        }
    }

    /// Whether a group has services.
    pub open spec fn has_services(self, group: Text) -> bool {
        match find(self.groups, group) {
            Some(i) => self.managed[i].services.len() > 0,
            None => false,
        }
    }

    /// The phase of a group: with services, it is at startup until they have been
    /// started; without, as long as a dependent waits for it.
    pub open spec fn phase(self, group: Text) -> LifecyclePhase {
        match find(self.groups, group) {
            Some(i) => {
                let startup = if self.managed[i].services.len() > 0 {
                    !self.managed[i].daemons_started
                } else {
                    self.waited_for(group)
                };
                if startup {
                    LifecyclePhase::Startup
                } else {
                    LifecyclePhase::Runtime
                }
            },
            None => LifecyclePhase::Startup,
        }
    }

    /// Whether a dependent waits for a group.
    pub open spec fn waited_for(self, group: Text) -> bool {
        exists|i: int|
            0 <= i < self.resolver.dependents_of(group).len() && self.resolver.waiting.dom().contains(
                #[trigger] self.resolver.dependents_of(group)[i],
            ) && self.resolver.waiting[self.resolver.dependents_of(group)[i]].contains(group)
    }

    /// With the groups of a list Skipped.
    pub open spec fn with_skipped(self, names: Seq<Text>) -> EngineModel
        decreases names.len(),
    {
        if names.len() == 0 {
            self
        } else {
            self.with_skipped(names.drop_last()).with_group_status(
                names.last(),
                GroupStatus::Skipped,
            )
        }
    }

    /// Skips a group and all that can no longer start without it.
    pub open spec fn cascade_skip(self, group: Text) -> EngineModel {
        let c = self.resolver.with_status(group, GroupStatus::Skipped).cascade(seq![group]);
        EngineModel { resolver: c.0, ..self }.with_group_status(
            group,
            GroupStatus::Skipped,
        ).with_skipped(c.1)
    }

    /// Skips each group of a list in turn.
    pub open spec fn cascade_skips(self, names: Seq<Text>) -> EngineModel
        decreases names.len(),
    {
        if names.len() == 0 {
            self
        } else {
            self.cascade_skips(names.drop_last()).cascade_skip(names.last())
        }
    }

    /// A group has completed: what waited for it alone is started, or skipped
    /// where another dependency has failed.
    pub open spec fn trigger_dependents(self, group: Text, exp: ExpansionModel) -> EngineModel
        decreases self.resolver.waiting.dom().len(), 1nat, 0nat,
    {
        let bound = self.resolver.waiting.dom().len();
        EngineModel { resolver: self.resolver.completed(group), ..self }.with_group_status(
            group,
            GroupStatus::Ready,
        ).start_waiting_groups(self.resolver.started_by(group), exp, bound).cascade_skips(
            self.resolver.skipped_by(group),
        )
    }

    /// Starts each group of a list that waited for dependencies; fewer than
    /// `bound` groups wait from here on.
    pub open spec fn start_waiting_groups(self, names: Seq<Text>, exp: ExpansionModel, bound: nat) -> EngineModel
        decreases bound, 0nat, names.len(),
    {
        if names.len() == 0 {
            self
        } else {
            let m = self.start_waiting_groups(names.drop_last(), exp, bound);
            let g = names.last();
            if m.has_startup_tasks(g) {
                m.spawn_group(g, false, exp)
            } else if m.has_services(g) {
                m.emit(ActionModel::StartServices(g))
            } else {
                let ready = m.set_group_status(g, GroupStatus::Ready);
                if ready.resolver.waiting.dom().len() < bound {
                    ready.trigger_dependents(g, exp)
                } else {
                    ready
                }
            }
        }
    }

    /// Whether a restart cascades to a group: it is Ready, and has startup tasks
    /// or started services.
    pub open spec fn cascades_to(self, group: Text) -> bool {
        match find(self.groups, group) {
            Some(i) => self.groups[i].1.status == GroupStatus::Ready && (any_startup_task(
                self.managed[i].config.tasks,
            ) || (self.managed[i].daemons_started && self.managed[i].services.len() > 0)),
            None => false,
        }
    }

    /// A group has restarted: its dependents follow. One with startup tasks has
    /// them spawned; one with services alone has these signalled, and its own
    /// dependents follow.
    pub open spec fn cascade_restart(
        self,
        group: Text,
        graph: ResolverModel,
        order: Seq<Text>,
        exp: ExpansionModel,
    ) -> EngineModel
        decreases rank(order, group), 1nat, 0nat,
    {
        self.cascade_restarts(graph.dependents_of(group), group, graph, order, exp)
    }

    /// The restart of `group` cascades to each group of a list in turn.
    pub open spec fn cascade_restarts(
        self,
        names: Seq<Text>,
        group: Text,
        graph: ResolverModel,
        order: Seq<Text>,
        exp: ExpansionModel,
    ) -> EngineModel
        decreases rank(order, group), 0nat, names.len(),
    {
        if names.len() == 0 {
            self
        } else {
            let m = self.cascade_restarts(names.drop_last(), group, graph, order, exp);
            let d = names.last();
            if !m.cascades_to(d) {
                m
            } else if m.has_startup_tasks(d) {
                m.spawn_group(d, false, exp)
            } else {
                let signalled = m.emit(ActionModel::SignalServices(d));
                if rank(order, d) < rank(order, group) {
                    signalled.cascade_restart(d, graph, order, exp)
                } else {
                    signalled
                }
            }
        }
    }

    /// A restart goes on to the dependents of a group.
    pub open spec fn restart_dependents(self, group: Text, exp: ExpansionModel) -> EngineModel {
        self.cascade_restart(group, self.resolver, self.order, exp)
    }

    /// Every dependent stands behind what it depends on in the execution order.
    pub open spec fn acyclic(self) -> bool {
        forall|x: Text, d: Text| #[trigger]
            self.resolver.dependents_of(x).contains(d) ==> rank(self.order, d) < rank(
                self.order,
                x,
            )
    }

    /// A completed group has its dependents started, at startup, or restarted.
    pub open spec fn propagate(self, group: Text, exp: ExpansionModel) -> EngineModel {
        match self.phase(group) {
            LifecyclePhase::Startup => self.trigger_dependents(group, exp),
            LifecyclePhase::Runtime => self.restart_dependents(group, exp),
        }
    }

    /// The initial run, over the first `n` groups in order: groups that lack a
    /// dependency wait; of the others, those with startup tasks have them
    /// spawned, those with services alone are listed, and the rest are Ready.
    pub open spec fn started_up(self, exp: ExpansionModel, n: nat) -> (EngineModel, Seq<Text>)
        decreases n,
    {
        if n == 0 {
            (self, Seq::empty())
        } else {
            let (m, services) = self.started_up(exp, (n - 1) as nat);
            let g = self.order[n - 1];
            if m.resolver.unready(g) != Set::<Text>::empty() {
                (
                    EngineModel {
                        resolver: m.resolver.marked_waiting(g),
                        ..m.with_group_status(g, GroupStatus::Waiting)
                    },
                    services,
                )
            } else if m.has_startup_tasks(g) {
                (m.spawn_group(g, false, exp), services)
            } else if m.has_services(g) {
                (m, services.push(g))
            } else {
                (m.set_group_status(g, GroupStatus::Ready), services)
            }
        }
    }
}

/// How many groups stand at or behind a group in an order; 0 for a stranger.
pub open spec fn rank(order: Seq<Text>, group: Text) -> nat
    decreases order.len(),
{
    if order.len() == 0 {
        0
    } else if order[0] == group {
        order.len()
    } else {
        rank(order.drop_first(), group)
    }
}

/// Who stands later in an order ranks lower.
pub proof fn lemma_rank(order: Seq<Text>, i: int)
    requires
        0 <= i < order.len(),
        order.no_duplicates(),
    ensures
        rank(order, order[i]) == order.len() - i,
    decreases order.len(),
{
    if i > 0 {
        assert(order[0] != order[i]);
        assert(order.drop_first()[i - 1] == order[i]);
        lemma_rank(order.drop_first(), i - 1);
    }
}

/// Whether a group state and a managed group belong together.
pub open spec fn fits(g: GroupModel, m: ManagedModel) -> bool {
    &&& g.tasks.len() == m.config.tasks.len()
    &&& g.services.len() == m.services.len()
    &&& m.pending_restarts.len() == m.services.len()
    &&& forall|i: int| 0 <= i < m.services.len() ==> (#[trigger] m.services[i]).delay_ok()
}

/// What a batch of completions leads to: the engine, the groups whose services
/// are due with whether to start rather than signal them, and the groups that
/// failed.
pub struct BatchModel {
    pub engine: EngineModel,
    pub due: Seq<(Text, bool)>,
    pub failed: Seq<Text>,
}

impl EngineModel {
    /// Whether a task of a group is running.
    pub open spec fn group_running(self, group: Text) -> bool {
        exists|id: Text| #[trigger]
            self.running.contains(id) && text::starts_with(id, group + ":"@)
    }

    /// The notification of the end of a task.
    pub open spec fn notify_completion(self, c: CompletionModel) -> EngineModel {
        let task = match text::split_at_first(c.task_id, ':') {
            Some((_, name)) => name,
            None => c.task_id,
        };
        self.emit(
            ActionModel::Notify(
                if c.success {
                    NotifyModel::TaskSuccess {
                        task,
                        group: c.group_name,
                        duration_ms: match c.duration_ms {
                            Some(d) => d,
                            None => 0,
                        },
                    }
                } else {
                    NotifyModel::TaskFailed { task, group: c.group_name, exit_code: c.exit_code }
                },
            ),
        )
    }

    /// With the outcome of a task recorded.
    pub open spec fn record(self, c: CompletionModel) -> EngineModel {
        match find(self.groups, c.group_name) {
            Some(i) => {
                let g = self.groups[i].1;
                if 0 <= c.task_index < g.tasks.len() {
                    self.with_group(
                        i,
                        GroupModel {
                            tasks: g.tasks.update(
                                c.task_index,
                                state::ProcessModel {
                                    status: c.status,
                                    duration_ms: c.duration_ms,
                                    exit_code: c.exit_code,
                                    ..g.tasks[c.task_index]
                                },
                            ),
                            ..g
                        },
                    )
                } else {
                    self
                }
            },
            None => self,
        }
    }

    /// A task that was queued while it ran is run again.
    pub open spec fn rerun(self, c: CompletionModel, exp: ExpansionModel) -> EngineModel {
        if !self.pending.contains(c.task_id) {
            self
        } else {
            let m = EngineModel { pending: self.pending.remove(c.task_id), ..self };
            match text::split_at_first(c.task_id, ':') {
                Some((group, task)) => match find(m.groups, group) {
                    Some(i) => match task_named(m.managed[i].config.tasks, task) {
                        Some(k) => {
                            let t = m.managed[i].config.tasks[k];
                            match exp.of(t.command) {
                                Ok(command) => m.spawn_task(
                                    group,
                                    task,
                                    c.task_index,
                                    command,
                                    m.managed[i].executor.refined(t.working_dir, t.env),
                                    t.silence,
                                ),
                                Err(_) => m,
                            }
                        },
                        None => m,
                    },
                    None => m,
                },
                None => m,
            }
        }
    }
}

impl BatchModel {
    /// The start of a batch.
    pub open spec fn new(engine: EngineModel) -> BatchModel {
        BatchModel { engine, due: Seq::empty(), failed: Seq::empty() }
    }

    /// Once no task of a group is running any more, its tasks give its status:
    /// a failed group is listed as such, another has its services due.
    pub open spec fn settle(self, group: Text) -> BatchModel {
        let e = self.engine;
        match find(e.groups, group) {
            Some(i) => if e.group_running(group) {
                self
            } else {
                let status = planning::status_of_tasks(e.groups[i].1.tasks);
                let m = e.with_group_status(group, status);
                if status == GroupStatus::Failed {
                    BatchModel {
                        engine: m.emit(ActionModel::Notify(NotifyModel::GroupFailed { group })),
                        failed: self.failed.push(group),
                        ..self
                    }
                } else {
                    BatchModel {
                        engine: m.emit(ActionModel::Notify(NotifyModel::GroupComplete { group })),
                        due: self.due.push(
                            (
                                group,
                                e.managed[i].services.len() == 0 || !e.managed[i].daemons_started,
                            ),
                        ),
                        ..self
                    }
                }
            },
            None => self,
        }
    }

    /// With one more completion taken in.
    pub open spec fn complete(self, c: CompletionModel, exp: ExpansionModel) -> BatchModel {
        if c.task_id == daemon_start_id() {
            BatchModel { due: self.due.push((c.group_name, true)), ..self }
        } else {
            let e = self.engine;
            let m = EngineModel { running: e.running.remove(c.task_id), ..e };
            let settled = BatchModel {
                engine: m.notify_completion(c).record(c),
                ..self
            }.settle(c.group_name);
            BatchModel { engine: settled.engine.rerun(c, exp).updated(), ..settled }
        }
    }

    /// With a list of completions taken in, in order.
    pub open spec fn complete_all(self, cs: Seq<CompletionModel>, exp: ExpansionModel) -> BatchModel
        decreases cs.len(),
    {
        if cs.len() == 0 {
            self
        } else {
            self.complete_all(cs.drop_last(), exp).complete(cs.last(), exp)
        }
    }
}

/// The state of a group that has not run yet.
pub open spec fn fresh_group(c: GroupConfig) -> GroupModel {
    GroupModel {
        name: c.name,
        status: GroupStatus::Pending,
        tasks: Seq::new(c.tasks.len(), |i: int| state::fresh_process(task_name(c.tasks[i]))),
        services: Seq::new(
            c.daemons.len(),
            |i: int|
                state::fresh_process(
                    schema::display_name(c.daemons[i].name, c.daemons[i].command),
                ),
        ),
    }
}

/// The executor of a group: in the group's directory, by default that of the
/// configuration file, with the group's variables.
pub open spec fn group_executor(c: GroupConfig, setup: SetupModel) -> ExecutorModel {
    ExecutorModel {
        working_dir: Some(
            match c.working_dir {
                Some(d) => d,
                None => setup.root,
            },
        ),
        env: c.env,
        ..ExecutorModel::of_shell(setup.shell, setup.env_shell)
    }
}

/// A managed group that has not run yet.
pub open spec fn fresh_managed(c: GroupConfig, setup: SetupModel) -> ManagedModel {
    let executor = group_executor(c, setup);
    ManagedModel {
        config: c,
        executor,
        services: Seq::new(
            c.daemons.len(),
            |i: int|
                ServiceModel::fresh(
                    c.daemons[i],
                    executor.refined(c.daemons[i].working_dir, c.daemons[i].env),
                ),
        ),
        daemons_started: false,
        pending_restarts: Seq::new(c.daemons.len(), |i: int| None::<u128>),
    }
}

/// The groups of a configuration, in order. Of two groups with one name the
/// later counts, in the place of the earlier.
pub open spec fn built(groups: Seq<GroupConfig>, setup: SetupModel) -> (
    Seq<(Text, GroupModel)>,
    Seq<ManagedModel>,
)
    decreases groups.len(),
{
    if groups.len() == 0 {
        (Seq::empty(), Seq::empty())
    } else {
        let (states, managed) = built(groups.drop_last(), setup);
        let c = groups.last();
        match find(states, c.name) {
            Some(i) => (
                states.update(i, (c.name, fresh_group(c))),
                managed.update(i, fresh_managed(c, setup)),
            ),
            None => (
                states.push((c.name, fresh_group(c))),
                managed.push(fresh_managed(c, setup)),
            ),
        }
    }
}

/// The groups of a configuration with what each depends on.
pub open spec fn config_pairs(groups: Seq<GroupConfig>) -> Seq<(Text, Seq<Text>)> {
    Seq::new(groups.len(), |i: int| (groups[i].name, groups[i].depends_on))
}

impl EngineModel {
    /// An engine that has not run yet.
    pub open spec fn initial(setup: SetupModel, order: Seq<Text>) -> EngineModel {
        let groups = built(setup.groups, setup);
        EngineModel {
            groups: groups.0,
            managed: groups.1,
            status: DaemonStatus::Starting,
            snapshot: groups.0,
            watched_files: 0,
            last_change: None,
            order,
            running: Set::empty(),
            pending: Set::empty(),
            resolver: ResolverModel::of_groups(config_pairs(setup.groups)),
            out: Seq::empty(),
            setup,
        }
    }

    /// With messages that the first `n` services of a group are started, or
    /// restarted.
    pub open spec fn announce(self, group: Text, start: bool, n: nat) -> EngineModel
        decreases n,
    {
        if n == 0 {
            self
        } else {
            let i = find(self.groups, group)->Some_0;
            let service = self.managed[i].services[n - 1];
            self.announce(group, start, (n - 1) as nat).log(
                service.name(),
                group,
                if start {
                    "starting"@
                } else {
                    "restarting"@
                },
            )
        }
    }

    /// With messages that the services of a group are started, or restarted.
    pub open spec fn announced(self, group: Text, start: bool) -> EngineModel {
        match find(self.groups, group) {
            Some(i) => self.announce(group, start, self.managed[i].services.len()),
            None => self,
        }
    }

    /// With a service changed.
    pub open spec fn with_service(self, i: int, k: int, s: ServiceModel) -> EngineModel {
        self.with_managed(
            i,
            ManagedModel { services: self.managed[i].services.update(k, s), ..self.managed[i] },
        )
    }

    /// With the shown status and process ID of a service changed.
    pub open spec fn with_service_state(
        self,
        i: int,
        k: int,
        status: ProcessStatus,
        pid: Option<u32>,
    ) -> EngineModel {
        let g = self.groups[i].1;
        self.with_group(
            i,
            GroupModel {
                services: g.services.update(
                    k,
                    state::ProcessModel { status, pid, ..g.services[k] },
                ),
                ..g
            },
        )
    }

    /// A service of a group runs: a child was started for it, or it was signalled
    /// or left alone.
    pub open spec fn service_runs(self, i: int, k: int, started: Option<(Child, u128)>) -> EngineModel {
        let s = match started {
            Some((child, now)) => self.managed[i].services[k].started(child, now),
            None => self.managed[i].services[k],
        };
        self.with_service(i, k, s).with_service_state(i, k, ProcessStatus::Running, s.pid())
    }

    /// All services of a group have been seen to.
    pub open spec fn services_done(self, group: Text) -> EngineModel {
        match find(self.groups, group) {
            Some(i) => self.with_managed(
                i,
                ManagedModel { daemons_started: true, ..self.managed[i] },
            ).with_group_status(group, GroupStatus::Ready).updated(),
            None => self.updated(),
        }
    }

    /// With the restart of a service pending, or no longer so.
    pub open spec fn with_pending_restart(self, i: int, k: int, at: Option<u128>) -> EngineModel {
        self.with_managed(
            i,
            ManagedModel {
                pending_restarts: self.managed[i].pending_restarts.update(k, at),
                ..self.managed[i]
            },
        )
    }

    /// A service whose restart was pending has been restarted.
    pub open spec fn service_restarted(self, i: int, k: int, started: Option<(Child, u128)>) -> EngineModel {
        self.service_runs(i, k, started).with_pending_restart(i, k, None)
    }

    /// A service was seen to have exited: it is restarted after its delay.
    pub open spec fn service_exited(self, i: int, k: int, now: u128, success: bool) -> EngineModel {
        let s = self.managed[i].services[k].exited(now, success);
        self.with_service(i, k, s).with_service_state(
            i,
            k,
            ProcessStatus::Backoff,
            None,
        ).with_pending_restart(i, k, Some((now + s.restart_delay * 1_000_000) as u128))
    }

    /// The first `n` services of a group are being stopped.
    pub open spec fn stop_services(self, i: int, n: nat) -> EngineModel
        decreases n,
    {
        if n == 0 {
            self
        } else {
            let m = self.stop_services(i, (n - 1) as nat);
            let s = m.managed[i].services[n - 1];
            let stopped = m.with_service(
                i,
                n - 1,
                ServiceModel { state: ServiceState::Stopping, ..s },
            );
            match s.pid() {
                Some(pid) => stopped.emit(ActionModel::Terminate(pid)),
                None => stopped,
            }
        }
    }

    /// The services of each group of a list are being stopped.
    pub open spec fn stop_groups(self, names: Seq<Text>) -> EngineModel
        decreases names.len(),
    {
        if names.len() == 0 {
            self
        } else {
            let m = self.stop_groups(names.drop_last());
            match find(m.groups, names.last()) {
                Some(i) => m.stop_services(i, m.managed[i].services.len()),
                None => m,
            }
        }
    }

    /// The groups that a change sets off: the affected ones none of whose
    /// dependencies is affected too.
    pub open spec fn set_off_by(self, affected: Seq<Text>) -> Seq<Text> {
        planning::roots(
            affected,
            Seq::new(affected.len(), |i: int| self.resolver.deps(affected[i])),
            affected.len(),
        )
    }

    /// A change of files has affected these groups.
    pub open spec fn changed(
        self,
        affected: Seq<Text>,
        now: u64,
        exp: ExpansionModel,
    ) -> EngineModel {
        EngineModel { last_change: Some(now), ..self }.spawn_groups(
            self.set_off_by(affected),
            true,
            exp,
        )
    }
}

/// An exit code in words.
pub open spec fn exit_text(code: Option<i32>) -> Text {
    match code {
        Some(c) => text::signed_decimal(c as int),
        None => "?"@,
    }
}

/// The message of a failed exit.
pub open spec fn exit_failure(code: Option<i32>) -> Text {
    "process exited with status "@ + text::signed_decimal(
        match code {
            Some(c) => c as int,
            None => -1,
        },
    )
}

impl EngineModel {
    /// With a task's state replaced, if there is such a task.
    pub open spec fn with_task(self, i: int, k: int, t: state::ProcessModel) -> EngineModel {
        let g = self.groups[i].1;
        self.with_group(i, GroupModel { tasks: g.tasks.update(k, t), ..g })
    }

    /// A task of a group run in sequence is about to run.
    pub open spec fn run_task(self, group: Text, k: int, name: Text, command: Text) -> EngineModel {
        self.with_task_status(group, k, ProcessStatus::Running).updated().log(
            name,
            group,
            "running: "@ + command,
        )
    }

    /// A task of a group run in sequence has ended well; `seconds` is how long it
    /// took, in seconds.
    pub open spec fn run_task_succeeded(
        self,
        i: int,
        k: int,
        name: Text,
        code: Option<i32>,
        duration_ms: u64,
        seconds: Text,
    ) -> EngineModel {
        let group = self.groups[i].0;
        let m = self.log(
            name,
            group,
            "completed in "@ + seconds + "s (exit code: "@ + exit_text(code) + ")"@,
        );
        m.with_task(
            i,
            k,
            state::ProcessModel {
                status: ProcessStatus::Success,
                duration_ms: Some(duration_ms),
                exit_code: code,
                ..m.groups[i].1.tasks[k]
            },
        ).emit(ActionModel::Notify(NotifyModel::TaskSuccess { task: name, group, duration_ms }))
    }

    /// A task of a group run in sequence has failed, with an exit code where it
    /// left one: the group has failed.
    pub open spec fn run_task_failed(
        self,
        i: int,
        k: int,
        name: Text,
        error: Text,
        code: Option<i32>,
    ) -> EngineModel {
        let group = self.groups[i].0;
        let m = self.log(name, group, "failed: "@ + error);
        let t = m.groups[i].1.tasks[k];
        m.with_task(
            i,
            k,
            state::ProcessModel {
                status: ProcessStatus::Failed,
                exit_code: match code {
                    Some(c) => Some(c),
                    None => t.exit_code,
                },
                ..t
            },
        ).with_group_status(group, GroupStatus::Failed).emit(
            ActionModel::Notify(NotifyModel::TaskFailed { task: name, group, exit_code: code }),
        ).updated()
    }

    /// A group run in sequence is done.
    pub open spec fn run_done(self, group: Text, change: bool, exp: ExpansionModel) -> EngineModel {
        let m = self.with_group_status(group, GroupStatus::Ready);
        if change {
            m.restart_dependents(group, exp).updated()
        } else {
            m.updated()
        }
    }

    /// With a new configuration, its order and its dependencies.
    pub open spec fn reconfigured(self, setup: SetupModel, order: Seq<Text>) -> EngineModel {
        EngineModel {
            setup,
            order,
            resolver: ResolverModel::of_groups(config_pairs(setup.groups)),
            ..self
        }
    }

    /// With the groups built anew from the configuration.
    pub open spec fn rebuilt(self) -> EngineModel {
        let groups = built(self.setup.groups, self.setup);
        EngineModel { groups: groups.0, managed: groups.1, snapshot: groups.0, ..self }
    }
}

} // verus!
