//! Daemon state management.

use crate::text::Text;
use indexmap::IndexMap;
use vstd::prelude::*;

verus! {

/// Daemon status.
#[derive(Debug, Clone, Copy, PartialEq, Eq, Structural)]
pub enum DaemonStatus {
    /// Starting up.
    Starting,
    /// Running normally.
    Running,
    /// Shutting down.
    Stopping,
}

/// Group status.
#[derive(Debug, Clone, Copy, PartialEq, Eq, Structural)]
pub enum GroupStatus {
    /// Not yet run.
    Pending,
    /// Waiting for dependencies to complete.
    Waiting,
    /// Tasks are running.
    Running,
    /// All tasks completed, services running.
    Ready,
    /// A task failed.
    Failed,
    /// Skipped due to dependency failure.
    Skipped,
}

impl DeepView for GroupStatus {
    type V = GroupStatus;

    open spec fn deep_view(&self) -> GroupStatus {
        *self
    }
}

/// Process status.
#[derive(Debug, Clone, Copy, PartialEq, Eq, Structural)]
pub enum ProcessStatus {
    /// Not yet started.
    Pending,
    /// Currently running.
    Running,
    /// Completed successfully (for tasks).
    Success,
    /// Failed or crashed.
    Failed,
    /// Waiting to restart.
    Backoff,
}

impl Default for DaemonStatus {
    fn default() -> (r: Self)
        ensures
            r == DaemonStatus::Starting,
    {
        DaemonStatus::Starting
    }
}

impl Default for GroupStatus {
    fn default() -> (r: Self)
        ensures
            r == GroupStatus::Pending,
    {
        GroupStatus::Pending
    }
}

impl Default for ProcessStatus {
    fn default() -> (r: Self)
        ensures
            r == ProcessStatus::Pending,
    {
        ProcessStatus::Pending
    }
}

/// State of a single process (task or service).
#[derive(Debug)]
pub struct ProcessState {
    /// Process name.
    pub name: String,
    /// Current status.
    pub status: ProcessStatus,
    /// Process ID (if running).
    pub pid: Option<u32>,
    /// Exit code (if exited).
    pub exit_code: Option<i32>,
    /// Duration of last run in milliseconds.
    pub duration_ms: Option<u64>,
}

/// The model of a [`ProcessState`].
pub struct ProcessModel {
    pub name: Text,
    pub status: ProcessStatus,
    pub pid: Option<u32>,
    pub exit_code: Option<i32>,
    pub duration_ms: Option<u64>,
}

impl View for ProcessState {
    type V = ProcessModel;

    open spec fn view(&self) -> ProcessModel {
        ProcessModel {
            name: self.name@,
            status: self.status,
            pid: self.pid,
            exit_code: self.exit_code,
            duration_ms: self.duration_ms,
        }
    }
}

impl Clone for ProcessState {
    fn clone(&self) -> (r: Self)
        ensures
            r@ == self@,
    {
        ProcessState {
            name: self.name.clone(),
            status: self.status,
            pid: self.pid,
            exit_code: self.exit_code,
            duration_ms: self.duration_ms,
        }
    }
}

/// The state of a process that has not run yet.
pub open spec fn fresh_process(name: Text) -> ProcessModel {
    ProcessModel {
        name,
        status: ProcessStatus::Pending,
        pid: None,
        exit_code: None,
        duration_ms: None,
    }
}

impl Default for ProcessState {
    fn default() -> (r: Self)
        ensures
            r@ == fresh_process(Seq::empty()),
    {
        ProcessState::pending(String::new())
    }
}

impl ProcessState {
    /// A process that has not run yet.
    pub fn pending(name: String) -> (r: Self)
        ensures
            r@ == fresh_process(name@),
    {
        ProcessState {
            name,
            status: ProcessStatus::Pending,
            pid: None,
            exit_code: None,
            duration_ms: None,
        }
    }
}

/// The models of a list of processes.
pub open spec fn processes(v: Seq<ProcessState>) -> Seq<ProcessModel> {
    Seq::new(v.len(), |i: int| v[i]@)
}

/// State of a watch group.
#[derive(Debug)]
pub struct GroupState {
    /// Group name.
    pub name: String,
    /// Current status.
    pub status: GroupStatus,
    /// Task command states.
    pub tasks: Vec<ProcessState>,
    /// Service states.
    pub services: Vec<ProcessState>,
}

/// The model of a [`GroupState`].
pub struct GroupModel {
    pub name: Text,
    pub status: GroupStatus,
    pub tasks: Seq<ProcessModel>,
    pub services: Seq<ProcessModel>,
}

impl View for GroupState {
    type V = GroupModel;

    open spec fn view(&self) -> GroupModel {
        GroupModel {
            name: self.name@,
            status: self.status,
            tasks: processes(self.tasks@),
            services: processes(self.services@),
        }
    }
}

impl Default for GroupState {
    fn default() -> (r: Self)
        ensures
            r@ == (GroupModel {
                name: Seq::empty(),
                status: GroupStatus::Pending,
                tasks: Seq::empty(),
                services: Seq::empty(),
            }),
    {
        let r = GroupState {
            name: String::new(),
            status: GroupStatus::Pending,
            tasks: Vec::new(),
            services: Vec::new(),
        };
        assert(processes(r.tasks@) =~= Seq::empty());
        assert(processes(r.services@) =~= Seq::empty());
        r
    }
}

/// Copies a list of process states.
fn copy_processes(v: &Vec<ProcessState>) -> (r: Vec<ProcessState>)
    ensures
        processes(r@) == processes(v@),
{
    let mut out: Vec<ProcessState> = Vec::new();
    let mut i: usize = 0;
    while i < v.len()
        invariant
            0 <= i <= v.len(),
            out.len() == i,
            forall|j: int| 0 <= j < i ==> (#[trigger] out@[j])@ == v@[j]@,
        decreases v.len() - i,
    {
        out.push(v[i].clone());
        i = i + 1;
    }
    assert(processes(out@) =~= processes(v@));
    out
}

impl Clone for GroupState {
    fn clone(&self) -> (r: Self)
        ensures
            r@ == self@,
    {
        GroupState {
            name: self.name.clone(),
            status: self.status,
            tasks: copy_processes(&self.tasks),
            services: copy_processes(&self.services),
        }
    }
}

/// `indexmap::IndexMap`, an insertion-ordered hash map.
#[verifier::external_type_specification]
#[verifier::external_body]
#[verifier::reject_recursive_types(K)]
#[verifier::reject_recursive_types(V)]
#[verifier::reject_recursive_types(S)]
pub struct ExIndexMap<K, V, S>(IndexMap<K, V, S>);

/// The entries of a map from group names to group states, in map order.
pub uninterp spec fn group_entries(m: IndexMap<String, GroupState>) -> Seq<(Text, GroupModel)>;

/// `IndexMap::new`: the map has no entry.
#[verifier::external_body]
pub(crate) fn map_new() -> (r: IndexMap<String, GroupState>)
    ensures
        group_entries(r) == Seq::<(Text, GroupModel)>::empty(),
{
    IndexMap::new()
}

/// `IndexMap::len`: the number of entries.
#[verifier::external_body]
pub(crate) fn map_len(m: &IndexMap<String, GroupState>) -> (r: usize)
    ensures
        r == group_entries(*m).len(),
{
    m.len()
}

/// `IndexMap::get_index_of`: the position of a key; a key stands at one
/// position only.
#[verifier::external_body]
pub(crate) fn map_index_of(m: &IndexMap<String, GroupState>, key: &str) -> (r: Option<usize>)
    ensures
        match r {
            Some(i) => i < group_entries(*m).len() && group_entries(*m)[i as int].0 == key@
                && forall|j: int|
                0 <= j < group_entries(*m).len() && #[trigger] group_entries(*m)[j].0 == key@ ==> j
                    == i,
            None => forall|j: int|
                0 <= j < group_entries(*m).len() ==> #[trigger] group_entries(*m)[j].0 != key@,
        },
{
    m.get_index_of(key)
}

/// `IndexMap::get_index`: the entry at a position, if the map has one there.
#[verifier::external_body]
pub(crate) fn map_entry(m: &IndexMap<String, GroupState>, i: usize) -> (r: Option<
    (&String, &GroupState),
>)
    ensures
        match r {
            Some(entry) => i < group_entries(*m).len() && (entry.0@, entry.1@) == group_entries(
                *m,
            )[i as int],
            None => i >= group_entries(*m).len(),
        },
{
    m.get_index(i)
}

/// `IndexMap::insert`: the value of a key that is there is replaced in its
/// place; a new key goes last.
#[verifier::external_body]
pub(crate) fn map_insert(m: &mut IndexMap<String, GroupState>, key: String, value: GroupState)
    ensures
        (forall|j: int|
            0 <= j < group_entries(*old(m)).len() ==> #[trigger] group_entries(*old(m))[j].0
                != key@) ==> group_entries(*final(m)) == group_entries(*old(m)).push(
            (key@, value@),
        ),
        forall|i: int|
            0 <= i < group_entries(*old(m)).len() && #[trigger] group_entries(*old(m))[i].0
                == key@ ==> group_entries(*final(m)) == group_entries(*old(m)).update(
                i,
                (key@, value@),
            ),
{
    m.insert(key, value);
}

/// `IndexMap::clone`, with the entries cloned: the copy holds entries of the
/// same models in the same order.
#[verifier::external_body]
pub(crate) fn map_clone(m: &IndexMap<String, GroupState>) -> (r: IndexMap<String, GroupState>)
    ensures
        group_entries(r) == group_entries(*m),
{
    m.clone()
}

/// Overall daemon state.
#[derive(Debug)]
pub struct DaemonState {
    /// Current status.
    pub status: DaemonStatus,
    /// Watch groups (ordered by config file order).
    pub groups: IndexMap<String, GroupState>,
    /// Number of files being watched.
    pub watched_files: usize,
    /// Last file change timestamp (Unix millis).
    pub last_change: Option<u64>,
}

/// The model of a [`DaemonState`].
pub struct DaemonModel {
    pub status: DaemonStatus,
    pub groups: Seq<(Text, GroupModel)>,
    pub watched_files: usize,
    pub last_change: Option<u64>,
}

impl View for DaemonState {
    type V = DaemonModel;

    open spec fn view(&self) -> DaemonModel {
        DaemonModel {
            status: self.status,
            groups: group_entries(self.groups),
            watched_files: self.watched_files,
            last_change: self.last_change,
        }
    }
}

impl Default for DaemonState {
    fn default() -> (r: Self)
        ensures
            r@ == (DaemonModel {
                status: DaemonStatus::Starting,
                groups: Seq::empty(),
                watched_files: 0,
                last_change: None,
            }),
    {
        DaemonState {
            status: DaemonStatus::Starting,
            groups: map_new(),
            watched_files: 0,
            last_change: None,
        }
    }
}

impl Clone for DaemonState {
    fn clone(&self) -> (r: Self)
        ensures
            r@ == self@,
    {
        DaemonState {
            status: self.status,
            groups: map_clone(&self.groups),
            watched_files: self.watched_files,
            last_change: self.last_change,
        }
    }
}

} // verus!
