//! Desktop notification support.

use crate::config::user::NotificationConfig;
use crate::text::{self, cat2, cat3, cat4, cat5, signed_decimal_of, Text};
use vstd::prelude::*;

verus! {

/// Notification event types.
#[derive(Debug)]
pub enum NotifyEvent {
    /// A task completed successfully.
    TaskSuccess { task: String, group: String, duration_ms: u64 },
    /// A task failed.
    TaskFailed { task: String, group: String, exit_code: Option<i32> },
    /// All tasks in a group completed successfully.
    GroupComplete { group: String },
    /// A group has failed tasks.
    GroupFailed { group: String },
}

/// The model of a [`NotifyEvent`].
pub enum NotifyModel {
    TaskSuccess { task: Text, group: Text, duration_ms: u64 },
    TaskFailed { task: Text, group: Text, exit_code: Option<i32> },
    GroupComplete { group: Text },
    GroupFailed { group: Text },
}

impl View for NotifyEvent {
    type V = NotifyModel;

    open spec fn view(&self) -> NotifyModel {
        match *self {
            NotifyEvent::TaskSuccess { task, group, duration_ms } => NotifyModel::TaskSuccess {
                task: task@,
                group: group@,
                duration_ms,
            },
            NotifyEvent::TaskFailed { task, group, exit_code } => NotifyModel::TaskFailed {
                task: task@,
                group: group@,
                exit_code,
            },
            NotifyEvent::GroupComplete { group } => NotifyModel::GroupComplete { group: group@ },
            NotifyEvent::GroupFailed { group } => NotifyModel::GroupFailed { group: group@ },
        }
    }
}

impl NotifyEvent {
    /// Create a task success event.
    pub fn task_success(task: &str, group: &str, duration_ms: u64) -> (r: Self)
        ensures
            r@ == (NotifyModel::TaskSuccess { task: task@, group: group@, duration_ms }),
    {
        NotifyEvent::TaskSuccess { task: task.to_owned(), group: group.to_owned(), duration_ms }
    }

    /// Create a task failed event.
    pub fn task_failed(task: &str, group: &str, exit_code: Option<i32>) -> (r: Self)
        ensures
            r@ == (NotifyModel::TaskFailed { task: task@, group: group@, exit_code }),
    {
        NotifyEvent::TaskFailed { task: task.to_owned(), group: group.to_owned(), exit_code }
    }

    /// Create a group complete event.
    pub fn group_complete(group: &str) -> (r: Self)
        ensures
            r@ == (NotifyModel::GroupComplete { group: group@ }),
    {
        NotifyEvent::GroupComplete { group: group.to_owned() }
    }

    /// Create a group failed event.
    pub fn group_failed(group: &str) -> (r: Self)
        ensures
            r@ == (NotifyModel::GroupFailed { group: group@ }),
    {
        NotifyEvent::GroupFailed { group: group.to_owned() }
    }
}

/// Whether a configuration asks for a notification of an event.
pub open spec fn wanted(config: NotificationConfig, event: NotifyModel) -> bool {
    config.enabled && match event {
        NotifyModel::TaskFailed { .. } => config.on_failure,
        NotifyModel::TaskSuccess { .. } => config.on_success,
        NotifyModel::GroupComplete { .. } => config.on_group_complete,
        NotifyModel::GroupFailed { .. } => config.on_failure,
    }
}

/// The title of the notification of an event.
pub open spec fn title_of(event: NotifyModel) -> Text {
    match event {
        NotifyModel::TaskFailed { task, .. } => "zaz: "@ + task + " failed"@,
        NotifyModel::TaskSuccess { task, .. } => "zaz: "@ + task + " complete"@,
        NotifyModel::GroupComplete { .. } => "zaz: Ready"@,
        NotifyModel::GroupFailed { .. } => "zaz: Group Failed"@,
    }
}

/// The body of the notification of an event; `seconds` is the duration of a
/// task that succeeded, in seconds with one decimal.
pub open spec fn body_of(event: NotifyModel, seconds: Text) -> Text {
    match event {
        NotifyModel::TaskFailed { task, group, exit_code } => match exit_code {
            Some(code) => "Task "@ + task + " in "@ + group + " failed with exit code "@
                + text::signed_decimal(code as int),
            None => "Task "@ + task + " in "@ + group + " failed"@,
        },
        NotifyModel::TaskSuccess { task, group, .. } => "Task "@ + task + " in "@ + group
            + " completed in "@ + seconds + "s"@,
        NotifyModel::GroupComplete { group } => "Group "@ + group + " is ready"@,
        NotifyModel::GroupFailed { group } => "Group "@ + group + " has failed tasks"@,
    }
}

/// The title and body of the desktop notification to send for an event, if the
/// configuration asks for one. `seconds` is the duration of a task that
/// succeeded, in seconds with one decimal.
pub fn notification(config: &NotificationConfig, event: &NotifyEvent, seconds: &str) -> (r: Option<
    (String, String),
>)
    ensures
        match r {
            Some((title, body)) => wanted(*config, event@) && title@ == title_of(event@) && body@
                == body_of(event@, seconds@),
            None => !wanted(*config, event@),
        },
{
    if !config.enabled {
        return None;
    }
    match event {
        NotifyEvent::TaskFailed { task, group, exit_code } => {
            if !config.on_failure {
                return None;
            }
            let body = match exit_code {
                Some(code) => {
                    let mut s = cat5(
                        "Task ",
                        task.as_str(),
                        " in ",
                        group.as_str(),
                        " failed with exit code ",
                    );
                    s.append(signed_decimal_of(*code).as_str());
                    s
                },
                None => cat5("Task ", task.as_str(), " in ", group.as_str(), " failed"),
            };
            Some((cat3("zaz: ", task.as_str(), " failed"), body))
        },
        NotifyEvent::TaskSuccess { task, group, duration_ms: _ } => {
            if !config.on_success {
                return None;
            }
            let mut body = cat5("Task ", task.as_str(), " in ", group.as_str(), " completed in ");
            body.append(seconds);
            body.append("s");
            Some((cat3("zaz: ", task.as_str(), " complete"), body))
        },
        NotifyEvent::GroupComplete { group } => {
            if !config.on_group_complete {
                return None;
            }
            Some(("zaz: Ready".to_owned(), cat3("Group ", group.as_str(), " is ready")))
        },
        NotifyEvent::GroupFailed { group } => {
            if !config.on_failure {
                return None;
            }
            Some(
                (
                    "zaz: Group Failed".to_owned(),
                    cat3("Group ", group.as_str(), " has failed tasks"),
                ),
            )
        },
    }
}

} // verus!
