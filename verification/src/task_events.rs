//! Tasks as the pages see them, and the events of their lives.

use crate::clock::Moment;
use crate::text::starts_with;
use vstd::prelude::*;

verus! {

/// What happened to a task.
#[derive(Clone, Copy, Debug, PartialEq, Eq, Structural)]
pub enum TaskEventType {
    StateChanged,
    SubAgentSpawned,
    Completed,
    Failed,
    Cancelled,
}

impl TaskEventType {
    /// The name under which the event is sent.
    pub open spec fn sent_as(self) -> Seq<char> {
        match self {
            TaskEventType::StateChanged => "task-state-changed"@,
            TaskEventType::SubAgentSpawned => "task-sub-agent-spawned"@,
            TaskEventType::Completed => "task-completed"@,
            TaskEventType::Failed => "task-failed"@,
            TaskEventType::Cancelled => "task-cancelled"@,
        }
    }

    /// The name under which the event is sent.
    pub fn event_name(self) -> (r: &'static str)
        ensures
            r@ == self.sent_as(),
    {
        match self {
            TaskEventType::StateChanged => "task-state-changed",
            TaskEventType::SubAgentSpawned => "task-sub-agent-spawned",
            TaskEventType::Completed => "task-completed",
            TaskEventType::Failed => "task-failed",
            TaskEventType::Cancelled => "task-cancelled",
        }
    }
}

/// Where a task stands.
#[derive(Clone, Copy, Debug, PartialEq, Eq, Structural)]
pub enum TaskState {
    Queued,
    Running,
    Waiting,
    Suspended,
    Complete,
    Failed,
    Cancelled,
}

impl TaskState {
    /// Whether the task is over.
    pub open spec fn terminal(self) -> bool {
        self == TaskState::Complete || self == TaskState::Failed || self == TaskState::Cancelled
    }

    /// Whether the task is over.
    pub fn is_terminal(self) -> (r: bool)
        ensures
            r == self.terminal(),
    {
        match self {
            TaskState::Complete | TaskState::Failed | TaskState::Cancelled => true,
            _ => false,
        }
    }

    /// The name of the state.
    pub open spec fn named(self) -> Seq<char> {
        match self {
            TaskState::Queued => "Queued"@,
            TaskState::Running => "Running"@,
            TaskState::Waiting => "Waiting"@,
            TaskState::Suspended => "Suspended"@,
            TaskState::Complete => "Complete"@,
            TaskState::Failed => "Failed"@,
            TaskState::Cancelled => "Cancelled"@,
        }
    }

    /// The name of the state.
    pub fn name(self) -> (r: &'static str)
        ensures
            r@ == self.named(),
    {
        match self {
            TaskState::Queued => "Queued",
            TaskState::Running => "Running",
            TaskState::Waiting => "Waiting",
            TaskState::Suspended => "Suspended",
            TaskState::Complete => "Complete",
            TaskState::Failed => "Failed",
            TaskState::Cancelled => "Cancelled",
        }
    }
}

/// An event in the life of a task.
pub struct TaskEvent {
    pub event_type: TaskEventType,
    pub task_id: u128,
    pub agent_id: Option<u128>,
    pub agent_name: Option<String>,
    pub parent_task_id: Option<u128>,
    pub state: Option<TaskState>,
    pub spawn_depth: Option<u8>,
    pub timestamp: Moment,
    pub message: String,
}

/// A task is over once it is complete, failed or cancelled, and not before.
pub proof fn law_tasks_are_over_once_they_end(state: TaskState)
    ensures
        state.terminal() <==> state is Complete || state is Failed || state is Cancelled,
        !(TaskState::Queued).terminal() && !(TaskState::Running).terminal()
            && !(TaskState::Waiting).terminal() && !(TaskState::Suspended).terminal(),
{
}

/// Each kind of event is sent under a name of its own.
pub proof fn law_events_are_sent_under_their_name(a: TaskEventType, b: TaskEventType)
    ensures
        a.sent_as() == b.sent_as() ==> a == b,
        starts_with(a.sent_as(), "task-"@),
{
    reveal_strlit("task-");
    reveal_strlit("task-state-changed");
    reveal_strlit("task-sub-agent-spawned");
    reveal_strlit("task-completed");
    reveal_strlit("task-failed");
    reveal_strlit("task-cancelled");
    assert("task-state-changed"@.len() == 18 && "task-sub-agent-spawned"@.len() == 22);
    assert("task-completed"@.len() == 14 && "task-failed"@.len() == 11);
    assert("task-cancelled"@.len() == 14);
    assert("task-completed"@[6] == 'o' && "task-cancelled"@[6] == 'a');
    assert(a.sent_as().subrange(0, 5) =~= "task-"@);
}

} // verus!
