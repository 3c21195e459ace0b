//! The page of one agent: its tasks, and its permissions.

use crate::clock::{Moment, STAMP_PATTERN};
use crate::ids::{format_uuid, uuid_text};
use crate::json::compact_text;
use crate::reply::Reply;
use crate::select::{choose_rows, chosen, Picks};
use crate::task_events::TaskState;
use crate::toast::{toast, toast_json};
use vstd::prelude::*;

verus! {

/// The form that grants a permission.
pub struct GrantPermissionForm {
    pub permission: String,
}

/// The form that revokes a permission.
pub struct RevokePermissionForm {
    pub permission: String,
}

/// A task, with the agent that runs it.
pub struct AgentTask {
    pub id: u128,
    pub agent_id: u128,
    pub state: TaskState,
    pub prompt_preview: String,
    pub created_at: Moment,
    pub tool_calls: u64,
    pub tokens_used: u64,
}

/// An agent, by its id.
pub struct OfAgent {
    pub agent_id: u128,
}

impl Picks<AgentTask> for OfAgent {
    /// The agent's own tasks.
    open spec fn picks(&self, row: AgentTask) -> bool {
        row.agent_id == self.agent_id
    }

    fn takes(&self, row: &AgentTask) -> (r: bool) {
        row.agent_id == self.agent_id
    }
}

/// The tasks of an agent, in order.
pub fn tasks_of<'a>(tasks: &'a Vec<AgentTask>, agent_id: u128) -> (r: Vec<&'a AgentTask>)
    ensures
        r@ == chosen::<'a, AgentTask, OfAgent>(tasks@, (OfAgent { agent_id })),
{
    choose_rows(tasks, &OfAgent { agent_id })
}

/// A task as the page shows it.
pub struct TaskItem {
    pub id: String,
    pub state: &'static str,
    pub prompt_preview: String,
    pub created_at: String,
    pub tool_calls: u64,
    pub tokens_used: u64,
}

/// Whether the item shows the task.
pub open spec fn shows_task(item: TaskItem, task: AgentTask) -> bool {
    &&& item.id@ == uuid_text(task.id)
    &&& item.state@ == task.state.named()
    &&& item.prompt_preview@ == task.prompt_preview@
    &&& item.created_at@ == task.created_at.stamped(STAMP_PATTERN@)
    &&& item.tool_calls == task.tool_calls
    &&& item.tokens_used == task.tokens_used
}

/// The tasks of an agent as the page shows them, in order.
pub fn task_items(tasks: &Vec<AgentTask>, agent_id: u128) -> (r: Vec<TaskItem>)
    ensures
        ({
            let own = chosen::<'static, AgentTask, OfAgent>(tasks@, (OfAgent { agent_id }));
            &&& r@.len() == own.len()
            &&& forall|k: int| 0 <= k < own.len() ==> shows_task(#[trigger] r@[k], *own[k])
        }),
{
    let own: Vec<&AgentTask> = tasks_of(tasks, agent_id);
    let mut out: Vec<TaskItem> = Vec::new();
    let mut i: usize = 0;
    while i < own.len()
        invariant
            i <= own@.len(),
            out@.len() == i,
            forall|k: int| 0 <= k < i ==> shows_task(#[trigger] out@[k], *own@[k]),
        decreases own.len() - i,
    {
        let task: &AgentTask = own[i];
        out.push(
            TaskItem {
                id: format_uuid(task.id),
                state: task.state.name(),
                prompt_preview: task.prompt_preview.clone(),
                created_at: task.created_at.stamp(STAMP_PATTERN),
                tool_calls: task.tool_calls,
                tokens_used: task.tokens_used,
            },
        );
        i += 1;
    }
    out
}

/// The title of the page.
pub fn detail_title(name: &str) -> (r: String)
    ensures
        r@ == "Agent: "@ + name@,
{
    let mut out: String = "Agent: ".to_owned();
    out.push_str(name);
    out
}

/// What becomes of a changed permission.
pub enum PermissionReply {
    /// Back to the agent's page, with a message.
    Back { location: String, trigger: String },
    Refused { reply: Reply, trigger: String },
}

/// The page of an agent.
pub open spec fn detail_path(name: Seq<char>) -> Seq<char> {
    "/agents/"@ + name + "/detail"@
}

fn path_of(name: &str) -> (r: String)
    ensures
        r@ == detail_path(name@),
{
    let mut out: String = "/agents/".to_owned();
    out.push_str(name);
    out.push_str("/detail");
    out
}

/// The answer to a form that grants a permission, by whether it was granted.
pub fn granted(name: &str, form: &GrantPermissionForm, done: bool) -> (r: PermissionReply)
    ensures
        match r {
            PermissionReply::Back { location, trigger } => done && location@ == detail_path(name@)
                && trigger@ == compact_text(
                toast_json("Permission '"@ + form.permission@ + "' granted"@, "success"@),
            ),
            PermissionReply::Refused { reply, trigger } => !done && reply.is(
                400,
                "Failed to grant permission"@,
            ) && trigger@ == compact_text(toast_json("Failed to grant permission"@, "error"@)),
        },
{
    if done {
        let mut message: String = "Permission '".to_owned();
        message.push_str(form.permission.as_str());
        message.push_str("' granted");
        PermissionReply::Back {
            location: path_of(name),
            trigger: toast(message.as_str(), "success"),
        }
    } else {
        PermissionReply::Refused {
            reply: Reply::new(400, "Failed to grant permission"),
            trigger: toast("Failed to grant permission", "error"),
        }
    }
}

/// The answer to a form that revokes a permission, by whether it was revoked.
pub fn revoked(name: &str, form: &RevokePermissionForm, done: bool) -> (r: PermissionReply)
    ensures
        match r {
            PermissionReply::Back { location, trigger } => done && location@ == detail_path(name@)
                && trigger@ == compact_text(
                toast_json("Permission '"@ + form.permission@ + "' revoked"@, "info"@),
            ),
            PermissionReply::Refused { reply, trigger } => !done && reply.is(
                400,
                "Failed to revoke permission"@,
            ) && trigger@ == compact_text(toast_json("Failed to revoke permission"@, "error"@)),
        },
{
    if done {
        let mut message: String = "Permission '".to_owned();
        message.push_str(form.permission.as_str());
        message.push_str("' revoked");
        PermissionReply::Back { location: path_of(name), trigger: toast(message.as_str(), "info") }
    } else {
        PermissionReply::Refused {
            reply: Reply::new(400, "Failed to revoke permission"),
            trigger: toast("Failed to revoke permission", "error"),
        }
    }
}

/// An agent's page shows its own tasks, each with its id, its state, its beginning and what it
/// took.
pub proof fn law_an_agent_shows_its_own_tasks(agent_id: u128, task: AgentTask, item: TaskItem)
    requires
        shows_task(item, task),
    ensures
        (OfAgent { agent_id }).picks(task) <==> task.agent_id == agent_id,
        item.id@ == uuid_text(task.id) && item.prompt_preview@ == task.prompt_preview@,
        item.tool_calls == task.tool_calls && item.tokens_used == task.tokens_used,
        item.state@ == task.state.named(),
        item.created_at@ == task.created_at.stamped(STAMP_PATTERN@),
{
}

} // verus!
