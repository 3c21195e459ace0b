//! The task pages: lists, traces, the log stream, and resuming from a checkpoint.

use crate::clock::{Moment, TIME_PATTERN};
use crate::ids::{is_uuid, uuid_like, uuid_number, uuid_value};
use crate::json::{compact, compact_text, Json};
use crate::reply::{Lookup, Reply};
use crate::task_events::TaskState;
use crate::text::{
    chars_of, clip, clipped, contains_text, decimal, ends_with, in_i64, int_value, join, join_strings,
    law_decimals_read_back, law_trimming_cuts_the_ends, lower_ascii, lower_ascii_chars, lowercased,
    occurs_at, opt_text, parse_i64, same, starts_with, str_contains, string_of, texts, trim, trimmed,
    whitespace,
};
use vstd::prelude::*;

verus! {

/// How many tasks are listed.
pub const MAX_LISTED: usize = 500;

/// The query of the task list.
pub struct ListQuery {
    pub partial: Option<String>,
    pub search: Option<String>,
    pub status: Option<String>,
}

/// The form that resumes a task.
pub struct ResumeTaskForm {
    pub confirm: String,
}

/// A task as it is listed.
pub struct TaskRow {
    pub id: String,
    pub status: String,
    pub agent_name: Option<String>,
    pub prompt_preview: String,
    pub created_at: Moment,
}

/// The status that the list is asked for, where one is.
pub fn status_filter(query: &ListQuery) -> (r: Option<String>)
    ensures
        opt_text(r) == (match query.status {
            Some(s) => if s@.len() == 0 {
                None
            } else {
                Some(s@)
            },
            None => None,
        }),
{
    match &query.status {
        Some(s) => {
            proof {
                reveal_strlit("");
            }
            assert(s@.len() == 0 ==> s@ =~= ""@);
            if same(s.as_str(), "") {
                None
            } else {
                Some(s.clone())
            }
        },
        None => None,
    }
}

/// Whether a task is listed: its prompt holds what is searched for, in upper or lower case.
pub open spec fn listed(row: TaskRow, search: Option<String>) -> bool {
    match search {
        Some(s) => s@.len() == 0 || contains_text(
            lowercased(row.prompt_preview@),
            lowercased(s@),
        ),
        None => true,
    }
}

/// Whether a task is listed.
pub fn is_listed(row: &TaskRow, search: &Option<String>) -> (r: bool)
    ensures
        r == listed(*row, *search),
{
    match search {
        Some(s) => {
            proof {
                reveal_strlit("");
            }
            assert(s@.len() == 0 ==> s@ =~= ""@);
            if same(s.as_str(), "") {
                return true;
            }
            let prompt: String = row.prompt_preview.as_str().to_lowercase();
            let needle: String = s.as_str().to_lowercase();
            str_contains(prompt.as_str(), needle.as_str())
        },
        None => true,
    }
}

/// The tasks that are listed, in order.
pub open spec fn listed_rows(rows: Seq<TaskRow>, search: Option<String>) -> Seq<&'static TaskRow>
    decreases rows.len(),
{
    if rows.len() == 0 {
        Seq::empty()
    } else if listed(rows.last(), search) {
        listed_rows(rows.drop_last(), search).push(&rows.last())
    } else {
        listed_rows(rows.drop_last(), search)
    }
}

/// The tasks that are listed, in order.
pub fn search_tasks<'a>(rows: &'a Vec<TaskRow>, search: &Option<String>) -> (r: Vec<&'a TaskRow>)
    ensures
        r@ == listed_rows(rows@, *search),
{
    let mut out: Vec<&'a TaskRow> = Vec::new();
    let mut i: usize = 0;
    assert(rows@.take(0) =~= Seq::<TaskRow>::empty());
    while i < rows.len()
        invariant
            i <= rows@.len(),
            out@ == listed_rows(rows@.take(i as int), *search),
        decreases rows.len() - i,
    {
        assert(rows@.take(i + 1).drop_last() =~= rows@.take(i as int));
        assert(rows@.take(i + 1).last() == rows@[i as int]);
        if is_listed(&rows[i], search) {
            out.push(&rows[i]);
        }
        i += 1;
    }
    assert(rows@.take(i as int) =~= rows@);
    out
}

/// Whether only the rows are asked for.
pub fn wants_rows(query: &ListQuery) -> (r: bool)
    ensures
        r == (opt_text(query.partial) == Some("list"@)),
{
    match &query.partial {
        Some(p) => same(p.as_str(), "list"),
        None => false,
    }
}

/// The number of a task id, or the answer to what is none.
pub fn check_task_id(id: &str) -> (r: Result<u128, Reply>)
    ensures
        match uuid_value(id@) {
            Some(n) => r == Ok::<u128, Reply>(n),
            None => r matches Err(reply) && reply.is(400, "Invalid task ID"@),
        },
{
    match uuid_number(id) {
        Some(n) => Ok(n),
        None => Err(Reply::new(400, "Invalid task ID")),
    }
}

// ---------------------------------------------------------------------------
// Detail and trace
// ---------------------------------------------------------------------------

/// The start of a message in a task's history.
pub fn history_preview(payload: &Json) -> (r: String)
    ensures
        r@ == clipped(compact_text(payload@), 80, "…"@),
{
    let text: String = compact(payload);
    clip(text.as_str(), 80, "…")
}

/// The start of a tool call's input.
pub fn input_preview(input: &Json) -> (r: String)
    ensures
        r@ == clipped(compact_text(input@), 120, "…"@),
{
    let text: String = compact(input);
    clip(text.as_str(), 120, "…")
}

/// How a tool call in a trace ended: it was denied, it failed, or it went through.
pub fn call_status(granted: bool, failed: bool) -> (r: &'static str)
    ensures
        r@ == (if !granted {
            "denied"@
        } else if failed {
            "error"@
        } else {
            "ok"@
        }),
{
    if !granted {
        "denied"
    } else if failed {
        "error"
    } else {
        "ok"
    }
}

/// The complaint that something has no such part.
pub open spec fn none_of(part: Seq<char>, whole: Seq<char>) -> Seq<char> {
    "No "@ + part + " found for this "@ + whole
}

fn none_found(part: &str, whole: &str) -> (r: Reply)
    ensures
        r.is(404, none_of(part@, whole@)),
{
    let mut body: String = "No ".to_owned();
    body.push_str(part);
    body.push_str(" found for this ");
    body.push_str(whole);
    Reply { status: 404, body }
}

/// The answer where there is no trace; `None` where there is one.
pub fn trace_error(found: &Lookup<()>) -> (r: Option<Reply>)
    ensures
        match found {
            Lookup::Found(_) => r is None,
            Lookup::Missing => r matches Some(reply) && reply.is(
                404,
                none_of("trace"@, "task"@),
            ),
            Lookup::Failed => r matches Some(reply) && reply.is(500, "Failed to fetch trace"@),
        },
{
    match found {
        Lookup::Found(_) => None,
        Lookup::Missing => Some(none_found("trace", "task")),
        Lookup::Failed => Some(Reply::new(500, "Failed to fetch trace")),
    }
}

/// The answer to a question for one message of a task's history: `None` where it is there.
/// Without a task there is no history.
pub fn context_error(history_len: Option<usize>, idx: usize) -> (r: Option<Reply>)
    ensures
        match history_len {
            None => r matches Some(reply) && reply.is(404, "Task not found"@),
            Some(n) => if idx < n {
                r is None
            } else {
                r matches Some(reply) && reply.is(404, "Context message index out of range"@)
            },
        },
{
    match history_len {
        None => Some(Reply::new(404, "Task not found")),
        Some(n) => if idx < n {
            None
        } else {
            Some(Reply::new(404, "Context message index out of range"))
        },
    }
}

// ---------------------------------------------------------------------------
// Resuming
// ---------------------------------------------------------------------------

/// Whether a form confirms a resume: it says `resume`, in upper or lower case.
pub open spec fn confirms(confirm: Seq<char>) -> bool {
    lower_ascii(trim(confirm)) == "resume"@
}

/// The number of the task to resume, or the answer to a request that does not ask for it
/// properly.
pub fn check_resume(form: &ResumeTaskForm, id: &str) -> (r: Result<u128, Reply>)
    ensures
        if !confirms(form.confirm@) {
            r matches Err(reply) && reply.is(
                400,
                "Confirmation required: type RESUME to restore from checkpoint"@,
            )
        } else {
            match uuid_value(id@) {
                Some(n) => r == Ok::<u128, Reply>(n),
                None => r matches Err(reply) && reply.is(400, "Invalid task ID"@),
            }
        },
{
    let text: String = trimmed(form.confirm.as_str());
    let v: Vec<char> = chars_of(text.as_str());
    let low: Vec<char> = lower_ascii_chars(&v);
    let low: String = string_of(&low);
    if !same(low.as_str(), "resume") {
        return Err(
            Reply::new(400, "Confirmation required: type RESUME to restore from checkpoint"),
        );
    }
    check_task_id(id)
}

/// What is known of a checkpoint.
pub enum Checkpoint {
    Missing,
    /// It could not be loaded.
    LoadFailed,
    /// What it holds cannot be read.
    Unreadable,
    Loaded(CheckpointTask),
}

/// The task that a checkpoint holds.
pub struct CheckpointTask {
    pub agent_id: u128,
    pub priority: u8,
    pub original_prompt: String,
    pub parent_task: Option<u128>,
    pub max_iterations: Option<u32>,
    pub autonomous: bool,
    pub parent_task_id: Option<u128>,
    pub spawn_depth: u8,
    pub is_team_coordinator: bool,
    pub skip_checkpoint: bool,
    /// How the task is to be thought about, as the checkpoint holds it.
    pub reasoning_hints: Json,
    /// How hard its agent thinks, as the checkpoint holds it.
    pub thinking_level: Json,
}

/// What is known of the agent of a checkpoint's task.
#[derive(Clone, Copy, PartialEq, Eq, Structural)]
pub enum ResumeAgent {
    Unknown,
    Offline,
    Online,
}

/// What stands in the way of a resume, if anything: the first obstacle, as a status and a text.
pub open spec fn obstacle(
    checkpoint: Checkpoint,
    existing: Option<TaskState>,
    agent: ResumeAgent,
) -> Option<(int, Seq<char>)> {
    match checkpoint {
        Checkpoint::Missing => Some((404, none_of("checkpoint"@, "task"@))),
        Checkpoint::LoadFailed => Some((500, "Failed to load checkpoint"@)),
        Checkpoint::Unreadable => Some((400, "Checkpoint payload is invalid"@)),
        Checkpoint::Loaded(_) => if existing is Some && !existing->0.terminal() {
            Some((409, "Task already exists in scheduler and is not terminal; refusing resume"@))
        } else {
            match agent {
                ResumeAgent::Unknown => Some((404, "Agent not found for checkpoint task"@)),
                ResumeAgent::Offline => Some((400, "Agent is offline and task cannot be resumed"@)),
                ResumeAgent::Online => None,
            }
        },
    }
}

/// Whether a task can be resumed, from what is known of its checkpoint, of the task where the
/// scheduler has it, and of its agent: `None`, or the answer that names the first obstacle.
pub fn resume_error(
    checkpoint: &Checkpoint,
    existing: Option<TaskState>,
    agent: ResumeAgent,
) -> (r: Option<Reply>)
    ensures
        match obstacle(*checkpoint, existing, agent) {
            Some((status, body)) => r matches Some(reply) && reply.is(status, body),
            None => r is None,
        },
{
    match checkpoint {
        Checkpoint::Missing => {
            return Some(none_found("checkpoint", "task"));
        },
        Checkpoint::LoadFailed => {
            return Some(Reply::new(500, "Failed to load checkpoint"));
        },
        Checkpoint::Unreadable => {
            return Some(Reply::new(400, "Checkpoint payload is invalid"));
        },
        Checkpoint::Loaded(_) => {},
    }
    if let Some(state) = existing {
        if !state.is_terminal() {
            return Some(
                Reply::new(
                    409,
                    "Task already exists in scheduler and is not terminal; refusing resume",
                ),
            );
        }
    }
    match agent {
        ResumeAgent::Unknown => Some(Reply::new(404, "Agent not found for checkpoint task")),
        ResumeAgent::Offline => Some(
            Reply::new(400, "Agent is offline and task cannot be resumed"),
        ),
        ResumeAgent::Online => None,
    }
}

/// What a task may do.
#[derive(Clone, Copy, Debug, PartialEq, Eq, Structural)]
pub enum IntentFlag {
    Read,
    Write,
    Execute,
    Query,
    Observe,
    Message,
    Delegate,
    Broadcast,
    Escalate,
    Subscribe,
    Unsubscribe,
}

/// What a resumed task may do: everything.
pub fn resume_intents() -> (r: Vec<IntentFlag>)
    ensures
        forall|f: IntentFlag| #[trigger] r@.contains(f),
        r@.len() == 11,
{
    let r: Vec<IntentFlag> = vec![
        IntentFlag::Read,
        IntentFlag::Write,
        IntentFlag::Execute,
        IntentFlag::Query,
        IntentFlag::Observe,
        IntentFlag::Message,
        IntentFlag::Delegate,
        IntentFlag::Broadcast,
        IntentFlag::Escalate,
        IntentFlag::Subscribe,
        IntentFlag::Unsubscribe,
    ];
    assert forall|f: IntentFlag| #[trigger] r@.contains(f) by {
        let i: int = match f {
            IntentFlag::Read => 0,
            IntentFlag::Write => 1,
            IntentFlag::Execute => 2,
            IntentFlag::Query => 3,
            IntentFlag::Observe => 4,
            IntentFlag::Message => 5,
            IntentFlag::Delegate => 6,
            IntentFlag::Broadcast => 7,
            IntentFlag::Escalate => 8,
            IntentFlag::Subscribe => 9,
            IntentFlag::Unsubscribe => 10,
        };
        assert(r@[i] == f);
    }
    r
}

/// A task as it is queued.
pub struct QueuedTask {
    pub id: u128,
    pub state: TaskState,
    pub agent_id: u128,
    pub assigned_llm: Option<u128>,
    pub priority: u8,
    pub created_at: Moment,
    pub started_at: Option<Moment>,
    pub timeout_secs: u64,
    pub original_prompt: String,
    pub history_len: usize,
    pub parent_task: Option<u128>,
    pub max_iterations: Option<u32>,
    pub autonomous: bool,
    pub parent_task_id: Option<u128>,
    pub spawn_depth: u8,
    pub is_team_coordinator: bool,
    pub skip_checkpoint: bool,
    /// How the task is to be thought about, as the checkpoint holds it.
    pub reasoning_hints: Json,
    /// How hard its agent thinks, as the checkpoint holds it.
    pub thinking_level: Json,
}

/// The task as it is queued again: what it was to do and its place among other tasks stay, and
/// it starts anew with its agent.
pub open spec fn requeued(
    task_id: u128,
    agent_id: u128,
    task: CheckpointTask,
    timeout_secs: u64,
    now: Moment,
) -> QueuedTask {
    QueuedTask {
        id: task_id,
        state: TaskState::Queued,
        agent_id,
        assigned_llm: Some(agent_id),
        priority: task.priority,
        created_at: now,
        started_at: None,
        timeout_secs,
        original_prompt: task.original_prompt,
        history_len: 0,
        parent_task: task.parent_task,
        max_iterations: task.max_iterations,
        autonomous: task.autonomous,
        parent_task_id: task.parent_task_id,
        spawn_depth: task.spawn_depth,
        is_team_coordinator: task.is_team_coordinator,
        skip_checkpoint: task.skip_checkpoint,
        reasoning_hints: task.reasoning_hints,
        thinking_level: task.thinking_level,
    }
}

/// The task as it is queued again.
pub fn resumed_task(
    task_id: u128,
    agent_id: u128,
    task: CheckpointTask,
    timeout_secs: u64,
    now: Moment,
) -> (r: QueuedTask)
    ensures
        r == requeued(task_id, agent_id, task, timeout_secs, now),
{
    QueuedTask {
        id: task_id,
        state: TaskState::Queued,
        agent_id,
        assigned_llm: Some(agent_id),
        priority: task.priority,
        created_at: now,
        started_at: None,
        timeout_secs,
        original_prompt: task.original_prompt,
        history_len: 0,
        parent_task: task.parent_task,
        max_iterations: task.max_iterations,
        autonomous: task.autonomous,
        parent_task_id: task.parent_task_id,
        spawn_depth: task.spawn_depth,
        is_team_coordinator: task.is_team_coordinator,
        skip_checkpoint: task.skip_checkpoint,
        reasoning_hints: task.reasoning_hints,
        thinking_level: task.thinking_level,
    }
}

/// Why a task is not resumed, if it is not: the first complaint that applies. `issued` says
/// whether the task got a capability token.
pub open spec fn resume_refusal(
    form: ResumeTaskForm,
    id: Seq<char>,
    checkpoint: Checkpoint,
    existing: Option<TaskState>,
    agent: ResumeAgent,
    issued: bool,
) -> Option<(int, Seq<char>)> {
    if !confirms(form.confirm@) {
        Some((400, "Confirmation required: type RESUME to restore from checkpoint"@))
    } else if uuid_value(id) is None {
        Some((400, "Invalid task ID"@))
    } else if obstacle(checkpoint, existing, agent) is Some {
        obstacle(checkpoint, existing, agent)
    } else if !issued {
        Some((500, "Failed to issue capability token for resumed task"@))
    } else {
        None
    }
}

/// Resumes a task from its checkpoint: the task as it is queued, or why it is not.
pub fn resume(
    form: &ResumeTaskForm,
    id: &str,
    checkpoint: Checkpoint,
    existing: Option<TaskState>,
    agent: ResumeAgent,
    issued: bool,
    timeout_secs: u64,
    now: Moment,
) -> (r: Result<QueuedTask, Reply>)
    ensures
        match resume_refusal(*form, id@, checkpoint, existing, agent, issued) {
            Some((status, body)) => r matches Err(reply) && reply.is(status, body),
            None => checkpoint matches Checkpoint::Loaded(task) && (r matches Ok(queued) && queued
                == requeued(uuid_value(id@)->0, task.agent_id, task, timeout_secs, now)),
        },
{
    let task_id: u128 = match check_resume(form, id) {
        Ok(n) => n,
        Err(reply) => {
            return Err(reply);
        },
    };
    if let Some(reply) = resume_error(&checkpoint, existing, agent) {
        return Err(reply);
    }
    if !issued {
        return Err(Reply::new(500, "Failed to issue capability token for resumed task"));
    }
    match checkpoint {
        Checkpoint::Loaded(task) => {
            let agent_id: u128 = task.agent_id;
            Ok(resumed_task(task_id, agent_id, task, timeout_secs, now))
        },
        _ => Err(none_found("checkpoint", "task")),
    }
}

/// A task that is still at work is never queued a second time.
pub proof fn law_a_live_task_is_not_resumed(
    form: ResumeTaskForm,
    id: Seq<char>,
    checkpoint: Checkpoint,
    state: TaskState,
    agent: ResumeAgent,
    issued: bool,
)
    requires
        !state.terminal(),
    ensures
        resume_refusal(form, id, checkpoint, Some(state), agent, issued) is Some,
{
}

// ---------------------------------------------------------------------------
// The log stream
// ---------------------------------------------------------------------------

/// After how many nanoseconds a stream is closed.
pub const STREAM_TIMEOUT_NANOS: u64 = 1_800_000_000_000;

/// After how many nanoseconds without entries a stream looks less often.
pub const IDLE_NANOS: u64 = 120_000_000_000;

/// The seconds between two looks while entries come.
pub const BUSY_INTERVAL_SECS: u64 = 1;

/// The seconds between two looks when nothing has come for a while.
pub const IDLE_INTERVAL_SECS: u64 = 10;

/// How many entries a look takes.
pub const LOG_BATCH: usize = 100;

/// An entry of the log.
pub struct LogEntry {
    pub row_id: i64,
    /// Whether it is a finding of a test.
    pub is_finding: bool,
    /// The name of its kind.
    pub kind: String,
    pub timestamp: Moment,
    pub details: Json,
}

/// What a stream sends.
pub enum LogEvent {
    Finding { id: i64, data: String },
    Lines { id: i64, data: String },
    Done { data: String },
    KeepAlive,
}

/// The content of what a stream sends.
pub enum LogEventV {
    Finding { id: i64, data: Seq<char> },
    Lines { id: i64, data: Seq<char> },
    Done { data: Seq<char> },
    KeepAlive,
}

impl View for LogEvent {
    type V = LogEventV;

    open spec fn view(&self) -> LogEventV {
        match self {
            LogEvent::Finding { id, data } => LogEventV::Finding { id: *id, data: data@ },
            LogEvent::Lines { id, data } => LogEventV::Lines { id: *id, data: data@ },
            LogEvent::Done { data } => LogEventV::Done { data: data@ },
            LogEvent::KeepAlive => LogEventV::KeepAlive,
        }
    }
}

/// The contents of what is sent.
pub open spec fn sent(events: Seq<LogEvent>) -> Seq<LogEventV> {
    Seq::new(events.len(), |i: int| events[i]@)
}

/// Where a stream stands between two looks.
#[derive(Clone, Copy, PartialEq, Eq, Structural)]
pub struct LogCursor {
    /// The last row that was sent.
    pub last_seen: i64,
    /// When an entry last came.
    pub last_activity: u64,
    /// The seconds until the next look.
    pub interval_secs: u64,
}

/// The row behind which a reader goes on, from the id that it sends.
pub open spec fn resume_row(last_event_id: Option<Seq<char>>) -> i64 {
    match last_event_id {
        Some(s) => match in_i64(int_value(s)) {
            Some(n) => if n >= 0 {
                n
            } else {
                0
            },
            None => 0,
        },
        None => 0,
    }
}

/// What a reader is told in place of a log that has no task.
pub fn log_refusal(id: &str) -> (r: Option<&'static str>)
    ensures
        match r {
            Some(text) => !uuid_like(id@) && text@ == "Error: invalid task ID"@,
            None => uuid_like(id@),
        },
{
    if is_uuid(id) {
        None
    } else {
        Some("Error: invalid task ID")
    }
}

/// Where a new stream stands: it looks at once, behind the row that its reader saw last.
pub fn log_start(last_event_id: Option<&str>, now: u64) -> (r: LogCursor)
    ensures
        r.last_seen == resume_row(crate::chat_store::opt_view(last_event_id)),
        r.last_activity == now,
        r.interval_secs == 0,
{
    let last_seen: i64 = match last_event_id {
        Some(s) => match parse_i64(s) {
            Some(n) => if n >= 0 {
                n
            } else {
                0
            },
            None => 0,
        },
        None => 0,
    };
    LogCursor { last_seen, last_activity: now, interval_secs: 0 }
}

/// The line of an entry.
pub open spec fn log_line(e: LogEntry) -> Seq<char> {
    "["@ + e.timestamp.stamped(TIME_PATTERN@) + "] "@ + e.kind@ + " - "@ + compact_text(e.details@)
}

fn line_of(e: &LogEntry) -> (r: String)
    ensures
        r@ == log_line(*e),
{
    let time: String = e.timestamp.stamp(TIME_PATTERN);
    let details: String = compact(&e.details);
    let mut out: String = "[".to_owned();
    out.push_str(time.as_str());
    out.push_str("] ");
    out.push_str(e.kind.as_str());
    out.push_str(" - ");
    out.push_str(details.as_str());
    out
}

/// The findings among the entries, in order.
pub open spec fn findings(entries: Seq<LogEntry>) -> Seq<LogEventV>
    decreases entries.len(),
{
    if entries.len() == 0 {
        Seq::empty()
    } else if entries.last().is_finding {
        findings(entries.drop_last()).push(
            LogEventV::Finding {
                id: entries.last().row_id,
                data: compact_text(entries.last().details@),
            },
        )
    } else {
        findings(entries.drop_last())
    }
}

/// The lines of the other entries, in order.
pub open spec fn log_lines(entries: Seq<LogEntry>) -> Seq<Seq<char>>
    decreases entries.len(),
{
    if entries.len() == 0 {
        Seq::empty()
    } else if entries.last().is_finding {
        log_lines(entries.drop_last())
    } else {
        log_lines(entries.drop_last()).push(log_line(entries.last()))
    }
}

/// The time between two moments of the server's clock.
pub open spec fn elapsed(from: u64, to: u64) -> int {
    if to >= from {
        to - from
    } else {
        0
    }
}

/// Whether a stream ends with this look.
pub open spec fn log_over(started: u64, now: u64, state: Option<TaskState>) -> bool {
    elapsed(started, now) >= STREAM_TIMEOUT_NANOS || state is None || state->0.terminal()
}

/// The row behind which the next look goes on.
pub open spec fn last_row(entries: Seq<LogEntry>, last_seen: i64) -> i64 {
    if entries.len() == 0 {
        last_seen
    } else {
        entries.last().row_id
    }
}

/// What a look sends.
pub open spec fn log_events(
    cursor: LogCursor,
    started: u64,
    now: u64,
    entries: Seq<LogEntry>,
    state: Option<TaskState>,
) -> Seq<LogEventV> {
    let over = log_over(started, now, state);
    if entries.len() == 0 {
        seq![
            if over {
                LogEventV::Done {
                    data: if elapsed(started, now) >= STREAM_TIMEOUT_NANOS {
                        "stream timeout reached"@
                    } else {
                        "stream closed"@
                    },
                }
            } else {
                LogEventV::KeepAlive
            },
        ]
    } else {
        findings(entries) + (if log_lines(entries).len() > 0 {
            seq![
                LogEventV::Lines {
                    id: last_row(entries, cursor.last_seen),
                    data: join(log_lines(entries), "\n"@),
                },
            ]
        } else {
            Seq::empty()
        }) + (if over {
            seq![LogEventV::Done { data: "stream closed"@ }]
        } else {
            Seq::empty()
        })
    }
}

/// Where the stream stands behind a look, where it goes on.
pub open spec fn log_next(
    cursor: LogCursor,
    started: u64,
    now: u64,
    entries: Seq<LogEntry>,
    state: Option<TaskState>,
) -> Option<LogCursor> {
    if log_over(started, now, state) {
        None
    } else {
        let active = if entries.len() == 0 {
            cursor.last_activity
        } else {
            now
        };
        Some(
            LogCursor {
                last_seen: last_row(entries, cursor.last_seen),
                last_activity: active,
                interval_secs: if elapsed(active, now) > IDLE_NANOS {
                    IDLE_INTERVAL_SECS
                } else {
                    BUSY_INTERVAL_SECS
                },
            },
        )
    }
}

/// One look at the log: what is sent, and where the stream stands then. `state` is the task's,
/// where the scheduler has it.
pub fn log_step(
    cursor: LogCursor,
    started: u64,
    now: u64,
    entries: &Vec<LogEntry>,
    state: Option<TaskState>,
) -> (r: (Vec<LogEvent>, Option<LogCursor>))
    ensures
        sent(r.0@) == log_events(cursor, started, now, entries@, state),
        r.1 == log_next(cursor, started, now, entries@, state),
{
    let timed_out: bool = now.saturating_sub(started) >= STREAM_TIMEOUT_NANOS;
    let over: bool = timed_out || match state {
        None => true,
        Some(s) => s.is_terminal(),
    };
    let max_id: i64 = if entries.len() == 0 {
        cursor.last_seen
    } else {
        entries[entries.len() - 1].row_id
    };
    let active: u64 = if entries.len() == 0 {
        cursor.last_activity
    } else {
        now
    };
    let next: Option<LogCursor> = if over {
        None
    } else {
        Some(
            LogCursor {
                last_seen: max_id,
                last_activity: active,
                interval_secs: if now.saturating_sub(active) > IDLE_NANOS {
                    IDLE_INTERVAL_SECS
                } else {
                    BUSY_INTERVAL_SECS
                },
            },
        )
    };
    let mut events: Vec<LogEvent> = Vec::new();
    if entries.len() == 0 {
        let event: LogEvent = if over {
            LogEvent::Done {
                data: if timed_out {
                    "stream timeout reached".to_owned()
                } else {
                    "stream closed".to_owned()
                },
            }
        } else {
            LogEvent::KeepAlive
        };
        events.push(event);
        assert(sent(events@) =~= seq![event@]);
        return (events, next);
    }
    let mut lines: Vec<String> = Vec::new();
    let mut i: usize = 0;
    proof {
        assert(entries@.take(0) =~= Seq::<LogEntry>::empty());
        assert(sent(events@) =~= Seq::<LogEventV>::empty());
        assert(texts(lines@) =~= Seq::<Seq<char>>::empty());
    }
    while i < entries.len()
        invariant
            i <= entries@.len(),
            sent(events@) == findings(entries@.take(i as int)),
            texts(lines@) == log_lines(entries@.take(i as int)),
        decreases entries.len() - i,
    {
        assert(entries@.take(i + 1).drop_last() =~= entries@.take(i as int));
        assert(entries@.take(i + 1).last() == entries@[i as int]);
        if entries[i].is_finding {
            let ghost before = sent(events@);
            let event: LogEvent = LogEvent::Finding {
                id: entries[i].row_id,
                data: compact(&entries[i].details),
            };
            events.push(event);
            assert(sent(events@) =~= before.push(event@));
        } else {
            let ghost before = texts(lines@);
            let line: String = line_of(&entries[i]);
            lines.push(line);
            assert(texts(lines@) =~= before.push(line@));
        }
        i += 1;
    }
    assert(entries@.take(i as int) =~= entries@);
    let ghost found = sent(events@);
    assert(texts(lines@).len() == lines@.len());
    if lines.len() > 0 {
        let event: LogEvent = LogEvent::Lines { id: max_id, data: join_strings(&lines, "\n") };
        events.push(event);
        assert(sent(events@) =~= found + seq![event@]);
    } else {
        assert(sent(events@) =~= found + Seq::<LogEventV>::empty());
    }
    let ghost shown = sent(events@);
    if over {
        let event: LogEvent = LogEvent::Done { data: "stream closed".to_owned() };
        events.push(event);
        assert(sent(events@) =~= shown + seq![event@]);
    } else {
        assert(sent(events@) =~= shown + Seq::<LogEventV>::empty());
    }
    (events, next)
}

/// A stream that goes on never looks behind a row that it has sent: where the entries are those
/// behind its row, in order, the next look starts behind the last of them.
pub proof fn law_log_goes_forward(
    cursor: LogCursor,
    started: u64,
    now: u64,
    entries: Seq<LogEntry>,
    state: Option<TaskState>,
)
    requires
        forall|i: int| 0 <= i < entries.len() ==> (#[trigger] entries[i]).row_id > cursor.last_seen,
        forall|i: int, j: int|
            0 <= i < j < entries.len() ==> (#[trigger] entries[i]).row_id < (
            #[trigger] entries[j]).row_id,
    ensures
        log_next(cursor, started, now, entries, state) matches Some(next) ==> {
            &&& next.last_seen >= cursor.last_seen
            &&& forall|i: int|
                0 <= i < entries.len() ==> (#[trigger] entries[i]).row_id <= next.last_seen
        },
{
    if entries.len() > 0 {
        assert(entries[entries.len() - 1] == entries.last());
    }
}

/// A search finds the tasks in whose prompt the text stands, in upper or lower case, and no
/// others. Where nothing is searched for, every task is listed. The tasks keep their order.
pub proof fn law_searches_find_prompts(
    rows: Seq<TaskRow>,
    row: TaskRow,
    search: Option<String>,
    front: Seq<char>,
    back: Seq<char>,
)
    ensures
        search is None ==> listed(row, search),
        search is Some && search->0@.len() == 0 ==> listed(row, search),
        search is Some && lowercased(row.prompt_preview@) == front + lowercased(search->0@) + back
            ==> listed(row, search),
        search is Some && search->0@.len() > 0 && (forall|i: int|
            !occurs_at(lowercased(row.prompt_preview@), lowercased(search->0@), i)) ==> !listed(
            row,
            search,
        ),
        listed_rows(Seq::empty(), search).len() == 0,
        listed(row, search) ==> listed_rows(rows.push(row), search) == listed_rows(
            rows,
            search,
        ).push(&row),
        !listed(row, search) ==> listed_rows(rows.push(row), search) == listed_rows(rows, search),
{
    assert(rows.push(row).drop_last() =~= rows);
    if search is Some && lowercased(row.prompt_preview@) == front + lowercased(search->0@) + back {
        let hay = lowercased(row.prompt_preview@);
        let needle = lowercased(search->0@);
        assert(hay.subrange(front.len() as int, (front.len() + needle.len()) as int) =~= needle);
        assert(occurs_at(hay, needle, front.len() as int));
    }
}

/// A resume is confirmed by the word, in upper or lower case and with blanks around it, and by
/// nothing else.
pub proof fn law_a_resume_is_confirmed_by_its_word(
    front: Seq<char>,
    back: Seq<char>,
    word: Seq<char>,
)
    requires
        forall|i: int| 0 <= i < front.len() ==> whitespace(#[trigger] front[i]),
        forall|i: int| 0 <= i < back.len() ==> whitespace(#[trigger] back[i]),
        word.len() > 0 && !whitespace(word[0]) && !whitespace(word.last()),
    ensures
        !confirms(front),
        confirms(front + word + back) <==> lower_ascii(word) == "resume"@,
        confirms(front + "RESUME"@ + back),
        confirms(front + "resume"@ + back),
{
    reveal_strlit("RESUME");
    reveal_strlit("resume");
    let none = Seq::<char>::empty();
    law_trimming_cuts_the_ends(front, none, none);
    assert(front + none + none =~= front);
    assert(lower_ascii(none).len() == 0);
    law_trimming_cuts_the_ends(front, word, back);
    law_trimming_cuts_the_ends(front, "RESUME"@, back);
    law_trimming_cuts_the_ends(front, "resume"@, back);
    assert(lower_ascii("RESUME"@) =~= "resume"@);
    assert(lower_ascii("resume"@) =~= "resume"@);
}

/// A task is resumed exactly where the form confirms it, the id is one, its checkpoint was read,
/// no task of that id is at work, its agent is there and it got a token. What stands in the way
/// is answered by its own status.
pub proof fn law_tasks_resume_where_nothing_stands_in_the_way(
    form: ResumeTaskForm,
    id: Seq<char>,
    checkpoint: Checkpoint,
    existing: Option<TaskState>,
    agent: ResumeAgent,
    issued: bool,
)
    ensures
        resume_refusal(form, id, checkpoint, existing, agent, issued) is None <==> {
            &&& confirms(form.confirm@)
            &&& uuid_value(id) is Some
            &&& checkpoint is Loaded
            &&& existing is None || existing->0 is Complete || existing->0 is Failed
                || existing->0 is Cancelled
            &&& agent is Online
            &&& issued
        },
        confirms(form.confirm@) && uuid_value(id) is Some ==> {
            let r = resume_refusal(form, id, checkpoint, existing, agent, issued);
            &&& checkpoint is Missing ==> r is Some && (r->0).0 == 404
            &&& checkpoint is LoadFailed ==> r is Some && (r->0).0 == 500
            &&& checkpoint is Unreadable ==> r is Some && (r->0).0 == 400
            &&& checkpoint is Loaded && existing is Some && (existing->0 is Running
                || existing->0 is Waiting || existing->0 is Queued || existing->0 is Suspended)
                ==> r is Some && (r->0).0 == 409
            &&& checkpoint is Loaded && existing is None && agent is Unknown ==> r is Some && (
            r->0).0 == 404
            &&& checkpoint is Loaded && existing is None && agent is Offline ==> r is Some && (
            r->0).0 == 400
        },
{
}

/// A resumed task does what it was to do, under its own id and with its agent, from the start:
/// it waits in the queue, and nothing of its earlier run is left.
pub proof fn law_resumed_tasks_start_anew(
    task_id: u128,
    agent_id: u128,
    task: CheckpointTask,
    timeout_secs: u64,
    now: Moment,
)
    ensures
        ({
            let q = requeued(task_id, agent_id, task, timeout_secs, now);
            &&& q.id == task_id && q.agent_id == agent_id && q.assigned_llm == Some(agent_id)
            &&& q.state is Queued && q.started_at is None && q.history_len == 0
            &&& q.created_at == now && q.timeout_secs == timeout_secs
            &&& q.original_prompt == task.original_prompt && q.priority == task.priority
            &&& q.parent_task == task.parent_task && q.parent_task_id == task.parent_task_id
            &&& q.spawn_depth == task.spawn_depth && q.max_iterations == task.max_iterations
            &&& q.autonomous == task.autonomous
            &&& q.is_team_coordinator == task.is_team_coordinator
            &&& q.skip_checkpoint == task.skip_checkpoint
            &&& q.reasoning_hints == task.reasoning_hints
            &&& q.thinking_level == task.thinking_level
        }),
{
}

/// Each entry of the log is sent once: a finding by itself, under its number and with its
/// details, and any other as a line that begins with its time, names its kind and ends with its
/// details. Neither hides the other.
pub proof fn law_each_entry_is_sent_once(entries: Seq<LogEntry>, e: LogEntry)
    ensures
        findings(Seq::empty()).len() == 0,
        log_lines(Seq::empty()).len() == 0,
        e.is_finding ==> {
            &&& log_lines(entries.push(e)) == log_lines(entries)
            &&& findings(entries.push(e)).len() == findings(entries).len() + 1
            &&& findings(entries.push(e)).drop_last() == findings(entries)
            &&& findings(entries.push(e)).last() is Finding
            &&& findings(entries.push(e)).last()->Finding_id == e.row_id
            &&& findings(entries.push(e)).last()->Finding_data == compact_text(e.details@)
        },
        !e.is_finding ==> {
            let line = log_lines(entries.push(e)).last();
            &&& findings(entries.push(e)) == findings(entries)
            &&& log_lines(entries.push(e)).len() == log_lines(entries).len() + 1
            &&& log_lines(entries.push(e)).drop_last() == log_lines(entries)
            &&& starts_with(line, "["@ + e.timestamp.stamped(TIME_PATTERN@) + "] "@)
            &&& contains_text(line, e.kind@)
            &&& ends_with(line, " - "@ + compact_text(e.details@))
        },
{
    assert(entries.push(e).drop_last() =~= entries);
    assert(findings(entries).push(
        LogEventV::Finding { id: e.row_id, data: compact_text(e.details@) },
    ).drop_last() =~= findings(entries));
    let line = log_line(e);
    let head = "["@ + e.timestamp.stamped(TIME_PATTERN@) + "] "@;
    let tail = " - "@ + compact_text(e.details@);
    assert(log_lines(entries).push(line).drop_last() =~= log_lines(entries));
    assert(line =~= head + e.kind@ + tail);
    assert(line.subrange(0, head.len() as int) =~= head);
    assert(line.subrange(head.len() as int, (head.len() + e.kind@.len()) as int) =~= e.kind@);
    assert(occurs_at(line, e.kind@, head.len() as int));
    assert(line.subrange(line.len() - tail.len(), line.len() as int) =~= tail);
}

/// A log stream ends with its task, or after half an hour, and says so in its last event. Until
/// then it looks every second, and every ten where nothing has come for two minutes; a look that
/// finds nothing only keeps the stream open.
pub proof fn law_streams_end_with_their_task(
    cursor: LogCursor,
    started: u64,
    now: u64,
    entries: Seq<LogEntry>,
    state: Option<TaskState>,
)
    requires
        started <= now,
        cursor.last_activity <= now,
    ensures
        log_next(cursor, started, now, entries, state) is None <==> {
            ||| state is None
            ||| state->0 is Complete || state->0 is Failed || state->0 is Cancelled
            ||| now - started >= 30 * 60 * 1_000_000_000
        },
        log_next(cursor, started, now, entries, state) is None <==> log_events(
            cursor,
            started,
            now,
            entries,
            state,
        ).len() > 0 && log_events(cursor, started, now, entries, state).last() is Done,
        log_next(cursor, started, now, entries, state) matches Some(next) ==> {
            &&& entries.len() > 0 ==> next.last_seen == entries.last().row_id && next.last_activity
                == now && next.interval_secs == 1
            &&& entries.len() == 0 ==> next.last_seen == cursor.last_seen && next.last_activity
                == cursor.last_activity && log_events(cursor, started, now, entries, state)
                == seq![LogEventV::KeepAlive]
            &&& entries.len() == 0 && now - cursor.last_activity > 2 * 60 * 1_000_000_000
                ==> next.interval_secs == 10
            &&& now - cursor.last_activity <= 2 * 60 * 1_000_000_000 ==> next.interval_secs == 1
        },
{
    let sent = log_events(cursor, started, now, entries, state);
    if entries.len() > 0 && log_next(cursor, started, now, entries, state) is Some {
        lemma_findings_are_findings(entries);
        if log_lines(entries).len() > 0 {
            assert(sent.last() is Lines);
        } else {
            assert(sent =~= findings(entries));
        }
    }
}

proof fn lemma_findings_are_findings(entries: Seq<LogEntry>)
    ensures
        forall|i: int| 0 <= i < findings(entries).len() ==> #[trigger] findings(
            entries,
        )[i] is Finding,
    decreases entries.len(),
{
    if entries.len() > 0 {
        lemma_findings_are_findings(entries.drop_last());
    }
}

/// A reader goes on behind the row that it names. One that names none, or something that is no
/// row, reads from the start.
pub proof fn law_readers_go_on_where_they_stopped(row: nat, text: Seq<char>)
    requires
        row <= i64::MAX,
        text.len() == 0 || text[0] == 'x',
    ensures
        resume_row(Some(decimal(row))) == row,
        resume_row(None) == 0,
        resume_row(Some(text)) == 0,
{
    law_decimals_read_back(row);
}

} // verus!
