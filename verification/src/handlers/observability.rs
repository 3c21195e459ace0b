//! The observability page: what waits, what is attached and what happened, in rows.

use crate::clock::{Moment, STAMP_PATTERN};
use crate::handlers::scratchpad::{
    is_looked_up, lists_pages, looks_up, selected, selected_agent, tags_text,
};
use crate::ids::{format_uuid, uuid_text};
use crate::json::{copied, Json};
use crate::text::{join, opt_text, texts};
use vstd::prelude::*;

verus! {

/// What the page is asked for.
pub struct ObsQuery {
    pub scratch_agent: Option<String>,
    pub scratch_q: Option<String>,
}

/// How many pages and checkpoints the page shows.
pub const OBSERVED_ROWS: usize = 100;

/// How many entries of the audit log the page shows.
pub const OBSERVED_AUDIT: u32 = 50;

/// Which agent's scratchpad the page shows, and what is looked for in it.
pub struct Scratch {
    pub agent: String,
    pub q: String,
    /// Whether the agent's pages are listed.
    pub lists: bool,
    /// Whether they are searched.
    pub searches: bool,
}

/// Which agent's scratchpad the page shows, and what is looked for in it: the agent that is asked
/// for, or else the first.
pub fn scratch(query: ObsQuery, agents: &Vec<String>) -> (r: Scratch)
    ensures
        r.agent@ == selected(opt_text(query.scratch_agent), texts(agents@)),
        r.q@ == (match query.scratch_q {
            Some(q) => q@,
            None => ""@,
        }),
        r.lists == (r.agent@.len() > 0),
        r.searches == is_looked_up(r.agent@, r.q@),
{
    let agent: String = selected_agent(&query.scratch_agent, agents);
    let q: String = match query.scratch_q {
        Some(q) => q,
        None => "".to_owned(),
    };
    let lists: bool = lists_pages(agent.as_str());
    let searches: bool = looks_up(agent.as_str(), q.as_str());
    Scratch { agent, q, lists, searches }
}

// ---------------------------------------------------------------------------
// Rows
// ---------------------------------------------------------------------------

/// A question that waits for a decision.
pub struct Pending {
    pub id: u64,
    pub task_id: u128,
    pub agent_id: u128,
    pub urgency: String,
    pub reason: String,
    pub created_at: Moment,
    pub expires_at: Moment,
}

/// A question as the page shows it.
pub struct PendingRow {
    pub id: u64,
    pub task_id: String,
    pub agent_id: String,
    pub urgency: String,
    pub reason: String,
    pub created_at: String,
    pub expires_at: String,
}

/// Whether the row shows the question.
pub open spec fn shows_pending(row: PendingRow, p: Pending) -> bool {
    &&& row.id == p.id
    &&& row.task_id@ == uuid_text(p.task_id)
    &&& row.agent_id@ == uuid_text(p.agent_id)
    &&& row.urgency@ == p.urgency@
    &&& row.reason@ == p.reason@
    &&& row.created_at@ == p.created_at.stamped(STAMP_PATTERN@)
    &&& row.expires_at@ == p.expires_at.stamped(STAMP_PATTERN@)
}

/// The questions as the page shows them, in order.
pub fn pending_rows(list: &Vec<Pending>) -> (r: Vec<PendingRow>)
    ensures
        r@.len() == list@.len(),
        forall|i: int| 0 <= i < r@.len() ==> shows_pending(#[trigger] r@[i], list@[i]),
{
    let mut out: Vec<PendingRow> = Vec::new();
    let mut i: usize = 0;
    while i < list.len()
        invariant
            i <= list@.len(),
            out@.len() == i,
            forall|k: int| 0 <= k < i ==> shows_pending(#[trigger] out@[k], list@[k]),
        decreases list.len() - i,
    {
        let p: &Pending = &list[i];
        out.push(
            PendingRow {
                id: p.id,
                task_id: format_uuid(p.task_id),
                agent_id: format_uuid(p.agent_id),
                urgency: p.urgency.clone(),
                reason: p.reason.clone(),
                created_at: p.created_at.stamp(STAMP_PATTERN),
                expires_at: p.expires_at.stamp(STAMP_PATTERN),
            },
        );
        i += 1;
    }
    out
}

/// A place that takes calls from outside.
pub struct Endpoint {
    pub id: u128,
    pub agent_id: u128,
    pub provider: String,
    pub active: bool,
    pub debounce_seconds: u64,
    pub total_received: u64,
    pub created_at: Moment,
    pub last_received_at: Option<Moment>,
}

/// A place that takes calls as the page shows it.
pub struct EndpointRow {
    pub id: String,
    pub agent_id: String,
    pub provider: String,
    pub active: bool,
    pub debounce_seconds: u64,
    pub total_received: u64,
    pub created_at: String,
    /// When it was last called, or nothing.
    pub last_received_at: String,
}

/// Whether the row shows the place.
pub open spec fn shows_endpoint(row: EndpointRow, e: Endpoint) -> bool {
    &&& row.id@ == uuid_text(e.id)
    &&& row.agent_id@ == uuid_text(e.agent_id)
    &&& row.provider@ == e.provider@
    &&& row.active == e.active
    &&& row.debounce_seconds == e.debounce_seconds
    &&& row.total_received == e.total_received
    &&& row.created_at@ == e.created_at.stamped(STAMP_PATTERN@)
    &&& row.last_received_at@ == (match e.last_received_at {
        Some(at) => at.stamped(STAMP_PATTERN@),
        None => ""@,
    })
}

/// The places that take calls as the page shows them, in order.
pub fn endpoint_rows(list: &Vec<Endpoint>) -> (r: Vec<EndpointRow>)
    ensures
        r@.len() == list@.len(),
        forall|i: int| 0 <= i < r@.len() ==> shows_endpoint(#[trigger] r@[i], list@[i]),
{
    let mut out: Vec<EndpointRow> = Vec::new();
    let mut i: usize = 0;
    while i < list.len()
        invariant
            i <= list@.len(),
            out@.len() == i,
            forall|k: int| 0 <= k < i ==> shows_endpoint(#[trigger] out@[k], list@[k]),
        decreases list.len() - i,
    {
        let e: &Endpoint = &list[i];
        out.push(
            EndpointRow {
                id: format_uuid(e.id),
                agent_id: format_uuid(e.agent_id),
                provider: e.provider.clone(),
                active: e.active,
                debounce_seconds: e.debounce_seconds,
                total_received: e.total_received,
                created_at: e.created_at.stamp(STAMP_PATTERN),
                last_received_at: match e.last_received_at {
                    Some(at) => at.stamp(STAMP_PATTERN),
                    None => "".to_owned(),
                },
            },
        );
        i += 1;
    }
    out
}

/// The point that a task can be taken up from.
pub struct Checkpoint {
    pub checkpoint_id: String,
    pub task_id: u128,
    pub agent_id: u128,
    pub step_num: u64,
    pub updated_at: Moment,
    pub schema_version: u64,
}

/// A checkpoint as the page shows it.
pub struct CheckpointRow {
    pub checkpoint_id: String,
    pub task_id: String,
    pub agent_id: String,
    pub step_num: u64,
    pub updated_at: String,
    pub schema_version: u64,
}

/// Whether the row shows the checkpoint.
pub open spec fn shows_checkpoint(row: CheckpointRow, c: Checkpoint) -> bool {
    &&& row.checkpoint_id@ == c.checkpoint_id@
    &&& row.task_id@ == uuid_text(c.task_id)
    &&& row.agent_id@ == uuid_text(c.agent_id)
    &&& row.step_num == c.step_num
    &&& row.updated_at@ == c.updated_at.stamped(STAMP_PATTERN@)
    &&& row.schema_version == c.schema_version
}

/// How many of so many rows are shown.
pub open spec fn shown_of(n: nat) -> nat {
    if n > OBSERVED_ROWS {
        OBSERVED_ROWS as nat
    } else {
        n
    }
}

/// The first checkpoints as the page shows them, in order.
pub fn checkpoint_rows(list: &Vec<Checkpoint>) -> (r: Vec<CheckpointRow>)
    ensures
        r@.len() == shown_of(list@.len()),
        forall|i: int| 0 <= i < r@.len() ==> shows_checkpoint(#[trigger] r@[i], list@[i]),
{
    let mut out: Vec<CheckpointRow> = Vec::new();
    let mut i: usize = 0;
    while i < list.len() && i < OBSERVED_ROWS
        invariant
            i <= shown_of(list@.len()),
            out@.len() == i,
            forall|k: int| 0 <= k < i ==> shows_checkpoint(#[trigger] out@[k], list@[k]),
        decreases list.len() - i,
    {
        let c: &Checkpoint = &list[i];
        out.push(
            CheckpointRow {
                checkpoint_id: c.checkpoint_id.clone(),
                task_id: format_uuid(c.task_id),
                agent_id: format_uuid(c.agent_id),
                step_num: c.step_num,
                updated_at: c.updated_at.stamp(STAMP_PATTERN),
                schema_version: c.schema_version,
            },
        );
        i += 1;
    }
    out
}

/// A page of a scratchpad.
pub struct Note {
    pub id: Json,
    pub title: String,
    pub tags: Vec<String>,
    pub updated_at: Moment,
}

/// A page of a scratchpad as it is listed.
pub struct NoteRow {
    pub id: Json,
    pub title: String,
    pub tags: String,
    pub updated_at: String,
}

/// Whether the row shows the page.
pub open spec fn shows_note(row: NoteRow, n: Note) -> bool {
    &&& row.id@ == n.id@
    &&& row.title@ == n.title@
    &&& row.tags@ == join(texts(n.tags@), ", "@)
    &&& row.updated_at@ == n.updated_at.stamped(STAMP_PATTERN@)
}

/// The first pages as they are listed, in order.
pub fn note_rows(list: &Vec<Note>) -> (r: Vec<NoteRow>)
    ensures
        r@.len() == shown_of(list@.len()),
        forall|i: int| 0 <= i < r@.len() ==> shows_note(#[trigger] r@[i], list@[i]),
{
    let mut out: Vec<NoteRow> = Vec::new();
    let mut i: usize = 0;
    while i < list.len() && i < OBSERVED_ROWS
        invariant
            i <= shown_of(list@.len()),
            out@.len() == i,
            forall|k: int| 0 <= k < i ==> shows_note(#[trigger] out@[k], list@[k]),
        decreases list.len() - i,
    {
        let n: &Note = &list[i];
        out.push(
            NoteRow {
                id: copied(&n.id),
                title: n.title.clone(),
                tags: tags_text(&n.tags),
                updated_at: n.updated_at.stamp(STAMP_PATTERN),
            },
        );
        i += 1;
    }
    out
}

/// An entry of the audit log.
pub struct Logged {
    pub at: Moment,
    pub event_type: String,
    pub severity: String,
    pub details: Json,
}

/// An entry of the audit log as the page shows it.
pub struct LoggedRow {
    pub timestamp: String,
    pub event_type: String,
    pub severity: String,
    pub details: Json,
}

/// Whether the row shows the entry.
pub open spec fn shows_logged(row: LoggedRow, e: Logged) -> bool {
    &&& row.timestamp@ == e.at.stamped(STAMP_PATTERN@)
    &&& row.event_type@ == e.event_type@
    &&& row.severity@ == e.severity@
    &&& row.details@ == e.details@
}

/// The entries of the audit log as the page shows them, in order.
pub fn logged_rows(list: &Vec<Logged>) -> (r: Vec<LoggedRow>)
    ensures
        r@.len() == list@.len(),
        forall|i: int| 0 <= i < r@.len() ==> shows_logged(#[trigger] r@[i], list@[i]),
{
    let mut out: Vec<LoggedRow> = Vec::new();
    let mut i: usize = 0;
    while i < list.len()
        invariant
            i <= list@.len(),
            out@.len() == i,
            forall|k: int| 0 <= k < i ==> shows_logged(#[trigger] out@[k], list@[k]),
        decreases list.len() - i,
    {
        let e: &Logged = &list[i];
        out.push(
            LoggedRow {
                timestamp: e.at.stamp(STAMP_PATTERN),
                event_type: e.event_type.clone(),
                severity: e.severity.clone(),
                details: copied(&e.details),
            },
        );
        i += 1;
    }
    out
}

/// Each row of the page shows what it stands for: its ids as text, its times to the second, and
/// everything else as it is.
pub proof fn law_rows_show_what_they_stand_for(
    pending: (PendingRow, Pending),
    endpoint: (EndpointRow, Endpoint),
    checkpoint: (CheckpointRow, Checkpoint),
    note: (NoteRow, Note),
)
    requires
        shows_pending(pending.0, pending.1),
        shows_endpoint(endpoint.0, endpoint.1),
        shows_checkpoint(checkpoint.0, checkpoint.1),
        shows_note(note.0, note.1),
    ensures
        pending.0.id == pending.1.id && pending.0.task_id@ == uuid_text(pending.1.task_id)
            && pending.0.agent_id@ == uuid_text(pending.1.agent_id) && pending.0.urgency@
            == pending.1.urgency@ && pending.0.reason@ == pending.1.reason@,
        pending.0.created_at@ == pending.1.created_at.stamped(STAMP_PATTERN@)
            && pending.0.expires_at@ == pending.1.expires_at.stamped(STAMP_PATTERN@),
        endpoint.0.id@ == uuid_text(endpoint.1.id) && endpoint.0.agent_id@ == uuid_text(
            endpoint.1.agent_id,
        ) && endpoint.0.provider@ == endpoint.1.provider@ && endpoint.0.active
            == endpoint.1.active && endpoint.0.total_received == endpoint.1.total_received,
        endpoint.1.last_received_at is None ==> endpoint.0.last_received_at@ == ""@,
        endpoint.1.last_received_at is Some ==> endpoint.0.last_received_at@
            == endpoint.1.last_received_at->0.stamped(STAMP_PATTERN@),
        checkpoint.0.checkpoint_id@ == checkpoint.1.checkpoint_id@ && checkpoint.0.task_id@
            == uuid_text(checkpoint.1.task_id) && checkpoint.0.agent_id@ == uuid_text(
            checkpoint.1.agent_id,
        ) && checkpoint.0.step_num == checkpoint.1.step_num,
        note.0.id@ == note.1.id@ && note.0.title@ == note.1.title@,
        note.1.tags@.len() == 0 ==> note.0.tags@.len() == 0,
        note.1.tags@.len() == 1 ==> note.0.tags@ == note.1.tags@[0]@,
{
    assert(texts(note.1.tags@).len() == note.1.tags@.len());
}

/// Up to a hundred rows are shown.
pub proof fn law_a_hundred_rows_are_shown(n: nat)
    ensures
        n <= 100 ==> shown_of(n) == n,
        n > 100 ==> shown_of(n) == 100,
{
}

} // verus!
