//! The dashboard: how long the system is up, how its tasks stand, and what it last recorded.

use crate::clock::{Moment, STAMP_PATTERN};
use crate::task_events::TaskState;
use crate::text::{
    chars_of, decimal_int, decimal_int_text, opt_text, string_of, trim_by, trim_chars, Cut,
};
use vstd::prelude::*;

verus! {

/// How many of the last entries of the audit log are shown.
pub const RECENT_AUDIT: u32 = 10;

/// Division that rounds towards zero.
pub open spec fn quotient(a: int, b: int) -> int {
    if a >= 0 {
        a / b
    } else {
        -((-a) / b)
    }
}

/// What is left of such a division.
pub open spec fn rest(a: int, b: int) -> int {
    if a >= 0 {
        a % b
    } else {
        -((-a) % b)
    }
}

/// So many seconds as days, hours and minutes, from the largest that there is.
pub open spec fn uptime_text(secs: int) -> Seq<char> {
    let days = quotient(secs, 86400);
    let hours = quotient(rest(secs, 86400), 3600);
    let mins = quotient(rest(secs, 3600), 60);
    if days > 0 {
        decimal_int(days) + "d "@ + decimal_int(hours) + "h "@ + decimal_int(mins) + "m"@
    } else if hours > 0 {
        decimal_int(hours) + "h "@ + decimal_int(mins) + "m"@
    } else {
        decimal_int(mins) + "m"@
    }
}

/// So many seconds as days, hours and minutes, from the largest that there is.
pub fn format_uptime(secs: i64) -> (r: String)
    ensures
        r@ == uptime_text(secs as int),
{
    if secs < 0 {
        let past: i128 = -(secs as i128);
        let mins: i64 = ((past % 3600) / 60) as i64;
        let mut out: String = decimal_int_text(-mins);
        out.push_str("m");
        return out;
    }
    let days: i64 = secs / 86400;
    let hours: i64 = (secs % 86400) / 3600;
    let mins: i64 = (secs % 3600) / 60;
    let d: String = decimal_int_text(days);
    let h: String = decimal_int_text(hours);
    let m: String = decimal_int_text(mins);
    if days > 0 {
        let mut out: String = d;
        out.push_str("d ");
        out.push_str(h.as_str());
        out.push_str("h ");
        out.push_str(m.as_str());
        out.push_str("m");
        out
    } else if hours > 0 {
        let mut out: String = h;
        out.push_str("h ");
        out.push_str(m.as_str());
        out.push_str("m");
        out
    } else {
        let mut out: String = m;
        out.push_str("m");
        out
    }
}

/// Where a task is counted.
#[derive(Clone, Copy, PartialEq, Eq, Structural, Debug)]
pub enum TaskClass {
    Queued,
    Running,
    Completed,
    Failed,
}

/// Where a task of this state is counted.
pub open spec fn class_of(state: TaskState) -> TaskClass {
    match state {
        TaskState::Queued => TaskClass::Queued,
        TaskState::Running | TaskState::Waiting | TaskState::Suspended => TaskClass::Running,
        TaskState::Complete => TaskClass::Completed,
        TaskState::Failed | TaskState::Cancelled => TaskClass::Failed,
    }
}

/// How many tasks are counted there.
pub open spec fn counted(states: Seq<TaskState>, class: TaskClass) -> nat
    decreases states.len(),
{
    if states.len() == 0 {
        0
    } else {
        counted(states.drop_last(), class) + if class_of(states.last()) == class {
            1nat
        } else {
            0nat
        }
    }
}

/// How the tasks stand.
pub struct TaskSummary {
    pub queued: usize,
    pub running: usize,
    pub completed: usize,
    pub failed: usize,
}

/// How the tasks stand.
pub fn task_summary(states: &Vec<TaskState>) -> (r: TaskSummary)
    ensures
        r.queued == counted(states@, TaskClass::Queued),
        r.running == counted(states@, TaskClass::Running),
        r.completed == counted(states@, TaskClass::Completed),
        r.failed == counted(states@, TaskClass::Failed),
{
    let mut s: TaskSummary = TaskSummary { queued: 0, running: 0, completed: 0, failed: 0 };
    let mut i: usize = 0;
    assert(states@.take(0) =~= Seq::<TaskState>::empty());
    while i < states.len()
        invariant
            i <= states@.len(),
            s.queued <= i,
            s.running <= i,
            s.completed <= i,
            s.failed <= i,
            s.queued == counted(states@.take(i as int), TaskClass::Queued),
            s.running == counted(states@.take(i as int), TaskClass::Running),
            s.completed == counted(states@.take(i as int), TaskClass::Completed),
            s.failed == counted(states@.take(i as int), TaskClass::Failed),
        decreases states.len() - i,
    {
        assert(states@.take(i + 1).drop_last() =~= states@.take(i as int));
        assert(states@.take(i + 1).last() == states@[i as int]);
        match states[i] {
            TaskState::Queued => {
                s.queued = s.queued + 1;
            },
            TaskState::Running | TaskState::Waiting | TaskState::Suspended => {
                s.running = s.running + 1;
            },
            TaskState::Complete => {
                s.completed = s.completed + 1;
            },
            TaskState::Failed | TaskState::Cancelled => {
                s.failed = s.failed + 1;
            },
        }
        i += 1;
    }
    assert(states@.take(i as int) =~= states@);
    s
}

/// Every task is counted in one place and no more.
pub proof fn law_every_task_is_counted_once(states: Seq<TaskState>)
    ensures
        counted(states, TaskClass::Queued) + counted(states, TaskClass::Running) + counted(
            states,
            TaskClass::Completed,
        ) + counted(states, TaskClass::Failed) == states.len(),
    decreases states.len(),
{
    if states.len() > 0 {
        law_every_task_is_counted_once(states.drop_last());
    }
}

/// An entry of the audit log.
pub struct AuditLine {
    pub at: Moment,
    pub event_type: String,
    pub agent_id: Option<String>,
}

/// An entry as it is shown.
pub struct AuditRow {
    pub timestamp: String,
    pub event_type: String,
    pub severity: String,
    pub agent_id: Option<String>,
}

/// The entry as it is shown: its type without the quotes around it.
pub fn audit_row(line: &AuditLine) -> (r: AuditRow)
    ensures
        r.timestamp@ == line.at.stamped(STAMP_PATTERN@),
        r.event_type@ == trim_by(line.event_type@, Cut::Is('"')),
        r.severity@ == ""@,
        opt_text(r.agent_id) == opt_text(line.agent_id),
{
    let chars: Vec<char> = chars_of(line.event_type.as_str());
    let cut: Vec<char> = trim_chars(chars.as_slice(), Cut::Is('"'));
    AuditRow {
        timestamp: line.at.stamp(STAMP_PATTERN),
        event_type: string_of(cut.as_slice()),
        severity: "".to_owned(),
        agent_id: crate::chat_store::copy_text(&line.agent_id),
    }
}

/// A time of up to a day is told in hours and minutes, a longer one with its days, and one of
/// less than an hour in minutes alone. What is left of a minute is not told.
pub proof fn law_uptimes_add_up(days: nat, hours: nat, mins: nat, secs: nat)
    requires
        hours < 24,
        mins < 60,
        secs < 60,
    ensures
        ({
            let all = days * 86400 + hours * 3600 + mins * 60 + secs;
            &&& days > 0 ==> uptime_text(all as int) == decimal_int(days as int) + "d "@
                + decimal_int(hours as int) + "h "@ + decimal_int(mins as int) + "m"@
            &&& days == 0 && hours > 0 ==> uptime_text(all as int) == decimal_int(hours as int)
                + "h "@ + decimal_int(mins as int) + "m"@
            &&& days == 0 && hours == 0 ==> uptime_text(all as int) == decimal_int(mins as int)
                + "m"@
        }),
{
    let all = days * 86400 + hours * 3600 + mins * 60 + secs;
    assert(all as int / 86400 == days);
    assert(all as int % 86400 == hours * 3600 + mins * 60 + secs);
    assert((hours * 3600 + mins * 60 + secs) as int / 3600 == hours);
    assert(all as int % 3600 == mins * 60 + secs);
    assert((mins * 60 + secs) as int / 60 == mins);
}

/// A task waits in the queue, is at work, is done or went wrong: one that waits for something or
/// is suspended is at work, and one that was cancelled went wrong.
pub proof fn law_states_are_counted_where_they_belong()
    ensures
        class_of(TaskState::Queued) is Queued,
        class_of(TaskState::Running) is Running,
        class_of(TaskState::Waiting) is Running,
        class_of(TaskState::Suspended) is Running,
        class_of(TaskState::Complete) is Completed,
        class_of(TaskState::Failed) is Failed,
        class_of(TaskState::Cancelled) is Failed,
{
}

} // verus!
