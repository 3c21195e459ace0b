//! The schedules page: jobs that run by the clock.

use crate::clock::{Moment, STAMP_UTC_PATTERN};
use crate::ids::uuid_value;
use crate::reply::{checked_id, failure, failure_text, Reply};
use crate::text::{is_blank, texts, trim, trimmed};
use std::str::FromStr;
use vstd::prelude::*;

verus! {

/// The form that makes a schedule.
pub struct CreateScheduleForm {
    pub name: String,
    pub agent_name: String,
    pub cron: String,
    pub prompt: String,
}

/// The form that asks when a schedule would run.
pub struct PreviewScheduleForm {
    pub cron: String,
}

/// When a schedule would run.
pub struct CronPreviewResponse {
    pub ok: bool,
    pub message: String,
    pub next_runs: Vec<String>,
}

/// The first second of the year 2101. No schedule runs from then on.
pub const LAST_RUN: i64 = 4_133_980_800;

/// Whether `cron` takes a text for a schedule.
pub uninterp spec fn cron_like(text: Seq<char>) -> bool;

/// The second at which a schedule runs next, after a moment.
pub uninterp spec fn cron_next(text: Seq<char>, secs: i64, nanos: u32) -> Option<i64>;

/// `cron::Schedule::from_str`, asked what it complains of: nothing, where the text is a schedule.
/// It has one complaint for every other text.
#[verifier::external_body]
fn cron_error(text: &str) -> (r: Option<String>)
    ensures
        r is None <==> cron_like(text@),
        r matches Some(e) ==> e@ == "Invalid expression: Invalid cron expression."@,
{
    cron::Schedule::from_str(text).err().map(|e| e.to_string())
}

/// The `next` of `cron::Schedule::after`, under a name. A schedule names no year after 2100.
#[verifier::external_body]
fn cron_run_after(text: &str, secs: i64, nanos: u32) -> (r: Option<i64>)
    requires
        secs < LAST_RUN,
    ensures
        r == cron_next(text@, secs, nanos),
        r matches Some(t) ==> t < LAST_RUN,
{
    let at = chrono::DateTime::from_timestamp(secs, nanos)?;
    let schedule = cron::Schedule::from_str(text).ok()?;
    schedule.after(&at).next().map(|d| d.timestamp())
}

/// The next `n` runs of a schedule after a moment, as text.
pub open spec fn runs_after(cron: Seq<char>, at: Moment, n: nat) -> Seq<Seq<char>>
    decreases n,
{
    if n == 0 || at.secs >= LAST_RUN {
        Seq::empty()
    } else {
        match cron_next(cron, at.secs, at.nanos) {
            Some(t) => {
                let next = Moment { secs: t, nanos: 0 };
                seq![next.stamped(STAMP_UTC_PATTERN@)] + runs_after(cron, next, (n - 1) as nat)
            },
            None => Seq::empty(),
        }
    }
}

/// The next `n` runs of a schedule after a moment, as text.
pub fn next_runs(cron: &str, now: Moment, n: usize) -> (r: Vec<String>)
    ensures
        texts(r@) == runs_after(cron@, now, n as nat),
{
    let mut out: Vec<String> = Vec::new();
    let mut at: Moment = now;
    let mut left: usize = n;
    assert(texts(out@) =~= Seq::empty());
    assert(texts(out@) + runs_after(cron@, at, left as nat) =~= runs_after(cron@, now, n as nat));
    while left > 0 && at.secs < LAST_RUN
        invariant
            texts(out@) + runs_after(cron@, at, left as nat) == runs_after(cron@, now, n as nat),
        decreases left,
    {
        match cron_run_after(cron, at.secs, at.nanos) {
            Some(t) => {
                let ghost before = texts(out@);
                let ghost rest = runs_after(cron@, at, left as nat);
                let next: Moment = Moment { secs: t, nanos: 0 };
                out.push(next.stamp(STAMP_UTC_PATTERN));
                at = next;
                left -= 1;
                assert(texts(out@) =~= before.push(next.stamped(STAMP_UTC_PATTERN@)));
                assert(texts(out@) + runs_after(cron@, at, left as nat) =~= before + rest);
            },
            None => {
                assert(runs_after(cron@, at, left as nat) =~= Seq::<Seq<char>>::empty());
                assert(texts(out@) =~= runs_after(cron@, now, n as nat));
                return out;
            },
        }
    }
    assert(runs_after(cron@, at, left as nat) =~= Seq::<Seq<char>>::empty());
    assert(texts(out@) =~= runs_after(cron@, now, n as nat));
    out
}

/// The answer to the form that asks when a schedule would run. `error` is what is wrong with the
/// expression, `runs` are its next runs.
pub fn preview_reply(cron: &str, error: Option<String>, runs: Vec<String>) -> (r: (
    u16,
    CronPreviewResponse,
))
    ensures
        trim(cron@).len() == 0 ==> r.0 == 400 && !r.1.ok && r.1.message@
            == "Cron expression is required"@ && r.1.next_runs@.len() == 0,
        trim(cron@).len() > 0 ==> match error {
            Some(e) => r.0 == 400 && !r.1.ok && r.1.message@ == "Invalid cron expression: "@ + e@
                && r.1.next_runs@.len() == 0,
            None => r.0 == 200 && r.1.ok && r.1.message@ == "OK"@ && r.1.next_runs == runs,
        },
{
    if is_blank(cron) {
        return (
            400,
            CronPreviewResponse {
                ok: false,
                message: "Cron expression is required".to_owned(),
                next_runs: Vec::new(),
            },
        );
    }
    match error {
        Some(e) => {
            let mut message: String = "Invalid cron expression: ".to_owned();
            message.push_str(e.as_str());
            (400, CronPreviewResponse { ok: false, message, next_runs: Vec::new() })
        },
        None => (
            200,
            CronPreviewResponse { ok: true, message: "OK".to_owned(), next_runs: runs },
        ),
    }
}

/// When a schedule would run: its next three runs.
pub fn preview(form: &PreviewScheduleForm, now: Moment) -> (r: (u16, CronPreviewResponse))
    ensures
        ({
            let cron = trim(form.cron@);
            if cron.len() == 0 {
                r.0 == 400 && !r.1.ok && r.1.message@ == "Cron expression is required"@
                    && r.1.next_runs@.len() == 0
            } else if !cron_like(cron) {
                r.0 == 400 && !r.1.ok && r.1.message@ == "Invalid cron expression: "@
                    + "Invalid expression: Invalid cron expression."@ && r.1.next_runs@.len() == 0
            } else {
                r.0 == 200 && r.1.ok && r.1.message@ == "OK"@ && texts(r.1.next_runs@)
                    == runs_after(cron, now, 3)
            }
        }),
{
    let cron: String = trimmed(form.cron.as_str());
    let error: Option<String> = cron_error(cron.as_str());
    let runs: Vec<String> = if error.is_some() {
        Vec::new()
    } else {
        next_runs(cron.as_str(), now, 3)
    };
    preview_reply(form.cron.as_str(), error, runs)
}

/// What a schedule is made with.
pub struct NewSchedule {
    pub name: String,
    pub cron: String,
    pub agent_name: String,
    pub prompt: String,
}

/// Reads the form that makes a schedule.
pub fn create(form: &CreateScheduleForm) -> (r: Result<NewSchedule, Reply>)
    ensures
        ({
            let whole = trim(form.name@).len() > 0 && trim(form.agent_name@).len() > 0 && trim(
                form.cron@,
            ).len() > 0 && trim(form.prompt@).len() > 0;
            match r {
                Ok(s) => {
                    &&& whole
                    &&& s.name@ == trim(form.name@)
                    &&& s.cron@ == trim(form.cron@)
                    &&& s.agent_name@ == trim(form.agent_name@)
                    &&& s.prompt@ == trim(form.prompt@)
                },
                Err(reply) => !whole && reply.is(400, "Missing required fields"@),
            }
        }),
{
    if is_blank(form.name.as_str()) || is_blank(form.agent_name.as_str()) || is_blank(
        form.cron.as_str(),
    ) || is_blank(form.prompt.as_str()) {
        return Err(Reply::new(400, "Missing required fields"));
    }
    Ok(
        NewSchedule {
            name: trimmed(form.name.as_str()),
            cron: trimmed(form.cron.as_str()),
            agent_name: trimmed(form.agent_name.as_str()),
            prompt: trimmed(form.prompt.as_str()),
        },
    )
}

/// The answer where a schedule could not be made.
pub fn create_failed(error: &str) -> (r: Reply)
    ensures
        r.is(400, "Failed to create schedule: "@ + error@),
{
    let mut body: String = "Failed to create schedule: ".to_owned();
    body.push_str(error);
    Reply { status: 400, body }
}

/// The number of a schedule's id.
pub fn check_schedule_id(id: &str) -> (r: Result<u128, Reply>)
    ensures
        match r {
            Ok(n) => uuid_value(id@) == Some(n),
            Err(reply) => uuid_value(id@) is None && reply.is(400, "Invalid schedule ID"@),
        },
{
    checked_id(id, "Invalid schedule ID")
}

/// What is done to a schedule.
#[derive(Clone, Copy, PartialEq, Eq, Structural, Debug)]
pub enum ScheduleAction {
    Pause,
    Resume,
    Delete,
}

/// The words for what is done to a schedule.
pub open spec fn action_words(action: ScheduleAction) -> Seq<char> {
    match action {
        ScheduleAction::Pause => "pause schedule"@,
        ScheduleAction::Resume => "resume schedule"@,
        ScheduleAction::Delete => "delete schedule"@,
    }
}

/// The answer where it could not be done to the schedule.
pub fn action_failed(action: ScheduleAction, id: &str, error: &str) -> (r: Reply)
    ensures
        r.is(400, failure_text(action_words(action), id@, error@)),
{
    let words: &str = match action {
        ScheduleAction::Pause => "pause schedule",
        ScheduleAction::Resume => "resume schedule",
        ScheduleAction::Delete => "delete schedule",
    };
    failure(words, id, error)
}

/// The runs of a schedule follow each other: the first is the next one after the moment, and the
/// others are those after it. No more are told than are asked for.
pub proof fn law_runs_follow_each_other(cron: Seq<char>, at: Moment, n: nat)
    requires
        at.secs < LAST_RUN,
    ensures
        runs_after(cron, at, 0).len() == 0,
        runs_after(cron, at, n).len() <= n,
        n > 0 && cron_next(cron, at.secs, at.nanos) is None ==> runs_after(cron, at, n).len() == 0,
        n > 0 && cron_next(cron, at.secs, at.nanos) is Some ==> {
            let next = Moment { secs: cron_next(cron, at.secs, at.nanos)->0, nanos: 0 };
            &&& runs_after(cron, at, n).len() > 0
            &&& runs_after(cron, at, n)[0] == next.stamped(STAMP_UTC_PATTERN@)
            &&& runs_after(cron, at, n).drop_first() == runs_after(cron, next, (n - 1) as nat)
        },
    decreases n,
{
    if n > 0 && cron_next(cron, at.secs, at.nanos) is Some {
        let next = Moment { secs: cron_next(cron, at.secs, at.nanos)->0, nanos: 0 };
        if next.secs < LAST_RUN {
            law_runs_follow_each_other(cron, next, (n - 1) as nat);
        }
        assert(runs_after(cron, at, n).drop_first() =~= runs_after(cron, next, (n - 1) as nat));
    }
}

/// What is done to a schedule is called by its own words.
pub proof fn law_actions_have_their_words()
    ensures
        action_words(ScheduleAction::Pause) == "pause schedule"@,
        action_words(ScheduleAction::Resume) == "resume schedule"@,
        action_words(ScheduleAction::Delete) == "delete schedule"@,
{
}

} // verus!
