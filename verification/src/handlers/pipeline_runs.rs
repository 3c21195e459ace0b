//! The builder's page, and the events of a run that it watches.

use crate::ids::{is_uuid, uuid_like};
use crate::json::{compact, compact_text, entry_contents, object, text_entry, Json, JsonV};
use crate::reply::{Lookup, Reply};
use crate::sort::{ranked, sort_rows};
use crate::text::{
    contains_text, ends_with, first_chars, occurs_at, opt_text, starts_with, take_chars,
};
use crate::watch::{news, noted, StatusWatch, StepReport};
use vstd::prelude::*;

verus! {

/// The names that the builder offers, in order.
pub fn sorted_names(names: Vec<String>) -> (r: Vec<String>)
    ensures
        r@ == ranked(names@),
{
    sort_rows(names)
}

/// The title of the builder's page.
pub fn builder_title(name: &str, is_new: bool) -> (r: String)
    ensures
        r@ == if is_new {
            "New Pipeline"@
        } else {
            "Edit Pipeline — "@ + name@
        },
{
    if is_new {
        "New Pipeline".to_owned()
    } else {
        let mut out: String = "Edit Pipeline — ".to_owned();
        out.push_str(name);
        out
    }
}

/// The answer where a stored pipeline cannot be loaded.
pub fn load_error(found: &Lookup<String>) -> (r: Option<Reply>)
    ensures
        match *found {
            Lookup::Found(_) => r is None,
            Lookup::Missing => r matches Some(reply) && reply.is(404, "Pipeline not found"@),
            Lookup::Failed => r matches Some(reply) && reply.is(500, "Internal error"@),
        },
{
    match found {
        Lookup::Found(_) => None,
        Lookup::Missing => Some(Reply::new(404, "Pipeline not found")),
        Lookup::Failed => Some(Reply::new(500, "Internal error")),
    }
}

/// What is done to a stored pipeline.
#[derive(Clone, Copy, PartialEq, Eq, Structural, Debug)]
pub enum StoreAction {
    Save,
    Clone,
    Delete,
}

/// The answer where the store did not do it: `refused`, or it could not be asked at all.
pub fn store_error(action: StoreAction, refused: bool) -> (r: Reply)
    ensures
        !refused ==> r.is(500, "Internal error"@),
        refused ==> match action {
            StoreAction::Save => r.is(500, "Failed to save pipeline"@),
            StoreAction::Clone => r.is(500, "Failed to clone pipeline"@),
            StoreAction::Delete => r.is(400, "Failed to delete pipeline"@),
        },
{
    if !refused {
        return Reply::new(500, "Internal error");
    }
    match action {
        StoreAction::Save => Reply::new(500, "Failed to save pipeline"),
        StoreAction::Clone => Reply::new(500, "Failed to clone pipeline"),
        StoreAction::Delete => Reply::new(400, "Failed to delete pipeline"),
    }
}

/// An event for the browser.
pub struct Frame {
    pub event: &'static str,
    pub data: String,
}

/// A text as JSON, or null.
pub open spec fn quoted(text: Option<Seq<char>>) -> Seq<char> {
    match text {
        Some(t) => compact_text(JsonV::Text(t)),
        None => "null"@,
    }
}

fn quote(text: &Option<String>) -> (r: String)
    ensures
        r@ == quoted(opt_text(*text)),
{
    match text {
        Some(t) => {
            let j: Json = Json::Text(t.clone());
            assert(j@ == JsonV::Text(t@));
            compact(&j)
        },
        None => "null".to_owned(),
    }
}

fn quote_str(text: &str) -> (r: String)
    ensures
        r@ == quoted(Some(text@)),
{
    let j: Json = Json::Text(text.to_owned());
    assert(j@ == JsonV::Text(text@));
    compact(&j)
}

/// The beginning of a text, where there is one.
pub open spec fn head_of(text: Option<Seq<char>>, n: int) -> Option<Seq<char>> {
    match text {
        Some(t) => Some(take_chars(t, n)),
        None => None,
    }
}

fn cut(text: &Option<String>, n: usize) -> (r: Option<String>)
    ensures
        opt_text(r) == head_of(opt_text(*text), n as int),
{
    match text {
        Some(t) => Some(first_chars(t.as_str(), n)),
        None => None,
    }
}

/// What the browser is told of a step: the beginning of its output, and its error.
pub open spec fn step_data(step: StepReport) -> Seq<char> {
    "{\"step_id\":"@ + quoted(Some(step.step_id@)) + ",\"status\":"@ + quoted(Some(step.status@))
        + ",\"output_preview\":"@ + quoted(head_of(opt_text(step.output), 160)) + ",\"error\":"@
        + quoted(opt_text(step.error)) + "}"@
}

/// What the browser is told of a step.
pub fn step_payload(step: &StepReport) -> (r: String)
    ensures
        r@ == step_data(*step),
{
    let id: String = quote_str(step.step_id.as_str());
    let status: String = quote_str(step.status.as_str());
    let head: Option<String> = cut(&step.output, 160);
    let output: String = quote(&head);
    let error: String = quote(&step.error);
    let mut out: String = "{\"step_id\":".to_owned();
    out.push_str(id.as_str());
    out.push_str(",\"status\":");
    out.push_str(status.as_str());
    out.push_str(",\"output_preview\":");
    out.push_str(output.as_str());
    out.push_str(",\"error\":");
    out.push_str(error.as_str());
    out.push_str("}");
    out
}

/// A run at one look.
pub struct PipelineRun {
    pub run_id: String,
    /// Whether it is still at work.
    pub running: bool,
    pub status: String,
    pub output: Option<String>,
    pub error: Option<String>,
    pub steps: Vec<StepReport>,
}

/// What the browser is told of a run.
pub open spec fn run_data(run: PipelineRun) -> Seq<char> {
    "{\"run_id\":"@ + quoted(Some(run.run_id@)) + ",\"status\":"@ + quoted(Some(run.status@))
        + ",\"output\":"@ + quoted(head_of(opt_text(run.output), 240)) + ",\"error\":"@ + quoted(
        opt_text(run.error),
    ) + "}"@
}

/// What the browser is told of a run.
pub fn run_payload(run: &PipelineRun) -> (r: String)
    ensures
        r@ == run_data(*run),
{
    let id: String = quote_str(run.run_id.as_str());
    let status: String = quote_str(run.status.as_str());
    let head: Option<String> = cut(&run.output, 240);
    let output: String = quote(&head);
    let error: String = quote(&run.error);
    let mut out: String = "{\"run_id\":".to_owned();
    out.push_str(id.as_str());
    out.push_str(",\"status\":");
    out.push_str(status.as_str());
    out.push_str(",\"output\":");
    out.push_str(output.as_str());
    out.push_str(",\"error\":");
    out.push_str(error.as_str());
    out.push_str("}");
    out
}

/// The event that tells of an error.
pub open spec fn error_data(message: Seq<char>) -> Seq<char> {
    compact_text(JsonV::Object(seq![("message"@, JsonV::Text(message))]))
}

/// The event that tells of an error.
pub fn error_frame(message: &str) -> (r: Frame)
    ensures
        r.event@ == "pipeline-error"@,
        r.data@ == error_data(message@),
{
    let entries: Vec<(String, Json)> = vec![text_entry("message", message)];
    assert(entry_contents(entries@) =~= seq![("message"@, JsonV::Text(message@))]);
    Frame { event: "pipeline-error", data: compact(&object(entries)) }
}

/// The event that is sent where the id is not that of a run.
pub fn check_run_id(run_id: &str) -> (r: Option<Frame>)
    ensures
        match r {
            Some(f) => !uuid_like(run_id@) && f.event@ == "pipeline-error"@ && f.data@ == error_data(
                "Invalid run ID"@,
            ),
            None => uuid_like(run_id@),
        },
{
    if is_uuid(run_id) {
        None
    } else {
        Some(error_frame("Invalid run ID"))
    }
}

/// An event as it is sent: its name and what it says.
pub open spec fn sent(frames: Seq<Frame>) -> Seq<(Seq<char>, Seq<char>)> {
    Seq::new(frames.len(), |i: int| (frames[i].event@, frames[i].data@))
}

/// The events of a look at a run: one for each step whose status is news, then one for the run.
pub open spec fn run_events(seen: Map<Seq<char>, Seq<char>>, run: PipelineRun) -> Seq<
    (Seq<char>, Seq<char>),
> {
    let changed = news(seen, run.steps@);
    Seq::new(changed.len(), |i: int| ("step-status"@, step_data(*changed[i]))).push(
        ("run-status"@, run_data(run)),
    )
}

/// One look at a run: what the browser is sent, and whether the run is looked at again.
pub fn look_at_run(run: &PipelineRun, watch: &mut StatusWatch) -> (r: (Vec<Frame>, bool))
    requires
        old(watch).wf(),
    ensures
        final(watch).wf(),
        final(watch)@ == noted(old(watch)@, run.steps@),
        sent(r.0@) == run_events(old(watch)@, *run),
        r.1 == run.running,
{
    let ghost seen = watch@;
    let changed: Vec<&StepReport> = watch.look(&run.steps);
    let mut out: Vec<Frame> = Vec::new();
    let mut i: usize = 0;
    while i < changed.len()
        invariant
            i <= changed@.len(),
            out@.len() == i,
            forall|k: int|
                0 <= k < i ==> (#[trigger] out@[k]).event@ == "step-status"@ && out@[k].data@
                    == step_data(*changed@[k]),
        decreases changed.len() - i,
    {
        out.push(Frame { event: "step-status", data: step_payload(changed[i]) });
        i += 1;
    }
    out.push(Frame { event: "run-status", data: run_payload(run) });
    assert(sent(out@) =~= run_events(seen, *run));
    (out, run.running)
}

/// A look at a run whose steps have not changed tells of the run alone.
pub proof fn law_unchanged_steps_are_not_sent_again(
    seen: Map<Seq<char>, Seq<char>>,
    run: PipelineRun,
)
    requires
        forall|i: int|
            0 <= i < run.steps@.len() ==> seen.dom().contains((#[trigger] run.steps@[i]).step_id@)
                && seen[run.steps@[i].step_id@] == run.steps@[i].status@,
    ensures
        run_events(seen, run) == seq![("run-status"@, run_data(run))],
{
    lemma_nothing_new(seen, run.steps@);
    assert(run_events(seen, run) =~= seq![("run-status"@, run_data(run))]);
}

proof fn lemma_nothing_new(seen: Map<Seq<char>, Seq<char>>, steps: Seq<StepReport>)
    requires
        forall|i: int|
            0 <= i < steps.len() ==> seen.dom().contains((#[trigger] steps[i]).step_id@)
                && seen[steps[i].step_id@] == steps[i].status@,
    ensures
        news(seen, steps).len() == 0,
        noted(seen, steps) == seen,
    decreases steps.len(),
{
    if steps.len() > 0 {
        let head = steps.drop_last();
        assert forall|i: int| 0 <= i < head.len() implies seen.dom().contains(
            (#[trigger] head[i]).step_id@,
        ) && seen[head[i].step_id@] == head[i].status@ by {
            assert(head[i] == steps[i]);
        }
        lemma_nothing_new(seen, head);
        let last = steps[steps.len() - 1];
        assert(seen.dom().contains(last.step_id@));
        assert(seen.insert(last.step_id@, last.status@) =~= seen);
    }
}

/// What the browser is told of a step names it first, and holds its status, the beginning of its
/// output and its whole error; what is missing is null. A run is told in the same way.
pub proof fn law_steps_are_told_whole(step: StepReport, run: PipelineRun)
    ensures
        starts_with(step_data(step), "{\"step_id\":"@ + quoted(Some(step.step_id@)) + ",\"status\":"@
            + quoted(Some(step.status@))),
        ends_with(step_data(step), ",\"error\":"@ + quoted(opt_text(step.error)) + "}"@),
        starts_with(run_data(run), "{\"run_id\":"@ + quoted(Some(run.run_id@)) + ",\"status\":"@
            + quoted(Some(run.status@))),
        ends_with(run_data(run), ",\"error\":"@ + quoted(opt_text(run.error)) + "}"@),
        step.output is Some && step.output->0@.len() <= 160 ==> contains_text(
            step_data(step),
            ",\"output_preview\":"@ + quoted(Some(step.output->0@)) + ",\"error\":"@,
        ),
        step.output is Some && step.output->0@.len() > 160 ==> contains_text(
            step_data(step),
            ",\"output_preview\":"@ + quoted(Some(step.output->0@.subrange(0, 160)))
                + ",\"error\":"@,
        ),
        step.output is None ==> contains_text(
            step_data(step),
            ",\"output_preview\":"@ + "null"@ + ",\"error\":"@,
        ),
        run.output is Some && run.output->0@.len() <= 240 ==> contains_text(
            run_data(run),
            ",\"output\":"@ + quoted(Some(run.output->0@)) + ",\"error\":"@,
        ),
{
    let s = step_data(step);
    let head = "{\"step_id\":"@ + quoted(Some(step.step_id@)) + ",\"status\":"@ + quoted(
        Some(step.status@),
    );
    let middle = ",\"output_preview\":"@ + quoted(head_of(opt_text(step.output), 160))
        + ",\"error\":"@;
    let tail = ",\"error\":"@ + quoted(opt_text(step.error)) + "}"@;
    assert(s.subrange(0, head.len() as int) =~= head);
    assert(s.subrange(head.len() as int, (head.len() + middle.len()) as int) =~= middle);
    assert(occurs_at(s, middle, head.len() as int));
    assert(s.subrange(s.len() - tail.len(), s.len() as int) =~= tail);
    let r = run_data(run);
    let rhead = "{\"run_id\":"@ + quoted(Some(run.run_id@)) + ",\"status\":"@ + quoted(
        Some(run.status@),
    );
    let rmiddle = ",\"output\":"@ + quoted(head_of(opt_text(run.output), 240)) + ",\"error\":"@;
    let rtail = ",\"error\":"@ + quoted(opt_text(run.error)) + "}"@;
    assert(r.subrange(0, rhead.len() as int) =~= rhead);
    assert(r.subrange(rhead.len() as int, (rhead.len() + rmiddle.len()) as int) =~= rmiddle);
    assert(occurs_at(r, rmiddle, rhead.len() as int));
    assert(r.subrange(r.len() - rtail.len(), r.len() as int) =~= rtail);
}

/// A look at a run tells of each step whose status is news, in order, and then of the run itself.
pub proof fn law_a_look_tells_the_news_and_the_run(
    seen: Map<Seq<char>, Seq<char>>,
    run: PipelineRun,
    i: int,
)
    requires
        0 <= i < news(seen, run.steps@).len(),
    ensures
        run_events(seen, run).len() == news(seen, run.steps@).len() + 1,
        run_events(seen, run)[i] == ("step-status"@, step_data(*news(seen, run.steps@)[i])),
        run_events(seen, run).last() == ("run-status"@, run_data(run)),
{
}

} // verus!
