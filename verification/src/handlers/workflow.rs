//! The workflow pages: their ids, what a node can be set to, and the events of a run.

use crate::ids::fresh_id;
use crate::json::{compact, compact_text, entry_contents, object, parse_json, parsed, Json, JsonV};
use crate::sort::{law_sorting_orders_the_rows, ranked, sort_rows, Ranked};
use crate::text::{
    byte_len, contains_text, occurs_at, opt_text, same, str_contains, str_has_char, utf8_len,
};
use crate::textmap::{comes_before, lemma_text_total, lemma_text_transitive, text_less};
use crate::watch::{news, noted, StatusWatch, StepReport};
use vstd::prelude::*;

verus! {

/// The form that asks for the settings of a node.
pub struct NodePropertiesForm {
    pub node_type: String,
    pub node_id: String,
    /// JSON.
    pub parameters: String,
}

/// The body that runs a workflow.
pub struct RunRequest {
    pub input: Option<String>,
}

/// Whether an id names a file of the workflow directory: it leads nowhere else.
pub open spec fn workflow_id(id: Seq<char>) -> bool {
    !contains_text(id, ".."@) && !id.contains('/')
}

/// Whether an id names a file of the workflow directory.
pub fn is_workflow_id(id: &str) -> (r: bool)
    ensures
        r == workflow_id(id@),
{
    !str_contains(id, "..") && !str_has_char(id, '/')
}

/// The file of a workflow.
pub fn workflow_file(id: &str) -> (r: String)
    ensures
        r@ == id@ + ".json"@,
{
    let mut out: String = id.to_owned();
    out.push_str(".json");
    out
}

/// The id of a workflow that is saved: its own, or a new one where it has none.
pub fn saved_id(id: String) -> (r: String)
    ensures
        id@.len() > 0 ==> r == id,
        id@.len() == 0 ==> crate::ids::uuid_like(r@),
{
    proof {
        reveal_strlit("");
    }
    assert(id@.len() == 0 ==> id@ =~= ""@);
    if same(id.as_str(), "") {
        fresh_id()
    } else {
        id
    }
}

/// The name of the pipeline that a workflow runs as.
pub fn pipeline_name(id: &str) -> (r: String)
    ensures
        r@ == "workflow-"@ + id@,
{
    let mut out: String = "workflow-".to_owned();
    out.push_str(id);
    out
}

/// The name of a workflow that has none yet.
pub const UNTITLED: &'static str = "Untitled Workflow";

/// The title of the page that a workflow is built on.
pub fn builder_title(name: &str) -> (r: String)
    ensures
        r@ == name@ + " — Workflow Builder"@,
{
    let mut out: String = name.to_owned();
    out.push_str(" — Workflow Builder");
    out
}

/// A workflow as it is listed.
pub struct WorkflowSummary {
    pub id: String,
    pub name: String,
    pub version: String,
    pub node_count: usize,
    pub status: String,
    pub updated_at: String,
}

/// The workflow as it is listed.
pub fn workflow_summary(id: String, name: String, version: String, node_count: usize) -> (r:
    WorkflowSummary)
    ensures
        r.id == id,
        r.name == name,
        r.version == version,
        r.node_count == node_count,
        r.status@ == "active"@,
        r.updated_at@ == ""@,
{
    WorkflowSummary {
        id,
        name,
        version,
        node_count,
        status: "active".to_owned(),
        updated_at: "".to_owned(),
    }
}

impl Ranked for WorkflowSummary {
    /// By name.
    open spec fn precedes(self, other: Self) -> bool {
        text_less(self.name@, other.name@)
    }

    fn goes_before(&self, other: &Self) -> (r: bool) {
        comes_before(self.name.as_str(), other.name.as_str())
    }

    proof fn asymmetric(a: Self, b: Self) {
        lemma_text_total(a.name@, b.name@);
    }

    proof fn transitive(a: Self, b: Self, c: Self) {
        lemma_text_total(a.name@, b.name@);
        lemma_text_total(b.name@, c.name@);
        lemma_text_total(a.name@, c.name@);
        if text_less(a.name@, b.name@) && text_less(b.name@, c.name@) {
            lemma_text_transitive(a.name@, b.name@, c.name@);
        }
    }
}

/// The workflows by name.
pub fn sort_workflows(workflows: Vec<WorkflowSummary>) -> (r: Vec<WorkflowSummary>)
    ensures
        r@ == ranked(workflows@),
{
    sort_rows(workflows)
}

// ---------------------------------------------------------------------------
// Node settings
// ---------------------------------------------------------------------------

/// Whether a form can be answered: its names are not too long.
pub fn check_node_properties(form: &NodePropertiesForm) -> (r: bool)
    ensures
        r == (utf8_len(form.node_type@) <= 256 && utf8_len(form.node_id@) <= 256),
{
    byte_len(form.node_type.as_str()) <= 256 && byte_len(form.node_id.as_str()) <= 256
}

/// What a node is set to: what the form's text parses to, and nothing where it is no JSON.
pub open spec fn parameters_in(text: Seq<char>) -> JsonV {
    match parsed(text) {
        Ok(v) => v,
        Err(_) => JsonV::Object(Seq::empty()),
    }
}

/// What a node is set to.
pub fn node_parameters(text: &str) -> (r: Json)
    ensures
        r@ == parameters_in(text@),
{
    match parse_json(text) {
        Ok(v) => v,
        Err(_) => {
            let none: Vec<(String, Json)> = Vec::new();
            assert(entry_contents(none@) =~= Seq::empty());
            object(none)
        },
    }
}

/// What the node of a form is set to: nothing where the form cannot be answered.
pub fn node_properties(form: &NodePropertiesForm) -> (r: Option<Json>)
    ensures
        if utf8_len(form.node_type@) <= 256 && utf8_len(form.node_id@) <= 256 {
            r matches Some(j) && j@ == parameters_in(form.parameters@)
        } else {
            r is None
        },
{
    if check_node_properties(form) {
        Some(node_parameters(form.parameters.as_str()))
    } else {
        None
    }
}

/// A value that a setting can have.
pub struct PropertyOption {
    pub value: String,
    pub label: String,
}

/// Where the values of a setting come from.
#[derive(Clone, Copy, PartialEq, Eq, Structural)]
pub enum OptionSource {
    Agents,
    Tools,
    Workflows,
    Nowhere,
    /// They are not filled in.
    Own,
}

/// Where the values of a setting come from: a picker without values of its own takes them from
/// what it picks.
pub open spec fn options_from(picker: bool, has_options: bool, resource: Seq<char>) -> OptionSource {
    if !picker || has_options {
        OptionSource::Own
    } else if resource == "agents"@ {
        OptionSource::Agents
    } else if resource == "tools"@ {
        OptionSource::Tools
    } else if resource == "workflows"@ {
        OptionSource::Workflows
    } else {
        OptionSource::Nowhere
    }
}

/// Where the values of a setting come from. `resource` is empty where none is named.
pub fn option_source(picker: bool, has_options: bool, resource: &str) -> (r: OptionSource)
    ensures
        r == options_from(picker, has_options, resource@),
{
    if !picker || has_options {
        OptionSource::Own
    } else if same(resource, "agents") {
        OptionSource::Agents
    } else if same(resource, "tools") {
        OptionSource::Tools
    } else if same(resource, "workflows") {
        OptionSource::Workflows
    } else {
        OptionSource::Nowhere
    }
}

/// The value of an agent.
pub fn agent_option(name: &str) -> (r: PropertyOption)
    ensures
        r.value@ == name@,
        r.label@ == name@,
{
    PropertyOption { value: name.to_owned(), label: name.to_owned() }
}

/// The value of a tool.
pub fn tool_option(name: &str, description: &str) -> (r: PropertyOption)
    ensures
        r.value@ == name@,
        r.label@ == name@ + " — "@ + description@,
{
    let mut label: String = name.to_owned();
    label.push_str(" — ");
    label.push_str(description);
    PropertyOption { value: name.to_owned(), label }
}

/// The value of a workflow.
pub fn workflow_option(id: &str, name: &str) -> (r: PropertyOption)
    ensures
        r.value@ == id@,
        r.label@ == name@,
{
    PropertyOption { value: id.to_owned(), label: name.to_owned() }
}

// ---------------------------------------------------------------------------
// Runs
// ---------------------------------------------------------------------------

/// After how many looks a run is given up.
pub const MAX_POLLS: u32 = 600;

/// For how many looks a run may still be starting.
pub const START_POLLS: u32 = 10;

/// Whether a run id can be asked for.
pub fn is_run_id(run_id: &str) -> (r: bool)
    ensures
        r == (!contains_text(run_id@, ".."@) && utf8_len(run_id@) <= 128),
{
    !str_contains(run_id, "..") && byte_len(run_id) <= 128
}

/// The id of a run, from what the engine says of it.
pub open spec fn started_run(data: JsonV) -> Seq<char> {
    let found = match data.get("run_id"@) {
        Some(v) => Some(v),
        None => data.get("id"@),
    };
    match found {
        Some(JsonV::Text(t)) => t,
        _ => ""@,
    }
}

/// The id of a run, from what the engine says of it.
pub fn run_id_of(data: &Json) -> (r: String)
    ensures
        r@ == started_run(data@),
{
    let found: Option<&Json> = match data.get("run_id") {
        Some(v) => Some(v),
        None => data.get("id"),
    };
    match found {
        Some(Json::Text(t)) => t.clone(),
        _ => "".to_owned(),
    }
}

/// What a run says of itself at a look.
pub struct RunReport {
    pub steps: Vec<StepReport>,
    /// Empty where it says nothing.
    pub status: String,
}

/// How a look at a run ends.
#[derive(Clone, Copy, PartialEq, Eq, Structural)]
pub enum RunEnd {
    /// The run goes on.
    Goes,
    Complete,
    Failed,
    Timeout,
    NotFound,
}

/// How the look with this number ends. A run that is not there yet is waited for.
pub open spec fn run_end(poll: u32, found: bool, status: Seq<char>) -> RunEnd {
    if poll > MAX_POLLS {
        RunEnd::Timeout
    } else if !found {
        if poll > START_POLLS {
            RunEnd::NotFound
        } else {
            RunEnd::Goes
        }
    } else if status == "complete"@ || status == "Complete"@ {
        RunEnd::Complete
    } else if status == "failed"@ || status == "Failed"@ {
        RunEnd::Failed
    } else {
        RunEnd::Goes
    }
}

/// One look at a run: the steps whose status is news, and how the look ends. Before the run is
/// there, and when it is given up, nothing is news.
pub fn poll_run<'a>(poll: u32, report: Option<&'a RunReport>, watch: &mut StatusWatch) -> (r: (
    Vec<&'a StepReport>,
    RunEnd,
))
    requires
        old(watch).wf(),
    ensures
        final(watch).wf(),
        r.1 == run_end(
            poll,
            report is Some,
            match report {
                Some(x) => x.status@,
                None => ""@,
            },
        ),
        match report {
            Some(x) => if poll > MAX_POLLS {
                r.0@.len() == 0 && final(watch)@ == old(watch)@
            } else {
                r.0@ == news(old(watch)@, x.steps@) && final(watch)@ == noted(
                    old(watch)@,
                    x.steps@,
                )
            },
            None => r.0@.len() == 0 && final(watch)@ == old(watch)@,
        },
{
    if poll > MAX_POLLS {
        return (Vec::new(), RunEnd::Timeout);
    }
    match report {
        None => {
            let end: RunEnd = if poll > START_POLLS {
                RunEnd::NotFound
            } else {
                RunEnd::Goes
            };
            (Vec::new(), end)
        },
        Some(x) => {
            let changed: Vec<&'a StepReport> = watch.look(&x.steps);
            let end: RunEnd = if same(x.status.as_str(), "complete") || same(
                x.status.as_str(),
                "Complete",
            ) {
                RunEnd::Complete
            } else if same(x.status.as_str(), "failed") || same(x.status.as_str(), "Failed") {
                RunEnd::Failed
            } else {
                RunEnd::Goes
            };
            (changed, end)
        },
    }
}

/// The event of a step, as it is sent.
pub fn step_frame(step: &StepReport) -> (r: String)
    ensures
        r@ == compact_text(
            JsonV::Object(
                seq![
                    ("type"@, JsonV::Text("step"@)),
                    ("node_id"@, JsonV::Text(step.step_id@)),
                    ("status"@, JsonV::Text(step.status@)),
                ],
            ),
        ),
{
    let j = Json::Object(
        vec![
            ("type".to_owned(), Json::Text("step".to_owned())),
            ("node_id".to_owned(), Json::Text(step.step_id.clone())),
            ("status".to_owned(), Json::Text(step.status.clone())),
        ],
    );
    proof {
        crate::json::lemma_view(j);
        let entries = j->Object_0@;
        assert(crate::json::entry_contents(entries) =~= seq![
            ("type"@, JsonV::Text("step"@)),
            ("node_id"@, JsonV::Text(step.step_id@)),
            ("status"@, JsonV::Text(step.status@)),
        ]);
    }
    compact(&j)
}

/// An error event, as it is sent.
pub fn error_frame(message: Json) -> (r: String)
    ensures
        r@ == compact_text(
            JsonV::Object(seq![("type"@, JsonV::Text("error"@)), ("message"@, message@)]),
        ),
{
    let j = Json::Object(
        vec![
            ("type".to_owned(), Json::Text("error".to_owned())),
            ("message".to_owned(), message),
        ],
    );
    proof {
        crate::json::lemma_view(j);
        let entries = j->Object_0@;
        assert(crate::json::entry_contents(entries) =~= seq![
            ("type"@, JsonV::Text("error"@)),
            ("message"@, message@),
        ]);
    }
    compact(&j)
}

/// The event of a run that is complete, as it is sent.
pub fn complete_frame(output: Json) -> (r: String)
    ensures
        r@ == compact_text(
            JsonV::Object(seq![("type"@, JsonV::Text("complete"@)), ("output"@, output@)]),
        ),
{
    let j = Json::Object(
        vec![
            ("type".to_owned(), Json::Text("complete".to_owned())),
            ("output".to_owned(), output),
        ],
    );
    proof {
        crate::json::lemma_view(j);
        let entries = j->Object_0@;
        assert(crate::json::entry_contents(entries) =~= seq![
            ("type"@, JsonV::Text("complete"@)),
            ("output"@, output@),
        ]);
    }
    compact(&j)
}

/// The value that is there, or null.
pub open spec fn given(v: Option<Json>) -> JsonV {
    match v {
        Some(j) => j@,
        None => JsonV::Null,
    }
}

/// What is wrong with a run that ends without its output.
pub open spec fn complaint(end: RunEnd, error: Option<Json>) -> JsonV {
    match end {
        RunEnd::Failed => given(error),
        RunEnd::Timeout => JsonV::Text("timeout"@),
        _ => JsonV::Text("run not found"@),
    }
}

/// The last event of a run: none while it goes on.
pub open spec fn last_event(end: RunEnd, output: Option<Json>, error: Option<Json>) -> Option<
    Seq<char>,
> {
    match end {
        RunEnd::Goes => None,
        RunEnd::Complete => Some(
            compact_text(
                JsonV::Object(seq![("type"@, JsonV::Text("complete"@)), ("output"@, given(output))]),
            ),
        ),
        _ => Some(
            compact_text(
                JsonV::Object(
                    seq![("type"@, JsonV::Text("error"@)), ("message"@, complaint(end, error))],
                ),
            ),
        ),
    }
}

fn or_null(v: Option<Json>) -> (r: Json)
    ensures
        r@ == given(v),
{
    match v {
        Some(j) => j,
        None => Json::Null,
    }
}

/// The last event of a run, as it is sent: none while it goes on.
pub fn end_frame(end: RunEnd, output: Option<Json>, error: Option<Json>) -> (r: Option<String>)
    ensures
        opt_text(r) == last_event(end, output, error),
{
    match end {
        RunEnd::Goes => None,
        RunEnd::Complete => Some(complete_frame(or_null(output))),
        RunEnd::Failed => Some(error_frame(or_null(error))),
        RunEnd::Timeout => {
            let m: Json = Json::Text("timeout".to_owned());
            assert(m@ == JsonV::Text("timeout"@));
            Some(error_frame(m))
        },
        RunEnd::NotFound => {
            let m: Json = Json::Text("run not found".to_owned());
            assert(m@ == JsonV::Text("run not found"@));
            Some(error_frame(m))
        },
    }
}

/// The steps of a run, from what the engine says of it: each with its status, `unknown` where
/// it says none.
pub open spec fn reported(entries: Seq<(Seq<char>, JsonV)>, steps: Seq<StepReport>) -> bool {
    steps.len() == entries.len() && forall|i: int|
        0 <= i < steps.len() ==> (#[trigger] steps[i]).step_id@ == entries[i].0 && steps[i].status@
            == (match entries[i].1.text_at("status"@) {
            Some(s) => s,
            None => "unknown"@,
        }) && steps[i].output is None && steps[i].error is None
}

/// What a run says of itself, from the engine's answer.
pub fn run_report(data: &Json) -> (r: RunReport)
    ensures
        match data@.get("step_results"@) {
            Some(JsonV::Object(entries)) => reported(entries, r.steps@),
            _ => r.steps@.len() == 0,
        },
        r.status@ == (match data@.text_at("status"@) {
            Some(s) => s,
            None => "running"@,
        }),
{
    let status: String = match data.text_at("status") {
        Some(s) => s.to_owned(),
        None => "running".to_owned(),
    };
    let mut steps: Vec<StepReport> = Vec::new();
    if let Some(results) = data.get("step_results") {
        proof {
            crate::json::lemma_view(*results);
        }
        if let Json::Object(entries) = results {
            let mut i: usize = 0;
            while i < entries.len()
                invariant
                    i <= entries@.len(),
                    steps@.len() == i,
                    forall|k: int|
                        0 <= k < i ==> (#[trigger] steps@[k]).step_id@ == entries@[k].0@
                            && steps@[k].status@ == (match entries@[k].1@.text_at("status"@) {
                            Some(s) => s,
                            None => "unknown"@,
                        }) && steps@[k].output is None && steps@[k].error is None,
                decreases entries.len() - i,
            {
                let step_status: String = match entries[i].1.text_at("status") {
                    Some(s) => s.to_owned(),
                    None => "unknown".to_owned(),
                };
                steps.push(
                    StepReport {
                        step_id: entries[i].0.clone(),
                        status: step_status,
                        output: None,
                        error: None,
                    },
                );
                i += 1;
            }
        }
    }
    RunReport { steps, status }
}

/// A run is over where it completed or failed, where it was not there within the first looks, and
/// where it was looked at too often; until then it goes on. A run that ended by itself within its
/// looks ends as it says.
pub proof fn law_runs_end_as_they_say(poll: u32, found: bool, status: Seq<char>)
    ensures
        run_end(poll, found, status) == RunEnd::Timeout <==> poll > 600,
        poll <= 600 ==> {
            &&& found && (status == "complete"@ || status == "Complete"@) <==> run_end(
                poll,
                found,
                status,
            ) == RunEnd::Complete
            &&& found && (status == "failed"@ || status == "Failed"@) <==> run_end(
                poll,
                found,
                status,
            ) == RunEnd::Failed
            &&& !found && poll > 10 <==> run_end(poll, found, status) == RunEnd::NotFound
        },
{
    reveal_strlit("complete");
    reveal_strlit("Complete");
    reveal_strlit("failed");
    reveal_strlit("Failed");
    assert("complete"@.len() == 8 && "Complete"@.len() == 8);
    assert("failed"@.len() == 6 && "Failed"@.len() == 6);
}

/// The last event of a run tells its output where it completed, its own error where it failed,
/// and otherwise why it was given up; while it goes on there is none.
pub proof fn law_the_last_event_tells_the_end(output: Option<Json>, error: Option<Json>)
    ensures
        last_event(RunEnd::Goes, output, error) is None,
        last_event(RunEnd::Complete, output, error) is Some,
        last_event(RunEnd::Complete, output, error) == last_event(RunEnd::Complete, output, None),
        last_event(RunEnd::Failed, output, error) == last_event(RunEnd::Failed, None, error),
        last_event(RunEnd::Timeout, output, error) == last_event(RunEnd::Timeout, None, None),
        last_event(RunEnd::NotFound, output, error) == last_event(RunEnd::NotFound, None, None),
        error is Some ==> complaint(RunEnd::Failed, error) == error->0@,
        complaint(RunEnd::Timeout, error) == JsonV::Text("timeout"@),
        complaint(RunEnd::NotFound, error) == JsonV::Text("run not found"@),
        output is Some ==> given(output) == output->0@,
        output is None ==> given(output) is Null,
{
}

/// An id that could lead out of the directory names no workflow.
pub proof fn law_workflow_ids_lead_nowhere(front: Seq<char>, back: Seq<char>)
    ensures
        !workflow_id(front + ".."@ + back),
        !workflow_id(front + seq!['/'] + back),
        !front.contains('/') && !front.contains('.') ==> workflow_id(front),
{
    reveal_strlit("..");
    let up = front + ".."@ + back;
    let n = front.len() as int;
    assert(up.subrange(n, n + 2) =~= ".."@);
    assert(occurs_at(up, ".."@, n));
    let down = front + seq!['/'] + back;
    assert(down[n] == '/');
    if contains_text(front, ".."@) {
        let i = choose|i: int| occurs_at(front, ".."@, i);
        assert(front.subrange(i, i + 2)[0] == front[i]);
        assert(front.contains(front[i]));
    }
}

/// A setting has its own values where it has some or picks nothing; a picker without values takes
/// those of what it picks.
pub proof fn law_pickers_take_what_they_pick(resource: Seq<char>)
    ensures
        options_from(false, false, resource) is Own,
        options_from(true, true, resource) is Own,
        options_from(true, false, "agents"@) is Agents,
        options_from(true, false, "tools"@) is Tools,
        options_from(true, false, "workflows"@) is Workflows,
        resource != "agents"@ && resource != "tools"@ && resource != "workflows"@ ==> options_from(
            true,
            false,
            resource,
        ) is Nowhere,
{
    reveal_strlit("agents");
    reveal_strlit("tools");
    reveal_strlit("workflows");
    assert("agents"@.len() == 6 && "tools"@.len() == 5 && "workflows"@.len() == 9);
}

/// The id of a run is what the engine calls `run_id`, or else `id`; what is no text is none.
pub proof fn law_runs_are_named_by_the_engine(data: JsonV, name: Seq<char>)
    ensures
        data.get("run_id"@) == Some(JsonV::Text(name)) ==> started_run(data) == name,
        data.get("run_id"@) is None && data.get("id"@) == Some(JsonV::Text(name)) ==> started_run(
            data,
        ) == name,
        data.get("run_id"@) is None && data.get("id"@) is None ==> started_run(data).len() == 0,
{
    reveal_strlit("");
}

/// The steps of a run are those that the engine names, in order, each with its status; one whose
/// status it does not say is unknown.
pub proof fn law_steps_are_reported_as_the_engine_says(
    entries: Seq<(Seq<char>, JsonV)>,
    steps: Seq<StepReport>,
    i: int,
)
    requires
        reported(entries, steps),
        0 <= i < entries.len(),
    ensures
        steps.len() == entries.len(),
        steps[i].step_id@ == entries[i].0,
        entries[i].1.text_at("status"@) is Some ==> steps[i].status@ == entries[i].1.text_at(
            "status"@,
        )->0,
        entries[i].1.text_at("status"@) is None ==> steps[i].status@ == "unknown"@,
{
    let s = steps[i];
}

/// A node is set to what the form's text says, and to nothing where that is no JSON.
pub proof fn law_parameters_are_what_the_form_says(text: Seq<char>)
    ensures
        parsed(text) is Ok ==> parameters_in(text) == parsed(text)->Ok_0,
        parsed(text) is Err ==> parameters_in(text) == JsonV::Object(Seq::empty()),
{
}

/// Workflows are listed by their names.
pub proof fn law_workflows_are_listed_by_name(rows: Seq<WorkflowSummary>, i: int, j: int)
    requires
        0 <= i < j < rows.len(),
    ensures
        ranked(rows).len() == rows.len(),
        ranked(rows).to_multiset() == rows.to_multiset(),
        !text_less(ranked(rows)[j].name@, ranked(rows)[i].name@),
{
    law_sorting_orders_the_rows(rows);
    assert(!ranked(rows)[j].precedes(ranked(rows)[i]));
}

} // verus!
