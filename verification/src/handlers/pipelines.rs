//! The pipelines page, and the form on it that runs a pipeline by its name.

use crate::json::compact_text;
use crate::reply::Reply;
use crate::text::{byte_len, is_blank, opt_text, same, trim, utf8_len};
use crate::toast::{toast, toast_json};
use vstd::prelude::*;

verus! {

/// What the list is asked for.
pub struct ListQuery {
    pub partial: Option<String>,
}

/// Whether the rows alone are asked for.
pub fn wants_rows(query: &ListQuery) -> (r: bool)
    ensures
        r <==> opt_text(query.partial) == Some("list"@),
{
    match &query.partial {
        Some(p) => same(p.as_str(), "list"),
        None => false,
    }
}

/// The form that runs a pipeline.
pub struct RunForm {
    pub pipeline_name: String,
    pub input: String,
    /// The agent that runs it; the kernel's own choice where none is named.
    pub agent_name: Option<String>,
}

/// The most bytes that the name of a pipeline has.
pub const MAX_NAME_BYTES: usize = 256;

/// The most bytes that the input of a pipeline has.
pub const MAX_INPUT_BYTES: usize = 65536;

/// What is wrong with the form, if anything: the first complaint that applies.
pub open spec fn run_complaint(form: RunForm) -> Option<Seq<char>> {
    if opt_text(form.agent_name) matches Some(n) && trim(n).len() == 0 {
        Some("Agent name must not be empty. Omit the field to use the kernel default."@)
    } else if utf8_len(form.pipeline_name@) > MAX_NAME_BYTES {
        Some("Pipeline name too long"@)
    } else if utf8_len(form.input@) > MAX_INPUT_BYTES {
        Some("Pipeline input too long"@)
    } else {
        None
    }
}

/// The answer where the form is no good.
pub fn check_run(form: &RunForm) -> (r: Option<Reply>)
    ensures
        match r {
            Some(reply) => run_complaint(*form) matches Some(c) && reply.is(400, c),
            None => run_complaint(*form) is None,
        },
{
    if let Some(n) = &form.agent_name {
        if is_blank(n.as_str()) {
            return Some(
                Reply::new(
                    400,
                    "Agent name must not be empty. Omit the field to use the kernel default.",
                ),
            );
        }
    }
    if byte_len(form.pipeline_name.as_str()) > MAX_NAME_BYTES {
        return Some(Reply::new(400, "Pipeline name too long"));
    }
    if byte_len(form.input.as_str()) > MAX_INPUT_BYTES {
        return Some(Reply::new(400, "Pipeline input too long"));
    }
    None
}

/// What becomes of a run.
pub enum RunReply {
    /// Back to the list, with a message.
    Started { trigger: String },
    Refused { reply: Reply, trigger: String },
}

/// The answer to the form, by whether the run was started.
pub fn run_reply(form: &RunForm, started: bool) -> (r: RunReply)
    ensures
        match r {
            RunReply::Started { trigger } => started && trigger@ == compact_text(
                toast_json("Pipeline '"@ + form.pipeline_name@ + "' started"@, "success"@),
            ),
            RunReply::Refused { reply, trigger } => !started && reply.is(
                400,
                "Failed to start pipeline run"@,
            ) && trigger@ == compact_text(toast_json("Failed to start pipeline"@, "error"@)),
        },
{
    if started {
        let mut message: String = "Pipeline '".to_owned();
        message.push_str(form.pipeline_name.as_str());
        message.push_str("' started");
        RunReply::Started { trigger: toast(message.as_str(), "success") }
    } else {
        RunReply::Refused {
            reply: Reply::new(400, "Failed to start pipeline run"),
            trigger: toast("Failed to start pipeline", "error"),
        }
    }
}

/// A pipeline is run exactly where no agent is named or its name is not blank, and the name of
/// the pipeline and its input are not too long.
pub proof fn law_sound_forms_are_run(form: RunForm)
    ensures
        run_complaint(form) is None <==> {
            &&& form.agent_name is None || trim(form.agent_name->0@).len() > 0
            &&& utf8_len(form.pipeline_name@) <= 256
            &&& utf8_len(form.input@) <= 64 * 1024
        },
{
}

} // verus!
