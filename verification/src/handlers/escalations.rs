//! The escalations page: questions that wait for a decision.

use crate::reply::Reply;
use crate::text::{
    chars_of, decimal, decimal_text, is_blank, lower_ascii, lower_ascii_chars, same, string_of,
    trim, trimmed,
};
use vstd::prelude::*;

verus! {

/// What the list is asked for.
pub struct EscalationsQuery {
    pub include_resolved: Option<bool>,
}

/// The form that decides.
pub struct ResolveEscalationForm {
    pub decision: String,
}

/// Whether the decided ones are listed too.
pub fn lists_resolved(query: &EscalationsQuery) -> (r: bool)
    ensures
        r == (query.include_resolved == Some(true)),
{
    match query.include_resolved {
        Some(b) => b,
        None => false,
    }
}

/// Whether a decision lets the task go on.
pub open spec fn approves(decision: Seq<char>) -> bool {
    let word = lower_ascii(decision);
    word == "approve"@ || word == "approved"@ || word == "allow"@ || word == "allowed"@
}

/// Whether a decision lets the task go on.
pub fn is_approval(decision: &str) -> (r: bool)
    ensures
        r == approves(decision@),
{
    let chars: Vec<char> = chars_of(decision);
    let lower: Vec<char> = lower_ascii_chars(chars.as_slice());
    let word: String = string_of(lower.as_slice());
    same(word.as_str(), "approve") || same(word.as_str(), "approved") || same(
        word.as_str(),
        "allow",
    ) || same(word.as_str(), "allowed")
}

/// Reads the form that decides.
pub fn read_decision(form: &ResolveEscalationForm) -> (r: Result<String, Reply>)
    ensures
        match r {
            Ok(d) => d@ == trim(form.decision@) && d@.len() > 0,
            Err(reply) => trim(form.decision@).len() == 0 && reply.is(400, "Decision is required"@),
        },
{
    if is_blank(form.decision.as_str()) {
        Err(Reply::new(400, "Decision is required"))
    } else {
        Ok(trimmed(form.decision.as_str()))
    }
}

/// What becomes of the task that waited.
pub enum TaskFate {
    /// It did not wait.
    Untouched,
    /// It goes on.
    Requeued,
    /// It has failed, for this reason.
    Failed { reason: String },
}

/// Why a task fails whose request was turned down.
pub open spec fn denial(id: u64, decision: Seq<char>) -> Seq<char> {
    "Escalation "@ + decimal(id as nat) + " denied with decision: "@ + decision
}

/// What becomes of the task, once it is decided. `blocking` says whether the task waited;
/// `None` stands for an escalation that is not there, or was decided before.
pub fn resolve(id: u64, decision: &str, blocking: Option<bool>) -> (r: Result<TaskFate, Reply>)
    ensures
        match blocking {
            None => r matches Err(reply) && reply.is(
                404,
                "Escalation "@ + decimal(id as nat) + " not found or already resolved"@,
            ),
            Some(false) => r matches Ok(TaskFate::Untouched),
            Some(true) => if approves(decision@) {
                r matches Ok(TaskFate::Requeued)
            } else {
                r matches Ok(TaskFate::Failed { reason }) && reason@ == denial(id, decision@)
            },
        },
{
    let n: String = decimal_text(id);
    match blocking {
        None => {
            let mut body: String = "Escalation ".to_owned();
            body.push_str(n.as_str());
            body.push_str(" not found or already resolved");
            Err(Reply { status: 404, body })
        },
        Some(b) => if !b {
            Ok(TaskFate::Untouched)
        } else if is_approval(decision) {
            Ok(TaskFate::Requeued)
        } else {
            let mut reason: String = "Escalation ".to_owned();
            reason.push_str(n.as_str());
            reason.push_str(" denied with decision: ");
            reason.push_str(decision);
            Ok(TaskFate::Failed { reason })
        },
    }
}

/// A task goes on where the decision is to approve or to allow it, in any case of the letters;
/// every other word turns it down.
pub proof fn law_only_approval_lets_a_task_go_on(decision: Seq<char>)
    ensures
        approves(decision) <==> {
            ||| lower_ascii(decision) == "approve"@
            ||| lower_ascii(decision) == "approved"@
            ||| lower_ascii(decision) == "allow"@
            ||| lower_ascii(decision) == "allowed"@
        },
        approves("APPROVE"@) && approves("Allow"@),
        !approves("deny"@) && !approves(""@),
{
    reveal_strlit("approve");
    reveal_strlit("approved");
    reveal_strlit("allow");
    reveal_strlit("allowed");
    reveal_strlit("APPROVE");
    reveal_strlit("Allow");
    reveal_strlit("deny");
    reveal_strlit("");
    assert(lower_ascii("APPROVE"@) =~= "approve"@);
    assert(lower_ascii("Allow"@) =~= "allow"@);
    assert(lower_ascii("deny"@).len() == 4);
    assert(lower_ascii(""@).len() == 0);
}

} // verus!
