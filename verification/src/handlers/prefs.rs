//! The page of proposals: preferences that were noticed, and wait to be remembered.

use vstd::prelude::*;

verus! {

/// What the list of proposals is asked for.
pub struct ReviewQuery {
    pub limit: Option<u32>,
}

/// The form that accepts or rejects a proposal.
pub struct ProposalActionForm {
    pub proposal_id: String,
}

/// How many rows are listed: a hundred, where nothing is said.
pub fn listed_rows(limit: Option<u32>) -> (r: u32)
    ensures
        r == match limit {
            Some(n) => n,
            None => 100,
        },
{
    match limit {
        Some(n) => n,
        None => 100,
    }
}

/// What a proposal is remembered as.
pub fn memory_line(content: &str) -> (r: String)
    ensures
        r@ == "- "@ + content@,
{
    let mut out: String = "- ".to_owned();
    out.push_str(content);
    out
}

/// What came of accepting a proposal.
#[derive(Clone, Copy, PartialEq, Eq, Structural, Debug)]
pub enum AcceptOutcome {
    Accepted,
    /// It could not be read.
    Unread,
    Missing,
    /// It could not be remembered.
    Unwritten,
}

/// Where accepting a proposal leads.
pub fn accept_location(outcome: AcceptOutcome) -> (r: &'static str)
    ensures
        r@ == match outcome {
            AcceptOutcome::Accepted => "/prefs"@,
            AcceptOutcome::Unread => "/prefs?error=load"@,
            AcceptOutcome::Missing => "/prefs?error=missing"@,
            AcceptOutcome::Unwritten => "/prefs?error=write"@,
        },
{
    match outcome {
        AcceptOutcome::Accepted => "/prefs",
        AcceptOutcome::Unread => "/prefs?error=load",
        AcceptOutcome::Missing => "/prefs?error=missing",
        AcceptOutcome::Unwritten => "/prefs?error=write",
    }
}

} // verus!
