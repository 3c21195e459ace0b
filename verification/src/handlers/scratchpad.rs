//! The scratchpad page, and the scratchpad on the observability page: which agent's pages are
//! shown, and what is looked for in them.

use crate::text::{is_blank, join, join_strings, opt_text, same, texts, trim};
use vstd::prelude::*;

verus! {

/// What the scratchpad page is asked for.
pub struct ScratchpadQuery {
    pub agent: Option<String>,
    pub q: Option<String>,
    pub title: Option<String>,
}

/// How many results of a search are shown.
pub const SEARCH_LIMIT: usize = 30;

/// The agent whose pages are shown: the one that is asked for, or else the first. Empty where
/// there is none.
pub open spec fn selected(asked: Option<Seq<char>>, agents: Seq<Seq<char>>) -> Seq<char> {
    match asked {
        Some(a) => a,
        None => if agents.len() > 0 {
            agents[0]
        } else {
            ""@
        },
    }
}

/// The agent whose pages are shown.
pub fn selected_agent(asked: &Option<String>, agents: &Vec<String>) -> (r: String)
    ensures
        r@ == selected(opt_text(*asked), texts(agents@)),
{
    match asked {
        Some(a) => a.clone(),
        None => if agents.len() > 0 {
            agents[0].clone()
        } else {
            "".to_owned()
        },
    }
}

fn is_empty(s: &str) -> (r: bool)
    ensures
        r == (s@.len() == 0),
{
    proof {
        reveal_strlit("");
    }
    assert(s@.len() == 0 ==> s@ =~= ""@);
    same(s, "")
}

/// Whether an agent's pages are listed.
pub fn lists_pages(agent: &str) -> (r: bool)
    ensures
        r == (agent@.len() > 0),
{
    !is_empty(agent)
}

/// Whether an agent's pages are searched, or one of them is opened: an agent and what is asked
/// for are both there.
pub open spec fn is_looked_up(agent: Seq<char>, q: Seq<char>) -> bool {
    agent.len() > 0 && trim(q).len() > 0
}

/// Whether an agent's pages are searched, or one of them is opened.
pub fn looks_up(agent: &str, asked: &str) -> (r: bool)
    ensures
        r == is_looked_up(agent@, asked@),
{
    !is_empty(agent) && !is_blank(asked)
}

/// The query of the page that stands under an agent's name: that agent, unless another is asked
/// for.
pub fn agent_query(name: String, query: ScratchpadQuery) -> (r: ScratchpadQuery)
    ensures
        opt_text(r.agent) == match query.agent {
            Some(a) => Some(a@),
            None => Some(name@),
        },
        r.q == query.q,
        r.title == query.title,
{
    let agent: Option<String> = match query.agent {
        Some(a) => Some(a),
        None => Some(name),
    };
    ScratchpadQuery { agent, q: query.q, title: query.title }
}

/// The tags of a page, as they are shown.
pub fn tags_text(tags: &Vec<String>) -> (r: String)
    ensures
        r@ == join(texts(tags@), ", "@),
{
    join_strings(tags.as_slice(), ", ")
}

/// The pages of the agent that is asked for are shown, and else those of the first; pages are
/// looked up where there is an agent and something other than blanks is asked for.
pub proof fn law_the_agent_asked_for_is_shown(asked: Seq<char>, agents: Seq<Seq<char>>, q: Seq<char>)
    ensures
        selected(Some(asked), agents) == asked,
        agents.len() > 0 ==> selected(None, agents) == agents[0],
        agents.len() == 0 ==> selected(None, agents) == ""@,
        is_looked_up(asked, q) <==> asked.len() > 0 && trim(q).len() > 0,
        !is_looked_up(Seq::empty(), q),
{
}

} // verus!
