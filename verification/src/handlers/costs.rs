//! The costs page: which agents are counted, and what they used.

use crate::ids::{format_uuid, uuid_text};
use crate::select::{choose_rows, chosen, Picks};
use crate::stream::Cost;
use crate::task_events::TaskState;
use crate::text::{starts_with, str_starts_with};
use vstd::prelude::*;

verus! {

/// What the page is asked for.
pub struct CostQuery {
    pub agent_id: Option<String>,
}

/// What an agent used.
pub struct CostSnapshot {
    pub agent_id: u128,
    pub agent_name: String,
    pub cost_usd: Cost,
    pub tokens_used: u64,
    pub tool_calls: u64,
}

impl Picks<CostSnapshot> for CostQuery {
    /// An agent whose id begins as is asked for.
    open spec fn picks(&self, row: CostSnapshot) -> bool {
        match self.agent_id {
            Some(p) => starts_with(uuid_text(row.agent_id), p@),
            None => true,
        }
    }

    fn takes(&self, row: &CostSnapshot) -> (r: bool) {
        match &self.agent_id {
            Some(p) => {
                let id: String = format_uuid(row.agent_id);
                str_starts_with(id.as_str(), p.as_str())
            },
            None => true,
        }
    }
}

/// The agents that are shown, in order.
pub fn shown<'a>(snapshots: &'a Vec<CostSnapshot>, query: &CostQuery) -> (r: Vec<&'a CostSnapshot>)
    ensures
        r@ == chosen::<'a, CostSnapshot, CostQuery>(snapshots@, *query),
{
    choose_rows(snapshots, query)
}

/// The tokens of several agents.
pub open spec fn tokens_of(rows: Seq<&CostSnapshot>) -> nat
    decreases rows.len(),
{
    if rows.len() == 0 {
        0
    } else {
        tokens_of(rows.drop_last()) + rows.last().tokens_used as nat
    }
}

/// The tool calls of several agents.
pub open spec fn calls_of(rows: Seq<&CostSnapshot>) -> nat
    decreases rows.len(),
{
    if rows.len() == 0 {
        0
    } else {
        calls_of(rows.drop_last()) + rows.last().tool_calls as nat
    }
}

/// What several agents used together.
pub struct Totals {
    pub tokens: u128,
    pub tool_calls: u128,
    pub agents: usize,
}

/// What the agents that are shown used together.
pub fn totals(rows: &Vec<&CostSnapshot>) -> (r: Totals)
    ensures
        r.tokens == tokens_of(rows@),
        r.tool_calls == calls_of(rows@),
        r.agents == rows@.len(),
{
    let mut tokens: u128 = 0;
    let mut calls: u128 = 0;
    let mut i: usize = 0;
    assert(rows@.take(0) =~= Seq::<&CostSnapshot>::empty());
    while i < rows.len()
        invariant
            i <= rows@.len(),
            tokens == tokens_of(rows@.take(i as int)),
            calls == calls_of(rows@.take(i as int)),
            tokens <= i * u64::MAX,
            calls <= i * u64::MAX,
        decreases rows.len() - i,
    {
        assert(rows@.take(i + 1).drop_last() =~= rows@.take(i as int));
        assert(rows@.take(i + 1).last() == rows@[i as int]);
        assert((i + 1) * u64::MAX == i * u64::MAX + u64::MAX) by (nonlinear_arith);
        assert((i + 1) * u64::MAX <= 0x1_0000_0000_0000_0000 * 0xffff_ffff_ffff_ffff) by (nonlinear_arith)
            requires
                i + 1 <= 0x1_0000_0000_0000_0000,
        ;
        tokens = tokens + rows[i].tokens_used as u128;
        calls = calls + rows[i].tool_calls as u128;
        i += 1;
    }
    assert(rows@.take(i as int) =~= rows@);
    Totals { tokens, tool_calls: calls, agents: rows.len() }
}

/// How many tasks run or wait.
pub open spec fn running(states: Seq<TaskState>) -> nat
    decreases states.len(),
{
    if states.len() == 0 {
        0
    } else {
        running(states.drop_last()) + if states.last() == TaskState::Running || states.last()
            == TaskState::Waiting {
            1nat
        } else {
            0nat
        }
    }
}

/// How many tasks run or wait.
pub fn running_tasks(states: &Vec<TaskState>) -> (r: usize)
    ensures
        r == running(states@),
{
    let mut n: usize = 0;
    let mut i: usize = 0;
    assert(states@.take(0) =~= Seq::<TaskState>::empty());
    while i < states.len()
        invariant
            i <= states@.len(),
            n <= i,
            n == running(states@.take(i as int)),
        decreases states.len() - i,
    {
        assert(states@.take(i + 1).drop_last() =~= states@.take(i as int));
        assert(states@.take(i + 1).last() == states@[i as int]);
        if states[i] == TaskState::Running || states[i] == TaskState::Waiting {
            n += 1;
        }
        i += 1;
    }
    assert(states@.take(i as int) =~= states@);
    n
}

/// The totals are sums: each agent's tokens and calls count once, and each task that runs or
/// waits counts as one.
pub proof fn law_totals_are_sums(
    rows: Seq<&CostSnapshot>,
    row: &CostSnapshot,
    states: Seq<TaskState>,
    state: TaskState,
)
    ensures
        tokens_of(Seq::empty()) == 0 && calls_of(Seq::empty()) == 0 && running(Seq::empty()) == 0,
        tokens_of(rows.push(row)) == tokens_of(rows) + row.tokens_used,
        calls_of(rows.push(row)) == calls_of(rows) + row.tool_calls,
        state is Running || state is Waiting ==> running(states.push(state)) == running(states) + 1,
        state is Queued || state is Suspended || state is Complete || state is Failed
            || state is Cancelled ==> running(states.push(state)) == running(states),
{
    assert(rows.push(row).drop_last() =~= rows);
    assert(states.push(state).drop_last() =~= states);
}

/// The costs of an agent are found by the beginning of its id, and those of all agents where none
/// is named.
pub proof fn law_costs_are_found_by_id(query: CostQuery, row: CostSnapshot, n: int)
    requires
        0 <= n <= uuid_text(row.agent_id).len(),
    ensures
        query.agent_id is None ==> query.picks(row),
        query.agent_id is Some && query.agent_id->0@ == uuid_text(row.agent_id).take(n)
            ==> query.picks(row),
        query.agent_id is Some && query.agent_id->0@.len() <= uuid_text(row.agent_id).len()
            && query.agent_id->0@ != uuid_text(row.agent_id).take(query.agent_id->0@.len() as int)
            ==> !query.picks(row),
{
    let id = uuid_text(row.agent_id);
    assert(id.subrange(0, n) =~= id.take(n));
    if query.agent_id is Some {
        let p = query.agent_id->0@;
        if p.len() <= id.len() {
            assert(id.subrange(0, p.len() as int) =~= id.take(p.len() as int));
        }
    }
}

} // verus!
