//! The tree of tasks and the tasks that they spawned.

use crate::clock::{nanos_between, Moment, STAMP_UTC_PATTERN};
use crate::handlers::events_log::AgentName;
use crate::ids::{format_uuid, short, short_id, uuid_text};
use crate::sort::{law_sorting_orders_the_rows, ranked, sort_rows, Ranked};
use crate::task_events::TaskState;
use crate::text::{
    chars_of, clip, clipped, decimal, decimal_wide, ends_with, lower_ascii, opt_text, starts_with,
    string_of,
};
use vstd::prelude::*;

verus! {

/// The query of the tree page.
pub struct DagQuery {
    pub partial: Option<bool>,
}

/// Whether the tree alone is asked for.
pub fn wants_tree(query: &DagQuery) -> (r: bool)
    ensures
        r == (query.partial == Some(true)),
{
    match query.partial {
        Some(partial) => partial,
        None => false,
    }
}

/// The text, or its first characters and three dots where it is longer.
pub fn truncate_chars(value: &str, max_chars: usize) -> (r: String)
    ensures
        r@ == clipped(value@, max_chars as int, "..."@),
{
    clip(value, max_chars, "...")
}

/// The class of the badge of a state.
pub open spec fn badge_class(state: TaskState) -> Seq<char> {
    match state {
        TaskState::Queued => "badge-queued"@,
        TaskState::Running => "badge-running"@,
        TaskState::Waiting => "badge-waiting"@,
        TaskState::Suspended => "badge-suspended"@,
        TaskState::Complete => "badge-complete"@,
        TaskState::Failed => "badge-failed"@,
        TaskState::Cancelled => "badge-cancelled"@,
    }
}

/// The class of the badge of a state.
pub fn task_state_badge_class(state: TaskState) -> (r: &'static str)
    ensures
        r@ == badge_class(state),
{
    match state {
        TaskState::Queued => "badge-queued",
        TaskState::Running => "badge-running",
        TaskState::Waiting => "badge-waiting",
        TaskState::Suspended => "badge-suspended",
        TaskState::Complete => "badge-complete",
        TaskState::Failed => "badge-failed",
        TaskState::Cancelled => "badge-cancelled",
    }
}

/// A number of seconds as it is shown.
pub open spec fn duration_text(seconds: int) -> Seq<char> {
    if seconds < 60 {
        decimal(seconds as nat) + "s"@
    } else if seconds < 3600 {
        decimal((seconds / 60) as nat) + "m"@
    } else if seconds < 86_400 {
        decimal((seconds / 3600) as nat) + "h "@ + decimal(((seconds % 3600) / 60) as nat) + "m"@
    } else {
        decimal((seconds / 86_400) as nat) + "d "@ + decimal(((seconds % 86_400) / 3600) as nat)
            + "h"@
    }
}

/// A number of seconds as it is shown.
pub fn human_duration(seconds: u128) -> (r: String)
    ensures
        r@ == duration_text(seconds as int),
{
    if seconds < 60 {
        let mut out: String = decimal_wide(seconds);
        out.push_str("s");
        return out;
    }
    if seconds < 3600 {
        let mut out: String = decimal_wide(seconds / 60);
        out.push_str("m");
        return out;
    }
    if seconds < 86_400 {
        let mut out: String = decimal_wide(seconds / 3600);
        let rest: String = decimal_wide((seconds % 3600) / 60);
        out.push_str("h ");
        out.push_str(rest.as_str());
        out.push_str("m");
        return out;
    }
    let mut out: String = decimal_wide(seconds / 86_400);
    let rest: String = decimal_wide((seconds % 86_400) / 3600);
    out.push_str("d ");
    out.push_str(rest.as_str());
    out.push_str("h");
    out
}

/// A task as the tree knows it.
pub struct TaskViewRecord {
    pub id: u128,
    pub agent_id: u128,
    pub agent_name: String,
    pub state: TaskState,
    pub prompt_preview: String,
    pub created_at: Moment,
    pub started_at: Option<Moment>,
    pub spawn_depth: u8,
    pub parent_task_id: Option<u128>,
    pub finished_at: Option<Moment>,
}

impl TaskViewRecord {
    /// The seconds that the task has taken, as far as they are whole.
    pub open spec fn seconds(self, now: Moment) -> int {
        let start = match self.started_at {
            Some(t) => t,
            None => self.created_at,
        };
        let end = match self.finished_at {
            Some(t) => t,
            None => now,
        };
        if nanos_between(start, end) < 0 {
            0
        } else {
            nanos_between(start, end) / 1_000_000_000
        }
    }

    /// How long the task took, or has been going on.
    pub open spec fn duration(self, now: Moment) -> Seq<char> {
        duration_text(self.seconds(now)) + (if self.state.terminal() {
            " elapsed"@
        } else {
            " live"@
        })
    }
}

/// How long the task took, or has been going on.
pub fn duration_label(record: &TaskViewRecord, now: Moment) -> (r: String)
    ensures
        r@ == record.duration(now),
{
    let start: Moment = match record.started_at {
        Some(t) => t,
        None => record.created_at,
    };
    let end: Moment = match record.finished_at {
        Some(t) => t,
        None => now,
    };
    let nanos: i128 = end.total_nanos() - start.total_nanos();
    let seconds: u128 = if nanos < 0 {
        0
    } else {
        (nanos / 1_000_000_000) as u128
    };
    let mut out: String = human_duration(seconds);
    if record.state.is_terminal() {
        out.push_str(" elapsed");
    } else {
        out.push_str(" live");
    }
    out
}

impl<'a> Ranked for &'a TaskViewRecord {
    /// The task that was created first comes first.
    open spec fn precedes(self, other: Self) -> bool {
        self.created_at.total() < other.created_at.total()
    }

    fn goes_before(&self, other: &Self) -> (r: bool) {
        self.created_at.total_nanos() < other.created_at.total_nanos()
    }

    proof fn asymmetric(a: Self, b: Self) {
    }

    proof fn transitive(a: Self, b: Self, c: Self) {
    }
}

// ---------------------------------------------------------------------------
// The tree
// ---------------------------------------------------------------------------

/// A task as the scheduler lists it.
pub struct ListedTask {
    pub id: u128,
    pub agent_id: u128,
    pub state: TaskState,
    pub original_prompt: String,
    pub created_at: Moment,
    pub started_at: Option<Moment>,
    pub spawn_depth: u8,
    pub parent_task_id: Option<u128>,
    /// When its result came.
    pub finished_at: Option<Moment>,
}

/// The name of an agent, and its id where it is not registered.
pub open spec fn agent_shown(agents: Seq<AgentName>, id: u128) -> Seq<char>
    decreases agents.len(),
{
    if agents.len() == 0 {
        uuid_text(id)
    } else if agents.last().id == id {
        agents.last().name@
    } else {
        agent_shown(agents.drop_last(), id)
    }
}

/// The name of an agent, and its id where it is not registered.
pub fn shown_agent(agents: &Vec<AgentName>, id: u128) -> (r: String)
    ensures
        r@ == agent_shown(agents@, id),
{
    let mut i: usize = agents.len();
    assert(agents@.take(i as int) =~= agents@);
    while i > 0
        invariant
            i <= agents@.len(),
            agent_shown(agents@, id) == agent_shown(agents@.take(i as int), id),
        decreases i,
    {
        assert(agents@.take(i as int).last() == agents@[i - 1]);
        assert(agents@.take(i as int).drop_last() =~= agents@.take(i - 1));
        i -= 1;
        if agents[i].id == id {
            return agents[i].name.clone();
        }
    }
    format_uuid(id)
}

/// Whether the record is that of the task.
pub open spec fn records_task(
    r: TaskViewRecord,
    task: ListedTask,
    agents: Seq<AgentName>,
) -> bool {
    &&& r.id == task.id
    &&& r.agent_id == task.agent_id
    &&& r.agent_name@ == agent_shown(agents, task.agent_id)
    &&& r.state == task.state
    &&& r.prompt_preview@ == clipped(task.original_prompt@, 120, "..."@)
    &&& r.created_at == task.created_at
    &&& r.started_at == task.started_at
    &&& r.spawn_depth == task.spawn_depth
    &&& r.parent_task_id == task.parent_task_id
    &&& r.finished_at == task.finished_at
}

/// The records of the tasks, in their order.
pub fn build_task_records(tasks: &Vec<ListedTask>, agents: &Vec<AgentName>) -> (r: Vec<
    TaskViewRecord,
>)
    ensures
        r@.len() == tasks@.len(),
        forall|i: int|
            0 <= i < r@.len() ==> records_task(#[trigger] r@[i], tasks@[i], agents@),
{
    let mut out: Vec<TaskViewRecord> = Vec::new();
    let mut i: usize = 0;
    while i < tasks.len()
        invariant
            i <= tasks@.len(),
            out@.len() == i,
            forall|k: int| 0 <= k < i ==> records_task(#[trigger] out@[k], tasks@[k], agents@),
        decreases tasks.len() - i,
    {
        let task: &ListedTask = &tasks[i];
        out.push(
            TaskViewRecord {
                id: task.id,
                agent_id: task.agent_id,
                agent_name: shown_agent(agents, task.agent_id),
                state: task.state,
                prompt_preview: truncate_chars(task.original_prompt.as_str(), 120),
                created_at: task.created_at,
                started_at: task.started_at,
                spawn_depth: task.spawn_depth,
                parent_task_id: task.parent_task_id,
                finished_at: task.finished_at,
            },
        );
        i += 1;
    }
    out
}

/// The place of the last record with this id among the first `upto`, or -1.
pub open spec fn record_at(records: Seq<TaskViewRecord>, id: u128, upto: int) -> int
    decreases upto,
{
    if upto <= 0 || upto > records.len() {
        -1
    } else if records[upto - 1].id == id {
        upto - 1
    } else {
        record_at(records, id, upto - 1)
    }
}

/// The place of the record that counts for this id, the last one, or -1.
pub open spec fn place_of(records: Seq<TaskViewRecord>, id: u128) -> int {
    record_at(records, id, records.len() as int)
}

/// Whether there is a record with this id.
pub open spec fn recorded(records: Seq<TaskViewRecord>, id: u128) -> bool {
    place_of(records, id) >= 0
}

/// The record with this id.
pub open spec fn record_of(records: Seq<TaskViewRecord>, id: u128) -> TaskViewRecord {
    records[place_of(records, id)]
}

/// The tasks that a task spawned, from the `i`th row on.
pub open spec fn spawned(children: Seq<(u128, Vec<u128>)>, id: u128, i: int) -> Seq<u128>
    decreases children.len() - i,
{
    if i < 0 || i >= children.len() {
        Seq::empty()
    } else if children[i].0 == id {
        children[i].1@
    } else {
        spawned(children, id, i + 1)
    }
}

/// A task and the tasks below it.
pub struct TreeV {
    pub id: u128,
    pub children: Seq<TreeV>,
}

/// The tree below a task, and the tasks that have been met. A task that was met before, or of
/// which nothing is recorded, has none. The tree is followed to the depth `fuel`.
pub open spec fn tree(
    id: u128,
    records: Seq<TaskViewRecord>,
    children: Seq<(u128, Vec<u128>)>,
    seen: Set<u128>,
    fuel: nat,
) -> (Option<TreeV>, Set<u128>)
    decreases fuel, 0int,
{
    if fuel == 0 || seen.contains(id) {
        (None, seen)
    } else if !recorded(records, id) {
        (None, seen.insert(id))
    } else {
        let below = forest(
            spawned(children, id, 0),
            records,
            children,
            seen.insert(id),
            (fuel - 1) as nat,
        );
        (Some(TreeV { id, children: below.0 }), below.1)
    }
}

/// The trees below several tasks, one after the other, and the tasks that have been met.
pub open spec fn forest(
    ids: Seq<u128>,
    records: Seq<TaskViewRecord>,
    children: Seq<(u128, Vec<u128>)>,
    seen: Set<u128>,
    fuel: nat,
) -> (Seq<TreeV>, Set<u128>)
    decreases fuel, ids.len() + 1,
{
    if ids.len() == 0 {
        (Seq::empty(), seen)
    } else {
        let before = forest(ids.drop_last(), records, children, seen, fuel);
        let last = tree(ids.last(), records, children, before.1, fuel);
        (
            match last.0 {
                Some(t) => before.0.push(t),
                None => before.0,
            },
            last.1,
        )
    }
}

/// A task in the tree as it is shown.
pub struct DagNodeView {
    pub id: String,
    pub short_id: String,
    pub agent_id: String,
    pub agent_name: String,
    pub state: &'static str,
    pub state_class: &'static str,
    pub prompt_preview: String,
    pub created_at: String,
    pub spawn_depth: u8,
    pub child_count: usize,
    pub duration_label: String,
    pub parent_task_id: Option<String>,
    pub children: Vec<DagNodeView>,
}

/// Whether a node shows a record, but for its children.
pub open spec fn shows_record(node: DagNodeView, r: TaskViewRecord, now: Moment) -> bool {
    &&& node.id@ == uuid_text(r.id)
    &&& node.short_id@ == short(uuid_text(r.id))
    &&& node.agent_id@ == uuid_text(r.agent_id)
    &&& node.agent_name == r.agent_name
    &&& node.state@ == r.state.named()
    &&& node.state_class@ == badge_class(r.state)
    &&& node.prompt_preview == r.prompt_preview
    &&& node.created_at@ == r.created_at.stamped(STAMP_UTC_PATTERN@)
    &&& node.spawn_depth == r.spawn_depth
    &&& node.child_count == node.children@.len()
    &&& node.duration_label@ == r.duration(now)
    &&& opt_text(node.parent_task_id) == (match r.parent_task_id {
        Some(p) => Some(uuid_text(p)),
        None => None,
    })
}

/// Whether a node shows a tree.
pub open spec fn shows_tree(
    node: DagNodeView,
    t: TreeV,
    records: Seq<TaskViewRecord>,
    now: Moment,
) -> bool
    decreases t,
{
    &&& shows_record(node, record_of(records, t.id), now)
    &&& node.children@.len() == t.children.len()
    &&& forall|i: int|
        0 <= i < t.children.len() ==> shows_tree(
            #[trigger] node.children@[i],
            t.children[i],
            records,
            now,
        )
}

fn find_record(records: &Vec<TaskViewRecord>, id: u128) -> (r: Option<usize>)
    ensures
        match r {
            Some(k) => k < records@.len() && place_of(records@, id) == k,
            None => !recorded(records@, id),
        },
{
    let mut i: usize = records.len();
    while i > 0
        invariant
            i <= records@.len(),
            record_at(records@, id, i as int) == place_of(records@, id),
        decreases i,
    {
        i -= 1;
        if records[i].id == id {
            return Some(i);
        }
    }
    None
}

fn spawned_row(children: &Vec<(u128, Vec<u128>)>, id: u128) -> (r: Option<usize>)
    ensures
        match r {
            Some(k) => k < children@.len() && children@[k as int].1@ == spawned(children@, id, 0),
            None => spawned(children@, id, 0) == Seq::<u128>::empty(),
        },
{
    let mut i: usize = 0;
    while i < children.len()
        invariant
            i <= children@.len(),
            spawned(children@, id, i as int) == spawned(children@, id, 0),
        decreases children.len() - i,
    {
        if children[i].0 == id {
            return Some(i);
        }
        i += 1;
    }
    None
}

fn has_met(seen: &Vec<u128>, id: u128) -> (r: bool)
    ensures
        r == seen@.to_set().contains(id),
{
    let mut i: usize = 0;
    while i < seen.len()
        invariant
            i <= seen@.len(),
            forall|k: int| 0 <= k < i ==> #[trigger] seen@[k] != id,
        decreases seen.len() - i,
    {
        if seen[i] == id {
            assert(seen@.contains(id));
            return true;
        }
        i += 1;
    }
    false
}

fn draw(record: &TaskViewRecord, children: Vec<DagNodeView>, now: Moment) -> (r: DagNodeView)
    ensures
        shows_record(r, *record, now),
        r.children == children,
{
    let id: String = format_uuid(record.id);
    DagNodeView {
        short_id: short_id(id.as_str()),
        id,
        agent_id: format_uuid(record.agent_id),
        agent_name: record.agent_name.clone(),
        state: record.state.name(),
        state_class: task_state_badge_class(record.state),
        prompt_preview: record.prompt_preview.clone(),
        created_at: record.created_at.stamp(STAMP_UTC_PATTERN),
        spawn_depth: record.spawn_depth,
        child_count: children.len(),
        duration_label: duration_label(record, now),
        parent_task_id: match record.parent_task_id {
            Some(p) => Some(format_uuid(p)),
            None => None,
        },
        children,
    }
}

fn build_node(
    task_id: u128,
    records: &Vec<TaskViewRecord>,
    children: &Vec<(u128, Vec<u128>)>,
    seen: &mut Vec<u128>,
    fuel: usize,
    now: Moment,
) -> (r: Option<DagNodeView>)
    ensures
        ({
            let t = tree(task_id, records@, children@, old(seen)@.to_set(), fuel as nat);
            &&& final(seen)@.to_set() == t.1
            &&& match r {
                Some(node) => t.0 is Some && shows_tree(node, t.0->0, records@, now),
                None => t.0 is None,
            }
        }),
    decreases fuel,
{
    if fuel == 0 || has_met(seen, task_id) {
        return None;
    }
    let ghost before = seen@;
    seen.push(task_id);
    assert(seen@.to_set() =~= before.to_set().insert(task_id)) by {
        lemma_push_set(before, task_id);
    }
    let record: &TaskViewRecord = match find_record(records, task_id) {
        Some(k) => &records[k],
        None => {
            return None;
        },
    };
    let ghost met = seen@.to_set();
    let ghost ids = spawned(children@, task_id, 0);
    let mut nodes: Vec<DagNodeView> = Vec::new();
    if let Some(row) = spawned_row(children, task_id) {
        let mut i: usize = 0;
        assert(ids.take(0) =~= Seq::<u128>::empty());
        while i < children[row].1.len()
            invariant
                row < children@.len(),
                ids == children@[row as int].1@,
                i <= ids.len(),
                fuel > 0,
                ({
                    let below = forest(
                        ids.take(i as int),
                        records@,
                        children@,
                        met,
                        (fuel - 1) as nat,
                    );
                    &&& seen@.to_set() == below.1
                    &&& nodes@.len() == below.0.len()
                    &&& forall|k: int|
                        0 <= k < nodes@.len() ==> shows_tree(
                            #[trigger] nodes@[k],
                            below.0[k],
                            records@,
                            now,
                        )
                }),
            decreases ids.len() - i,
        {
            assert(ids.take(i + 1).drop_last() =~= ids.take(i as int));
            assert(ids.take(i + 1).last() == ids[i as int]);
            let child: u128 = children[row].1[i];
            if let Some(node) = build_node(child, records, children, seen, fuel - 1, now) {
                nodes.push(node);
            }
            i += 1;
        }
        assert(ids.take(i as int) =~= ids);
    }
    let node: DagNodeView = draw(record, nodes, now);
    Some(node)
}

proof fn lemma_push_set(s: Seq<u128>, x: u128)
    ensures
        s.push(x).to_set() == s.to_set().insert(x),
{
    assert forall|y: u128| s.push(x).to_set().contains(y) <==> s.to_set().insert(x).contains(y) by {
        if s.contains(y) {
            let i = choose|i: int| 0 <= i < s.len() && s[i] == y;
            assert(s.push(x)[i] == y);
        }
        if y == x {
            assert(s.push(x)[s.len() as int] == y);
        }
        if s.push(x).contains(y) && y != x {
            let i = choose|i: int| 0 <= i < s.push(x).len() && s.push(x)[i] == y;
            assert(s[i] == y);
        }
    }
    assert(s.push(x).to_set() =~= s.to_set().insert(x));
}

/// The tasks that no recorded task spawned, each once, in the order of the records.
pub open spec fn roots(records: Seq<TaskViewRecord>, upto: int) -> Seq<&'static TaskViewRecord>
    decreases upto,
{
    if upto <= 0 || upto > records.len() {
        Seq::empty()
    } else {
        let before = roots(records, upto - 1);
        let r = records[upto - 1];
        if place_of(records, r.id) == upto - 1 && (r.parent_task_id is None || !recorded(
            records,
            r.parent_task_id->0,
        )) {
            before.push(&records[upto - 1])
        } else {
            before
        }
    }
}

/// The tasks that no recorded task spawned, the oldest first.
pub fn root_tasks(records: &Vec<TaskViewRecord>) -> (r: Vec<&TaskViewRecord>)
    ensures
        r@ == ranked(roots(records@, records@.len() as int)),
{
    let mut out: Vec<&TaskViewRecord> = Vec::new();
    let mut i: usize = 0;
    while i < records.len()
        invariant
            i <= records@.len(),
            out@ == roots(records@, i as int),
        decreases records.len() - i,
    {
        let is_root: bool = match records[i].parent_task_id {
            Some(p) => find_record(records, p).is_none(),
            None => true,
        };
        let counts: bool = match find_record(records, records[i].id) {
            Some(k) => k == i,
            None => false,
        };
        if is_root && counts {
            out.push(&records[i]);
        }
        i += 1;
    }
    sort_rows(out)
}

/// The trees that are shown: one for each root, the oldest first.
pub open spec fn drawn(
    tops: Seq<&TaskViewRecord>,
    records: Seq<TaskViewRecord>,
    children: Seq<(u128, Vec<u128>)>,
) -> Seq<TreeV>
    decreases tops.len(),
{
    if tops.len() == 0 {
        Seq::empty()
    } else {
        let before = drawn(tops.drop_last(), records, children);
        match tree(
            tops.last().id,
            records,
            children,
            Set::<u128>::empty(),
            (records.len() + 1) as nat,
        ).0 {
            Some(t) => before.push(t),
            None => before,
        }
    }
}

/// The trees of all tasks, the oldest root first.
pub fn build_dag_nodes(
    records: &Vec<TaskViewRecord>,
    children: &Vec<(u128, Vec<u128>)>,
    now: Moment,
) -> (r: Vec<DagNodeView>)
    requires
        records@.len() < usize::MAX,
    ensures
        ({
            let trees = drawn(ranked(roots(records@, records@.len() as int)), records@, children@);
            &&& r@.len() == trees.len()
            &&& forall|i: int|
                0 <= i < r@.len() ==> shows_tree(#[trigger] r@[i], trees[i], records@, now)
        }),
{
    let tops: Vec<&TaskViewRecord> = root_tasks(records);
    let mut out: Vec<DagNodeView> = Vec::new();
    let mut i: usize = 0;
    assert(tops@.take(0) =~= Seq::<&TaskViewRecord>::empty());
    while i < tops.len()
        invariant
            i <= tops@.len(),
            records@.len() < usize::MAX,
            out@.len() == drawn(tops@.take(i as int), records@, children@).len(),
            forall|k: int|
                0 <= k < out@.len() ==> shows_tree(
                    #[trigger] out@[k],
                    drawn(tops@.take(i as int), records@, children@)[k],
                    records@,
                    now,
                ),
        decreases tops.len() - i,
    {
        assert(tops@.take(i + 1).drop_last() =~= tops@.take(i as int));
        assert(tops@.take(i + 1).last() == tops@[i as int]);
        let mut seen: Vec<u128> = Vec::new();
        assert(seen@.to_set() =~= Set::<u128>::empty());
        if let Some(node) = build_node(
            tops[i].id,
            records,
            children,
            &mut seen,
            records.len() + 1,
            now,
        ) {
            out.push(node);
        }
        i += 1;
    }
    assert(tops@.take(i as int) =~= tops@);
    out
}

// ---------------------------------------------------------------------------
// Laws of the tree
// ---------------------------------------------------------------------------

/// The tasks of a tree.
pub open spec fn tree_ids(t: TreeV) -> Seq<u128>
    decreases t,
{
    seq![t.id] + forest_ids(t.children)
}

/// The tasks of several trees.
pub open spec fn forest_ids(ts: Seq<TreeV>) -> Seq<u128>
    decreases ts,
{
    if ts.len() == 0 {
        Seq::empty()
    } else {
        forest_ids(ts.drop_last()) + tree_ids(ts[ts.len() - 1])
    }
}

/// Whether the tasks are different, were not met before, and have been met now.
pub open spec fn newly_met(ids: Seq<u128>, before: Set<u128>, after: Set<u128>) -> bool {
    ids.no_duplicates() && before.subset_of(after) && forall|i: int|
        0 <= i < ids.len() ==> !before.contains(#[trigger] ids[i]) && after.contains(ids[i])
}

proof fn lemma_tree_met(
    id: u128,
    records: Seq<TaskViewRecord>,
    children: Seq<(u128, Vec<u128>)>,
    seen: Set<u128>,
    fuel: nat,
)
    ensures
        ({
            let t = tree(id, records, children, seen, fuel);
            &&& seen.subset_of(t.1)
            &&& t.0 is Some ==> newly_met(tree_ids(t.0->0), seen, t.1)
        }),
    decreases fuel, 0int,
{
    if fuel == 0 || seen.contains(id) || !recorded(records, id) {
    } else {
        let ids = spawned(children, id, 0);
        let inner = seen.insert(id);
        lemma_forest_met(ids, records, children, inner, (fuel - 1) as nat);
        let below = forest(ids, records, children, inner, (fuel - 1) as nat);
        let t = TreeV { id, children: below.0 };
        let rest = forest_ids(below.0);
        let all = tree_ids(t);
        assert(all =~= seq![id] + rest);
        assert forall|i: int, j: int| 0 <= i < j < all.len() implies all[i] != all[j] by {
            assert(all[j] == rest[j - 1]);
            if i > 0 {
                assert(all[i] == rest[i - 1]);
            } else {
                assert(inner.contains(id));
            }
        }
        assert forall|i: int| 0 <= i < all.len() implies !seen.contains(#[trigger] all[i])
            && below.1.contains(all[i]) by {
            if i > 0 {
                assert(all[i] == rest[i - 1]);
                assert(!inner.contains(rest[i - 1]));
            } else {
                assert(inner.contains(id));
            }
        }
    }
}

proof fn lemma_forest_met(
    ids: Seq<u128>,
    records: Seq<TaskViewRecord>,
    children: Seq<(u128, Vec<u128>)>,
    seen: Set<u128>,
    fuel: nat,
)
    ensures
        ({
            let f = forest(ids, records, children, seen, fuel);
            newly_met(forest_ids(f.0), seen, f.1)
        }),
    decreases fuel, ids.len() + 1,
{
    if ids.len() > 0 {
        lemma_forest_met(ids.drop_last(), records, children, seen, fuel);
        let before = forest(ids.drop_last(), records, children, seen, fuel);
        lemma_tree_met(ids.last(), records, children, before.1, fuel);
        let last = tree(ids.last(), records, children, before.1, fuel);
        if let Some(t) = last.0 {
            let a = forest_ids(before.0);
            let b = tree_ids(t);
            let all = forest_ids(before.0.push(t));
            assert(before.0.push(t).drop_last() =~= before.0);
            assert(all =~= a + b);
            assert forall|i: int, j: int| 0 <= i < j < all.len() implies all[i] != all[j] by {
                if i < a.len() && j >= a.len() {
                    assert(all[i] == a[i] && all[j] == b[j - a.len()]);
                    assert(before.1.contains(a[i]));
                    assert(!before.1.contains(b[j - a.len()]));
                } else if j < a.len() {
                    assert(all[i] == a[i] && all[j] == a[j]);
                } else {
                    assert(all[i] == b[i - a.len()] && all[j] == b[j - a.len()]);
                }
            }
            assert forall|i: int| 0 <= i < all.len() implies !seen.contains(#[trigger] all[i])
                && last.1.contains(all[i]) by {
                if i < a.len() {
                    assert(all[i] == a[i]);
                    assert(before.1.contains(a[i]));
                } else {
                    assert(all[i] == b[i - a.len()]);
                    assert(!before.1.contains(b[i - a.len()]));
                }
            }
        }
    }
}

/// No task stands twice in a tree, whatever the tasks say of each other.
pub proof fn law_each_task_stands_once(
    id: u128,
    records: Seq<TaskViewRecord>,
    children: Seq<(u128, Vec<u128>)>,
    seen: Set<u128>,
    fuel: nat,
)
    requires
        tree(id, records, children, seen, fuel).0 is Some,
    ensures
        tree_ids(tree(id, records, children, seen, fuel).0->0).no_duplicates(),
{
    lemma_tree_met(id, records, children, seen, fuel);
}

proof fn lemma_roots(records: Seq<TaskViewRecord>, upto: int)
    requires
        0 <= upto <= records.len(),
    ensures
        forall|i: int|
            0 <= i < roots(records, upto).len() ==> place_of(
                records,
                (#[trigger] roots(records, upto)[i]).id,
            ) < upto,
        forall|i: int, j: int|
            0 <= i < j < roots(records, upto).len() ==> (#[trigger] roots(records, upto)[i]).id != (
            #[trigger] roots(records, upto)[j]).id,
    decreases upto,
{
    if upto > 0 {
        lemma_roots(records, upto - 1);
    }
}

/// Each task is a root once at most, however often it is recorded.
pub proof fn law_each_root_is_listed_once(records: Seq<TaskViewRecord>)
    ensures
        forall|i: int, j: int|
            0 <= i < j < roots(records, records.len() as int).len() ==> (#[trigger] roots(
                records,
                records.len() as int,
            )[i]).id != (#[trigger] roots(records, records.len() as int)[j]).id,
{
    lemma_roots(records, records.len() as int);
}

/// How many of the records have not been met.
pub open spec fn unmet(records: Seq<TaskViewRecord>, seen: Set<u128>) -> nat
    decreases records.len(),
{
    if records.len() == 0 {
        0
    } else {
        unmet(records.drop_last(), seen) + (if seen.contains(records.last().id) {
            0nat
        } else {
            1nat
        })
    }
}

proof fn lemma_unmet_shrinks(records: Seq<TaskViewRecord>, a: Set<u128>, b: Set<u128>)
    requires
        a.subset_of(b),
    ensures
        unmet(records, b) <= unmet(records, a),
    decreases records.len(),
{
    if records.len() > 0 {
        lemma_unmet_shrinks(records.drop_last(), a, b);
    }
}

proof fn lemma_unmet_insert(records: Seq<TaskViewRecord>, seen: Set<u128>, k: int)
    requires
        0 <= k < records.len(),
        !seen.contains(records[k].id),
    ensures
        unmet(records, seen.insert(records[k].id)) < unmet(records, seen),
    decreases records.len(),
{
    let id = records[k].id;
    let head = records.drop_last();
    lemma_unmet_shrinks(head, seen, seen.insert(id));
    if k < head.len() {
        assert(head[k] == records[k]);
        lemma_unmet_insert(head, seen, k);
    }
}

proof fn lemma_tree_depth(
    id: u128,
    records: Seq<TaskViewRecord>,
    children: Seq<(u128, Vec<u128>)>,
    seen: Set<u128>,
    fuel: nat,
)
    requires
        fuel > unmet(records, seen),
    ensures
        tree(id, records, children, seen, fuel) == tree(id, records, children, seen, fuel + 1),
    decreases fuel, 0int,
{
    if !seen.contains(id) && recorded(records, id) {
        let k = place_of(records, id);
        lemma_record_at(records, id, records.len() as int);
        lemma_unmet_insert(records, seen, k);
        lemma_forest_depth(
            spawned(children, id, 0),
            records,
            children,
            seen.insert(id),
            (fuel - 1) as nat,
        );
        assert(((fuel + 1) - 1) as nat == ((fuel - 1) as nat) + 1);
    }
}

proof fn lemma_record_at(records: Seq<TaskViewRecord>, id: u128, upto: int)
    requires
        0 <= upto <= records.len(),
    ensures
        -1 <= record_at(records, id, upto) < upto || upto == 0,
        record_at(records, id, upto) >= 0 ==> records[record_at(records, id, upto)].id == id,
    decreases upto,
{
    if upto > 0 && records[upto - 1].id != id {
        lemma_record_at(records, id, upto - 1);
    }
}

proof fn lemma_forest_depth(
    ids: Seq<u128>,
    records: Seq<TaskViewRecord>,
    children: Seq<(u128, Vec<u128>)>,
    seen: Set<u128>,
    fuel: nat,
)
    requires
        fuel > unmet(records, seen),
    ensures
        forest(ids, records, children, seen, fuel) == forest(
            ids,
            records,
            children,
            seen,
            fuel + 1,
        ),
    decreases fuel, ids.len() + 1,
{
    if ids.len() > 0 {
        lemma_forest_depth(ids.drop_last(), records, children, seen, fuel);
        let before = forest(ids.drop_last(), records, children, seen, fuel);
        lemma_forest_met(ids.drop_last(), records, children, seen, fuel);
        lemma_unmet_shrinks(records, seen, before.1);
        lemma_tree_depth(ids.last(), records, children, before.1, fuel);
    }
}

proof fn lemma_unmet_all(records: Seq<TaskViewRecord>, seen: Set<u128>)
    ensures
        unmet(records, seen) <= records.len(),
    decreases records.len(),
{
    if records.len() > 0 {
        lemma_unmet_all(records.drop_last(), seen);
    }
}

/// The depth to which a tree is followed cuts nothing off: followed further, it is the same.
pub proof fn law_trees_are_whole(
    id: u128,
    records: Seq<TaskViewRecord>,
    children: Seq<(u128, Vec<u128>)>,
    more: nat,
)
    ensures
        tree(id, records, children, Set::empty(), (records.len() + 1 + more) as nat) == tree(
            id,
            records,
            children,
            Set::empty(),
            (records.len() + 1) as nat,
        ),
    decreases more,
{
    if more > 0 {
        law_trees_are_whole(id, records, children, (more - 1) as nat);
        lemma_unmet_all(records, Set::empty());
        lemma_tree_depth(id, records, children, Set::empty(), (records.len() + more) as nat);
    }
}

// ---------------------------------------------------------------------------
// The graph as text
// ---------------------------------------------------------------------------

/// The text with one character in place of another.
pub open spec fn swapped(s: Seq<char>, from: char, to: char) -> Seq<char> {
    Seq::new(
        s.len(),
        |i: int|
            if s[i] == from {
                to
            } else {
                s[i]
            },
    )
}

fn swap_chars(s: &str, from: char, to: char) -> (r: String)
    ensures
        r@ == swapped(s@, from, to),
{
    let v: Vec<char> = chars_of(s);
    let mut out: Vec<char> = Vec::new();
    let mut i: usize = 0;
    while i < v.len()
        invariant
            i <= v@.len(),
            v@ == s@,
            out@.len() == i,
            forall|k: int| 0 <= k < i ==> #[trigger] out@[k] == swapped(s@, from, to)[k],
        decreases v.len() - i,
    {
        if v[i] == from {
            out.push(to);
        } else {
            out.push(v[i]);
        }
        i += 1;
    }
    assert(out@ =~= swapped(s@, from, to));
    string_of(&out)
}

/// The name of a task in the graph.
pub open spec fn key_text(id: u128) -> Seq<char> {
    "task_"@ + swapped(uuid_text(id), '-', '_')
}

/// The name of a task in the graph.
pub fn mermaid_key(task_id: u128) -> (r: String)
    ensures
        r@ == key_text(task_id),
{
    let id: String = format_uuid(task_id);
    let id: String = swap_chars(id.as_str(), '-', '_');
    let mut out: String = "task_".to_owned();
    out.push_str(id.as_str());
    out
}

/// What the graph says of a task.
pub open spec fn label_text(prompt: Seq<char>, state: TaskState) -> Seq<char> {
    swapped(clipped(prompt, 48, "..."@), '"', '\'') + " | "@ + state.named()
}

/// What the graph says of a task: the start of its prompt, and its state.
pub fn mermaid_label(prompt: &str, state: TaskState) -> (r: String)
    ensures
        r@ == label_text(prompt@, state),
{
    let start: String = truncate_chars(prompt, 48);
    let mut out: String = swap_chars(start.as_str(), '"', '\'');
    out.push_str(" | ");
    out.push_str(state.name());
    out
}

/// A task as the graph knows it.
pub struct GraphTask {
    pub id: u128,
    pub prompt: String,
    pub state: TaskState,
}

/// What the graph says of the last task with this id among the first `upto`.
pub open spec fn label_among(tasks: Seq<GraphTask>, id: u128, upto: int) -> Seq<char>
    decreases upto,
{
    if upto <= 0 || upto > tasks.len() {
        "Unknown"@
    } else if tasks[upto - 1].id == id {
        label_text(tasks[upto - 1].prompt@, tasks[upto - 1].state)
    } else {
        label_among(tasks, id, upto - 1)
    }
}

/// What the graph says of the task with this id.
pub open spec fn task_label(tasks: Seq<GraphTask>, id: u128) -> Seq<char> {
    label_among(tasks, id, tasks.len() as int)
}

fn label_of(tasks: &Vec<GraphTask>, id: u128) -> (r: String)
    ensures
        r@ == task_label(tasks@, id),
{
    let mut i: usize = tasks.len();
    while i > 0
        invariant
            i <= tasks@.len(),
            label_among(tasks@, id, i as int) == task_label(tasks@, id),
        decreases i,
    {
        i -= 1;
        if tasks[i].id == id {
            return mermaid_label(tasks[i].prompt.as_str(), tasks[i].state);
        }
    }
    "Unknown".to_owned()
}

/// The line of the graph on a task and one that it spawned.
pub open spec fn edge_text(tasks: Seq<GraphTask>, parent: u128, child: u128) -> Seq<char> {
    "    "@ + key_text(parent) + "[\""@ + task_label(tasks, parent) + "\"] --> "@ + key_text(
        child,
    ) + "[\""@ + task_label(tasks, child) + "\"]\n"@
}

/// The lines on a task and those that it spawned.
pub open spec fn edges_text(tasks: Seq<GraphTask>, parent: u128, kids: Seq<u128>) -> Seq<char>
    decreases kids.len(),
{
    if kids.len() == 0 {
        Seq::empty()
    } else {
        edges_text(tasks, parent, kids.drop_last()) + edge_text(tasks, parent, kids.last())
    }
}

/// The lines on all tasks.
pub open spec fn graph_text(tasks: Seq<GraphTask>, children: Seq<(u128, Vec<u128>)>) -> Seq<char>
    decreases children.len(),
{
    if children.len() == 0 {
        Seq::empty()
    } else {
        graph_text(tasks, children.drop_last()) + edges_text(
            tasks,
            children.last().0,
            children.last().1@,
        )
    }
}

/// The graph of tasks and those that they spawned, as text.
pub fn dag_mermaid(tasks: &Vec<GraphTask>, children: &Vec<(u128, Vec<u128>)>) -> (r: String)
    ensures
        r@ == "graph TD\n"@ + graph_text(tasks@, children@),
{
    let mut out: String = "graph TD\n".to_owned();
    let ghost head = out@;
    let mut i: usize = 0;
    assert(children@.take(0) =~= Seq::<(u128, Vec<u128>)>::empty());
    assert(head + graph_text(tasks@, children@.take(0)) =~= head);
    while i < children.len()
        invariant
            i <= children@.len(),
            out@ == head + graph_text(tasks@, children@.take(i as int)),
        decreases children.len() - i,
    {
        assert(children@.take(i + 1).drop_last() =~= children@.take(i as int));
        assert(children@.take(i + 1).last() == children@[i as int]);
        let ghost done = graph_text(tasks@, children@.take(i as int));
        let parent: u128 = children[i].0;
        let kids: &Vec<u128> = &children[i].1;
        let mut k: usize = 0;
        assert(kids@.take(0) =~= Seq::<u128>::empty());
        assert(head + (done + edges_text(tasks@, parent, kids@.take(0))) =~= head + done);
        while k < kids.len()
            invariant
                k <= kids@.len(),
                out@ == head + (done + edges_text(tasks@, parent, kids@.take(k as int))),
            decreases kids.len() - k,
        {
            assert(kids@.take(k + 1).drop_last() =~= kids@.take(k as int));
            assert(kids@.take(k + 1).last() == kids@[k as int]);
            let ghost before = edges_text(tasks@, parent, kids@.take(k as int));
            let line: String = edge_of(tasks, parent, kids[k]);
            out.push_str(line.as_str());
            assert(out@ =~= head + (done + (before + line@)));
            k += 1;
        }
        assert(kids@.take(k as int) =~= kids@);
        i += 1;
    }
    assert(children@.take(i as int) =~= children@);
    out
}

fn edge_of(tasks: &Vec<GraphTask>, parent: u128, child: u128) -> (r: String)
    ensures
        r@ == edge_text(tasks@, parent, child),
{
    let parent_key: String = mermaid_key(parent);
    let parent_label: String = label_of(tasks, parent);
    let child_key: String = mermaid_key(child);
    let child_label: String = label_of(tasks, child);
    let mut out: String = "    ".to_owned();
    out.push_str(parent_key.as_str());
    out.push_str("[\"");
    out.push_str(parent_label.as_str());
    out.push_str("\"] --> ");
    out.push_str(child_key.as_str());
    out.push_str("[\"");
    out.push_str(child_label.as_str());
    out.push_str("\"]\n");
    out
}

// ---------------------------------------------------------------------------
// Laws of the graph
// ---------------------------------------------------------------------------

/// Who spawned whom, row by row: the parent first, then the task that it spawned.
pub open spec fn arrows(children: Seq<(u128, Vec<u128>)>) -> Seq<(u128, u128)>
    decreases children.len(),
{
    if children.len() == 0 {
        Seq::empty()
    } else {
        let (parent, kids) = children.last();
        arrows(children.drop_last()) + Seq::new(kids@.len(), |k: int| (parent, kids@[k]))
    }
}

/// The texts, put together.
pub open spec fn put_together(lines: Seq<Seq<char>>) -> Seq<char>
    decreases lines.len(),
{
    if lines.len() == 0 {
        Seq::empty()
    } else {
        put_together(lines.drop_last()) + lines.last()
    }
}

/// Whether the line draws an arrow from one task to another, with a label for each.
pub open spec fn draws_arrow(
    line: Seq<char>,
    from: u128,
    to: u128,
    from_label: Seq<char>,
    to_label: Seq<char>,
) -> bool {
    line == "    "@ + key_text(from) + "[\""@ + from_label + "\"] --> "@ + key_text(to) + "[\""@
        + to_label + "\"]\n"@
}

/// Whether the record counts for a task: it is the last one among the first `upto`.
pub open spec fn counts_for(tasks: Seq<GraphTask>, id: u128, upto: int, i: int) -> bool {
    0 <= i < upto && tasks[i].id == id && forall|j: int|
        i < j < upto ==> (#[trigger] tasks[j]).id != id
}

/// Whether the label is that of the task: the one made of the record that counts for it, or
/// `Unknown` where it has none.
pub open spec fn labels_task(label: Seq<char>, tasks: Seq<GraphTask>, id: u128) -> bool {
    &&& forall|i: int| #[trigger]
        counts_for(tasks, id, tasks.len() as int, i) ==> label == label_text(
            tasks[i].prompt@,
            tasks[i].state,
        )
    &&& (forall|i: int| 0 <= i < tasks.len() ==> (#[trigger] tasks[i]).id != id) ==> label
        == "Unknown"@
}

/// Whether the line draws an arrow from one task to another, each with its own label.
pub open spec fn draws(line: Seq<char>, from: u128, to: u128, tasks: Seq<GraphTask>) -> bool {
    exists|a: Seq<char>, b: Seq<char>|
        #[trigger] draws_arrow(line, from, to, a, b) && labels_task(a, tasks, from) && labels_task(
            b,
            tasks,
            to,
        )
}

/// Whether the lines draw the arrows, one for one and in order.
pub open spec fn draws_arrows(
    lines: Seq<Seq<char>>,
    pairs: Seq<(u128, u128)>,
    tasks: Seq<GraphTask>,
) -> bool {
    lines.len() == pairs.len() && forall|n: int|
        0 <= n < lines.len() ==> #[trigger] draws(lines[n], pairs[n].0, pairs[n].1, tasks)
}

proof fn lemma_label_among(tasks: Seq<GraphTask>, id: u128, upto: int)
    requires
        0 <= upto <= tasks.len(),
    ensures
        forall|i: int| #[trigger]
            counts_for(tasks, id, upto, i) ==> label_among(tasks, id, upto) == label_text(
                tasks[i].prompt@,
                tasks[i].state,
            ),
        (forall|i: int| 0 <= i < upto ==> (#[trigger] tasks[i]).id != id) ==> label_among(
            tasks,
            id,
            upto,
        ) == "Unknown"@,
    decreases upto,
{
    if upto > 0 {
        lemma_label_among(tasks, id, upto - 1);
        assert forall|i: int| #[trigger] counts_for(tasks, id, upto, i) implies label_among(
            tasks,
            id,
            upto,
        ) == label_text(tasks[i].prompt@, tasks[i].state) by {
            if i < upto - 1 {
                assert(tasks[upto - 1].id != id);
                assert(counts_for(tasks, id, upto - 1, i));
            }
        }
    }
}

proof fn lemma_put_together(a: Seq<Seq<char>>, b: Seq<Seq<char>>)
    ensures
        put_together(a + b) == put_together(a) + put_together(b),
    decreases b.len(),
{
    if b.len() == 0 {
        assert(a + b =~= a);
        assert(put_together(a) + put_together(b) =~= put_together(a));
    } else {
        lemma_put_together(a, b.drop_last());
        assert((a + b).drop_last() =~= a + b.drop_last());
        assert(put_together(a + b) =~= put_together(a) + put_together(b));
    }
}

proof fn lemma_line_draws(tasks: Seq<GraphTask>, parent: u128, child: u128)
    ensures
        draws(edge_text(tasks, parent, child), parent, child, tasks),
{
    let a = task_label(tasks, parent);
    let b = task_label(tasks, child);
    lemma_label_among(tasks, parent, tasks.len() as int);
    lemma_label_among(tasks, child, tasks.len() as int);
    assert(labels_task(a, tasks, parent));
    assert(labels_task(b, tasks, child));
    assert(draws_arrow(edge_text(tasks, parent, child), parent, child, a, b));
}

proof fn lemma_lines_of_row(tasks: Seq<GraphTask>, parent: u128, kids: Seq<u128>) -> (lines: Seq<
    Seq<char>,
>)
    ensures
        edges_text(tasks, parent, kids) == put_together(lines),
        draws_arrows(lines, Seq::new(kids.len(), |k: int| (parent, kids[k])), tasks),
    decreases kids.len(),
{
    let pairs = Seq::new(kids.len(), |k: int| (parent, kids[k]));
    if kids.len() == 0 {
        Seq::empty()
    } else {
        let less = kids.drop_last();
        let before = lemma_lines_of_row(tasks, parent, less);
        let line = edge_text(tasks, parent, kids.last());
        let lines = before.push(line);
        let head = Seq::new(less.len(), |k: int| (parent, less[k]));
        lemma_line_draws(tasks, parent, kids.last());
        assert(lines.drop_last() =~= before);
        assert forall|n: int| 0 <= n < lines.len() implies #[trigger] draws(
            lines[n],
            pairs[n].0,
            pairs[n].1,
            tasks,
        ) by {
            if n < before.len() {
                assert(lines[n] == before[n] && pairs[n] == head[n]);
                assert(draws(before[n], head[n].0, head[n].1, tasks));
            }
        }
        lines
    }
}

proof fn lemma_lines_of_graph(tasks: Seq<GraphTask>, children: Seq<(u128, Vec<u128>)>) -> (lines:
    Seq<Seq<char>>)
    ensures
        graph_text(tasks, children) == put_together(lines),
        draws_arrows(lines, arrows(children), tasks),
    decreases children.len(),
{
    if children.len() == 0 {
        Seq::empty()
    } else {
        let (parent, kids) = children.last();
        let a = lemma_lines_of_graph(tasks, children.drop_last());
        let b = lemma_lines_of_row(tasks, parent, kids@);
        let head = arrows(children.drop_last());
        let row = Seq::new(kids@.len(), |k: int| (parent, kids@[k]));
        let lines = a + b;
        let pairs = arrows(children);
        assert(pairs =~= head + row);
        lemma_put_together(a, b);
        assert forall|n: int| 0 <= n < lines.len() implies #[trigger] draws(
            lines[n],
            pairs[n].0,
            pairs[n].1,
            tasks,
        ) by {
            if n < a.len() {
                assert(lines[n] == a[n] && pairs[n] == head[n]);
                assert(draws(a[n], head[n].0, head[n].1, tasks));
            } else {
                let m = n - a.len();
                assert(lines[n] == b[m] && pairs[n] == row[m]);
                assert(draws(b[m], row[m].0, row[m].1, tasks));
            }
        }
        lines
    }
}

/// The graph has one line for each task that was spawned, row by row, and no other line. In each
/// the arrow runs from the task that spawned to the one that was spawned, and each of the two
/// stands with its own label.
pub proof fn law_arrows_run_from_parent_to_child(
    tasks: Seq<GraphTask>,
    children: Seq<(u128, Vec<u128>)>,
)
    ensures
        exists|lines: Seq<Seq<char>>|
            graph_text(tasks, children) == #[trigger] put_together(lines) && draws_arrows(
                lines,
                arrows(children),
                tasks,
            ),
        forall|i: int, k: int|
            0 <= i < children.len() && 0 <= k < children[i].1@.len() ==> arrows(children).contains(
                (children[i].0, #[trigger] children[i].1@[k]),
            ),
        forall|n: int|
            0 <= n < arrows(children).len() ==> exists|i: int, k: int|
                0 <= i < children.len() && 0 <= k < children[i].1@.len() && children[i].0
                    == #[trigger] arrows(children)[n].0 && (#[trigger] children[i].1@[k])
                    == arrows(children)[n].1,
    decreases children.len(),
{
    let lines = lemma_lines_of_graph(tasks, children);
    if children.len() > 0 {
        let head = children.drop_last();
        let (parent, kids) = children.last();
        law_arrows_run_from_parent_to_child(tasks, head);
        let a = arrows(head);
        let all = arrows(children);
        assert(children[children.len() - 1] == children.last());
        assert forall|i: int, k: int|
            0 <= i < children.len() && 0 <= k < children[i].1@.len() implies all.contains(
            (children[i].0, #[trigger] children[i].1@[k]),
        ) by {
            if i < head.len() {
                assert(head[i] == children[i]);
                assert(a.contains((head[i].0, head[i].1@[k])));
                let n = choose|n: int| 0 <= n < a.len() && a[n] == (head[i].0, head[i].1@[k]);
                assert(all[n] == a[n]);
            } else {
                assert(all[a.len() + k] == (parent, kids@[k]));
            }
        }
        assert forall|n: int| 0 <= n < all.len() implies exists|i: int, k: int|
            0 <= i < children.len() && 0 <= k < children[i].1@.len() && children[i].0
                == #[trigger] all[n].0 && (#[trigger] children[i].1@[k]) == all[n].1 by {
            if n < a.len() {
                assert(all[n] == a[n]);
                let (i, k) = choose|i: int, k: int|
                    0 <= i < head.len() && 0 <= k < head[i].1@.len() && head[i].0 == #[trigger] a[n].0
                        && (#[trigger] head[i].1@[k]) == a[n].1;
                assert(head[i] == children[i]);
                assert(children[i].1@[k] == all[n].1);
            } else {
                let k = n - a.len();
                assert(children[children.len() - 1].1@[k] == all[n].1);
            }
        }
    }
}

/// The name of a task in the graph is that of its id, with underscores for dashes, which the
/// graph's syntax has no room for.
pub proof fn law_names_in_the_graph_have_no_dashes(id: u128)
    ensures
        key_text(id).len() == 5 + uuid_text(id).len(),
        key_text(id).take(5) == "task_"@,
        forall|i: int|
            0 <= i < uuid_text(id).len() ==> #[trigger] key_text(id)[5 + i] != '-' && (uuid_text(
                id,
            )[i] == '-' ==> key_text(id)[5 + i] == '_') && (uuid_text(id)[i] != '-' ==> key_text(
                id,
            )[5 + i] == uuid_text(id)[i]),
{
    reveal_strlit("task_");
    assert(key_text(id).take(5) =~= "task_"@);
}

/// A label begins with the start of the task's prompt, ends with its state, and holds no quotation
/// mark that would end it early.
pub proof fn law_labels_show_prompt_and_state(prompt: Seq<char>, state: TaskState)
    ensures
        ({
            let label = label_text(prompt, state);
            let shown = if prompt.len() <= 48 {
                prompt.len() as int
            } else {
                48
            };
            &&& forall|i: int|
                0 <= i < shown ==> #[trigger] label[i] == (if prompt[i] == '"' {
                    '\''
                } else {
                    prompt[i]
                })
            &&& prompt.len() <= 48 ==> label.skip(shown) == " | "@ + state.named()
            &&& prompt.len() > 48 ==> label.skip(shown) == "..."@ + " | "@ + state.named()
            &&& forall|i: int| 0 <= i < label.len() ==> #[trigger] label[i] != '"'
        }),
{
    reveal_strlit("...");
    reveal_strlit(" | ");
    lemma_state_names(state);
    let cut = clipped(prompt, 48, "..."@);
    let label = label_text(prompt, state);
    let shown = if prompt.len() <= 48 {
        prompt.len() as int
    } else {
        48
    };
    assert(swapped(cut, '"', '\'').len() == cut.len());
    if prompt.len() > 48 {
        assert(label.skip(shown) =~= "..."@ + " | "@ + state.named());
    } else {
        assert(label.skip(shown) =~= " | "@ + state.named());
    }
    assert forall|i: int| 0 <= i < label.len() implies #[trigger] label[i] != '"' by {
        if i < cut.len() {
            assert(label[i] == swapped(cut, '"', '\'')[i]);
        } else if i < cut.len() + 3 {
            assert(label[i] == " | "@[i - cut.len()]);
        } else {
            assert(label[i] == state.named()[i - cut.len() - 3]);
        }
    }
}

proof fn lemma_state_names(state: TaskState)
    ensures
        forall|i: int| 0 <= i < state.named().len() ==> #[trigger] state.named()[i] != '"',
        badge_class(state) == "badge-"@ + lower_ascii(state.named()),
{
    reveal_strlit("Queued");
    reveal_strlit("Running");
    reveal_strlit("Waiting");
    reveal_strlit("Suspended");
    reveal_strlit("Complete");
    reveal_strlit("Failed");
    reveal_strlit("Cancelled");
    reveal_strlit("badge-");
    reveal_strlit("badge-queued");
    reveal_strlit("badge-running");
    reveal_strlit("badge-waiting");
    reveal_strlit("badge-suspended");
    reveal_strlit("badge-complete");
    reveal_strlit("badge-failed");
    reveal_strlit("badge-cancelled");
    assert(badge_class(state) =~= "badge-"@ + lower_ascii(state.named()));
}

/// The badge of a state is called by the state's own name, in lower case.
pub proof fn law_badges_are_named_by_their_state(state: TaskState)
    ensures
        badge_class(state) == "badge-"@ + lower_ascii(state.named()),
{
    lemma_state_names(state);
}

/// A duration is shown in the two largest units that it reaches, rounded down.
pub proof fn law_durations_are_rounded_down(seconds: int, a: int, b: int)
    requires
        0 <= seconds,
        0 <= b,
    ensures
        seconds < 60 ==> duration_text(seconds) == decimal(seconds as nat) + "s"@,
        60 <= seconds < 3600 && 60 * a <= seconds < 60 * (a + 1) ==> duration_text(seconds)
            == decimal(a as nat) + "m"@,
        3600 <= seconds < 86_400 && b < 60 && 3600 * a + 60 * b <= seconds < 3600 * a + 60 * (b + 1)
            ==> duration_text(seconds) == decimal(a as nat) + "h "@ + decimal(b as nat) + "m"@,
        86_400 <= seconds && b < 24 && 86_400 * a + 3600 * b <= seconds < 86_400 * a + 3600 * (b
            + 1) ==> duration_text(seconds) == decimal(a as nat) + "d "@ + decimal(b as nat) + "h"@,
{
}

/// A task has taken the time from its start to its end; one that has not started counts from when
/// it was created, and one that has not ended up to now.
pub proof fn law_durations_run_from_start_to_end(r: TaskViewRecord, now: Moment, secs: int)
    requires
        0 <= secs,
        ({
            let from = if r.started_at is Some {
                r.started_at->0
            } else {
                r.created_at
            };
            let to = if r.finished_at is Some {
                r.finished_at->0
            } else {
                now
            };
            1_000_000_000 * secs <= to.total() - from.total() < 1_000_000_000 * (secs + 1)
        }),
    ensures
        r.state == TaskState::Complete || r.state == TaskState::Failed || r.state
            == TaskState::Cancelled ==> r.duration(now) == duration_text(secs) + " elapsed"@,
        r.state == TaskState::Queued || r.state == TaskState::Running || r.state
            == TaskState::Waiting || r.state == TaskState::Suspended ==> r.duration(now)
            == duration_text(secs) + " live"@,
{
    assert(r.seconds(now) == secs);
}

/// An agent is shown by the name that it is registered under last, and one that is not registered
/// by its id.
pub proof fn law_agents_are_shown_by_name(agents: Seq<AgentName>, id: u128)
    ensures
        forall|i: int|
            #![trigger agents[i]]
            0 <= i < agents.len() && agents[i].id == id && (forall|j: int|
                i < j < agents.len() ==> (#[trigger] agents[j]).id != id) ==> agent_shown(
                agents,
                id,
            ) == agents[i].name@,
        (forall|i: int| 0 <= i < agents.len() ==> (#[trigger] agents[i]).id != id)
            ==> agent_shown(agents, id) == uuid_text(id),
    decreases agents.len(),
{
    if agents.len() > 0 {
        let head = agents.drop_last();
        law_agents_are_shown_by_name(head, id);
        assert(agents[agents.len() - 1] == agents.last());
        if agents.last().id != id {
            assert forall|i: int|
                #![trigger agents[i]]
                0 <= i < agents.len() && agents[i].id == id && (forall|j: int|
                    i < j < agents.len() ==> (#[trigger] agents[j]).id != id) implies agent_shown(
                agents,
                id,
            ) == agents[i].name@ by {
                assert(head[i] == agents[i]);
                assert forall|j: int| i < j < head.len() implies (#[trigger] head[j]).id != id by {
                    assert(head[j] == agents[j]);
                }
            }
            if forall|i: int| 0 <= i < agents.len() ==> (#[trigger] agents[i]).id != id {
                assert forall|i: int| 0 <= i < head.len() implies (#[trigger] head[i]).id != id by {
                    assert(head[i] == agents[i]);
                }
            }
        }
    }
}

/// Whether a task is recorded.
pub open spec fn has_record(records: Seq<TaskViewRecord>, id: u128) -> bool {
    exists|i: int| 0 <= i < records.len() && (#[trigger] records[i]).id == id
}

proof fn lemma_recorded(records: Seq<TaskViewRecord>, id: u128, upto: int)
    requires
        0 <= upto <= records.len(),
    ensures
        record_at(records, id, upto) >= 0 <==> exists|i: int|
            0 <= i < upto && (#[trigger] records[i]).id == id,
        forall|i: int|
            record_at(records, id, upto) < i < upto ==> (#[trigger] records[i]).id != id,
        record_at(records, id, upto) < upto || upto == 0,
    decreases upto,
{
    if upto > 0 {
        lemma_recorded(records, id, upto - 1);
        assert(records[upto - 1] == records[upto - 1]);
    }
}

proof fn lemma_root_at(records: Seq<TaskViewRecord>, upto: int, i: int)
    requires
        0 <= i < upto <= records.len(),
        place_of(records, records[i].id) == i,
        records[i].parent_task_id is None || !recorded(records, records[i].parent_task_id->0),
    ensures
        roots(records, upto).contains(&records[i]),
    decreases upto,
{
    let all = roots(records, upto);
    if i < upto - 1 {
        lemma_root_at(records, upto - 1, i);
        let before = roots(records, upto - 1);
        let k = choose|k: int| 0 <= k < before.len() && before[k] == &records[i];
        assert(all[k] == &records[i]);
    } else {
        assert(all[all.len() - 1] == &records[i]);
    }
}

proof fn lemma_root_has_no_parent(records: Seq<TaskViewRecord>, upto: int)
    requires
        0 <= upto <= records.len(),
    ensures
        forall|k: int|
            0 <= k < roots(records, upto).len() ==> {
                let r = *#[trigger] roots(records, upto)[k];
                records.contains(r) && (r.parent_task_id is None || !recorded(
                    records,
                    r.parent_task_id->0,
                ))
            },
    decreases upto,
{
    if upto > 0 {
        lemma_root_has_no_parent(records, upto - 1);
        let before = roots(records, upto - 1);
        let all = roots(records, upto);
        assert forall|k: int| 0 <= k < all.len() implies {
            let r = *#[trigger] all[k];
            records.contains(r) && (r.parent_task_id is None || !recorded(
                records,
                r.parent_task_id->0,
            ))
        } by {
            if k < before.len() {
                assert(all[k] == before[k]);
            } else {
                assert(records[upto - 1] == *all[k]);
            }
        }
    }
}

/// A task stands at the top exactly where no recorded task is its parent: none of the others does,
/// and none of these is left out.
pub proof fn law_roots_have_no_recorded_parent(records: Seq<TaskViewRecord>)
    ensures
        forall|k: int|
            0 <= k < roots(records, records.len() as int).len() ==> {
                let r = *#[trigger] roots(records, records.len() as int)[k];
                records.contains(r) && (r.parent_task_id is None || !has_record(
                    records,
                    r.parent_task_id->0,
                ))
            },
        forall|i: int|
            0 <= i < records.len() && ((#[trigger] records[i]).parent_task_id is None
                || !has_record(records, records[i].parent_task_id->0)) && (forall|j: int|
                i < j < records.len() ==> (#[trigger] records[j]).id != records[i].id) ==> roots(
                records,
                records.len() as int,
            ).contains(&records[i]),
{
    let n = records.len() as int;
    lemma_root_has_no_parent(records, n);
    assert forall|id: u128| recorded(records, id) == #[trigger] has_record(records, id) by {
        lemma_recorded(records, id, n);
    }
    assert forall|i: int|
        0 <= i < records.len() && ((#[trigger] records[i]).parent_task_id is None || !has_record(
            records,
            records[i].parent_task_id->0,
        )) && (forall|j: int|
            i < j < records.len() ==> (#[trigger] records[j]).id != records[i].id) implies roots(
        records,
        n,
    ).contains(&records[i]) by {
        lemma_recorded(records, records[i].id, n);
        lemma_record_at(records, records[i].id, n);
        lemma_root_at(records, n, i);
    }
}

/// Whether every branch of the tree runs from a task to one that it spawned.
pub open spec fn branches_are_spawned(t: TreeV, children: Seq<(u128, Vec<u128>)>) -> bool
    decreases t,
{
    forall|i: int|
        0 <= i < t.children.len() ==> spawned(children, t.id, 0).contains(
            (#[trigger] t.children[i]).id,
        ) && branches_are_spawned(t.children[i], children)
}

proof fn lemma_branches(
    id: u128,
    records: Seq<TaskViewRecord>,
    children: Seq<(u128, Vec<u128>)>,
    seen: Set<u128>,
    fuel: nat,
)
    ensures
        tree(id, records, children, seen, fuel).0 matches Some(t) ==> t.id == id
            && branches_are_spawned(t, children),
    decreases fuel, 0int,
{
    if fuel > 0 && !seen.contains(id) && recorded(records, id) {
        lemma_branches_of_all(
            spawned(children, id, 0),
            records,
            children,
            seen.insert(id),
            (fuel - 1) as nat,
        );
        let t = tree(id, records, children, seen, fuel).0->0;
        let below = forest(
            spawned(children, id, 0),
            records,
            children,
            seen.insert(id),
            (fuel - 1) as nat,
        ).0;
        assert(t.children == below);
        assert forall|i: int| 0 <= i < t.children.len() implies spawned(children, t.id, 0).contains(
            (#[trigger] t.children[i]).id,
        ) && branches_are_spawned(t.children[i], children) by {
            assert(t.children[i] == below[i]);
        }
    }
}

proof fn lemma_branches_of_all(
    ids: Seq<u128>,
    records: Seq<TaskViewRecord>,
    children: Seq<(u128, Vec<u128>)>,
    seen: Set<u128>,
    fuel: nat,
)
    ensures
        forall|i: int|
            0 <= i < forest(ids, records, children, seen, fuel).0.len() ==> ids.contains(
                (#[trigger] forest(ids, records, children, seen, fuel).0[i]).id,
            ) && branches_are_spawned(forest(ids, records, children, seen, fuel).0[i], children),
    decreases fuel, ids.len() + 1,
{
    if ids.len() > 0 {
        let less = ids.drop_last();
        lemma_branches_of_all(less, records, children, seen, fuel);
        let before = forest(less, records, children, seen, fuel);
        lemma_branches(ids.last(), records, children, before.1, fuel);
        let all = forest(ids, records, children, seen, fuel).0;
        assert forall|i: int| 0 <= i < all.len() implies ids.contains((#[trigger] all[i]).id)
            && branches_are_spawned(all[i], children) by {
            if i < before.0.len() {
                assert(all[i] == before.0[i]);
                let k = choose|k: int| 0 <= k < less.len() && less[k] == before.0[i].id;
                assert(ids[k] == all[i].id);
            } else {
                assert(ids[ids.len() - 1] == all[i].id);
            }
        }
    }
}

/// The tasks below a task in its tree are tasks that it spawned, at every level.
pub proof fn law_tasks_stand_below_their_parent(
    id: u128,
    records: Seq<TaskViewRecord>,
    children: Seq<(u128, Vec<u128>)>,
    seen: Set<u128>,
    fuel: nat,
)
    requires
        tree(id, records, children, seen, fuel).0 is Some,
    ensures
        tree(id, records, children, seen, fuel).0->0.id == id,
        branches_are_spawned(tree(id, records, children, seen, fuel).0->0, children),
{
    lemma_branches(id, records, children, seen, fuel);
}

/// What a task spawned is what its row says; without a row it spawned nothing.
pub proof fn law_rows_say_what_was_spawned(children: Seq<(u128, Vec<u128>)>, id: u128, from: int)
    requires
        0 <= from,
    ensures
        forall|i: int|
            #![trigger children[i]]
            from <= i < children.len() && children[i].0 == id && (forall|j: int|
                from <= j < i ==> (#[trigger] children[j]).0 != id) ==> spawned(children, id, from)
                == children[i].1@,
        (forall|i: int| from <= i < children.len() ==> (#[trigger] children[i]).0 != id) ==> spawned(
            children,
            id,
            from,
        ).len() == 0,
    decreases children.len() - from,
{
    if from < children.len() {
        law_rows_say_what_was_spawned(children, id, from + 1);
        assert(children[from] == children[from]);
    }
}

/// A record keeps what is known of its task, with the beginning of what was asked and the name of
/// its agent, and its row shows that: its ids, its state, its times and how many tasks it spawned.
pub proof fn law_rows_show_their_task(
    node: DagNodeView,
    r: TaskViewRecord,
    task: ListedTask,
    agents: Seq<AgentName>,
    now: Moment,
)
    requires
        records_task(r, task, agents),
        shows_record(node, r, now),
    ensures
        node.id@ == uuid_text(task.id),
        starts_with(node.id@, node.short_id@),
        node.agent_id@ == uuid_text(task.agent_id),
        node.agent_name@ == agent_shown(agents, task.agent_id),
        node.state@ == task.state.named(),
        node.state_class@ == badge_class(task.state),
        task.original_prompt@.len() <= 120 ==> node.prompt_preview@ == task.original_prompt@,
        task.original_prompt@.len() > 120 ==> node.prompt_preview@ == task.original_prompt@.subrange(
            0,
            120,
        ) + "..."@,
        node.created_at@ == task.created_at.stamped(STAMP_UTC_PATTERN@),
        node.spawn_depth == task.spawn_depth,
        node.child_count == node.children@.len(),
        task.parent_task_id is Some ==> node.parent_task_id is Some && node.parent_task_id->0@
            == uuid_text(task.parent_task_id->0),
        task.parent_task_id is None ==> node.parent_task_id is None,
        task.state.terminal() ==> ends_with(node.duration_label@, " elapsed"@),
        !task.state.terminal() ==> ends_with(node.duration_label@, " live"@),
        r.started_at == task.started_at && r.finished_at == task.finished_at,
{
    let id = uuid_text(task.id);
    if id.len() > 8 {
        assert(id.subrange(0, 8) =~= node.short_id@);
    } else {
        assert(id.subrange(0, id.len() as int) =~= id);
    }
    let d = node.duration_label@;
    let back = if task.state.terminal() {
        " elapsed"@
    } else {
        " live"@
    };
    assert(d.subrange(d.len() - back.len(), d.len() as int) =~= back);
}

/// Tasks that stand side by side are ordered by when they were created, the earliest first.
pub proof fn law_earlier_tasks_stand_first(rows: Seq<&TaskViewRecord>, i: int, j: int)
    requires
        0 <= i < j < rows.len(),
    ensures
        ranked(rows).len() == rows.len(),
        ranked(rows).to_multiset() == rows.to_multiset(),
        ranked(rows)[i].created_at.total() <= ranked(rows)[j].created_at.total(),
{
    law_sorting_orders_the_rows(rows);
    assert(!ranked(rows)[j].precedes(ranked(rows)[i]));
}

} // verus!
