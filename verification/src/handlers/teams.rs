//! Teams: coordinating tasks and the tasks below them.

use crate::clock::Moment;
use crate::ids::{uuid_number, uuid_value};
use crate::reply::Reply;
use crate::sort::{law_sorting_orders_the_rows, ranked, sort_rows, Ranked};
use crate::task_events::TaskState;
use vstd::prelude::*;

verus! {

/// A task as the team pages know it.
pub struct TeamTask {
    pub id: u128,
    pub state: TaskState,
    pub agent_id: u128,
    pub prompt_preview: String,
    pub created_at: Moment,
    pub tool_calls: u64,
    pub tokens_used: u64,
    pub spawn_depth: u8,
    pub parent_task_id: Option<u128>,
    pub is_team_coordinator: bool,
}

impl<'a> Ranked for &'a TeamTask {
    /// The task that was created first comes first.
    open spec fn precedes(self, other: Self) -> bool {
        self.created_at.total() < other.created_at.total()
    }

    fn goes_before(&self, other: &Self) -> (r: bool) {
        self.created_at.total_nanos() < other.created_at.total_nanos()
    }

    proof fn asymmetric(a: Self, b: Self) {
    }

    proof fn transitive(a: Self, b: Self, c: Self) {
    }
}

/// The tasks that a task spawned, in the order of the tasks.
pub open spec fn children_of(tasks: Seq<TeamTask>, parent: u128) -> Seq<&'static TeamTask>
    decreases tasks.len(),
{
    if tasks.len() == 0 {
        Seq::empty()
    } else {
        let before = children_of(tasks.drop_last(), parent);
        if tasks.last().parent_task_id == Some(parent) {
            before.push(&tasks.last())
        } else {
            before
        }
    }
}

/// The tasks that a task spawned, the oldest first.
pub fn child_tasks<'a>(tasks: &'a Vec<TeamTask>, parent: u128) -> (r: Vec<&'a TeamTask>)
    ensures
        r@ == ranked(children_of(tasks@, parent)),
        r@.len() == children_of(tasks@, parent).len(),
{
    let mut out: Vec<&'a TeamTask> = Vec::new();
    let mut i: usize = 0;
    assert(tasks@.take(0) =~= Seq::<TeamTask>::empty());
    while i < tasks.len()
        invariant
            i <= tasks@.len(),
            out@ == children_of(tasks@.take(i as int), parent),
        decreases tasks.len() - i,
    {
        assert(tasks@.take(i + 1).drop_last() =~= tasks@.take(i as int));
        assert(tasks@.take(i + 1).last() == tasks@[i as int]);
        let is_child: bool = match tasks[i].parent_task_id {
            Some(p) => p == parent,
            None => false,
        };
        if is_child {
            out.push(&tasks[i]);
        }
        i += 1;
    }
    assert(tasks@.take(i as int) =~= tasks@);
    proof {
        crate::sort::law_sorting_orders_the_rows(out@);
    }
    sort_rows(out)
}

/// A coordinating task and how many tasks it spawned.
pub struct TeamRow<'a> {
    pub task: &'a TeamTask,
    pub child_count: usize,
}

/// The coordinating tasks, in order.
pub open spec fn coordinators(tasks: Seq<TeamTask>) -> Seq<&'static TeamTask>
    decreases tasks.len(),
{
    if tasks.len() == 0 {
        Seq::empty()
    } else if tasks.last().is_team_coordinator {
        coordinators(tasks.drop_last()).push(&tasks.last())
    } else {
        coordinators(tasks.drop_last())
    }
}

/// The coordinating tasks, each with the number of tasks that it spawned.
pub fn team_rows<'a>(tasks: &'a Vec<TeamTask>) -> (r: Vec<TeamRow<'a>>)
    ensures
        r@.len() == coordinators(tasks@).len(),
        forall|i: int|
            0 <= i < r@.len() ==> (#[trigger] r@[i]).task == coordinators(tasks@)[i]
                && r@[i].child_count == children_of(tasks@, r@[i].task.id).len(),
{
    let mut out: Vec<TeamRow<'a>> = Vec::new();
    let mut i: usize = 0;
    assert(tasks@.take(0) =~= Seq::<TeamTask>::empty());
    while i < tasks.len()
        invariant
            i <= tasks@.len(),
            out@.len() == coordinators(tasks@.take(i as int)).len(),
            forall|k: int|
                0 <= k < out@.len() ==> (#[trigger] out@[k]).task == coordinators(
                    tasks@.take(i as int),
                )[k] && out@[k].child_count == children_of(tasks@, out@[k].task.id).len(),
        decreases tasks.len() - i,
    {
        assert(tasks@.take(i + 1).drop_last() =~= tasks@.take(i as int));
        assert(tasks@.take(i + 1).last() == tasks@[i as int]);
        if tasks[i].is_team_coordinator {
            let kids: Vec<&'a TeamTask> = child_tasks(tasks, tasks[i].id);
            out.push(TeamRow { task: &tasks[i], child_count: kids.len() });
        }
        i += 1;
    }
    assert(tasks@.take(i as int) =~= tasks@);
    out
}

/// The tasks below a task, each behind the one that spawned it, with their depths. They are
/// followed to `fuel` levels.
pub open spec fn below(tasks: Seq<TeamTask>, parent: u128, depth: int, fuel: nat) -> Seq<
    (int, &'static TeamTask),
>
    decreases fuel, 0int,
{
    if fuel == 0 {
        Seq::empty()
    } else {
        below_each(tasks, ranked(children_of(tasks, parent)), depth, (fuel - 1) as nat)
    }
}

/// Several tasks, each with the tasks below it.
pub open spec fn below_each(
    tasks: Seq<TeamTask>,
    kids: Seq<&'static TeamTask>,
    depth: int,
    fuel: nat,
) -> Seq<(int, &'static TeamTask)>
    decreases fuel, kids.len() + 1,
{
    if kids.len() == 0 {
        Seq::empty()
    } else {
        below_each(tasks, kids.drop_last(), depth, fuel).push((depth, kids.last())) + below(
            tasks,
            kids.last().id,
            depth + 1,
            fuel,
        )
    }
}

/// The rows behind the pairs.
pub open spec fn levels(rows: Seq<(usize, &TeamTask)>) -> Seq<(int, &TeamTask)> {
    Seq::new(rows.len(), |i: int| (rows[i].0 as int, rows[i].1))
}

fn collect_children<'a>(
    parent: u128,
    depth: usize,
    tasks: &'a Vec<TeamTask>,
    out: &mut Vec<(usize, &'a TeamTask)>,
    fuel: usize,
)
    requires
        depth + fuel <= usize::MAX,
    ensures
        levels(final(out)@) == levels(old(out)@) + below(tasks@, parent, depth as int, fuel as nat),
    decreases fuel,
{
    let ghost had = levels(out@);
    if fuel == 0 {
        assert(had + Seq::<(int, &TeamTask)>::empty() =~= had);
        return ;
    }
    let kids: Vec<&'a TeamTask> = child_tasks(tasks, parent);
    let mut i: usize = 0;
    assert(kids@.take(0) =~= Seq::<&TeamTask>::empty());
    assert(had + below_each(tasks@, kids@.take(0), depth as int, (fuel - 1) as nat) =~= had);
    while i < kids.len()
        invariant
            i <= kids@.len(),
            fuel > 0,
            depth + fuel <= usize::MAX,
            levels(out@) == had + below_each(
                tasks@,
                kids@.take(i as int),
                depth as int,
                (fuel - 1) as nat,
            ),
        decreases kids.len() - i,
    {
        assert(kids@.take(i + 1).drop_last() =~= kids@.take(i as int));
        assert(kids@.take(i + 1).last() == kids@[i as int]);
        let ghost done = below_each(tasks@, kids@.take(i as int), depth as int, (fuel - 1) as nat);
        let ghost before = out@;
        out.push((depth, kids[i]));
        assert(levels(out@) =~= levels(before).push((depth as int, kids@[i as int])));
        assert((had + done).push((depth as int, kids@[i as int])) =~= had + done.push(
            (depth as int, kids@[i as int]),
        ));
        collect_children(kids[i].id, depth + 1, tasks, out, fuel - 1);
        let ghost inner = below(tasks@, kids@[i as int].id, depth + 1, (fuel - 1) as nat);
        assert(levels(out@) =~= had + (done.push((depth as int, kids@[i as int])) + inner));
        i += 1;
    }
    assert(kids@.take(i as int) =~= kids@);
}

/// The tasks below a task, each behind the one that spawned it, the oldest first, with their
/// depths from one on. A task that is its own ancestor is not followed for ever: no task is
/// deeper than there are tasks.
pub fn hierarchy<'a>(tasks: &'a Vec<TeamTask>, root: u128) -> (r: Vec<(usize, &'a TeamTask)>)
    requires
        tasks@.len() < usize::MAX,
    ensures
        levels(r@) == below(tasks@, root, 1, tasks@.len() as nat),
{
    let mut out: Vec<(usize, &'a TeamTask)> = Vec::new();
    assert(levels(out@) =~= Seq::<(int, &TeamTask)>::empty());
    collect_children(root, 1, tasks, &mut out, tasks.len());
    assert(Seq::<(int, &TeamTask)>::empty() + below(tasks@, root, 1, tasks@.len() as nat)
        =~= below(tasks@, root, 1, tasks@.len() as nat));
    out
}

/// Whether one task spawned the other.
pub open spec fn spawned(tasks: Seq<TeamTask>, parent: u128, child: u128) -> bool {
    exists|k: int|
        0 <= k < tasks.len() && (#[trigger] tasks[k]).id == child && tasks[k].parent_task_id == Some(
            parent,
        )
}

/// Whether each task of the line spawned the next.
pub open spec fn lineage(tasks: Seq<TeamTask>, line: Seq<u128>) -> bool {
    forall|i: int|
        #![trigger line[i]]
        0 <= i < line.len() - 1 ==> spawned(tasks, line[i], line[i + 1])
}

/// Whether no task is its own ancestor.
pub open spec fn no_own_ancestor(tasks: Seq<TeamTask>) -> bool {
    forall|line: Seq<u128>| #[trigger]
        lineage(tasks, line) && line.len() >= 2 ==> line.first() != line.last()
}

/// How many of the tasks are not in the line.
spec fn unmet(tasks: Seq<TeamTask>, line: Seq<u128>) -> nat
    decreases tasks.len(),
{
    if tasks.len() == 0 {
        0
    } else {
        unmet(tasks.drop_last(), line) + (if line.contains(tasks.last().id) {
            0nat
        } else {
            1nat
        })
    }
}

proof fn lemma_unmet_bound(tasks: Seq<TeamTask>, line: Seq<u128>)
    ensures
        unmet(tasks, line) <= tasks.len(),
    decreases tasks.len(),
{
    if tasks.len() > 0 {
        lemma_unmet_bound(tasks.drop_last(), line);
    }
}

proof fn lemma_unmet_grows(tasks: Seq<TeamTask>, line: Seq<u128>, id: u128)
    ensures
        unmet(tasks, line.push(id)) <= unmet(tasks, line),
        !line.contains(id) && (exists|k: int| 0 <= k < tasks.len() && (#[trigger] tasks[k]).id == id)
            ==> unmet(tasks, line.push(id)) < unmet(tasks, line),
    decreases tasks.len(),
{
    if tasks.len() > 0 {
        let head = tasks.drop_last();
        let last = tasks.last().id;
        lemma_unmet_grows(head, line, id);
        if line.contains(last) {
            let i = choose|i: int| 0 <= i < line.len() && line[i] == last;
            assert(line.push(id)[i] == last);
        }
        if last == id {
            assert(line.push(id)[line.len() as int] == id);
        }
        if exists|k: int| 0 <= k < tasks.len() && (#[trigger] tasks[k]).id == id {
            let k = choose|k: int| 0 <= k < tasks.len() && (#[trigger] tasks[k]).id == id;
            if k < head.len() {
                assert(head[k].id == id);
            }
        }
    }
}

/// A child of the last task of a line is not in the line, and goes on with it.
proof fn lemma_line_goes_on(tasks: Seq<TeamTask>, line: Seq<u128>, child: u128)
    requires
        no_own_ancestor(tasks),
        lineage(tasks, line),
        line.len() > 0,
        spawned(tasks, line.last(), child),
    ensures
        lineage(tasks, line.push(child)),
        !line.contains(child),
{
    let more = line.push(child);
    assert forall|i: int| 0 <= i < more.len() - 1 implies spawned(
        tasks,
        #[trigger] more[i],
        more[i + 1],
    ) by {
        if i < line.len() - 1 {
            assert(more[i] == line[i] && more[i + 1] == line[i + 1]);
        } else {
            assert(more[i] == line.last());
        }
    }
    if line.contains(child) {
        let k = choose|k: int| 0 <= k < line.len() && line[k] == child;
        let ring = more.skip(k);
        assert(lineage(tasks, ring)) by {
            assert forall|i: int| 0 <= i < ring.len() - 1 implies spawned(
                tasks,
                #[trigger] ring[i],
                ring[i + 1],
            ) by {
                assert(ring[i] == more[k + i] && ring[i + 1] == more[k + i + 1]);
            }
        }
        assert(ring.first() == child && ring.last() == child);
    }
}

proof fn lemma_children(tasks: Seq<TeamTask>, parent: u128)
    ensures
        forall|i: int|
            0 <= i < children_of(tasks, parent).len() ==> spawned(
                tasks,
                parent,
                (#[trigger] children_of(tasks, parent)[i]).id,
            ),
    decreases tasks.len(),
{
    if tasks.len() > 0 {
        let head = tasks.drop_last();
        lemma_children(head, parent);
        let kids = children_of(tasks, parent);
        assert forall|i: int| 0 <= i < kids.len() implies spawned(
            tasks,
            parent,
            (#[trigger] kids[i]).id,
        ) by {
            let before = children_of(head, parent);
            if i < before.len() {
                assert(kids[i] == before[i]);
                let k = choose|k: int|
                    0 <= k < head.len() && (#[trigger] head[k]).id == before[i].id
                        && head[k].parent_task_id == Some(parent);
                assert(tasks[k] == head[k]);
            } else {
                assert(tasks[tasks.len() - 1].id == kids[i].id);
            }
        }
    }
}

proof fn lemma_ranked_children(tasks: Seq<TeamTask>, parent: u128)
    ensures
        forall|i: int|
            0 <= i < ranked(children_of(tasks, parent)).len() ==> spawned(
                tasks,
                parent,
                (#[trigger] ranked(children_of(tasks, parent))[i]).id,
            ),
{
    let kids = children_of(tasks, parent);
    let sorted = ranked(kids);
    crate::sort::law_sorting_orders_the_rows(kids);
    lemma_children(tasks, parent);
    assert forall|i: int| 0 <= i < sorted.len() implies spawned(
        tasks,
        parent,
        (#[trigger] sorted[i]).id,
    ) by {
        assert(sorted.to_multiset().count(sorted[i]) > 0) by {
            sorted.to_multiset_ensures();
            assert(sorted.contains(sorted[i]));
        }
        kids.to_multiset_ensures();
        assert(kids.contains(sorted[i]));
        let k = choose|k: int| 0 <= k < kids.len() && kids[k] == sorted[i];
        assert(spawned(tasks, parent, kids[k].id));
    }
}

proof fn lemma_below_whole(
    tasks: Seq<TeamTask>,
    parent: u128,
    depth: int,
    fuel: nat,
    line: Seq<u128>,
)
    requires
        no_own_ancestor(tasks),
        lineage(tasks, line),
        line.len() > 0,
        line.last() == parent,
        fuel >= unmet(tasks, line),
    ensures
        below(tasks, parent, depth, fuel) == below(tasks, parent, depth, fuel + 1),
    decreases fuel, 0int,
{
    let kids = ranked(children_of(tasks, parent));
    lemma_ranked_children(tasks, parent);
    if fuel == 0 {
        if kids.len() > 0 {
            let child = kids[0].id;
            lemma_line_goes_on(tasks, line, child);
            lemma_unmet_grows(tasks, line, child);
        }
        assert(below(tasks, parent, depth, 1) =~= Seq::<(int, &'static TeamTask)>::empty());
    } else {
        lemma_below_each_whole(tasks, kids, depth, (fuel - 1) as nat, line);
        assert(((fuel + 1) - 1) as nat == ((fuel - 1) as nat) + 1);
    }
}

proof fn lemma_below_each_whole(
    tasks: Seq<TeamTask>,
    kids: Seq<&'static TeamTask>,
    depth: int,
    fuel: nat,
    line: Seq<u128>,
)
    requires
        no_own_ancestor(tasks),
        lineage(tasks, line),
        line.len() > 0,
        fuel + 1 >= unmet(tasks, line),
        forall|i: int| 0 <= i < kids.len() ==> spawned(tasks, line.last(), (#[trigger] kids[i]).id),
    ensures
        below_each(tasks, kids, depth, fuel) == below_each(tasks, kids, depth, fuel + 1),
    decreases fuel, kids.len() + 1,
{
    if kids.len() > 0 {
        lemma_below_each_whole(tasks, kids.drop_last(), depth, fuel, line);
        let child = kids.last().id;
        assert(spawned(tasks, line.last(), kids[kids.len() - 1].id));
        lemma_line_goes_on(tasks, line, child);
        lemma_unmet_grows(tasks, line, child);
        lemma_below_whole(tasks, child, depth + 1, fuel, line.push(child));
    }
}

/// Where no task is its own ancestor, no task below another is missed: followed further than
/// there are tasks, the tasks below are the same.
pub proof fn law_no_task_below_is_missed(tasks: Seq<TeamTask>, root: u128, depth: int, more: nat)
    requires
        no_own_ancestor(tasks),
    ensures
        below(tasks, root, depth, (tasks.len() + more) as nat) == below(
            tasks,
            root,
            depth,
            tasks.len() as nat,
        ),
    decreases more,
{
    if more > 0 {
        law_no_task_below_is_missed(tasks, root, depth, (more - 1) as nat);
        let line = seq![root];
        lemma_unmet_bound(tasks, line);
        lemma_below_whole(tasks, root, depth, (tasks.len() + more - 1) as nat, line);
    }
}

/// The last task with this id.
pub open spec fn task_with(tasks: Seq<TeamTask>, id: u128) -> Option<&'static TeamTask>
    decreases tasks.len(),
{
    if tasks.len() == 0 {
        None
    } else if tasks.last().id == id {
        Some(&tasks.last())
    } else {
        task_with(tasks.drop_last(), id)
    }
}

/// The coordinating task that a page is asked for, or the answer where there is none.
pub fn find_team<'a>(tasks: &'a Vec<TeamTask>, id: &str) -> (r: Result<&'a TeamTask, Reply>)
    ensures
        match uuid_value(id@) {
            None => r matches Err(reply) && reply.is(400, "Invalid team task ID"@),
            Some(n) => match task_with(tasks@, n) {
                Some(t) => r == Ok::<&TeamTask, Reply>(t),
                None => r matches Err(reply) && reply.is(404, "Team coordinator task not found"@),
            },
        },
{
    let want: u128 = match uuid_number(id) {
        Some(n) => n,
        None => {
            return Err(Reply::new(400, "Invalid team task ID"));
        },
    };
    let mut n: usize = tasks.len();
    assert(tasks@.take(n as int) =~= tasks@);
    while n > 0
        invariant
            n <= tasks@.len(),
            uuid_value(id@) == Some(want),
            task_with(tasks@.take(n as int), want) == task_with(tasks@, want),
        decreases n,
    {
        assert(tasks@.take(n as int).drop_last() =~= tasks@.take(n - 1));
        assert(tasks@.take(n as int).last() == tasks@[n - 1]);
        if tasks[n - 1].id == want {
            return Ok(&tasks[n - 1]);
        }
        n -= 1;
    }
    Err(Reply::new(404, "Team coordinator task not found"))
}

/// The tasks that a task spawned are those that name it as their parent, in order, and the
/// coordinators are those that are marked as such.
pub proof fn law_children_name_their_parent(tasks: Seq<TeamTask>, task: TeamTask, parent: u128)
    ensures
        children_of(Seq::empty(), parent).len() == 0,
        task.parent_task_id == Some(parent) ==> children_of(tasks.push(task), parent)
            == children_of(tasks, parent).push(&task),
        task.parent_task_id != Some(parent) ==> children_of(tasks.push(task), parent)
            == children_of(tasks, parent),
        coordinators(Seq::empty()).len() == 0,
        task.is_team_coordinator ==> coordinators(tasks.push(task)) == coordinators(tasks).push(
            &task,
        ),
        !task.is_team_coordinator ==> coordinators(tasks.push(task)) == coordinators(tasks),
{
    assert(tasks.push(task).drop_last() =~= tasks);
}

proof fn lemma_children_have_the_parent(tasks: Seq<TeamTask>, parent: u128)
    ensures
        forall|i: int|
            0 <= i < children_of(tasks, parent).len() ==> (#[trigger] children_of(
                tasks,
                parent,
            )[i]).parent_task_id == Some(parent),
        forall|i: int|
            0 <= i < ranked(children_of(tasks, parent)).len() ==> (#[trigger] ranked(
                children_of(tasks, parent),
            )[i]).parent_task_id == Some(parent),
    decreases tasks.len(),
{
    broadcast use vstd::seq_lib::group_to_multiset_ensures;

    if tasks.len() > 0 {
        lemma_children_have_the_parent(tasks.drop_last(), parent);
    }
    let kids = children_of(tasks, parent);
    law_sorting_orders_the_rows(kids);
    assert forall|i: int| 0 <= i < ranked(kids).len() implies (
    #[trigger] ranked(kids)[i]).parent_task_id == Some(parent) by {
        assert(ranked(kids).contains(ranked(kids)[i]));
        assert(ranked(kids).to_multiset().count(ranked(kids)[i]) > 0);
        assert(kids.contains(ranked(kids)[i]));
        let k = choose|k: int| 0 <= k < kids.len() && kids[k] == ranked(kids)[i];
        assert(kids[k].parent_task_id == Some(parent));
    }
}

/// Whether a row stands where it belongs: directly below the task that spawned it, or further
/// down behind the row of the task that did.
pub open spec fn stands_below(
    rows: Seq<(int, &TeamTask)>,
    i: int,
    parent: u128,
    depth: int,
) -> bool {
    &&& rows[i].0 >= depth
    &&& rows[i].0 == depth ==> rows[i].1.parent_task_id == Some(parent)
    &&& rows[i].0 > depth ==> exists|j: int|
        0 <= j < i && (#[trigger] rows[j]).0 == rows[i].0 - 1 && rows[i].1.parent_task_id == Some(
            rows[j].1.id,
        )
}

/// Every row of a team stands below the task that spawned it, one level deeper.
pub proof fn law_rows_stand_below_their_parent(
    tasks: Seq<TeamTask>,
    parent: u128,
    depth: int,
    fuel: nat,
    i: int,
)
    requires
        0 <= i < below(tasks, parent, depth, fuel).len(),
    ensures
        stands_below(below(tasks, parent, depth, fuel), i, parent, depth),
    decreases fuel, 0int,
{
    lemma_children_have_the_parent(tasks, parent);
    lemma_each_stands_below(
        tasks,
        ranked(children_of(tasks, parent)),
        parent,
        depth,
        (fuel - 1) as nat,
        i,
    );
}

proof fn lemma_each_stands_below(
    tasks: Seq<TeamTask>,
    kids: Seq<&'static TeamTask>,
    parent: u128,
    depth: int,
    fuel: nat,
    i: int,
)
    requires
        0 <= i < below_each(tasks, kids, depth, fuel).len(),
        forall|k: int| 0 <= k < kids.len() ==> (#[trigger] kids[k]).parent_task_id == Some(parent),
    ensures
        stands_below(below_each(tasks, kids, depth, fuel), i, parent, depth),
    decreases fuel, kids.len() + 1,
{
    let all = below_each(tasks, kids, depth, fuel);
    let head = below_each(tasks, kids.drop_last(), depth, fuel);
    let tail = below(tasks, kids.last().id, depth + 1, fuel);
    let n = head.len() as int;
    if i < n {
        assert forall|k: int| 0 <= k < kids.drop_last().len() implies (
        #[trigger] kids.drop_last()[k]).parent_task_id == Some(parent) by {
            assert(kids.drop_last()[k] == kids[k]);
        }
        lemma_each_stands_below(tasks, kids.drop_last(), parent, depth, fuel, i);
        assert(all[i] == head[i]);
        if head[i].0 > depth {
            let j = choose|j: int|
                0 <= j < i && (#[trigger] head[j]).0 == head[i].0 - 1 && head[i].1.parent_task_id
                    == Some(head[j].1.id);
            assert(all[j] == head[j]);
        }
    } else if i == n {
        assert(all[i] == (depth, kids.last()));
        assert(kids[kids.len() - 1].parent_task_id == Some(parent));
    } else {
        let t = i - n - 1;
        law_rows_stand_below_their_parent(tasks, kids.last().id, depth + 1, fuel, t);
        assert(all[i] == tail[t]);
        assert(all[n] == (depth, kids.last()));
        if tail[t].0 > depth + 1 {
            let j = choose|j: int|
                0 <= j < t && (#[trigger] tail[j]).0 == tail[t].0 - 1 && tail[t].1.parent_task_id
                    == Some(tail[j].1.id);
            assert(all[n + 1 + j] == tail[j]);
        }
    }
}

/// Every task that a task spawned has a row of its own below it.
pub proof fn law_every_child_has_its_row(
    tasks: Seq<TeamTask>,
    parent: u128,
    depth: int,
    fuel: nat,
    k: int,
) -> (at: int)
    requires
        0 <= k < tasks.len(),
        tasks[k].parent_task_id == Some(parent),
        fuel > 0,
    ensures
        0 <= at < below(tasks, parent, depth, fuel).len(),
        below(tasks, parent, depth, fuel)[at] == (depth, &tasks[k]),
{
    broadcast use vstd::seq_lib::group_to_multiset_ensures;

    let c = lemma_child_is_listed(tasks, parent, k);
    let kids = children_of(tasks, parent);
    law_sorting_orders_the_rows(kids);
    assert(kids.contains(kids[c]));
    assert(ranked(kids).to_multiset().count(kids[c]) > 0);
    assert(ranked(kids).contains(kids[c]));
    let r = choose|r: int| 0 <= r < ranked(kids).len() && ranked(kids)[r] == kids[c];
    lemma_kid_has_its_row(tasks, ranked(kids), depth, (fuel - 1) as nat, r)
}

proof fn lemma_child_is_listed(tasks: Seq<TeamTask>, parent: u128, k: int) -> (at: int)
    requires
        0 <= k < tasks.len(),
        tasks[k].parent_task_id == Some(parent),
    ensures
        0 <= at < children_of(tasks, parent).len(),
        children_of(tasks, parent)[at] == &tasks[k],
    decreases tasks.len(),
{
    if k == tasks.len() - 1 {
        children_of(tasks, parent).len() - 1
    } else {
        assert(tasks.drop_last()[k] == tasks[k]);
        lemma_child_is_listed(tasks.drop_last(), parent, k)
    }
}

proof fn lemma_kid_has_its_row(
    tasks: Seq<TeamTask>,
    kids: Seq<&'static TeamTask>,
    depth: int,
    fuel: nat,
    r: int,
) -> (at: int)
    requires
        0 <= r < kids.len(),
    ensures
        0 <= at < below_each(tasks, kids, depth, fuel).len(),
        below_each(tasks, kids, depth, fuel)[at] == (depth, kids[r]),
    decreases kids.len(),
{
    let head = below_each(tasks, kids.drop_last(), depth, fuel);
    if r == kids.len() - 1 {
        head.len() as int
    } else {
        assert(kids.drop_last()[r] == kids[r]);
        lemma_kid_has_its_row(tasks, kids.drop_last(), depth, fuel, r)
    }
}

/// A task is found by its id, and of several with one id the last counts.
pub proof fn law_tasks_are_found_by_id(tasks: Seq<TeamTask>, task: TeamTask, id: u128)
    ensures
        task_with(Seq::empty(), id) is None,
        task.id == id ==> task_with(tasks.push(task), id) == Some(&task),
        task.id != id ==> task_with(tasks.push(task), id) == task_with(tasks, id),
{
    assert(tasks.push(task).drop_last() =~= tasks);
}

/// The tasks of a team that one task spawned are ordered by when they were created, the earliest
/// first.
pub proof fn law_earlier_children_stand_first(rows: Seq<&TeamTask>, i: int, j: int)
    requires
        0 <= i < j < rows.len(),
    ensures
        ranked(rows).len() == rows.len(),
        ranked(rows).to_multiset() == rows.to_multiset(),
        ranked(rows)[i].created_at.total() <= ranked(rows)[j].created_at.total(),
{
    law_sorting_orders_the_rows(rows);
    assert(!ranked(rows)[j].precedes(ranked(rows)[i]));
}

} // verus!
