//! The visual pipeline builder: from a pipeline to a drawn graph.
//!
//! A step stands in the column of its depth, below the earlier steps of that column, unless
//! a position is on record for it.

use crate::handlers::pipeline_ui::{
    dependencies, edge_views, failure_rule, step_of, EdgeV, VisualEdge, VisualNode, VisualNodeConfig, VisualNodeType,
    VisualPipelineGraph, END_NODE_ID, START_NODE_ID,
};
use crate::json::{pretty, pretty_text};
use crate::pipeline::{OnFailure, PipelineDefinition, PipelineStep, StepAction};
use crate::text::{opt_text, same, texts, trim};
use crate::textmap::TextMap;
use vstd::prelude::*;

verus! {

/// The most steps that a drawn pipeline can have: the positions of more would not fit.
pub const MAX_DRAWN_STEPS: usize = 9_000_000;

// ---------------------------------------------------------------------------
// Depth
// ---------------------------------------------------------------------------

/// The ids of the steps.
pub open spec fn step_ids(steps: Seq<PipelineStep>) -> Seq<Seq<char>> {
    Seq::new(steps.len(), |i: int| steps[i].id@)
}

/// The last step with this id, or -1.
pub open spec fn step_index(steps: Seq<PipelineStep>, id: Seq<char>) -> int
    decreases steps.len(),
{
    if steps.len() == 0 {
        -1
    } else if steps.last().id@ == id {
        steps.len() - 1
    } else {
        step_index(steps.drop_last(), id)
    }
}

proof fn lemma_step_index(steps: Seq<PipelineStep>, id: Seq<char>)
    ensures
        -1 <= step_index(steps, id) < steps.len(),
        step_index(steps, id) >= 0 ==> steps[step_index(steps, id)].id@ == id,
    decreases steps.len(),
{
    if steps.len() > 0 && steps.last().id@ != id {
        lemma_step_index(steps.drop_last(), id);
    }
}

/// The last step with this id.
fn find_step(steps: &Vec<PipelineStep>, id: &str) -> (r: Option<usize>)
    ensures
        match r {
            Some(k) => k == step_index(steps@, id@) && k < steps@.len(),
            None => step_index(steps@, id@) < 0,
        },
{
    let mut n: usize = steps.len();
    assert(steps@.take(n as int) =~= steps@);
    while n > 0
        invariant
            n <= steps@.len(),
            step_index(steps@.take(n as int), id@) == step_index(steps@, id@),
        decreases n,
    {
        assert(steps@.take(n as int).last() == steps@[n - 1]);
        assert(steps@.take(n as int).drop_last() =~= steps@.take(n - 1));
        if same(steps[n - 1].id.as_str(), id) {
            return Some(n - 1);
        }
        n -= 1;
    }
    None
}

/// How many of the ids are not in the set.
pub open spec fn free_count(ids: Seq<Seq<char>>, busy: Set<Seq<char>>) -> nat
    decreases ids.len(),
{
    if ids.len() == 0 {
        0
    } else {
        free_count(ids.drop_last(), busy) + (if busy.contains(ids.last()) {
            0nat
        } else {
            1nat
        })
    }
}

/// An id that was free is not free once it is in the set.
pub proof fn lemma_free_count(ids: Seq<Seq<char>>, busy: Set<Seq<char>>, id: Seq<char>)
    ensures
        free_count(ids, busy.insert(id)) <= free_count(ids, busy),
        ids.contains(id) && !busy.contains(id) ==> free_count(ids, busy.insert(id)) < free_count(
            ids,
            busy,
        ),
    decreases ids.len(),
{
    if ids.len() > 0 {
        lemma_free_count(ids.drop_last(), busy, id);
        if ids.contains(id) && ids.last() != id {
            let i = choose|i: int| 0 <= i < ids.len() && ids[i] == id;
            assert(ids.drop_last()[i] == id);
        }
    }
}

/// The depth of step `k`, and the depths known after it was worked out. A known depth is
/// taken as it is; a step that is being worked out counts as one, which breaks cycles; any
/// other step is one deeper than the deepest step that it depends on.
pub open spec fn depth_from(
    steps: Seq<PipelineStep>,
    k: int,
    cache: Map<Seq<char>, nat>,
    busy: Set<Seq<char>>,
) -> (nat, Map<Seq<char>, nat>)
    decreases free_count(step_ids(steps), busy), 0nat,
{
    if !(0 <= k < steps.len()) {
        (1, cache)
    } else {
        let id = steps[k].id@;
        if cache.dom().contains(id) {
            (cache[id], cache)
        } else if busy.contains(id) {
            (1, cache)
        } else {
            proof {
                lemma_free_count(step_ids(steps), busy, id);
                assert(step_ids(steps)[k] == id);
            }
            let deps = texts(steps[k].depends_on@);
            let found = deepest(steps, deps, cache, busy.insert(id));
            (found.0 + 1, found.1.insert(id, found.0 + 1))
        }
    }
}

/// The greatest depth among the named steps, zero where none of them is known, and the depths
/// known after they were worked out, in order.
pub open spec fn deepest(
    steps: Seq<PipelineStep>,
    deps: Seq<Seq<char>>,
    cache: Map<Seq<char>, nat>,
    busy: Set<Seq<char>>,
) -> (nat, Map<Seq<char>, nat>)
    decreases free_count(step_ids(steps), busy), deps.len(),
{
    if deps.len() == 0 {
        (0, cache)
    } else {
        let before = deepest(steps, deps.drop_last(), cache, busy);
        let k = step_index(steps, deps.last());
        if k < 0 {
            before
        } else {
            let here = depth_from(steps, k, before.1, busy);
            (if here.0 > before.0 {
                here.0
            } else {
                before.0
            }, here.1)
        }
    }
}

/// What holds of the known depths: they belong to steps, are finitely many, and none exceeds
/// their number by more than one.
pub open spec fn cache_ok(steps: Seq<PipelineStep>, cache: Map<Seq<char>, nat>) -> bool {
    &&& cache.dom().finite()
    &&& forall|id: Seq<char>| #[trigger]
        cache.dom().contains(id) ==> step_ids(steps).contains(id) && 1 <= cache[id]
            <= cache.dom().len() + 1
}

proof fn lemma_depth_ok(
    steps: Seq<PipelineStep>,
    k: int,
    cache: Map<Seq<char>, nat>,
    busy: Set<Seq<char>>,
)
    requires
        cache_ok(steps, cache),
        0 <= k < steps.len(),
    ensures
        ({
            let r = depth_from(steps, k, cache, busy);
            &&& cache_ok(steps, r.1)
            &&& cache.dom().subset_of(r.1.dom())
            &&& 1 <= r.0 <= r.1.dom().len() + 1
            &&& !busy.contains(steps[k].id@) ==> r.1.dom().contains(steps[k].id@)
                && r.1[steps[k].id@] == r.0
            &&& forall|id: Seq<char>| #[trigger] cache.dom().contains(id) ==> r.1[id] == cache[id]
        }),
    decreases free_count(step_ids(steps), busy), 0nat,
{
    let id = steps[k].id@;
    assert(step_ids(steps)[k] == id);
    if !cache.dom().contains(id) && !busy.contains(id) {
        lemma_free_count(step_ids(steps), busy, id);
        let deps = texts(steps[k].depends_on@);
        lemma_deepest_ok(steps, deps, cache, busy.insert(id));
        lemma_busy_stays_out_all(steps, deps, cache, busy.insert(id), id);
        let found = deepest(steps, deps, cache, busy.insert(id));
        let after = found.1.insert(id, found.0 + 1);
        assert(after.dom() =~= found.1.dom().insert(id));
        assert(!found.1.dom().contains(id));
    } else {
        if cache.dom().contains(id) {
            assert(cache[id] <= cache.dom().len() + 1);
        }
    }
}

proof fn lemma_deepest_ok(
    steps: Seq<PipelineStep>,
    deps: Seq<Seq<char>>,
    cache: Map<Seq<char>, nat>,
    busy: Set<Seq<char>>,
)
    requires
        cache_ok(steps, cache),
    ensures
        ({
            let r = deepest(steps, deps, cache, busy);
            &&& cache_ok(steps, r.1)
            &&& cache.dom().subset_of(r.1.dom())
            &&& r.0 <= r.1.dom().len() + 1
            &&& forall|id: Seq<char>| #[trigger] cache.dom().contains(id) ==> r.1[id] == cache[id]
        }),
    decreases free_count(step_ids(steps), busy), deps.len(),
{
    if deps.len() > 0 {
        lemma_deepest_ok(steps, deps.drop_last(), cache, busy);
        let before = deepest(steps, deps.drop_last(), cache, busy);
        let k = step_index(steps, deps.last());
        lemma_step_index(steps, deps.last());
        if k >= 0 {
            lemma_depth_ok(steps, k, before.1, busy);
            let here = depth_from(steps, k, before.1, busy);
            vstd::set_lib::lemma_len_subset(before.1.dom(), here.1.dom());
        }
    }
}

/// A step that is being worked out gets no depth on the way.
proof fn lemma_busy_stays_out(
    steps: Seq<PipelineStep>,
    k: int,
    cache: Map<Seq<char>, nat>,
    busy: Set<Seq<char>>,
    x: Seq<char>,
)
    requires
        0 <= k < steps.len(),
        busy.contains(x),
        !cache.dom().contains(x),
    ensures
        !depth_from(steps, k, cache, busy).1.dom().contains(x),
    decreases free_count(step_ids(steps), busy), 0nat,
{
    let id = steps[k].id@;
    assert(step_ids(steps)[k] == id);
    if !cache.dom().contains(id) && !busy.contains(id) {
        lemma_free_count(step_ids(steps), busy, id);
        lemma_busy_stays_out_all(steps, texts(steps[k].depends_on@), cache, busy.insert(id), x);
    }
}

proof fn lemma_busy_stays_out_all(
    steps: Seq<PipelineStep>,
    deps: Seq<Seq<char>>,
    cache: Map<Seq<char>, nat>,
    busy: Set<Seq<char>>,
    x: Seq<char>,
)
    requires
        busy.contains(x),
        !cache.dom().contains(x),
    ensures
        !deepest(steps, deps, cache, busy).1.dom().contains(x),
    decreases free_count(step_ids(steps), busy), deps.len(),
{
    if deps.len() > 0 {
        lemma_busy_stays_out_all(steps, deps.drop_last(), cache, busy, x);
        let before = deepest(steps, deps.drop_last(), cache, busy);
        let k = step_index(steps, deps.last());
        lemma_step_index(steps, deps.last());
        if k >= 0 {
            lemma_busy_stays_out(steps, k, before.1, busy, x);
        }
    }
}

proof fn lemma_cache_len(steps: Seq<PipelineStep>, cache: Map<Seq<char>, nat>)
    requires
        cache_ok(steps, cache),
    ensures
        cache.dom().len() <= steps.len(),
{
    let ids = step_ids(steps);
    vstd::seq_lib::seq_to_set_is_finite(ids);
    ids.lemma_cardinality_of_set();
    assert(cache.dom().subset_of(ids.to_set()));
    vstd::set_lib::lemma_len_subset(cache.dom(), ids.to_set());
}

/// The numbers of a map as naturals.
pub open spec fn naturals(m: Map<Seq<char>, usize>) -> Map<Seq<char>, nat> {
    Map::new(|k: Seq<char>| m.dom().contains(k), |k: Seq<char>| m[k] as nat)
}

/// The texts as a set.
pub open spec fn text_set(v: Seq<String>) -> Set<Seq<char>> {
    Set::new(|t: Seq<char>| exists|i: int| 0 <= i < v.len() && #[trigger] v[i]@ == t)
}

fn is_listed(v: &Vec<String>, t: &str) -> (r: bool)
    ensures
        r == text_set(v@).contains(t@),
{
    let mut i: usize = 0;
    while i < v.len()
        invariant
            i <= v@.len(),
            forall|j: int| 0 <= j < i ==> #[trigger] v@[j]@ != t@,
        decreases v.len() - i,
    {
        if same(v[i].as_str(), t) {
            assert(v@[i as int]@ == t@);
            return true;
        }
        i += 1;
    }
    false
}

/// Works out the depth of step `index`. `cache` gathers the depths that are known;
/// `in_progress` holds the steps that are being worked out, and is as before afterwards.
pub fn compute_depth(
    steps: &Vec<PipelineStep>,
    index: usize,
    cache: &mut TextMap<usize>,
    in_progress: &mut Vec<String>,
) -> (depth: usize)
    requires
        index < steps@.len(),
        steps@.len() < usize::MAX,
        old(cache).wf(),
        cache_ok(steps@, naturals(old(cache)@)),
    ensures
        final(cache).wf(),
        cache_ok(steps@, naturals(final(cache)@)),
        final(in_progress)@ == old(in_progress)@,
        ({
            let r = depth_from(
                steps@,
                index as int,
                naturals(old(cache)@),
                text_set(old(in_progress)@),
            );
            depth == r.0 && naturals(final(cache)@) == r.1
        }),
    decreases free_count(step_ids(steps@), text_set(old(in_progress)@)), 0nat,
{
    let ghost busy = text_set(in_progress@);
    let ghost cache0 = naturals(cache@);
    let step: &PipelineStep = &steps[index];
    let ghost id = step.id@;
    proof {
        lemma_depth_ok(steps@, index as int, cache0, busy);
        lemma_cache_len(steps@, depth_from(steps@, index as int, cache0, busy).1);
        lemma_free_count(step_ids(steps@), busy, id);
        assert(step_ids(steps@)[index as int] == id);
    }
    match cache.get(step.id.as_str()) {
        Some(known) => {
            return *known;
        },
        None => {},
    }
    if is_listed(in_progress, step.id.as_str()) {
        return 1;
    }
    let ghost stack = in_progress@;
    in_progress.push(step.id.clone());
    proof {
        assert(in_progress@.last()@ == id);
        assert(text_set(in_progress@) =~= busy.insert(id)) by {
            assert forall|t: Seq<char>| busy.insert(id).contains(t) implies text_set(
                in_progress@,
            ).contains(t) by {
                if busy.contains(t) {
                    let j = choose|j: int| 0 <= j < stack.len() && #[trigger] stack[j]@ == t;
                    assert(in_progress@[j]@ == t);
                } else {
                    assert(in_progress@[stack.len() as int]@ == t);
                }
            }
            assert forall|t: Seq<char>| text_set(in_progress@).contains(t) implies busy.insert(
                id,
            ).contains(t) by {
                let j = choose|j: int|
                    0 <= j < in_progress@.len() && #[trigger] in_progress@[j]@ == t;
                if j < stack.len() {
                    assert(stack[j]@ == t);
                }
            }
        }
    }
    let best: usize = compute_deepest(steps, &step.depends_on, step.depends_on.len(), cache, in_progress);
    proof {
        assert(texts(step.depends_on@).take(step.depends_on@.len() as int) =~= texts(
            step.depends_on@,
        ));
    }
    let _ = in_progress.pop();
    assert(in_progress@ =~= stack);
    let ghost found = naturals(cache@);
    let depth: usize = best + 1;
    cache.insert(step.id.clone(), depth);
    assert(naturals(cache@) =~= found.insert(id, depth as nat));
    depth
}

/// The greatest depth among the first `n` named steps.
fn compute_deepest(
    steps: &Vec<PipelineStep>,
    deps: &Vec<String>,
    n: usize,
    cache: &mut TextMap<usize>,
    in_progress: &mut Vec<String>,
) -> (best: usize)
    requires
        n <= deps@.len(),
        steps@.len() < usize::MAX,
        old(cache).wf(),
        cache_ok(steps@, naturals(old(cache)@)),
    ensures
        final(cache).wf(),
        cache_ok(steps@, naturals(final(cache)@)),
        final(in_progress)@ == old(in_progress)@,
        ({
            let r = deepest(
                steps@,
                texts(deps@).take(n as int),
                naturals(old(cache)@),
                text_set(old(in_progress)@),
            );
            best == r.0 && naturals(final(cache)@) == r.1
        }),
    decreases free_count(step_ids(steps@), text_set(old(in_progress)@)), n,
{
    if n == 0 {
        return 0;
    }
    let ghost busy = text_set(in_progress@);
    let ghost cache0 = naturals(cache@);
    let ghost named = texts(deps@).take(n as int);
    proof {
        assert(named.drop_last() =~= texts(deps@).take(n - 1));
        assert(named.last() == deps@[n - 1]@);
        lemma_deepest_ok(steps@, named.drop_last(), cache0, busy);
    }
    let before: usize = compute_deepest(steps, deps, n - 1, cache, in_progress);
    match find_step(steps, deps[n - 1].as_str()) {
        Some(k) => {
            let here: usize = compute_depth(steps, k, cache, in_progress);
            if here > before {
                here
            } else {
                before
            }
        },
        None => before,
    }
}

/// The depths after the first `n` steps were worked out, one by one.
pub open spec fn depths_after(steps: Seq<PipelineStep>, n: int) -> Map<Seq<char>, nat>
    decreases n,
{
    if n <= 0 {
        Map::empty()
    } else {
        depth_from(steps, n - 1, depths_after(steps, n - 1), Set::empty()).1
    }
}

/// The depth of step `i`.
pub open spec fn depth_of(steps: Seq<PipelineStep>, i: int) -> nat {
    depths_after(steps, steps.len() as int)[steps[i].id@]
}

proof fn lemma_depths_after(steps: Seq<PipelineStep>, n: int)
    requires
        0 <= n <= steps.len(),
    ensures
        cache_ok(steps, depths_after(steps, n)),
        forall|i: int|
            0 <= i < n ==> depths_after(steps, n).dom().contains(#[trigger] steps[i].id@),
    decreases n,
{
    if n > 0 {
        lemma_depths_after(steps, n - 1);
        lemma_depth_ok(steps, n - 1, depths_after(steps, n - 1), Set::empty());
    } else {
        assert(depths_after(steps, n).dom() =~= Set::<Seq<char>>::empty());
    }
}

/// Every step has a depth of at least one, and of at most one more than there are steps.
pub proof fn law_depth_is_bounded(steps: Seq<PipelineStep>, i: int)
    requires
        0 <= i < steps.len(),
    ensures
        1 <= depth_of(steps, i) <= steps.len() + 1,
{
    lemma_depths_after(steps, steps.len() as int);
    lemma_cache_len(steps, depths_after(steps, steps.len() as int));
    assert(depths_after(steps, steps.len() as int).dom().contains(steps[i].id@));
}

/// The depths of all steps.
fn all_depths(steps: &Vec<PipelineStep>) -> (r: Vec<usize>)
    requires
        steps@.len() < usize::MAX,
    ensures
        r@.len() == steps@.len(),
        forall|i: int| 0 <= i < r@.len() ==> #[trigger] r@[i] == depth_of(steps@, i),
{
    let mut cache: TextMap<usize> = TextMap::new();
    let mut in_progress: Vec<String> = Vec::new();
    let mut i: usize = 0;
    proof {
        assert(naturals(cache@) =~= Map::<Seq<char>, nat>::empty());
        assert(text_set(in_progress@) =~= Set::<Seq<char>>::empty());
    }
    while i < steps.len()
        invariant
            i <= steps@.len(),
            steps@.len() < usize::MAX,
            cache.wf(),
            in_progress@.len() == 0,
            naturals(cache@) == depths_after(steps@, i as int),
        decreases steps.len() - i,
    {
        proof {
            lemma_depths_after(steps@, i as int);
            assert(text_set(in_progress@) =~= Set::<Seq<char>>::empty());
        }
        let _ = compute_depth(steps, i, &mut cache, &mut in_progress);
        i += 1;
    }
    let mut out: Vec<usize> = Vec::new();
    let mut j: usize = 0;
    proof {
        lemma_depths_after(steps@, steps@.len() as int);
    }
    while j < steps.len()
        invariant
            j <= steps@.len(),
            cache.wf(),
            naturals(cache@) == depths_after(steps@, steps@.len() as int),
            forall|i: int|
                0 <= i < steps@.len() ==> depths_after(
                    steps@,
                    steps@.len() as int,
                ).dom().contains(#[trigger] steps@[i].id@),
            out@.len() == j,
            forall|i: int| 0 <= i < j ==> #[trigger] out@[i] == depth_of(steps@, i),
        decreases steps.len() - j,
    {
        assert(naturals(cache@).dom().contains(steps@[j as int].id@));
        let depth: usize = match cache.get(steps[j].id.as_str()) {
            Some(d) => *d,
            None => 1,
        };
        out.push(depth);
        j += 1;
    }
    out
}

// ---------------------------------------------------------------------------
// Positions
// ---------------------------------------------------------------------------

/// The positions on record.
pub struct VisualMeta {
    pub positions: TextMap<(i32, i32)>,
}

/// How many of the first `n` steps have this depth.
pub open spec fn lane_count(steps: Seq<PipelineStep>, n: int, depth: nat) -> nat
    decreases n,
{
    if n <= 0 {
        0
    } else {
        lane_count(steps, n - 1, depth) + (if depth_of(steps, n - 1) == depth {
            1nat
        } else {
            0nat
        })
    }
}

proof fn lemma_lane_count(steps: Seq<PipelineStep>, n: int, depth: nat)
    requires
        n >= 0,
    ensures
        lane_count(steps, n, depth) <= n,
    decreases n,
{
    if n > 0 {
        lemma_lane_count(steps, n - 1, depth);
    }
}

/// Where step `i` stands: where it is on record, else in the column of its depth, below the
/// earlier steps of that column.
pub open spec fn step_position(
    steps: Seq<PipelineStep>,
    i: int,
    positions: Map<Seq<char>, (i32, i32)>,
) -> (int, int) {
    let id = steps[i].id@;
    if positions.dom().contains(id) {
        (positions[id].0 as int, positions[id].1 as int)
    } else {
        (
            220 + depth_of(steps, i) as int * 220,
            120 + lane_count(steps, i, depth_of(steps, i)) as int * 150,
        )
    }
}

/// The greatest depth of the first `n` steps.
pub open spec fn max_depth(steps: Seq<PipelineStep>, n: int) -> nat
    decreases n,
{
    if n <= 0 {
        0
    } else if depth_of(steps, n - 1) > max_depth(steps, n - 1) {
        depth_of(steps, n - 1)
    } else {
        max_depth(steps, n - 1)
    }
}

/// Where the end node stands: where it is on record, else one column behind the deepest step.
pub open spec fn end_position(
    steps: Seq<PipelineStep>,
    positions: Map<Seq<char>, (i32, i32)>,
) -> (int, int) {
    if positions.dom().contains(END_NODE_ID@) {
        (positions[END_NODE_ID@].0 as int, positions[END_NODE_ID@].1 as int)
    } else if steps.len() == 0 {
        (660, 220)
    } else {
        (220 + (max_depth(steps, steps.len() as int) as int + 1) * 220, 220)
    }
}

/// Where the start node stands: where it is on record, else at the left.
pub open spec fn start_position(positions: Map<Seq<char>, (i32, i32)>) -> (int, int) {
    if positions.dom().contains(START_NODE_ID@) {
        (positions[START_NODE_ID@].0 as int, positions[START_NODE_ID@].1 as int)
    } else {
        (40, 220)
    }
}

/// Whether the node has these properties and no settings.
pub open spec fn plain_node(
    node: VisualNode,
    id: Seq<char>,
    kind: VisualNodeType,
    label: Seq<char>,
    at: (int, int),
) -> bool {
    &&& node.id@ == id
    &&& node.node_type == kind
    &&& node.label@ == label
    &&& (node.x as int, node.y as int) == at
    &&& node.config.is_blank()
}

/// The start node.
pub fn visual_start_node(meta: &VisualMeta) -> (r: VisualNode)
    requires
        meta.positions.wf(),
    ensures
        plain_node(
            r,
            START_NODE_ID@,
            VisualNodeType::Start,
            "Start"@,
            start_position(meta.positions@),
        ),
{
    let (x, y): (i32, i32) = match meta.positions.get(START_NODE_ID) {
        Some(p) => *p,
        None => (40, 220),
    };
    VisualNode {
        id: START_NODE_ID.to_owned(),
        node_type: VisualNodeType::Start,
        label: "Start".to_owned(),
        x,
        y,
        config: VisualNodeConfig::default(),
    }
}

// ---------------------------------------------------------------------------
// Nodes
// ---------------------------------------------------------------------------

/// The name of a failure rule.
pub open spec fn failure_name(f: OnFailure) -> Seq<char> {
    match f {
        OnFailure::Fail => "fail"@,
        OnFailure::Skip => "skip"@,
        OnFailure::UseDefault => "use_default"@,
    }
}

/// The text, or the empty one.
pub open spec fn or_empty(o: Option<Seq<char>>) -> Seq<char> {
    match o {
        Some(t) => t,
        None => Seq::empty(),
    }
}

fn clone_or_empty(o: &Option<String>) -> (r: String)
    ensures
        r@ == or_empty(opt_text(*o)),
{
    match o {
        Some(t) => t.clone(),
        None => String::new(),
    }
}

/// Whether the settings are those of the step.
pub open spec fn config_of(c: VisualNodeConfig, step: PipelineStep) -> bool {
    &&& match step.action {
        StepAction::Agent { agent, task } => c.agent_name@ == agent@ && c.task@ == task@
            && c.tool_name@.len() == 0 && c.tool_input_json@.len() == 0,
        StepAction::Tool { tool, input } => c.agent_name@.len() == 0 && c.task@.len() == 0
            && c.tool_name@ == tool@ && c.tool_input_json@ == pretty_text(input@),
    }
    &&& c.output_var@ == or_empty(opt_text(step.output_var))
    &&& c.timeout_minutes == step.timeout_minutes
    &&& c.retry_on_failure == step.retry_on_failure
    &&& c.retry_backoff_ms == step.retry_backoff_ms
    &&& c.retry_max_delay_ms == step.retry_max_delay_ms
    &&& c.on_failure@ == failure_name(step.on_failure)
    &&& c.default_value@ == or_empty(opt_text(step.default_value))
}

/// The settings of a step.
pub fn step_to_config(step: &PipelineStep) -> (r: VisualNodeConfig)
    ensures
        config_of(r, *step),
{
    let mut agent_name: String = String::new();
    let mut task: String = String::new();
    let mut tool_name: String = String::new();
    let mut tool_input_json: String = String::new();
    match &step.action {
        StepAction::Agent { agent, task: t } => {
            agent_name = agent.clone();
            task = t.clone();
        },
        StepAction::Tool { tool, input } => {
            tool_name = tool.clone();
            tool_input_json = pretty(input);
        },
    }
    VisualNodeConfig {
        agent_name,
        task,
        tool_name,
        tool_input_json,
        output_var: clone_or_empty(&step.output_var),
        timeout_minutes: step.timeout_minutes,
        retry_on_failure: step.retry_on_failure,
        retry_backoff_ms: step.retry_backoff_ms,
        retry_max_delay_ms: step.retry_max_delay_ms,
        on_failure: match step.on_failure {
            OnFailure::Fail => "fail".to_owned(),
            OnFailure::Skip => "skip".to_owned(),
            OnFailure::UseDefault => "use_default".to_owned(),
        },
        default_value: clone_or_empty(&step.default_value),
    }
}

/// The label of a step.
pub open spec fn step_label(step: PipelineStep) -> Seq<char> {
    match step.action {
        StepAction::Agent { agent, .. } => "Agent: "@ + agent@,
        StepAction::Tool { tool, .. } => "Tool: "@ + tool@,
    }
}

/// The label of a step.
pub fn humanize_step_label(step: &PipelineStep) -> (r: String)
    ensures
        r@ == step_label(*step),
{
    match &step.action {
        StepAction::Agent { agent, .. } => {
            let mut out: String = "Agent: ".to_owned();
            out.push_str(agent.as_str());
            out
        },
        StepAction::Tool { tool, .. } => {
            let mut out: String = "Tool: ".to_owned();
            out.push_str(tool.as_str());
            out
        },
    }
}

/// Whether the node is the one drawn for step `i`.
pub open spec fn node_of(
    node: VisualNode,
    steps: Seq<PipelineStep>,
    i: int,
    positions: Map<Seq<char>, (i32, i32)>,
) -> bool {
    &&& node.id@ == steps[i].id@
    &&& node.node_type == (match steps[i].action {
        StepAction::Agent { .. } => VisualNodeType::Agent,
        StepAction::Tool { .. } => VisualNodeType::Tool,
    })
    &&& node.label@ == step_label(steps[i])
    &&& (node.x as int, node.y as int) == step_position(steps, i, positions)
    &&& config_of(node.config, steps[i])
}

// ---------------------------------------------------------------------------
// Connections
// ---------------------------------------------------------------------------

/// The connection from one id to another.
pub open spec fn edge_between(source: Seq<char>, target: Seq<char>) -> EdgeV {
    EdgeV { id: "edge-"@ + source + "-"@ + target, source, target }
}

fn make_edge(source: &str, target: &str) -> (r: VisualEdge)
    ensures
        r@ == edge_between(source@, target@),
{
    let mut id: String = "edge-".to_owned();
    id.push_str(source);
    id.push_str("-");
    id.push_str(target);
    VisualEdge { id, source: source.to_owned(), target: target.to_owned() }
}

/// The connections that lead to a step: from each step that it depends on, or from the start
/// where it depends on none.
pub open spec fn edges_to(step: PipelineStep) -> Seq<EdgeV> {
    let deps = texts(step.depends_on@);
    if deps.len() == 0 {
        seq![edge_between(START_NODE_ID@, step.id@)]
    } else {
        Seq::new(deps.len(), |i: int| edge_between(deps[i], step.id@))
    }
}

/// The connections that lead to the first `n` steps.
pub open spec fn step_edges(steps: Seq<PipelineStep>, n: int) -> Seq<EdgeV>
    decreases n,
{
    if n <= 0 {
        Seq::empty()
    } else {
        step_edges(steps, n - 1) + edges_to(steps[n - 1])
    }
}

/// The first step from `k` on whose output goes to this variable, or the number of steps.
pub open spec fn producer(steps: Seq<PipelineStep>, var: Seq<char>, k: int) -> int
    decreases steps.len() - k,
{
    if k >= steps.len() || opt_text(steps[k].output_var) == Some(var) {
        k
    } else {
        producer(steps, var, k + 1)
    }
}

/// The connection to the end node, where a step produces the output.
pub open spec fn output_edges(d: PipelineDefinition) -> Seq<EdgeV> {
    match opt_text(d.output) {
        Some(var) => {
            let k = producer(d.steps@, var, 0);
            if k < d.steps@.len() {
                seq![edge_between(d.steps@[k].id@, END_NODE_ID@)]
            } else {
                Seq::empty()
            }
        },
        None => Seq::empty(),
    }
}

fn push_step_edges(step: &PipelineStep, edges: &mut Vec<VisualEdge>)
    ensures
        edge_views(final(edges)@) == edge_views(old(edges)@) + edges_to(*step),
{
    let ghost before = edge_views(edges@);
    let ghost deps = texts(step.depends_on@);
    if step.depends_on.len() == 0 {
        edges.push(make_edge(START_NODE_ID, step.id.as_str()));
        assert(edge_views(edges@) =~= before + edges_to(*step));
    } else {
        let mut i: usize = 0;
        assert(before =~= before + edges_to(*step).take(0));
        while i < step.depends_on.len()
            invariant
                i <= step.depends_on@.len(),
                deps == texts(step.depends_on@),
                deps.len() > 0,
                edge_views(edges@) == before + edges_to(*step).take(i as int),
            decreases step.depends_on.len() - i,
        {
            let ghost mid = edge_views(edges@);
            edges.push(make_edge(step.depends_on[i].as_str(), step.id.as_str()));
            assert(edge_views(edges@) =~= mid.push(edge_between(deps[i as int], step.id@)));
            assert(edge_views(edges@) =~= before + edges_to(*step).take(i + 1));
            i += 1;
        }
        assert(edges_to(*step).take(i as int) =~= edges_to(*step));
    }
}

fn find_producer(steps: &Vec<PipelineStep>, var: &str) -> (r: usize)
    ensures
        r == producer(steps@, var@, 0),
        r <= steps@.len(),
{
    let mut i: usize = 0;
    while i < steps.len()
        invariant
            i <= steps@.len(),
            producer(steps@, var@, 0) == producer(steps@, var@, i as int),
        decreases steps.len() - i,
    {
        let hit: bool = match &steps[i].output_var {
            Some(v) => same(v.as_str(), var),
            None => false,
        };
        if hit {
            return i;
        }
        i += 1;
    }
    i
}

/// Whether the graph is the one drawn for the pipeline: the start node, a node for each step
/// and the end node, with their connections.
pub open spec fn graph_of(
    g: VisualPipelineGraph,
    d: PipelineDefinition,
    positions: Map<Seq<char>, (i32, i32)>,
) -> bool {
    let n = d.steps@.len() as int;
    &&& g.name@ == d.name@
    &&& g.version@ == d.version@
    &&& g.description@ == or_empty(opt_text(d.description))
    &&& opt_text(g.output) == opt_text(d.output)
    &&& g.max_cost_usd == d.max_cost_usd
    &&& g.max_wall_time_minutes == d.max_wall_time_minutes
    &&& g.nodes@.len() == n + 2
    &&& plain_node(
        g.nodes@[0],
        START_NODE_ID@,
        VisualNodeType::Start,
        "Start"@,
        start_position(positions),
    )
    &&& forall|i: int| 0 <= i < n ==> node_of(#[trigger] g.nodes@[i + 1], d.steps@, i, positions)
    &&& plain_node(
        g.nodes@[n + 1],
        END_NODE_ID@,
        VisualNodeType::End,
        "End"@,
        end_position(d.steps@, positions),
    )
    &&& edge_views(g.edges@) == step_edges(d.steps@, n) + output_edges(d)
}

fn count_lane(depths: &Vec<usize>, n: usize, Ghost(steps): Ghost<Seq<PipelineStep>>) -> (r: usize)
    requires
        n < depths@.len(),
        depths@.len() == steps.len(),
        forall|i: int| 0 <= i < depths@.len() ==> #[trigger] depths@[i] == depth_of(steps, i),
    ensures
        r == lane_count(steps, n as int, depth_of(steps, n as int)),
        r <= n,
{
    let mut lane: usize = 0;
    let mut j: usize = 0;
    while j < n
        invariant
            j <= n < depths@.len(),
            lane <= j,
            depths@.len() == steps.len(),
            forall|i: int| 0 <= i < depths@.len() ==> #[trigger] depths@[i] == depth_of(steps, i),
            lane == lane_count(steps, j as int, depth_of(steps, n as int)),
        decreases n - j,
    {
        if depths[j] == depths[n] {
            lane += 1;
        }
        j += 1;
    }
    lane
}

fn greatest(depths: &Vec<usize>, Ghost(steps): Ghost<Seq<PipelineStep>>) -> (r: usize)
    requires
        depths@.len() == steps.len(),
        forall|i: int| 0 <= i < depths@.len() ==> #[trigger] depths@[i] == depth_of(steps, i),
    ensures
        r == max_depth(steps, steps.len() as int),
        r <= steps.len() + 1,
{
    let mut best: usize = 0;
    let mut j: usize = 0;
    while j < depths.len()
        invariant
            j <= depths@.len(),
            depths@.len() == steps.len(),
            forall|i: int| 0 <= i < depths@.len() ==> #[trigger] depths@[i] == depth_of(steps, i),
            best == max_depth(steps, j as int),
            best <= steps.len() + 1,
        decreases depths.len() - j,
    {
        proof {
            law_depth_is_bounded(steps, j as int);
        }
        if depths[j] > best {
            best = depths[j];
        }
        j += 1;
    }
    best
}

/// Draws a pipeline, with the positions on record.
pub fn pipeline_to_visual_graph(definition: &PipelineDefinition, meta: &VisualMeta) -> (r:
    VisualPipelineGraph)
    requires
        definition.steps@.len() <= MAX_DRAWN_STEPS,
        meta.positions.wf(),
    ensures
        graph_of(r, *definition, meta.positions@),
{
    let ghost steps = definition.steps@;
    let ghost positions = meta.positions@;
    let depths: Vec<usize> = all_depths(&definition.steps);
    let mut nodes: Vec<VisualNode> = Vec::new();
    nodes.push(visual_start_node(meta));
    let mut edges: Vec<VisualEdge> = Vec::new();
    let mut i: usize = 0;
    assert(edge_views(edges@) =~= step_edges(steps, 0));
    while i < definition.steps.len()
        invariant
            i <= definition.steps@.len() <= MAX_DRAWN_STEPS,
            meta.positions.wf(),
            steps == definition.steps@,
            positions == meta.positions@,
            depths@.len() == steps.len(),
            forall|k: int| 0 <= k < depths@.len() ==> #[trigger] depths@[k] == depth_of(steps, k),
            nodes@.len() == i + 1,
            plain_node(
                nodes@[0],
                START_NODE_ID@,
                VisualNodeType::Start,
                "Start"@,
                start_position(positions),
            ),
            forall|k: int| 0 <= k < i ==> node_of(#[trigger] nodes@[k + 1], steps, k, positions),
            edge_views(edges@) == step_edges(steps, i as int),
        decreases definition.steps.len() - i,
    {
        let step: &PipelineStep = &definition.steps[i];
        proof {
            law_depth_is_bounded(steps, i as int);
        }
        let depth: usize = depths[i];
        let lane: usize = count_lane(&depths, i, Ghost(steps));
        let (x, y): (i32, i32) = match meta.positions.get(step.id.as_str()) {
            Some(p) => *p,
            None => (220 + depth as i32 * 220, 120 + lane as i32 * 150),
        };
        let node_type: VisualNodeType = match &step.action {
            StepAction::Agent { .. } => VisualNodeType::Agent,
            StepAction::Tool { .. } => VisualNodeType::Tool,
        };
        let ghost nodes0 = nodes@;
        nodes.push(
            VisualNode {
                id: step.id.clone(),
                node_type,
                label: humanize_step_label(step),
                x,
                y,
                config: step_to_config(step),
            },
        );
        assert forall|k: int| 0 <= k < i + 1 implies node_of(
            #[trigger] nodes@[k + 1],
            steps,
            k,
            positions,
        ) by {
            if k < i {
                assert(nodes@[k + 1] == nodes0[k + 1]);
            }
        }
        push_step_edges(step, &mut edges);
        i += 1;
    }
    let (x, y): (i32, i32) = match meta.positions.get(END_NODE_ID) {
        Some(p) => *p,
        None => {
            let deepest_step: usize = if depths.len() == 0 {
                1
            } else {
                greatest(&depths, Ghost(steps))
            };
            (220 + (deepest_step + 1) as i32 * 220, 220)
        },
    };
    let ghost nodes0 = nodes@;
    nodes.push(
        VisualNode {
            id: END_NODE_ID.to_owned(),
            node_type: VisualNodeType::End,
            label: "End".to_owned(),
            x,
            y,
            config: VisualNodeConfig::default(),
        },
    );
    assert forall|k: int| 0 <= k < steps.len() implies node_of(
        #[trigger] nodes@[k + 1],
        steps,
        k,
        positions,
    ) by {
        assert(nodes@[k + 1] == nodes0[k + 1]);
    }
    let ghost before = edge_views(edges@);
    match &definition.output {
        Some(var) => {
            let k: usize = find_producer(&definition.steps, var.as_str());
            if k < definition.steps.len() {
                edges.push(make_edge(definition.steps[k].id.as_str(), END_NODE_ID));
            }
        },
        None => {},
    }
    assert(edge_views(edges@) =~= before + output_edges(*definition));
    let output: Option<String> = match &definition.output {
        Some(var) => Some(var.clone()),
        None => None,
    };
    VisualPipelineGraph {
        name: definition.name.clone(),
        version: definition.version.clone(),
        description: clone_or_empty(&definition.description),
        output,
        max_cost_usd: definition.max_cost_usd,
        max_wall_time_minutes: definition.max_wall_time_minutes,
        nodes,
        edges,
    }
}

/// The graph that a new pipeline starts with.
pub fn default_graph(name: &str) -> (r: VisualPipelineGraph)
    ensures
        r.name@ == name@,
        r.version@ == "1.0.0"@,
        r.description@.len() == 0,
        r.output is None,
        r.max_cost_usd is None,
        r.max_wall_time_minutes is None,
        r.nodes@.len() == 2,
        plain_node(r.nodes@[0], START_NODE_ID@, VisualNodeType::Start, "Start"@, (40, 220)),
        plain_node(r.nodes@[1], END_NODE_ID@, VisualNodeType::End, "End"@, (820, 220)),
        r.edges@.len() == 0,
{
    let mut nodes: Vec<VisualNode> = Vec::new();
    nodes.push(
        VisualNode {
            id: START_NODE_ID.to_owned(),
            node_type: VisualNodeType::Start,
            label: "Start".to_owned(),
            x: 40,
            y: 220,
            config: VisualNodeConfig::default(),
        },
    );
    nodes.push(
        VisualNode {
            id: END_NODE_ID.to_owned(),
            node_type: VisualNodeType::End,
            label: "End".to_owned(),
            x: 820,
            y: 220,
            config: VisualNodeConfig::default(),
        },
    );
    VisualPipelineGraph {
        name: name.to_owned(),
        version: "1.0.0".to_owned(),
        description: String::new(),
        output: None,
        max_cost_usd: None,
        max_wall_time_minutes: None,
        nodes,
        edges: Vec::new(),
    }
}

// ---------------------------------------------------------------------------
// Laws of a drawn pipeline
// ---------------------------------------------------------------------------

/// The ids of the steps are different from each other.
pub open spec fn distinct_ids(steps: Seq<PipelineStep>) -> bool {
    forall|i: int, j: int|
        0 <= i < j < steps.len() ==> #[trigger] steps[i].id@ != #[trigger] steps[j].id@
}

/// The steps have no cycle: each step ranks above the steps that it depends on.
pub open spec fn ranked(steps: Seq<PipelineStep>, rank: Seq<nat>) -> bool {
    &&& rank.len() == steps.len()
    &&& forall|i: int, d: int|
        0 <= i < steps.len() && 0 <= d < steps[i].depends_on@.len() && step_index(
            steps,
            #[trigger] steps[i].depends_on@[d]@,
        ) >= 0 ==> rank[step_index(steps, steps[i].depends_on@[d]@)] < rank[i]
}

/// The greatest known depth among the named steps, zero where none is a step.
pub open spec fn best_in(
    steps: Seq<PipelineStep>,
    deps: Seq<Seq<char>>,
    depths: Map<Seq<char>, nat>,
) -> nat
    decreases deps.len(),
{
    if deps.len() == 0 {
        0
    } else {
        let before = best_in(steps, deps.drop_last(), depths);
        if step_index(steps, deps.last()) >= 0 && depths[deps.last()] > before {
            depths[deps.last()]
        } else {
            before
        }
    }
}

/// Whether the depth of every named step is known.
pub open spec fn covers(
    steps: Seq<PipelineStep>,
    deps: Seq<Seq<char>>,
    depths: Map<Seq<char>, nat>,
) -> bool {
    forall|d: int|
        0 <= d < deps.len() && step_index(steps, #[trigger] deps[d]) >= 0 ==> depths.dom().contains(
            deps[d],
        )
}

/// Whether every known depth is one more than the greatest among the steps depended on.
pub open spec fn levelled(steps: Seq<PipelineStep>, depths: Map<Seq<char>, nat>) -> bool {
    forall|i: int|
        0 <= i < steps.len() && depths.dom().contains(#[trigger] steps[i].id@) ==> covers(
            steps,
            texts(steps[i].depends_on@),
            depths,
        ) && depths[steps[i].id@] == 1 + best_in(steps, texts(steps[i].depends_on@), depths)
}

/// Whether `b` knows everything that `a` knows.
pub open spec fn extends(b: Map<Seq<char>, nat>, a: Map<Seq<char>, nat>) -> bool {
    forall|id: Seq<char>| #[trigger] a.dom().contains(id) ==> b.dom().contains(id) && b[id] == a[id]
}

proof fn lemma_best_extends(
    steps: Seq<PipelineStep>,
    deps: Seq<Seq<char>>,
    a: Map<Seq<char>, nat>,
    b: Map<Seq<char>, nat>,
)
    requires
        covers(steps, deps, a),
        extends(b, a),
    ensures
        covers(steps, deps, b),
        best_in(steps, deps, b) == best_in(steps, deps, a),
    decreases deps.len(),
{
    if deps.len() > 0 {
        let head = deps.drop_last();
        assert forall|d: int| 0 <= d < head.len() && step_index(steps, #[trigger] head[d])
            >= 0 implies a.dom().contains(head[d]) by {
            assert(deps[d] == head[d]);
        }
        lemma_best_extends(steps, head, a, b);
        assert(deps[deps.len() - 1] == deps.last());
    }
}

/// Whether every id in the set is that of a step that ranks at least `bound`.
pub open spec fn busy_above(
    steps: Seq<PipelineStep>,
    rank: Seq<nat>,
    busy: Set<Seq<char>>,
    bound: nat,
) -> bool {
    forall|i: int|
        0 <= i < steps.len() && busy.contains(#[trigger] steps[i].id@) ==> rank[i] >= bound
}

proof fn lemma_level_step(
    steps: Seq<PipelineStep>,
    rank: Seq<nat>,
    k: int,
    cache: Map<Seq<char>, nat>,
    busy: Set<Seq<char>>,
)
    requires
        distinct_ids(steps),
        ranked(steps, rank),
        levelled(steps, cache),
        0 <= k < steps.len(),
        busy_above(steps, rank, busy, rank[k] + 1),
    ensures
        ({
            let r = depth_from(steps, k, cache, busy);
            &&& levelled(steps, r.1)
            &&& extends(r.1, cache)
            &&& r.1.dom().contains(steps[k].id@)
            &&& r.1[steps[k].id@] == r.0
        }),
    decreases free_count(step_ids(steps), busy), 0nat,
{
    let id = steps[k].id@;
    assert(step_ids(steps)[k] == id);
    if !cache.dom().contains(id) {
        assert(!busy.contains(id));
        lemma_free_count(step_ids(steps), busy, id);
        let deps = texts(steps[k].depends_on@);
        assert forall|d: int| 0 <= d < deps.len() && step_index(steps, #[trigger] deps[d])
            >= 0 implies rank[step_index(steps, deps[d])] < rank[k] by {
            assert(deps[d] == steps[k].depends_on@[d]@);
        }
        lemma_level_all(steps, rank, deps, rank[k], cache, busy.insert(id));
        lemma_busy_stays_out_all(steps, deps, cache, busy.insert(id), id);
        let found = deepest(steps, deps, cache, busy.insert(id));
        let after = found.1.insert(id, found.0 + 1);
        assert(extends(after, found.1));
        assert forall|i: int| 0 <= i < steps.len() && after.dom().contains(
            #[trigger] steps[i].id@,
        ) implies covers(steps, texts(steps[i].depends_on@), after) && after[steps[i].id@] == 1
            + best_in(steps, texts(steps[i].depends_on@), after) by {
            if steps[i].id@ == id {
                assert(i == k);
            }
            lemma_best_extends(steps, texts(steps[i].depends_on@), found.1, after);
        }
    }
}

proof fn lemma_level_all(
    steps: Seq<PipelineStep>,
    rank: Seq<nat>,
    deps: Seq<Seq<char>>,
    bound: nat,
    cache: Map<Seq<char>, nat>,
    busy: Set<Seq<char>>,
)
    requires
        distinct_ids(steps),
        ranked(steps, rank),
        levelled(steps, cache),
        busy_above(steps, rank, busy, bound),
        forall|d: int|
            0 <= d < deps.len() && step_index(steps, #[trigger] deps[d]) >= 0
                ==> rank[step_index(steps, deps[d])] < bound,
    ensures
        ({
            let r = deepest(steps, deps, cache, busy);
            &&& levelled(steps, r.1)
            &&& extends(r.1, cache)
            &&& covers(steps, deps, r.1)
            &&& r.0 == best_in(steps, deps, r.1)
        }),
    decreases free_count(step_ids(steps), busy), deps.len(),
{
    if deps.len() > 0 {
        let head = deps.drop_last();
        assert forall|d: int| 0 <= d < head.len() && step_index(steps, #[trigger] head[d])
            >= 0 implies rank[step_index(steps, head[d])] < bound by {
            assert(deps[d] == head[d]);
        }
        lemma_level_all(steps, rank, head, bound, cache, busy);
        let before = deepest(steps, head, cache, busy);
        let k = step_index(steps, deps.last());
        lemma_step_index(steps, deps.last());
        assert(deps[deps.len() - 1] == deps.last());
        if k >= 0 {
            lemma_level_step(steps, rank, k, before.1, busy);
            let here = depth_from(steps, k, before.1, busy);
            lemma_best_extends(steps, head, before.1, here.1);
            assert forall|d: int| 0 <= d < deps.len() && step_index(steps, #[trigger] deps[d])
                >= 0 implies here.1.dom().contains(deps[d]) by {
                if d < head.len() {
                    assert(head[d] == deps[d]);
                }
            }
        } else {
            assert forall|d: int| 0 <= d < deps.len() && step_index(steps, #[trigger] deps[d])
                >= 0 implies before.1.dom().contains(deps[d]) by {
                if d < head.len() {
                    assert(head[d] == deps[d]);
                }
            }
        }
    }
}

proof fn lemma_levelled_after(steps: Seq<PipelineStep>, rank: Seq<nat>, n: int)
    requires
        distinct_ids(steps),
        ranked(steps, rank),
        0 <= n <= steps.len(),
    ensures
        levelled(steps, depths_after(steps, n)),
    decreases n,
{
    if n > 0 {
        lemma_levelled_after(steps, rank, n - 1);
        lemma_level_step(steps, rank, n - 1, depths_after(steps, n - 1), Set::empty());
    }
}

/// In a pipeline without cycles, a step stands one column behind the deepest step that it
/// depends on, and in the first column where it depends on none.
pub proof fn law_depth_follows_dependencies(steps: Seq<PipelineStep>, rank: Seq<nat>, i: int)
    requires
        distinct_ids(steps),
        ranked(steps, rank),
        0 <= i < steps.len(),
    ensures
        depth_of(steps, i) == 1 + best_in(
            steps,
            texts(steps[i].depends_on@),
            depths_after(steps, steps.len() as int),
        ),
        steps[i].depends_on@.len() == 0 ==> depth_of(steps, i) == 1,
{
    lemma_levelled_after(steps, rank, steps.len() as int);
    lemma_depths_after(steps, steps.len() as int);
    assert(depths_after(steps, steps.len() as int).dom().contains(steps[i].id@));
}

/// A node whose position is on record stands there.
pub proof fn law_recorded_positions_are_kept(
    g: VisualPipelineGraph,
    d: PipelineDefinition,
    positions: Map<Seq<char>, (i32, i32)>,
    i: int,
)
    requires
        graph_of(g, d, positions),
        0 <= i < g.nodes@.len(),
        positions.dom().contains(g.nodes@[i].id@),
    ensures
        (g.nodes@[i].x, g.nodes@[i].y) == positions[g.nodes@[i].id@],
{
    if 0 < i < g.nodes@.len() - 1 {
        assert(node_of(g.nodes@[(i - 1) + 1], d.steps@, i - 1, positions));
    }
}

proof fn lemma_dependencies_concat(a: Seq<EdgeV>, b: Seq<EdgeV>, id: Seq<char>)
    ensures
        dependencies(a + b, id) == dependencies(a, id) + dependencies(b, id),
    decreases b.len(),
{
    if b.len() == 0 {
        assert(a + b =~= a);
        assert(dependencies(a, id) + dependencies(b, id) =~= dependencies(a, id));
    } else {
        assert((a + b).drop_last() =~= a + b.drop_last());
        lemma_dependencies_concat(a, b.drop_last(), id);
        assert(dependencies(a + b, id) =~= dependencies(a, id) + dependencies(b, id));
    }
}

proof fn lemma_dependencies_of_edges(source: Seq<Seq<char>>, target: Seq<char>, id: Seq<char>)
    ensures
        ({
            let edges = Seq::new(source.len(), |i: int| edge_between(source[i], target));
            &&& target != id ==> dependencies(edges, id).len() == 0
            &&& target == id && !source.contains(START_NODE_ID@) ==> dependencies(edges, id)
                == source
        }),
    decreases source.len(),
{
    let edges = Seq::new(source.len(), |i: int| edge_between(source[i], target));
    if source.len() > 0 {
        let head = source.drop_last();
        lemma_dependencies_of_edges(head, target, id);
        assert(edges.drop_last() =~= Seq::new(head.len(), |i: int| edge_between(head[i], target)));
        if !source.contains(START_NODE_ID@) {
            assert forall|i: int| 0 <= i < head.len() implies head[i] != START_NODE_ID@ by {
                assert(source[i] == head[i]);
            }
            assert(source.last() != START_NODE_ID@) by {
                assert(source[source.len() - 1] == source.last());
            }
            assert(head.push(source.last()) =~= source);
        }
    } else {
        assert(dependencies(edges, id) =~= source);
    }
}

proof fn lemma_dependencies_to_step(step: PipelineStep, id: Seq<char>)
    requires
        !texts(step.depends_on@).contains(START_NODE_ID@),
    ensures
        dependencies(edges_to(step), id) == (if step.id@ == id {
            texts(step.depends_on@)
        } else {
            Seq::empty()
        }),
{
    let deps = texts(step.depends_on@);
    if deps.len() == 0 {
        let edges = edges_to(step);
        assert(edges.drop_last() =~= Seq::<EdgeV>::empty());
        assert(dependencies(edges.drop_last(), id) =~= Seq::<Seq<char>>::empty());
        assert(dependencies(edges, id) =~= deps);
    } else {
        lemma_dependencies_of_edges(deps, step.id@, id);
        assert(dependencies(edges_to(step), id) =~= (if step.id@ == id {
            deps
        } else {
            Seq::empty()
        }));
    }
}

proof fn lemma_dependencies_drawn(steps: Seq<PipelineStep>, n: int, i: int)
    requires
        distinct_ids(steps),
        0 <= n <= steps.len(),
        0 <= i < steps.len(),
        forall|k: int|
            0 <= k < steps.len() ==> !texts((#[trigger] steps[k]).depends_on@).contains(
                START_NODE_ID@,
            ),
    ensures
        dependencies(step_edges(steps, n), steps[i].id@) == (if i < n {
            texts(steps[i].depends_on@)
        } else {
            Seq::empty()
        }),
    decreases n,
{
    if n > 0 {
        lemma_dependencies_drawn(steps, n - 1, i);
        lemma_dependencies_concat(step_edges(steps, n - 1), edges_to(steps[n - 1]), steps[i].id@);
        lemma_dependencies_to_step(steps[n - 1], steps[i].id@);
        assert(i != n - 1 ==> steps[i].id@ != steps[n - 1].id@);
        assert(dependencies(step_edges(steps, n), steps[i].id@) =~= (if i < n {
            texts(steps[i].depends_on@)
        } else {
            Seq::empty()
        }));
    }
}

/// Drawing keeps the dependencies: reading them back from the connections of the drawn graph
/// gives each step what it depended on.
pub proof fn law_drawing_keeps_dependencies(
    g: VisualPipelineGraph,
    d: PipelineDefinition,
    positions: Map<Seq<char>, (i32, i32)>,
    i: int,
)
    requires
        graph_of(g, d, positions),
        distinct_ids(d.steps@),
        0 <= i < d.steps@.len(),
        d.steps@[i].id@ != END_NODE_ID@,
        forall|k: int|
            0 <= k < d.steps@.len() ==> !texts((#[trigger] d.steps@[k]).depends_on@).contains(
                START_NODE_ID@,
            ),
    ensures
        dependencies(edge_views(g.edges@), d.steps@[i].id@) == texts(d.steps@[i].depends_on@),
{
    let steps = d.steps@;
    let n = steps.len() as int;
    let id = steps[i].id@;
    lemma_dependencies_drawn(steps, n, i);
    lemma_dependencies_concat(step_edges(steps, n), output_edges(d), id);
    let tail = output_edges(d);
    if tail.len() > 0 {
        assert(tail.drop_last() =~= Seq::<EdgeV>::empty());
        assert(dependencies(tail.drop_last(), id) =~= Seq::<Seq<char>>::empty());
    }
    assert(dependencies(tail, id) =~= Seq::<Seq<char>>::empty());
    assert(dependencies(edge_views(g.edges@), id) =~= texts(steps[i].depends_on@));
}

/// Drawing a pipeline and reading it back keeps what every step is: its id, what it does, its
/// limits, its retries, what happens when it fails, and its default value. Texts that the builder
/// trims, and settings that are blank, count as they are read.
pub proof fn law_a_drawn_step_reads_back(
    steps: Seq<PipelineStep>,
    i: int,
    positions: Map<Seq<char>, (i32, i32)>,
    node: VisualNode,
    edges: Seq<EdgeV>,
    back: PipelineStep,
)
    requires
        0 <= i < steps.len(),
        node_of(node, steps, i, positions),
        step_of(back, node, edges),
    ensures
        back.id@ == steps[i].id@,
        steps[i].action matches StepAction::Agent { agent, task } ==> (back.action matches StepAction::Agent {
            agent: a,
            task: t,
        } && a@ == trim(agent@) && t@ == trim(task@)),
        steps[i].action matches StepAction::Tool { tool, input } ==> (back.action matches StepAction::Tool {
            tool: t,
            input: j,
        } && t@ == trim(tool@)),
        back.timeout_minutes == steps[i].timeout_minutes,
        back.retry_on_failure == steps[i].retry_on_failure,
        back.retry_backoff_ms == steps[i].retry_backoff_ms,
        back.retry_max_delay_ms == steps[i].retry_max_delay_ms,
        back.on_failure == steps[i].on_failure,
        steps[i].default_value is None ==> back.default_value is None,
        steps[i].default_value matches Some(v) && trim(v@).len() > 0 ==> opt_text(
            back.default_value,
        ) == opt_text(steps[i].default_value),
        steps[i].output_var matches Some(v) && trim(v@).len() > 0 ==> opt_text(back.output_var)
            == Some(trim(steps[i].output_var->0@)),
{
    reveal_strlit("fail");
    reveal_strlit("skip");
    reveal_strlit("use_default");
    lemma_rules_read_back(steps[i].on_failure);
    assert(trim(Seq::<char>::empty()).len() == 0);
}

/// The name that a failure rule is shown by is read as that rule, and a step without a setting
/// stops the run.
pub proof fn lemma_rules_read_back(f: OnFailure)
    ensures
        failure_rule(failure_name(f)) == Some(f),
        failure_rule(Seq::empty()) == Some(OnFailure::Fail),
{
    reveal_strlit("fail");
    reveal_strlit("skip");
    reveal_strlit("use_default");
    assert("fail"@[0] != "skip"@[0]);
    assert("fail"@.len() != "use_default"@.len());
    assert("skip"@.len() != "use_default"@.len());
    assert(trim("fail"@) == "fail"@);
    assert(trim("skip"@) == "skip"@);
    assert(trim("use_default"@) == "use_default"@);
    assert(trim(Seq::<char>::empty()).len() == 0);
}

/// A drawn step has a box of its own kind that names who works on it.
pub proof fn law_boxes_show_their_step(
    g: VisualPipelineGraph,
    d: PipelineDefinition,
    positions: Map<Seq<char>, (i32, i32)>,
    i: int,
)
    requires
        graph_of(g, d, positions),
        0 <= i < d.steps@.len(),
    ensures
        g.nodes@.len() == d.steps@.len() + 2,
        g.nodes@[0].node_type == VisualNodeType::Start && g.nodes@[0].id@ == "__start__"@,
        g.nodes@.last().node_type == VisualNodeType::End && g.nodes@.last().id@ == "__end__"@,
        g.nodes@[i + 1].id@ == d.steps@[i].id@,
        d.steps@[i].action matches StepAction::Agent { agent, task } ==> g.nodes@[i + 1].node_type
            == VisualNodeType::Agent && g.nodes@[i + 1].label@ == "Agent: "@ + agent@ && g.nodes@[i
            + 1].config.agent_name@ == agent@ && g.nodes@[i + 1].config.task@ == task@,
        d.steps@[i].action matches StepAction::Tool { tool, input } ==> g.nodes@[i + 1].node_type
            == VisualNodeType::Tool && g.nodes@[i + 1].label@ == "Tool: "@ + tool@ && g.nodes@[i
            + 1].config.tool_name@ == tool@ && g.nodes@[i + 1].config.tool_input_json@
            == pretty_text(input@),
{
    assert(node_of(g.nodes@[i + 1], d.steps@, i, positions));
}

proof fn lemma_lanes_grow(steps: Seq<PipelineStep>, i: int, j: int)
    requires
        0 <= i < j,
    ensures
        lane_count(steps, i, depth_of(steps, i)) < lane_count(steps, j, depth_of(steps, i)),
    decreases j - i,
{
    if j > i + 1 {
        lemma_lanes_grow(steps, i, j - 1);
    }
}

/// No two steps are drawn on top of each other where neither has a position on record.
pub proof fn law_steps_do_not_overlap(
    g: VisualPipelineGraph,
    d: PipelineDefinition,
    positions: Map<Seq<char>, (i32, i32)>,
    i: int,
    j: int,
)
    requires
        graph_of(g, d, positions),
        0 <= i < j < d.steps@.len(),
        !positions.dom().contains(d.steps@[i].id@),
        !positions.dom().contains(d.steps@[j].id@),
    ensures
        g.nodes@[i + 1].x != g.nodes@[j + 1].x || g.nodes@[i + 1].y < g.nodes@[j + 1].y,
{
    assert(node_of(g.nodes@[i + 1], d.steps@, i, positions));
    assert(node_of(g.nodes@[j + 1], d.steps@, j, positions));
    if depth_of(d.steps@, i) == depth_of(d.steps@, j) {
        lemma_lanes_grow(d.steps@, i, j);
    }
}

proof fn lemma_best_is_best(
    steps: Seq<PipelineStep>,
    deps: Seq<Seq<char>>,
    depths: Map<Seq<char>, nat>,
    k: int,
)
    requires
        0 <= k < deps.len(),
        step_index(steps, deps[k]) >= 0,
    ensures
        best_in(steps, deps, depths) >= depths[deps[k]],
    decreases deps.len(),
{
    if k < deps.len() - 1 {
        assert(deps.drop_last()[k] == deps[k]);
        lemma_best_is_best(steps, deps.drop_last(), depths, k);
    }
}

/// In a pipeline without cycles every step is drawn to the right of the steps that it waits for.
pub proof fn law_steps_stand_right_of_what_they_wait_for(
    g: VisualPipelineGraph,
    d: PipelineDefinition,
    positions: Map<Seq<char>, (i32, i32)>,
    rank: Seq<nat>,
    i: int,
    j: int,
    k: int,
)
    requires
        graph_of(g, d, positions),
        distinct_ids(d.steps@),
        ranked(d.steps@, rank),
        0 <= i < d.steps@.len(),
        0 <= j < d.steps@.len(),
        0 <= k < d.steps@[i].depends_on@.len(),
        d.steps@[i].depends_on@[k]@ == d.steps@[j].id@,
        !positions.dom().contains(d.steps@[i].id@),
        !positions.dom().contains(d.steps@[j].id@),
    ensures
        g.nodes@[j + 1].x < g.nodes@[i + 1].x,
{
    let steps = d.steps@;
    let deps = texts(steps[i].depends_on@);
    assert(node_of(g.nodes@[i + 1], steps, i, positions));
    assert(node_of(g.nodes@[j + 1], steps, j, positions));
    law_depth_follows_dependencies(steps, rank, i);
    assert(deps[k] == steps[j].id@);
    lemma_index_of_step(steps, j);
    lemma_best_is_best(steps, deps, depths_after(steps, steps.len() as int), k);
}

proof fn lemma_index_of_step(steps: Seq<PipelineStep>, j: int)
    requires
        0 <= j < steps.len(),
    ensures
        step_index(steps, steps[j].id@) >= 0,
    decreases steps.len(),
{
    if j < steps.len() - 1 {
        assert(steps.drop_last()[j] == steps[j]);
        lemma_index_of_step(steps.drop_last(), j);
    }
}

proof fn lemma_edges_of_steps(steps: Seq<PipelineStep>, n: int, source: Seq<char>, target: Seq<char>)
    requires
        0 <= n <= steps.len(),
    ensures
        leads(step_edges(steps, n), source, target) <==> exists|i: int|
            0 <= i < n && (#[trigger] steps[i]).id@ == target && waits_for(steps[i], source),
    decreases n,
{
    if n > 0 {
        lemma_edges_of_steps(steps, n - 1, source, target);
        let before = step_edges(steps, n - 1);
        let more = edges_to(steps[n - 1]);
        let all = step_edges(steps, n);
        let deps = texts(steps[n - 1].depends_on@);
        if leads(all, source, target) {
            let e = choose|e: int|
                0 <= e < all.len() && (#[trigger] all[e]).source == source && all[e].target == target;
            if e < before.len() {
                assert(before[e] == all[e]);
                let i = choose|i: int|
                    0 <= i < n - 1 && (#[trigger] steps[i]).id@ == target && waits_for(
                        steps[i],
                        source,
                    );
                assert(steps[i].id@ == target);
            } else {
                let k = e - before.len();
                assert(more[k] == all[e]);
                if deps.len() > 0 {
                    assert(steps[n - 1].depends_on@[k]@ == source);
                }
                assert(steps[n - 1].id@ == target && waits_for(steps[n - 1], source));
            }
        }
        if exists|i: int|
            0 <= i < n && (#[trigger] steps[i]).id@ == target && waits_for(steps[i], source) {
            let i = choose|i: int|
                0 <= i < n && (#[trigger] steps[i]).id@ == target && waits_for(steps[i], source);
            if i < n - 1 {
                assert(steps[i].id@ == target && waits_for(steps[i], source));
                let e = choose|e: int|
                    0 <= e < before.len() && (#[trigger] before[e]).source == source
                        && before[e].target == target;
                assert(all[e] == before[e]);
            } else if deps.len() == 0 {
                assert(all[before.len() as int] == more[0]);
            } else {
                let k = choose|k: int|
                    0 <= k < steps[n - 1].depends_on@.len() && (
                    #[trigger] steps[n - 1].depends_on@[k])@ == source;
                assert(more[k] == edge_between(deps[k], target));
                assert(all[before.len() + k] == more[k]);
            }
        }
    }
}

/// Whether the step waits for this one: it depends on it, or on nothing, which is the start.
pub open spec fn waits_for(step: PipelineStep, source: Seq<char>) -> bool {
    if step.depends_on@.len() == 0 {
        source == "__start__"@
    } else {
        exists|k: int|
            0 <= k < step.depends_on@.len() && (#[trigger] step.depends_on@[k])@ == source
    }
}

/// Whether a connection leads from one id to the other.
pub open spec fn connected(edges: Seq<VisualEdge>, source: Seq<char>, target: Seq<char>) -> bool {
    exists|e: int|
        0 <= e < edges.len() && (#[trigger] edges[e]).source@ == source && edges[e].target@ == target
}

spec fn leads(edges: Seq<EdgeV>, source: Seq<char>, target: Seq<char>) -> bool {
    exists|e: int|
        0 <= e < edges.len() && (#[trigger] edges[e]).source == source && edges[e].target == target
}

proof fn lemma_leads(
    edges: Seq<VisualEdge>,
    a: Seq<EdgeV>,
    b: Seq<EdgeV>,
    source: Seq<char>,
    target: Seq<char>,
)
    requires
        edge_views(edges) == a + b,
    ensures
        connected(edges, source, target) <==> leads(a, source, target) || leads(b, source, target),
{
    let all = edge_views(edges);
    assert(all.len() == edges.len() && all.len() == a.len() + b.len());
    assert forall|e: int| 0 <= e < edges.len() implies #[trigger] all[e] == edges[e]@ by {}
    if connected(edges, source, target) {
        let e = choose|e: int|
            0 <= e < edges.len() && (#[trigger] edges[e]).source@ == source && edges[e].target@
                == target;
        assert(all[e] == edges[e]@);
        if e < a.len() {
            assert(a[e] == all[e]);
        } else {
            assert(b[e - a.len()] == all[e]);
        }
    }
    if leads(a, source, target) {
        let e = choose|e: int|
            0 <= e < a.len() && (#[trigger] a[e]).source == source && a[e].target == target;
        assert(all[e] == a[e]);
        assert(edges[e]@ == all[e]);
        assert(edges[e].source@ == source);
    }
    if leads(b, source, target) {
        let e = choose|e: int|
            0 <= e < b.len() && (#[trigger] b[e]).source == source && b[e].target == target;
        assert(all[a.len() + e] == b[e]);
        assert(edges[a.len() + e]@ == b[e]);
        assert(edges[a.len() + e].source@ == source);
    }
}

/// Whether a step with the target's id waits for the source.
pub open spec fn called_for(
    steps: Seq<PipelineStep>,
    source: Seq<char>,
    target: Seq<char>,
) -> bool {
    exists|i: int|
        0 <= i < steps.len() && (#[trigger] steps[i]).id@ == target && waits_for(steps[i], source)
}

/// The connections between the steps of a drawn pipeline are those that the steps call for: one
/// to each step from each that it waits for, running from what comes first to what comes next.
pub proof fn law_connections_follow_the_steps(
    g: VisualPipelineGraph,
    d: PipelineDefinition,
    positions: Map<Seq<char>, (i32, i32)>,
    source: Seq<char>,
    target: Seq<char>,
)
    requires
        graph_of(g, d, positions),
        target != END_NODE_ID@,
    ensures
        connected(g.edges@, source, target) <==> called_for(d.steps@, source, target),
{
    let n = d.steps@.len() as int;
    lemma_leads(g.edges@, step_edges(d.steps@, n), output_edges(d), source, target);
    lemma_edges_of_steps(d.steps@, n, source, target);
    assert(!leads(output_edges(d), source, target));
}

/// The end is connected with the first step that gives out what the pipeline gives out, and with
/// no other.
pub proof fn law_the_end_takes_the_output(
    g: VisualPipelineGraph,
    d: PipelineDefinition,
    positions: Map<Seq<char>, (i32, i32)>,
    source: Seq<char>,
    k: int,
)
    requires
        graph_of(g, d, positions),
        forall|i: int| 0 <= i < d.steps@.len() ==> (#[trigger] d.steps@[i]).id@ != END_NODE_ID@,
        0 <= k < d.steps@.len(),
        d.output is Some,
        opt_text(d.steps@[k].output_var) == opt_text(d.output),
        forall|j: int|
            0 <= j < k ==> opt_text((#[trigger] d.steps@[j]).output_var) != opt_text(d.output),
    ensures
        connected(g.edges@, source, "__end__"@) <==> source == d.steps@[k].id@,
{
    let n = d.steps@.len() as int;
    let tail = output_edges(d);
    lemma_leads(g.edges@, step_edges(d.steps@, n), tail, source, END_NODE_ID@);
    lemma_edges_of_steps(d.steps@, n, source, END_NODE_ID@);
    lemma_producer(d.steps@, d.output->0@, 0);
    let p = producer(d.steps@, d.output->0@, 0);
    if p < k {
        assert(opt_text(d.steps@[p].output_var) != opt_text(d.output));
    } else if k < p {
        assert(opt_text(d.steps@[k].output_var) != Some(d.output->0@));
    }
    assert(tail.len() == 1 && tail[0].source == d.steps@[k].id@);
}

proof fn lemma_producer(steps: Seq<PipelineStep>, var: Seq<char>, k: int)
    requires
        0 <= k <= steps.len(),
    ensures
        k <= producer(steps, var, k) <= steps.len(),
        producer(steps, var, k) < steps.len() ==> opt_text(
            steps[producer(steps, var, k)].output_var,
        ) == Some(var),
        forall|j: int|
            k <= j < producer(steps, var, k) ==> opt_text((#[trigger] steps[j]).output_var) != Some(
                var,
            ),
    decreases steps.len() - k,
{
    if k < steps.len() && opt_text(steps[k].output_var) != Some(var) {
        lemma_producer(steps, var, k + 1);
    }
}

proof fn lemma_no_step_is_deeper(steps: Seq<PipelineStep>, n: int, i: int)
    requires
        0 <= i < n,
    ensures
        depth_of(steps, i) <= max_depth(steps, n),
    decreases n,
{
    if i < n - 1 {
        lemma_no_step_is_deeper(steps, n - 1, i);
    }
}

/// Where no places were recorded, the start stands to the left of every step, and the end to the
/// right of all of them.
pub proof fn law_the_ends_stand_outside(
    steps: Seq<PipelineStep>,
    positions: Map<Seq<char>, (i32, i32)>,
    i: int,
)
    requires
        0 <= i < steps.len(),
        !positions.dom().contains(START_NODE_ID@),
        !positions.dom().contains(END_NODE_ID@),
        !positions.dom().contains(steps[i].id@),
    ensures
        start_position(positions).0 < step_position(steps, i, positions).0,
        step_position(steps, i, positions).0 < end_position(steps, positions).0,
        start_position(positions).1 == end_position(steps, positions).1,
{
    lemma_no_step_is_deeper(steps, steps.len() as int, i);
}

/// Steps without a recorded place stand on a grid: one column for each depth, and one row for each
/// step of that depth in front of it.
pub proof fn law_steps_stand_on_a_grid(
    steps: Seq<PipelineStep>,
    positions: Map<Seq<char>, (i32, i32)>,
    i: int,
    j: int,
)
    requires
        0 <= i < j < steps.len(),
        !positions.dom().contains(steps[i].id@),
        !positions.dom().contains(steps[j].id@),
        forall|k: int| i < k < j ==> #[trigger] depth_of(steps, k) != depth_of(steps, i),
    ensures
        ({
            let a = step_position(steps, i, positions);
            let b = step_position(steps, j, positions);
            &&& b.0 - a.0 == 220 * (depth_of(steps, j) - depth_of(steps, i))
            &&& depth_of(steps, j) == depth_of(steps, i) ==> b.1 - a.1 == 150
            &&& (forall|k: int| 0 <= k < i ==> #[trigger] depth_of(steps, k) != depth_of(steps, i))
                ==> a.1 == 120
        }),
{
    lemma_lanes_between(steps, i + 1, j, depth_of(steps, i));
    assert(lane_count(steps, i + 1, depth_of(steps, i)) == lane_count(
        steps,
        i,
        depth_of(steps, i),
    ) + 1);
    if forall|k: int| 0 <= k < i ==> #[trigger] depth_of(steps, k) != depth_of(steps, i) {
        lemma_lanes_between(steps, 0, i, depth_of(steps, i));
    }
}

proof fn lemma_lanes_between(steps: Seq<PipelineStep>, from: int, to: int, depth: nat)
    requires
        0 <= from <= to,
        forall|k: int| from <= k < to ==> #[trigger] depth_of(steps, k) != depth,
    ensures
        lane_count(steps, to, depth) == lane_count(steps, from, depth),
    decreases to - from,
{
    if from < to {
        lemma_lanes_between(steps, from, to - 1, depth);
        assert(depth_of(steps, to - 1) != depth);
    }
}

} // verus!
