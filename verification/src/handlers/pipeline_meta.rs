//! The positions of drawn nodes, as a pipeline's YAML keeps them.
//!
//! They stand under `meta`, `visual`, `positions`: for each node id its `x` and its `y`.

use crate::handlers::pipeline_layout::{graph_of, node_of, VisualMeta};
use crate::handlers::pipeline_ui::{
    definition_of, duplicate_at, edge_views, first_duplicate, graph_error, has_node, is_step,
    step_nodes, step_of, VisualNode, VisualNodeType, VisualPipelineGraph, END_NODE_ID,
    START_NODE_ID,
};
use crate::pipeline::PipelineDefinition;
use crate::text::same;
use crate::textmap::{comes_before, lemma_text_total, lemma_text_transitive, text_less, TextMap};
use crate::yaml::{lemma_view, pairs, parse_yaml, yaml_entry, yaml_parsed, Yaml, YamlV};
use vstd::prelude::*;

verus! {

/// The positions that the entries record. A later entry for the same id counts.
pub open spec fn recorded(entries: Seq<(YamlV, YamlV)>) -> Map<Seq<char>, (i32, i32)>
    decreases entries.len(),
{
    if entries.len() == 0 {
        Map::empty()
    } else {
        let before = recorded(entries.drop_last());
        let (id, at) = entries.last();
        match id.untagged() {
            YamlV::Text(t) => if at.untagged() is Mapping {
                before.insert(t, (at.int_at("x"@) as i32, at.int_at("y"@) as i32))
            } else {
                before
            },
            _ => before,
        }
    }
}

/// The value under one key after another.
pub open spec fn at_path(root: YamlV, a: Seq<char>, b: Seq<char>, c: Seq<char>) -> Option<YamlV> {
    match root.get(a) {
        Some(x) => match x.get(b) {
            Some(y) => y.get(c),
            None => None,
        },
        None => None,
    }
}

/// The positions that a document records.
pub open spec fn positions_in(root: YamlV) -> Map<Seq<char>, (i32, i32)> {
    match at_path(root, "meta"@, "visual"@, "positions"@) {
        Some(v) => match v.untagged() {
            YamlV::Mapping(entries) => recorded(entries),
            _ => Map::empty(),
        },
        None => Map::empty(),
    }
}

fn no_positions() -> (r: VisualMeta)
    ensures
        r.positions.wf(),
        r.positions@ == Map::<Seq<char>, (i32, i32)>::empty(),
{
    VisualMeta { positions: TextMap::new() }
}

/// The positions that a document records.
pub fn extract_visual_meta(root: &Yaml) -> (r: VisualMeta)
    ensures
        r.positions.wf(),
        r.positions@ == positions_in(root@),
{
    let found: Option<&Yaml> = match root.get("meta") {
        Some(meta) => match meta.get("visual") {
            Some(visual) => visual.get("positions"),
            None => None,
        },
        None => None,
    };
    let value: &Yaml = match found {
        Some(v) => v.untag(),
        None => {
            return no_positions();
        },
    };
    proof {
        lemma_view(*value);
    }
    match value {
        Yaml::Mapping(entries) => {
            let ghost all = pairs(entries@);
            let mut positions: TextMap<(i32, i32)> = TextMap::new();
            let mut i: usize = 0;
            assert(all.take(0) =~= Seq::<(YamlV, YamlV)>::empty());
            while i < entries.len()
                invariant
                    i <= entries@.len(),
                    all == pairs(entries@),
                    positions.wf(),
                    positions@ == recorded(all.take(i as int)),
                decreases entries.len() - i,
            {
                assert(all.take(i + 1).drop_last() =~= all.take(i as int));
                assert(all.take(i + 1).last() == (entries@[i as int].0@, entries@[i as int].1@));
                match entries[i].0.untag() {
                    Yaml::Text(id) => {
                        let at: &Yaml = &entries[i].1;
                        let is_mapping: bool = match at.untag() {
                            Yaml::Mapping(_) => true,
                            _ => false,
                        };
                        if is_mapping {
                            let x: i32 = at.int_at("x") as i32;
                            let y: i32 = at.int_at("y") as i32;
                            positions.insert(id.clone(), (x, y));
                        }
                    },
                    _ => {},
                }
                i += 1;
            }
            assert(all.take(i as int) =~= all);
            VisualMeta { positions }
        },
        _ => no_positions(),
    }
}

/// The positions that a YAML text records, or what is wrong with the text.
pub fn visual_meta_of_yaml(yaml: &str) -> (r: Result<VisualMeta, String>)
    ensures
        match yaml_parsed(yaml@) {
            Ok(root) => r is Ok && r->Ok_0.positions.wf() && r->Ok_0.positions@ == positions_in(
                root,
            ),
            Err(m) => r is Err && r->Err_0@ == "Failed to parse pipeline YAML metadata: "@ + m,
        },
{
    match parse_yaml(yaml) {
        Ok(root) => Ok(extract_visual_meta(&root)),
        Err(m) => {
            let mut out: String = "Failed to parse pipeline YAML metadata: ".to_owned();
            out.push_str(m.as_str());
            Err(out)
        },
    }
}

// ---------------------------------------------------------------------------
// Recording
// ---------------------------------------------------------------------------

/// The positions of the nodes. Of two nodes with one id the later counts.
pub open spec fn node_positions(nodes: Seq<VisualNode>) -> Map<Seq<char>, (i32, i32)>
    decreases nodes.len(),
{
    if nodes.len() == 0 {
        Map::empty()
    } else {
        node_positions(nodes.drop_last()).insert(
            nodes.last().id@,
            (nodes.last().x, nodes.last().y),
        )
    }
}

/// The position of a node.
pub struct Placed {
    pub id: String,
    pub x: i32,
    pub y: i32,
}

/// The positions as a map.
pub open spec fn placed_map(v: Seq<Placed>) -> Map<Seq<char>, (i32, i32)>
    decreases v.len(),
{
    if v.len() == 0 {
        Map::empty()
    } else {
        placed_map(v.drop_last()).insert(v.last().id@, (v.last().x, v.last().y))
    }
}

/// Whether the ids come in their order, none twice.
pub open spec fn ordered(v: Seq<Placed>) -> bool {
    forall|i: int, j: int|
        0 <= i < j < v.len() ==> text_less(#[trigger] v[i].id@, #[trigger] v[j].id@)
}

proof fn lemma_placed_map(v: Seq<Placed>)
    requires
        ordered(v),
    ensures
        forall|k: int|
            0 <= k < v.len() ==> placed_map(v).dom().contains(#[trigger] v[k].id@)
                && placed_map(v)[v[k].id@] == (v[k].x, v[k].y),
        forall|id: Seq<char>| #[trigger]
            placed_map(v).dom().contains(id) ==> exists|k: int|
                0 <= k < v.len() && #[trigger] v[k].id@ == id,
    decreases v.len(),
{
    if v.len() > 0 {
        let head = v.drop_last();
        assert(ordered(head)) by {
            assert forall|i: int, j: int| 0 <= i < j < head.len() implies text_less(
                #[trigger] head[i].id@,
                #[trigger] head[j].id@,
            ) by {
                assert(text_less(v[i].id@, v[j].id@));
            }
        }
        lemma_placed_map(head);
        assert forall|k: int| 0 <= k < v.len() implies placed_map(v).dom().contains(
            #[trigger] v[k].id@,
        ) && placed_map(v)[v[k].id@] == (v[k].x, v[k].y) by {
            if k < head.len() {
                assert(head[k] == v[k]);
                assert(text_less(v[k].id@, v[v.len() - 1].id@));
                lemma_text_total(v[k].id@, v.last().id@);
            }
        }
        assert forall|id: Seq<char>| #[trigger] placed_map(v).dom().contains(id) implies exists|
            k: int,
        |
            0 <= k < v.len() && #[trigger] v[k].id@ == id by {
            if id == v.last().id@ {
                assert(v[v.len() - 1].id@ == id);
            } else {
                assert(placed_map(head).dom().contains(id));
                let k = choose|k: int| 0 <= k < head.len() && #[trigger] head[k].id@ == id;
                assert(head[k].id@ == id);
                assert(v[k] == head[k]);
                assert(v[k].id@ == id);
            }
        }
    }
}

/// Puts a position in its place.
fn place(v: &mut Vec<Placed>, id: &String, x: i32, y: i32)
    requires
        ordered(old(v)@),
    ensures
        ordered(final(v)@),
        placed_map(final(v)@) == placed_map(old(v)@).insert(id@, (x, y)),
{
    let ghost v0 = v@;
    let mut i: usize = 0;
    while i < v.len() && comes_before(v[i].id.as_str(), id.as_str())
        invariant
            i <= v@.len(),
            v@ == v0,
            forall|k: int| 0 <= k < i ==> text_less(#[trigger] v@[k].id@, id@),
        decreases v.len() - i,
    {
        i += 1;
    }
    let present: bool = i < v.len() && same(v[i].id.as_str(), id.as_str());
    let entry: Placed = Placed { id: id.clone(), x, y };
    if present {
        v.set(i, entry);
    } else {
        v.insert(i, entry);
    }
    proof {
        let w = v@;
        if i < v0.len() {
            lemma_text_total(v0[i as int].id@, id@);
        }
        assert forall|a: int, b: int| 0 <= a < b < w.len() implies text_less(
            #[trigger] w[a].id@,
            #[trigger] w[b].id@,
        ) by {
            let src = |k: int| if present || k < i { k } else { k - 1 };
            if a == i && !present && b > i {
                assert(w[b] == v0[b - 1]);
                if b - 1 > i {
                    assert(text_less(v0[i as int].id@, v0[b - 1].id@));
                    lemma_text_transitive(id@, v0[i as int].id@, v0[b - 1].id@);
                }
            } else if b == i {
                assert(w[a] == v0[a]);
                assert(text_less(v0[a].id@, id@));
            } else {
                if a != i {
                    assert(w[a] == v0[src(a)]);
                }
                assert(w[b] == v0[src(b)]);
                assert(text_less(v0[src(a)].id@, v0[src(b)].id@));
            }
        }
        lemma_placed_map(v0);
        lemma_placed_map(w);
        let left = placed_map(w);
        let right = placed_map(v0).insert(id@, (x, y));
        assert(w[i as int].id@ == id@);
        assert forall|t: Seq<char>| #[trigger] left.dom().contains(t) <==> right.dom().contains(
            t,
        ) by {
            if left.dom().contains(t) {
                let k = choose|k: int| 0 <= k < w.len() && #[trigger] w[k].id@ == t;
                if k != i {
                    let s = if present || k < i {
                        k
                    } else {
                        k - 1
                    };
                    assert(w[k] == v0[s]);
                    assert(v0[s].id@ == t);
                }
            }
            if right.dom().contains(t) && t != id@ {
                let k = choose|k: int| 0 <= k < v0.len() && #[trigger] v0[k].id@ == t;
                let s = if present || k < i {
                    k
                } else {
                    k + 1
                };
                assert(w[s] == v0[k]);
                assert(w[s].id@ == t);
            }
        }
        assert forall|t: Seq<char>| #[trigger] left.dom().contains(t) implies left[t]
            == right[t] by {
            if t != id@ {
                let k = choose|k: int| 0 <= k < v0.len() && #[trigger] v0[k].id@ == t;
                let s = if present || k < i {
                    k
                } else {
                    k + 1
                };
                assert(w[s] == v0[k]);
                assert(left[w[s].id@] == (w[s].x, w[s].y));
            } else {
                assert(left[w[i as int].id@] == (x, y));
            }
        }
        assert(left =~= right);
    }
}

/// The positions of the nodes, in the order of their ids.
pub fn sorted_positions(nodes: &Vec<VisualNode>) -> (r: Vec<Placed>)
    ensures
        ordered(r@),
        placed_map(r@) == node_positions(nodes@),
{
    let mut out: Vec<Placed> = Vec::new();
    let mut i: usize = 0;
    assert(nodes@.take(0) =~= Seq::<VisualNode>::empty());
    while i < nodes.len()
        invariant
            i <= nodes@.len(),
            ordered(out@),
            placed_map(out@) == node_positions(nodes@.take(i as int)),
        decreases nodes.len() - i,
    {
        assert(nodes@.take(i + 1).drop_last() =~= nodes@.take(i as int));
        assert(nodes@.take(i + 1).last() == nodes@[i as int]);
        place(&mut out, &nodes[i].id, nodes[i].x, nodes[i].y);
        i += 1;
    }
    assert(nodes@.take(i as int) =~= nodes@);
    out
}

/// The entry of a position.
pub open spec fn placed_entry(p: Placed) -> (YamlV, YamlV) {
    (
        YamlV::Text(p.id@),
        YamlV::Mapping(
            seq![
                (YamlV::Text("x"@), YamlV::Int(p.x as i64)),
                (YamlV::Text("y"@), YamlV::Int(p.y as i64)),
            ],
        ),
    )
}

/// The entries of positions.
pub open spec fn placed_entries(v: Seq<Placed>) -> Seq<(YamlV, YamlV)> {
    Seq::new(v.len(), |i: int| placed_entry(v[i]))
}

/// The `meta` value that records these positions.
pub open spec fn meta_value(entries: Seq<(YamlV, YamlV)>) -> YamlV {
    YamlV::Mapping(
        seq![
            (
                YamlV::Text("visual"@),
                YamlV::Mapping(
                    seq![(YamlV::Text("positions"@), YamlV::Mapping(entries))],
                ),
            ),
        ],
    )
}

fn single(key: &str, value: Yaml) -> (r: Yaml)
    ensures
        r@ == YamlV::Mapping(seq![(YamlV::Text(key@), value@)]),
{
    let mut v: Vec<(Yaml, Yaml)> = Vec::new();
    v.push((Yaml::Text(key.to_owned()), value));
    assert(pairs(v@) =~= seq![(YamlV::Text(key@), value@)]);
    let r: Yaml = Yaml::Mapping(v);
    proof {
        lemma_view(r);
    }
    r
}

/// The `meta` value that records where the nodes of a graph stand.
pub fn visual_meta_value(graph: &VisualPipelineGraph) -> (r: Yaml)
    ensures
        exists|v: Seq<Placed>|
            ordered(v) && placed_map(v) == node_positions(graph.nodes@) && r@ == meta_value(
                #[trigger] placed_entries(v),
            ),
{
    let placed: Vec<Placed> = sorted_positions(&graph.nodes);
    let mut entries: Vec<(Yaml, Yaml)> = Vec::new();
    let mut i: usize = 0;
    while i < placed.len()
        invariant
            i <= placed@.len(),
            pairs(entries@) == placed_entries(placed@).take(i as int),
        decreases placed.len() - i,
    {
        let ghost before = pairs(entries@);
        let p: &Placed = &placed[i];
        let mut at: Vec<(Yaml, Yaml)> = Vec::new();
        at.push((Yaml::Text("x".to_owned()), Yaml::Int(p.x as i64)));
        at.push((Yaml::Text("y".to_owned()), Yaml::Int(p.y as i64)));
        let ghost at_pairs = pairs(at@);
        assert(at_pairs =~= seq![
            (YamlV::Text("x"@), YamlV::Int(p.x as i64)),
            (YamlV::Text("y"@), YamlV::Int(p.y as i64)),
        ]);
        let value: Yaml = Yaml::Mapping(at);
        proof {
            lemma_view(value);
        }
        entries.push((Yaml::Text(p.id.clone()), value));
        assert(pairs(entries@) =~= before.push(placed_entry(*p)));
        assert(pairs(entries@) =~= placed_entries(placed@).take(i + 1));
        i += 1;
    }
    assert(placed_entries(placed@).take(i as int) =~= placed_entries(placed@));
    let positions: Yaml = Yaml::Mapping(entries);
    proof {
        lemma_view(positions);
    }
    single("visual", single("positions", positions))
}

proof fn lemma_recorded(v: Seq<Placed>)
    ensures
        recorded(placed_entries(v)) == placed_map(v),
    decreases v.len(),
{
    let entries = placed_entries(v);
    if v.len() > 0 {
        lemma_recorded(v.drop_last());
        assert(entries.drop_last() =~= placed_entries(v.drop_last()));
        let p = v.last();
        let at = placed_entry(p).1;
        let inner = seq![
            (YamlV::Text("x"@), YamlV::Int(p.x as i64)),
            (YamlV::Text("y"@), YamlV::Int(p.y as i64)),
        ];
        assert(at.untagged() == YamlV::Mapping(inner));
        reveal_strlit("x");
        reveal_strlit("y");
        assert("x"@[0] != "y"@[0]);
        assert(yaml_entry(inner, "x"@) == Some(YamlV::Int(p.x as i64)));
        assert(inner.drop_first()[0] == (YamlV::Text("y"@), YamlV::Int(p.y as i64)));
        assert(yaml_entry(inner, "y"@) == yaml_entry(inner.drop_first(), "y"@));
        assert(at.int_at("x"@) == p.x as i64);
        assert(at.int_at("y"@) == p.y as i64);
        assert(placed_entry(p).0.untagged() == YamlV::Text(p.id@));
    }
}

/// Recorded positions are read back as they were: a document whose `meta` entry records where
/// the nodes of a graph stand gives exactly those positions.
pub proof fn law_positions_round_trip(nodes: Seq<VisualNode>, v: Seq<Placed>, root: YamlV)
    requires
        placed_map(v) == node_positions(nodes),
        root.get("meta"@) == Some(meta_value(placed_entries(v))),
    ensures
        positions_in(root) == node_positions(nodes),
{
    lemma_recorded(v);
    let entries = placed_entries(v);
    let inner = seq![(YamlV::Text("positions"@), YamlV::Mapping(entries))];
    let outer = seq![(YamlV::Text("visual"@), YamlV::Mapping(inner))];
    let meta = meta_value(entries);
    assert(meta.untagged() == YamlV::Mapping(outer));
    assert(yaml_entry(outer, "visual"@) == Some(YamlV::Mapping(inner)));
    assert(YamlV::Mapping(inner).untagged() == YamlV::Mapping(inner));
    assert(yaml_entry(inner, "positions"@) == Some(YamlV::Mapping(entries)));
    assert(YamlV::Mapping(entries).untagged() == YamlV::Mapping(entries));
}

/// Whether no id stands twice.
pub open spec fn distinct_nodes(nodes: Seq<VisualNode>) -> bool {
    forall|i: int, j: int|
        0 <= i < j < nodes.len() ==> (#[trigger] nodes[i]).id@ != (#[trigger] nodes[j]).id@
}

/// Whether the nodes called start and end, and no others, are of those kinds.
pub open spec fn framed(nodes: Seq<VisualNode>) -> bool {
    forall|i: int|
        #![trigger nodes[i]]
        0 <= i < nodes.len() ==> {
            &&& nodes[i].node_type == VisualNodeType::Start <==> nodes[i].id@ == START_NODE_ID@
            &&& nodes[i].node_type == VisualNodeType::End <==> nodes[i].id@ == END_NODE_ID@
        }
}

proof fn lemma_no_duplicate(nodes: Seq<VisualNode>, k: int)
    requires
        0 <= k <= nodes.len(),
        first_duplicate(nodes, k) >= nodes.len(),
        forall|i: int| 0 <= i < k ==> !#[trigger] duplicate_at(nodes, i),
    ensures
        distinct_nodes(nodes),
    decreases nodes.len() - k,
{
    if k < nodes.len() {
        assert(!duplicate_at(nodes, k));
        lemma_no_duplicate(nodes, k + 1);
    } else {
        assert forall|i: int, j: int| 0 <= i < j < nodes.len() implies (#[trigger] nodes[i]).id@ != (
        #[trigger] nodes[j]).id@ by {
            assert(!duplicate_at(nodes, j));
        }
    }
}

proof fn lemma_node_positions(nodes: Seq<VisualNode>, i: int)
    requires
        distinct_nodes(nodes),
        0 <= i < nodes.len(),
    ensures
        node_positions(nodes).dom().contains(nodes[i].id@),
        node_positions(nodes)[nodes[i].id@] == (nodes[i].x, nodes[i].y),
    decreases nodes.len(),
{
    let head = nodes.drop_last();
    if i < head.len() {
        assert(distinct_nodes(head)) by {
            assert forall|a: int, b: int| 0 <= a < b < head.len() implies (#[trigger] head[a]).id@
                != (#[trigger] head[b]).id@ by {
                assert(head[a] == nodes[a] && head[b] == nodes[b]);
            }
        }
        assert(head[i] == nodes[i]);
        lemma_node_positions(head, i);
        assert(nodes[i].id@ != nodes[nodes.len() - 1].id@);
    }
}

/// The steps are all nodes but the start and the end.
proof fn lemma_step_nodes(nodes: Seq<VisualNode>)
    requires
        distinct_nodes(nodes),
        framed(nodes),
    ensures
        step_nodes(nodes).len() == nodes.len() - (if has_node(nodes, START_NODE_ID@) {
            1int
        } else {
            0int
        }) - (if has_node(nodes, END_NODE_ID@) {
            1int
        } else {
            0int
        }),
        forall|i: int|
            0 <= i < nodes.len() && is_step(#[trigger] nodes[i]) ==> step_nodes(nodes).contains(
                nodes[i],
            ),
        forall|k: int|
            0 <= k < step_nodes(nodes).len() ==> is_step(#[trigger] step_nodes(nodes)[k])
                && nodes.contains(step_nodes(nodes)[k]),
    decreases nodes.len(),
{
    reveal_strlit("__start__");
    reveal_strlit("__end__");
    assert(START_NODE_ID@.len() != END_NODE_ID@.len());
    if nodes.len() > 0 {
        let head = nodes.drop_last();
        let last = nodes.last();
        let top = nodes.len() - 1;
        assert(nodes[top] == last);
        assert forall|i: int| 0 <= i < head.len() implies #[trigger] head[i] == nodes[i] by {}
        assert(distinct_nodes(head)) by {
            assert forall|a: int, b: int| 0 <= a < b < head.len() implies (#[trigger] head[a]).id@
                != (#[trigger] head[b]).id@ by {
                assert(nodes[a].id@ != nodes[b].id@);
            }
        }
        assert(framed(head)) by {
            assert forall|i: int|
                #![trigger head[i]]
                0 <= i < head.len() implies {
                &&& head[i].node_type == VisualNodeType::Start <==> head[i].id@ == START_NODE_ID@
                &&& head[i].node_type == VisualNodeType::End <==> head[i].id@ == END_NODE_ID@
            } by {
                assert(nodes[i] == head[i]);
            }
        }
        lemma_step_nodes(head);
        assert forall|id: Seq<char>| #[trigger] has_node(nodes, id) <==> has_node(head, id)
            || last.id@ == id by {
            if has_node(nodes, id) {
                let i = choose|i: int| 0 <= i < nodes.len() && #[trigger] nodes[i].id@ == id;
                if i < head.len() {
                    assert(head[i].id@ == id);
                }
            }
            if has_node(head, id) {
                let i = choose|i: int| 0 <= i < head.len() && #[trigger] head[i].id@ == id;
                assert(nodes[i].id@ == id);
            }
            if last.id@ == id {
                assert(nodes[top].id@ == id);
            }
        }
        assert(!has_node(head, last.id@)) by {
            if has_node(head, last.id@) {
                let i = choose|i: int| 0 <= i < head.len() && #[trigger] head[i].id@ == last.id@;
                assert(nodes[i].id@ != nodes[top].id@);
            }
        }
        let steps = step_nodes(nodes);
        let before = step_nodes(head);
        assert forall|i: int| 0 <= i < nodes.len() && is_step(#[trigger] nodes[i]) implies
            steps.contains(nodes[i]) by {
            if i < head.len() {
                assert(head[i] == nodes[i]);
                let k = choose|k: int| 0 <= k < before.len() && before[k] == nodes[i];
                assert(steps[k] == nodes[i]);
            } else {
                assert(steps[steps.len() - 1] == nodes[i]);
            }
        }
        assert forall|k: int| 0 <= k < steps.len() implies is_step(#[trigger] steps[k])
            && nodes.contains(steps[k]) by {
            if k < before.len() {
                assert(steps[k] == before[k]);
                let i = choose|i: int| 0 <= i < head.len() && head[i] == before[k];
                assert(nodes[i] == steps[k]);
            } else {
                assert(nodes[top] == steps[k]);
            }
        }
    }
}

/// Whether a node stands for another: it has its id, its kind and its place.
pub open spec fn stands_for(a: VisualNode, b: VisualNode) -> bool {
    a.id@ == b.id@ && a.node_type == b.node_type && a.x == b.x && a.y == b.y
}

/// Whether a node of the picture stands for this one.
pub open spec fn drawn_in(node: VisualNode, picture: Seq<VisualNode>) -> bool {
    exists|j: int| 0 <= j < picture.len() && stands_for(#[trigger] picture[j], node)
}

/// A step that is drawn again stands for the node that it was made of.
proof fn lemma_redrawn_step(
    g: VisualPipelineGraph,
    d: PipelineDefinition,
    positions: Map<Seq<char>, (i32, i32)>,
    redrawn: VisualPipelineGraph,
    i: int,
    k: int,
)
    requires
        definition_of(d, g),
        graph_of(redrawn, d, positions),
        0 <= i < g.nodes@.len(),
        0 <= k < step_nodes(g.nodes@).len(),
        step_nodes(g.nodes@)[k] == g.nodes@[i],
        is_step(g.nodes@[i]),
        positions.dom().contains(g.nodes@[i].id@),
        positions[g.nodes@[i].id@] == (g.nodes@[i].x, g.nodes@[i].y),
    ensures
        k + 1 < redrawn.nodes@.len(),
        stands_for(redrawn.nodes@[k + 1], g.nodes@[i]),
{
    assert(step_of(d.steps@[k], step_nodes(g.nodes@)[k], edge_views(g.edges@)));
    assert(node_of(redrawn.nodes@[k + 1], d.steps@, k, positions));
}

/// The ends of a graph that is drawn again stand for the ends that it had.
proof fn lemma_redrawn_end(
    g: VisualPipelineGraph,
    d: PipelineDefinition,
    positions: Map<Seq<char>, (i32, i32)>,
    redrawn: VisualPipelineGraph,
    i: int,
)
    requires
        framed(g.nodes@),
        graph_of(redrawn, d, positions),
        0 <= i < g.nodes@.len(),
        positions.dom().contains(g.nodes@[i].id@),
        positions[g.nodes@[i].id@] == (g.nodes@[i].x, g.nodes@[i].y),
    ensures
        g.nodes@[i].id@ == START_NODE_ID@ ==> stands_for(redrawn.nodes@[0], g.nodes@[i]),
        g.nodes@[i].id@ == END_NODE_ID@ ==> stands_for(
            redrawn.nodes@[redrawn.nodes@.len() - 1],
            g.nodes@[i],
        ),
{
}

/// The nodes of a graph that is drawn again stand for those that it had, one for one.
proof fn lemma_redrawn_nodes(
    g: VisualPipelineGraph,
    d: PipelineDefinition,
    positions: Map<Seq<char>, (i32, i32)>,
    redrawn: VisualPipelineGraph,
)
    requires
        distinct_nodes(g.nodes@),
        framed(g.nodes@),
        has_node(g.nodes@, START_NODE_ID@),
        has_node(g.nodes@, END_NODE_ID@),
        definition_of(d, g),
        positions == node_positions(g.nodes@),
        graph_of(redrawn, d, positions),
    ensures
        redrawn.nodes@.len() == g.nodes@.len(),
        forall|i: int|
            0 <= i < g.nodes@.len() ==> #[trigger] drawn_in(g.nodes@[i], redrawn.nodes@),
        forall|j: int|
            0 <= j < redrawn.nodes@.len() ==> #[trigger] drawn_in(redrawn.nodes@[j], g.nodes@),
{
    let nodes = g.nodes@;
    let steps = step_nodes(nodes);
    let n = d.steps@.len() as int;
    lemma_step_nodes(nodes);
    assert forall|i: int| 0 <= i < nodes.len() implies #[trigger] drawn_in(
        nodes[i],
        redrawn.nodes@,
    ) by {
        lemma_node_positions(nodes, i);
        lemma_redrawn_end(g, d, positions, redrawn, i);
        if is_step(nodes[i]) {
            let k = choose|k: int| 0 <= k < steps.len() && steps[k] == nodes[i];
            lemma_redrawn_step(g, d, positions, redrawn, i, k);
            assert(stands_for(redrawn.nodes@[k + 1], nodes[i]));
        } else if nodes[i].id@ == START_NODE_ID@ {
            assert(stands_for(redrawn.nodes@[0], nodes[i]));
        } else {
            assert(stands_for(redrawn.nodes@[n + 1], nodes[i]));
        }
    }
    assert forall|j: int| 0 <= j < redrawn.nodes@.len() implies #[trigger] drawn_in(
        redrawn.nodes@[j],
        nodes,
    ) by {
        let i = if j == 0 {
            choose|i: int| 0 <= i < nodes.len() && #[trigger] nodes[i].id@ == START_NODE_ID@
        } else if j == n + 1 {
            choose|i: int| 0 <= i < nodes.len() && #[trigger] nodes[i].id@ == END_NODE_ID@
        } else {
            choose|i: int| 0 <= i < nodes.len() && nodes[i] == steps[j - 1]
        };
        if 0 < j < n + 1 {
            assert(nodes.contains(steps[j - 1]));
        }
        lemma_node_positions(nodes, i);
        if 0 < j < n + 1 {
            lemma_redrawn_step(g, d, positions, redrawn, i, j - 1);
        } else {
            lemma_redrawn_end(g, d, positions, redrawn, i);
        }
        assert(stands_for(nodes[i], redrawn.nodes@[j]));
    }
}

/// A graph that is made into a pipeline and drawn again from the document that records its
/// positions is the same picture: it has the pipeline's name and version and as many nodes as
/// before, and each node keeps its id, its kind and its place. The graph's start and end node are
/// those of that name.
pub proof fn law_a_redrawn_graph_is_the_same(
    g: VisualPipelineGraph,
    d: PipelineDefinition,
    v: Seq<Placed>,
    root: YamlV,
    redrawn: VisualPipelineGraph,
)
    requires
        graph_error(g) is None,
        framed(g.nodes@),
        definition_of(d, g),
        placed_map(v) == node_positions(g.nodes@),
        root.get("meta"@) == Some(meta_value(placed_entries(v))),
        graph_of(redrawn, d, positions_in(root)),
    ensures
        redrawn.name@ == d.name@,
        redrawn.version@ == d.version@,
        redrawn.nodes@.len() == g.nodes@.len(),
        forall|i: int|
            0 <= i < g.nodes@.len() ==> #[trigger] drawn_in(g.nodes@[i], redrawn.nodes@),
        forall|j: int|
            0 <= j < redrawn.nodes@.len() ==> #[trigger] drawn_in(redrawn.nodes@[j], g.nodes@),
{
    law_positions_round_trip(g.nodes@, v, root);
    lemma_no_duplicate(g.nodes@, 0);
    lemma_redrawn_nodes(g, d, positions_in(root), redrawn);
}

/// A place is written down under its own coordinates: across under `x` and down under `y`, and is
/// read from there.
pub proof fn law_places_are_written_by_coordinate(p: Placed, entries: Seq<(YamlV, YamlV)>)
    ensures
        placed_entry(p).0 == YamlV::Text(p.id@),
        placed_entry(p).1.int_at("x"@) == p.x,
        placed_entry(p).1.int_at("y"@) == p.y,
        recorded(entries.push(placed_entry(p))) == recorded(entries).insert(p.id@, (p.x, p.y)),
{
    reveal_strlit("x");
    reveal_strlit("y");
    assert("x"@[0] == 'x' && "y"@[0] == 'y');
    let map = placed_entry(p).1->Mapping_0;
    reveal_with_fuel(yaml_entry, 3);
    assert(map.drop_first()[0] == map[1]);
    assert(entries.push(placed_entry(p)).drop_last() =~= entries);
}

} // verus!
