//! The visual pipeline builder: from a drawn graph to a pipeline.

use crate::json::{parse_json, parsed, Json, JsonV};
use crate::pipeline::{OnFailure, PipelineDefinition, PipelineStep, StepAction};
use crate::stream::Cost;
use crate::text::{
    ascii_alnum, ascii_lowered, chars_of, first_chars, is_ascii_alnum, is_blank, opt_text, same,
    string_of, take_chars, texts, to_ascii_lower, trim, trim_by, trim_chars, trimmed, Cut,
};
use vstd::prelude::*;

verus! {

/// The id of the node that stands for the pipeline's input.
pub const START_NODE_ID: &'static str = "__start__";

/// The id of the node that stands for the pipeline's output.
pub const END_NODE_ID: &'static str = "__end__";

/// The query of the pipeline list.
pub struct ListQuery {
    pub partial: Option<String>,
}

/// What a node stands for.
#[derive(Clone, Copy, Debug, PartialEq, Eq, Structural)]
pub enum VisualNodeType {
    Start,
    Agent,
    Tool,
    End,
}

/// The settings of a node.
pub struct VisualNodeConfig {
    pub agent_name: String,
    pub task: String,
    pub tool_name: String,
    pub tool_input_json: String,
    pub output_var: String,
    pub timeout_minutes: Option<u64>,
    pub retry_on_failure: Option<u32>,
    pub retry_backoff_ms: Option<u64>,
    pub retry_max_delay_ms: Option<u64>,
    pub on_failure: String,
    pub default_value: String,
}

impl VisualNodeConfig {
    /// Whether nothing is set.
    pub open spec fn is_blank(self) -> bool {
        &&& self.agent_name@.len() == 0
        &&& self.task@.len() == 0
        &&& self.tool_name@.len() == 0
        &&& self.tool_input_json@.len() == 0
        &&& self.output_var@.len() == 0
        &&& self.timeout_minutes is None
        &&& self.retry_on_failure is None
        &&& self.retry_backoff_ms is None
        &&& self.retry_max_delay_ms is None
        &&& self.on_failure@.len() == 0
        &&& self.default_value@.len() == 0
    }
}

impl Default for VisualNodeConfig {
    fn default() -> (r: Self)
        ensures
            r.is_blank(),
    {
        VisualNodeConfig {
            agent_name: String::new(),
            task: String::new(),
            tool_name: String::new(),
            tool_input_json: String::new(),
            output_var: String::new(),
            timeout_minutes: None,
            retry_on_failure: None,
            retry_backoff_ms: None,
            retry_max_delay_ms: None,
            on_failure: String::new(),
            default_value: String::new(),
        }
    }
}

/// A node of the drawn graph.
pub struct VisualNode {
    pub id: String,
    pub node_type: VisualNodeType,
    pub label: String,
    pub x: i32,
    pub y: i32,
    pub config: VisualNodeConfig,
}

/// A connection of the drawn graph.
pub struct VisualEdge {
    pub id: String,
    pub source: String,
    pub target: String,
}

/// A drawn pipeline.
pub struct VisualPipelineGraph {
    pub name: String,
    pub version: String,
    pub description: String,
    pub output: Option<String>,
    pub max_cost_usd: Option<Cost>,
    pub max_wall_time_minutes: Option<u64>,
    pub nodes: Vec<VisualNode>,
    pub edges: Vec<VisualEdge>,
}

/// The envelope of a graph that is saved.
pub struct GraphEnvelope {
    pub graph: VisualPipelineGraph,
}

/// A request to draw a pipeline from its YAML.
pub struct ImportRequest {
    pub yaml: String,
}

/// A request for the YAML of a graph.
pub struct ExportRequest {
    pub graph: VisualPipelineGraph,
}

/// The answer to a saved graph.
pub struct SaveResponse {
    pub name: String,
    pub version: String,
    pub step_count: usize,
}

/// A request to run a pipeline.
pub struct RunRequest {
    pub pipeline_name: String,
    pub input: String,
    pub agent_name: String,
}

/// The answer to a run request.
pub struct RunResponse {
    pub run_id: String,
    pub status: String,
}

/// The form that copies a pipeline.
pub struct CloneForm {
    pub name: Option<String>,
}

/// The content of a connection.
pub struct EdgeV {
    pub id: Seq<char>,
    pub source: Seq<char>,
    pub target: Seq<char>,
}

impl View for VisualEdge {
    type V = EdgeV;

    open spec fn view(&self) -> EdgeV {
        EdgeV { id: self.id@, source: self.source@, target: self.target@ }
    }
}

/// The contents of the connections.
pub open spec fn edge_views(edges: Seq<VisualEdge>) -> Seq<EdgeV> {
    Seq::new(edges.len(), |i: int| edges[i]@)
}

// ---------------------------------------------------------------------------
// Identifiers and settings
// ---------------------------------------------------------------------------

/// The character as it stands in an identifier: ASCII letters in lower case, digits and
/// underscores stay, everything else becomes an underscore.
pub open spec fn identifier_char(c: char) -> char {
    if ascii_alnum(c) || c == '_' {
        to_ascii_lower(c)
    } else {
        '_'
    }
}

/// The text with each run of underscores made one.
pub open spec fn squeezed(s: Seq<char>) -> Seq<char>
    decreases s.len(),
{
    if s.len() == 0 {
        s
    } else {
        let before = squeezed(s.drop_last());
        if s.last() == '_' && before.len() > 0 && before.last() == '_' {
            before
        } else {
            before.push(s.last())
        }
    }
}

/// The text as an identifier: lower-case ASCII, single underscores, none at the ends.
pub open spec fn identifier(s: Seq<char>) -> Seq<char> {
    trim_by(squeezed(Seq::new(s.len(), |i: int| identifier_char(s[i]))), Cut::Is('_'))
}

/// Makes an identifier of a text.
pub fn sanitize_identifier(value: &str) -> (r: String)
    ensures
        r@ == identifier(value@),
{
    let v: Vec<char> = chars_of(value);
    let ghost mapped = Seq::new(value@.len(), |i: int| identifier_char(value@[i]));
    let mut out: Vec<char> = Vec::new();
    let mut i: usize = 0;
    assert(mapped.take(0) =~= Seq::<char>::empty());
    while i < v.len()
        invariant
            i <= v@.len(),
            v@ == value@,
            mapped == Seq::new(value@.len(), |i: int| identifier_char(value@[i])),
            out@ == squeezed(mapped.take(i as int)),
        decreases v.len() - i,
    {
        let c: char = v[i];
        let d: char = if is_ascii_alnum(c) || c == '_' {
            ascii_lowered(c)
        } else {
            '_'
        };
        assert(mapped.take(i + 1).drop_last() =~= mapped.take(i as int));
        assert(mapped.take(i + 1).last() == d);
        let repeated: bool = d == '_' && out.len() > 0 && out[out.len() - 1] == '_';
        if !repeated {
            out.push(d);
        }
        i += 1;
    }
    assert(mapped.take(i as int) =~= mapped);
    let t: Vec<char> = trim_chars(&out, Cut::Is('_'));
    string_of(&t)
}

/// The variable that a step's output goes to: the one that is set, or one made of its id.
pub open spec fn output_var_of(node: VisualNode) -> Seq<char> {
    if trim(node.config.output_var@).len() > 0 {
        trim(node.config.output_var@)
    } else {
        identifier(node.id@) + "_output"@
    }
}

/// The variable that a step's output goes to.
pub fn step_output_var(node: &VisualNode) -> (r: String)
    ensures
        r@ == output_var_of(*node),
{
    let set: String = trimmed(node.config.output_var.as_str());
    if !set.as_str().is_empty() {
        set
    } else {
        let mut out: String = sanitize_identifier(node.id.as_str());
        out.push_str("_output");
        out
    }
}

/// What the setting says of a failure, or nothing where it says something else.
pub open spec fn failure_rule(value: Seq<char>) -> Option<OnFailure> {
    let v = trim(value);
    if v.len() == 0 || v == "fail"@ {
        Some(OnFailure::Fail)
    } else if v == "skip"@ {
        Some(OnFailure::Skip)
    } else if v == "use_default"@ {
        Some(OnFailure::UseDefault)
    } else {
        None
    }
}

/// What the setting says of a failure.
pub fn parse_on_failure(value: &str) -> (r: Result<OnFailure, String>)
    ensures
        match r {
            Ok(f) => failure_rule(value@) == Some(f),
            Err(m) => failure_rule(value@) is None && m@ == "Unsupported on_failure value '"@
                + trim(value@) + "'"@,
        },
{
    let v: String = trimmed(value);
    if v.as_str().is_empty() || same(v.as_str(), "fail") {
        Ok(OnFailure::Fail)
    } else if same(v.as_str(), "skip") {
        Ok(OnFailure::Skip)
    } else if same(v.as_str(), "use_default") {
        Ok(OnFailure::UseDefault)
    } else {
        Err(quoted("Unsupported on_failure value '", v.as_str(), "'"))
    }
}

/// `before`, `middle` and `after` in one text.
fn quoted(before: &str, middle: &str, after: &str) -> (r: String)
    ensures
        r@ == before@ + middle@ + after@,
{
    let mut out: String = before.to_owned();
    out.push_str(middle);
    out.push_str(after);
    out
}

/// The text, where it is not blank.
pub open spec fn unless_blank(s: Seq<char>) -> Option<Seq<char>> {
    if trim(s).len() == 0 {
        None
    } else {
        Some(s)
    }
}

// ---------------------------------------------------------------------------
// The rules of a graph
// ---------------------------------------------------------------------------

/// Whether a node has this id.
pub open spec fn has_node(nodes: Seq<VisualNode>, id: Seq<char>) -> bool {
    exists|i: int| 0 <= i < nodes.len() && #[trigger] nodes[i].id@ == id
}

/// The index of the first node with this id, or the number of nodes.
pub open spec fn node_index(nodes: Seq<VisualNode>, id: Seq<char>) -> int
    decreases nodes.len(),
{
    if nodes.len() == 0 || nodes[0].id@ == id {
        0
    } else {
        1 + node_index(nodes.drop_first(), id)
    }
}

proof fn lemma_node_index(nodes: Seq<VisualNode>, id: Seq<char>)
    ensures
        0 <= node_index(nodes, id) <= nodes.len(),
        has_node(nodes, id) <==> node_index(nodes, id) < nodes.len(),
        node_index(nodes, id) < nodes.len() ==> nodes[node_index(nodes, id)].id@ == id,
    decreases nodes.len(),
{
    if nodes.len() == 0 || nodes[0].id@ == id {
        if nodes.len() > 0 {
            assert(nodes[0].id@ == id);
        }
    } else {
        let rest = nodes.drop_first();
        lemma_node_index(rest, id);
        if has_node(nodes, id) {
            let i = choose|i: int| 0 <= i < nodes.len() && #[trigger] nodes[i].id@ == id;
            assert(rest[i - 1].id@ == id);
        }
        if node_index(rest, id) < rest.len() {
            assert(nodes[node_index(rest, id) + 1].id@ == id);
        }
    }
}

/// The index of the first node with this id, or the number of nodes.
fn find_node(nodes: &Vec<VisualNode>, id: &str) -> (r: usize)
    ensures
        r == node_index(nodes@, id@),
        r <= nodes@.len(),
{
    let mut i: usize = 0;
    assert(nodes@.skip(0) =~= nodes@);
    while i < nodes.len()
        invariant
            i <= nodes@.len(),
            i + node_index(nodes@.skip(i as int), id@) == node_index(nodes@, id@),
        decreases nodes.len() - i,
    {
        assert(nodes@.skip(i as int)[0] == nodes@[i as int]);
        assert(nodes@.skip(i as int).drop_first() =~= nodes@.skip(i + 1));
        if same(nodes[i].id.as_str(), id) {
            return i;
        }
        i += 1;
    }
    i
}

fn node_exists(nodes: &Vec<VisualNode>, id: &str) -> (r: bool)
    ensures
        r == has_node(nodes@, id@),
{
    proof {
        lemma_node_index(nodes@, id@);
    }
    find_node(nodes, id) < nodes.len()
}

/// Whether an earlier node has the id of node `i`.
pub open spec fn duplicate_at(nodes: Seq<VisualNode>, i: int) -> bool {
    exists|j: int| 0 <= j < i && #[trigger] nodes[j].id@ == nodes[i].id@
}

/// The first node from `k` on whose id stands twice, or the number of nodes.
pub open spec fn first_duplicate(nodes: Seq<VisualNode>, k: int) -> int
    decreases nodes.len() - k,
{
    if k >= nodes.len() || duplicate_at(nodes, k) {
        k
    } else {
        first_duplicate(nodes, k + 1)
    }
}

fn find_duplicate(nodes: &Vec<VisualNode>) -> (r: usize)
    ensures
        r == first_duplicate(nodes@, 0),
        r <= nodes@.len(),
{
    let mut i: usize = 0;
    while i < nodes.len()
        invariant
            i <= nodes@.len(),
            first_duplicate(nodes@, 0) == first_duplicate(nodes@, i as int),
        decreases nodes.len() - i,
    {
        let mut j: usize = 0;
        while j < i
            invariant
                j <= i < nodes@.len(),
                forall|m: int| 0 <= m < j ==> #[trigger] nodes@[m].id@ != nodes@[i as int].id@,
                first_duplicate(nodes@, 0) == first_duplicate(nodes@, i as int),
            decreases i - j,
        {
            if same(nodes[j].id.as_str(), nodes[i].id.as_str()) {
                assert(nodes@[j as int].id@ == nodes@[i as int].id@);
                assert(duplicate_at(nodes@, i as int));
                return i;
            }
            j += 1;
        }
        assert(!duplicate_at(nodes@, i as int));
        i += 1;
    }
    i
}

/// Whether the connection starts or ends at a node that is not there.
pub open spec fn dangling(nodes: Seq<VisualNode>, edge: EdgeV) -> bool {
    !has_node(nodes, edge.source) || !has_node(nodes, edge.target)
}

/// The first connection from `k` on that dangles, or the number of connections.
pub open spec fn first_dangling(nodes: Seq<VisualNode>, edges: Seq<EdgeV>, k: int) -> int
    decreases edges.len() - k,
{
    if k >= edges.len() || dangling(nodes, edges[k]) {
        k
    } else {
        first_dangling(nodes, edges, k + 1)
    }
}

fn find_dangling(nodes: &Vec<VisualNode>, edges: &Vec<VisualEdge>) -> (r: usize)
    ensures
        r == first_dangling(nodes@, edge_views(edges@), 0),
        r <= edges@.len(),
{
    let mut i: usize = 0;
    while i < edges.len()
        invariant
            i <= edges@.len(),
            first_dangling(nodes@, edge_views(edges@), 0) == first_dangling(
                nodes@,
                edge_views(edges@),
                i as int,
            ),
        decreases edges.len() - i,
    {
        assert(edge_views(edges@)[i as int] == edges@[i as int]@);
        if !node_exists(nodes, edges[i].source.as_str()) || !node_exists(
            nodes,
            edges[i].target.as_str(),
        ) {
            return i;
        }
        i += 1;
    }
    i
}

/// The ids from which connections lead to `id`, in order.
pub open spec fn incoming(edges: Seq<EdgeV>, id: Seq<char>) -> Seq<Seq<char>>
    decreases edges.len(),
{
    if edges.len() == 0 {
        Seq::empty()
    } else {
        let before = incoming(edges.drop_last(), id);
        if edges.last().target == id {
            before.push(edges.last().source)
        } else {
            before
        }
    }
}

/// The ids that a step depends on: those that lead to it, without the start node.
pub open spec fn dependencies(edges: Seq<EdgeV>, id: Seq<char>) -> Seq<Seq<char>>
    decreases edges.len(),
{
    if edges.len() == 0 {
        Seq::empty()
    } else {
        let before = dependencies(edges.drop_last(), id);
        if edges.last().target == id && edges.last().source != START_NODE_ID@ {
            before.push(edges.last().source)
        } else {
            before
        }
    }
}

fn collect_incoming(edges: &Vec<VisualEdge>, id: &str, with_start: bool) -> (r: Vec<String>)
    ensures
        texts(r@) == (if with_start {
            incoming(edge_views(edges@), id@)
        } else {
            dependencies(edge_views(edges@), id@)
        }),
{
    let ghost all = edge_views(edges@);
    let mut out: Vec<String> = Vec::new();
    let mut i: usize = 0;
    assert(texts(out@) =~= Seq::<Seq<char>>::empty());
    assert(all.take(0) =~= Seq::<EdgeV>::empty());
    while i < edges.len()
        invariant
            i <= edges@.len(),
            all == edge_views(edges@),
            texts(out@) == (if with_start {
                incoming(all.take(i as int), id@)
            } else {
                dependencies(all.take(i as int), id@)
            }),
        decreases edges.len() - i,
    {
        let edge: &VisualEdge = &edges[i];
        let ghost out0 = out@;
        assert(all.take(i + 1).drop_last() =~= all.take(i as int));
        assert(all.take(i + 1).last() == edge@);
        if same(edge.target.as_str(), id) && (with_start || !same(
            edge.source.as_str(),
            START_NODE_ID,
        )) {
            out.push(edge.source.clone());
            assert(texts(out@) =~= texts(out0).push(edge.source@));
        }
        i += 1;
    }
    assert(all.take(i as int) =~= all);
    out
}

// ---------------------------------------------------------------------------
// Steps
// ---------------------------------------------------------------------------

/// Whether the node is a step.
pub open spec fn is_step(node: VisualNode) -> bool {
    node.node_type == VisualNodeType::Agent || node.node_type == VisualNodeType::Tool
}

/// The nodes that are steps, in order.
pub open spec fn step_nodes(nodes: Seq<VisualNode>) -> Seq<VisualNode>
    decreases nodes.len(),
{
    if nodes.len() == 0 {
        Seq::empty()
    } else if is_step(nodes.last()) {
        step_nodes(nodes.drop_last()).push(nodes.last())
    } else {
        step_nodes(nodes.drop_last())
    }
}

/// What a tool's input text stands for: an empty object where it is blank, else what it
/// parses to.
pub open spec fn tool_input(text: Seq<char>) -> Result<JsonV, Seq<char>> {
    if trim(text).len() == 0 {
        Ok(JsonV::Object(Seq::empty()))
    } else {
        parsed(text)
    }
}

/// What is wrong with a node, if anything. An end node takes one connection at most. A step
/// needs a known failure rule; an agent step a name and a task; a tool step a name and an
/// input that parses. The first fault in this order counts.
pub open spec fn node_error(node: VisualNode, edges: Seq<EdgeV>) -> Option<Seq<char>> {
    match node.node_type {
        VisualNodeType::Start => None,
        VisualNodeType::End => if incoming(edges, node.id@).len() > 1 {
            Some("End node can only accept one incoming connection"@)
        } else {
            None
        },
        VisualNodeType::Agent => if failure_rule(node.config.on_failure@) is None {
            Some("Unsupported on_failure value '"@ + trim(node.config.on_failure@) + "'"@)
        } else if trim(node.config.agent_name@).len() == 0 {
            Some("Agent step '"@ + node.label@ + "' must specify an agent name"@)
        } else if trim(node.config.task@).len() == 0 {
            Some("Agent step '"@ + node.label@ + "' must specify a task"@)
        } else {
            None
        },
        VisualNodeType::Tool => if failure_rule(node.config.on_failure@) is None {
            Some("Unsupported on_failure value '"@ + trim(node.config.on_failure@) + "'"@)
        } else if trim(node.config.tool_name@).len() == 0 {
            Some("Tool step '"@ + node.label@ + "' must specify a tool name"@)
        } else {
            match tool_input(node.config.tool_input_json@) {
                Ok(_) => None,
                Err(m) => Some(
                    "Tool input JSON for '"@ + node.label@ + "' is invalid: "@ + m,
                ),
            }
        },
    }
}

/// Whether the action is the one that the node describes.
pub open spec fn action_of(action: StepAction, node: VisualNode) -> bool {
    match action {
        StepAction::Agent { agent, task } => node.node_type == VisualNodeType::Agent && agent@
            == trim(node.config.agent_name@) && task@ == trim(node.config.task@),
        StepAction::Tool { tool, input } => node.node_type == VisualNodeType::Tool && tool@ == trim(
            node.config.tool_name@,
        ) && tool_input(node.config.tool_input_json@) == Ok::<JsonV, Seq<char>>(input@),
    }
}

/// Whether the step is the one that the node describes.
pub open spec fn step_of(step: PipelineStep, node: VisualNode, edges: Seq<EdgeV>) -> bool {
    &&& step.id@ == node.id@
    &&& action_of(step.action, node)
    &&& opt_text(step.output_var) == Some(output_var_of(node))
    &&& texts(step.depends_on@) == dependencies(edges, node.id@)
    &&& step.timeout_minutes == node.config.timeout_minutes
    &&& step.retry_on_failure == node.config.retry_on_failure
    &&& step.retry_backoff_ms == node.config.retry_backoff_ms
    &&& step.retry_max_delay_ms == node.config.retry_max_delay_ms
    &&& failure_rule(node.config.on_failure@) == Some(step.on_failure)
    &&& opt_text(step.default_value) == unless_blank(node.config.default_value@)
}

/// The action of a tool step whose input text parsed to `input`.
pub fn tool_action(tool: String, label: &str, input: Result<Json, String>) -> (r: Result<
    StepAction,
    String,
>)
    ensures
        match input {
            Ok(j) => r == Ok::<StepAction, String>(StepAction::Tool { tool, input: j }),
            Err(m) => r is Err && r->Err_0@ == "Tool input JSON for '"@ + label@ + "' is invalid: "@
                + m@,
        },
{
    match input {
        Ok(j) => Ok(StepAction::Tool { tool, input: j }),
        Err(m) => {
            let mut out: String = quoted("Tool input JSON for '", label, "' is invalid: ");
            out.push_str(m.as_str());
            Err(out)
        },
    }
}

/// The action of a step node.
fn node_action(node: &VisualNode) -> (r: Result<StepAction, String>)
    requires
        is_step(*node),
        failure_rule(node.config.on_failure@) is Some,
    ensures
        forall|edges: Seq<EdgeV>|
            match r {
                Ok(a) => #[trigger] node_error(*node, edges) is None && action_of(a, *node),
                Err(m) => node_error(*node, edges) == Some(m@),
            },
{
    match node.node_type {
        VisualNodeType::Agent => {
            let agent: String = trimmed(node.config.agent_name.as_str());
            let task: String = trimmed(node.config.task.as_str());
            if agent.as_str().is_empty() {
                return Err(
                    quoted("Agent step '", node.label.as_str(), "' must specify an agent name"),
                );
            }
            if task.as_str().is_empty() {
                return Err(quoted("Agent step '", node.label.as_str(), "' must specify a task"));
            }
            Ok(StepAction::Agent { agent, task })
        },
        _ => {
            let tool: String = trimmed(node.config.tool_name.as_str());
            if tool.as_str().is_empty() {
                return Err(
                    quoted("Tool step '", node.label.as_str(), "' must specify a tool name"),
                );
            }
            let input: Result<Json, String> = if is_blank(node.config.tool_input_json.as_str()) {
                let empty: Json = Json::Object(Vec::new());
                proof {
                    crate::json::lemma_view(empty);
                    assert(empty@->Object_0 =~= Seq::<(Seq<char>, JsonV)>::empty());
                }
                Ok(empty)
            } else {
                parse_json(node.config.tool_input_json.as_str())
            };
            tool_action(tool, node.label.as_str(), input)
        },
    }
}

/// The step that a node describes.
pub fn step_of_node(node: &VisualNode, edges: &Vec<VisualEdge>) -> (r: Result<
    PipelineStep,
    String,
>)
    requires
        is_step(*node),
    ensures
        match r {
            Ok(s) => node_error(*node, edge_views(edges@)) is None && step_of(
                s,
                *node,
                edge_views(edges@),
            ),
            Err(m) => node_error(*node, edge_views(edges@)) == Some(m@),
        },
{
    let output_var: String = step_output_var(node);
    let depends_on: Vec<String> = collect_incoming(edges, node.id.as_str(), false);
    let on_failure: OnFailure = match parse_on_failure(node.config.on_failure.as_str()) {
        Ok(f) => f,
        Err(m) => {
            return Err(m);
        },
    };
    let default_value: Option<String> = if is_blank(node.config.default_value.as_str()) {
        None
    } else {
        Some(node.config.default_value.clone())
    };
    let action: StepAction = match node_action(node) {
        Ok(a) => a,
        Err(m) => {
            assert(node_error(*node, edge_views(edges@)) == Some(m@));
            return Err(m);
        },
    };
    assert(node_error(*node, edge_views(edges@)) is None);
    Ok(
        PipelineStep {
            id: node.id.clone(),
            action,
            output_var: Some(output_var),
            depends_on,
            timeout_minutes: node.config.timeout_minutes,
            retry_on_failure: node.config.retry_on_failure,
            retry_backoff_ms: node.config.retry_backoff_ms,
            retry_max_delay_ms: node.config.retry_max_delay_ms,
            on_failure,
            default_value,
        },
    )
}

/// What is wrong with the first faulty node from `k` on.
pub open spec fn first_node_error(
    nodes: Seq<VisualNode>,
    edges: Seq<EdgeV>,
    k: int,
) -> Option<Seq<char>>
    decreases nodes.len() - k,
{
    if k >= nodes.len() {
        None
    } else if node_error(nodes[k], edges) is Some {
        node_error(nodes[k], edges)
    } else {
        first_node_error(nodes, edges, k + 1)
    }
}

/// The output variable of the pipeline: that of the node that leads to the last end node
/// which has a connection.
pub open spec fn graph_output(
    nodes: Seq<VisualNode>,
    all: Seq<VisualNode>,
    edges: Seq<EdgeV>,
) -> Option<Seq<char>>
    decreases nodes.len(),
{
    if nodes.len() == 0 {
        None
    } else {
        let node = nodes.last();
        let inputs = incoming(edges, node.id@);
        if node.node_type == VisualNodeType::End && inputs.len() > 0 {
            Some(output_var_of(all[node_index(all, inputs[0])]))
        } else {
            graph_output(nodes.drop_last(), all, edges)
        }
    }
}

/// Whether a connection leads from `id` to a node that is neither a step nor the end.
pub open spec fn leads_astray(nodes: Seq<VisualNode>, edges: Seq<EdgeV>, id: Seq<char>) -> bool {
    exists|e: int|
        0 <= e < edges.len() && #[trigger] edges[e].source == id && edges[e].target != END_NODE_ID@
            && !has_node(step_nodes(nodes), edges[e].target)
}

/// The first step from `k` on that leads astray, or the number of steps.
pub open spec fn first_astray(nodes: Seq<VisualNode>, edges: Seq<EdgeV>, k: int) -> int
    decreases step_nodes(nodes).len() - k,
{
    if k >= step_nodes(nodes).len() || leads_astray(nodes, edges, step_nodes(nodes)[k].id@) {
        k
    } else {
        first_astray(nodes, edges, k + 1)
    }
}

/// What is wrong with a graph, if anything. The checks come in this order: name, version,
/// ids that stand twice, start and end node, dangling connections, the nodes one by one, and
/// steps that lead astray.
pub open spec fn graph_error(graph: VisualPipelineGraph) -> Option<Seq<char>> {
    let nodes = graph.nodes@;
    let edges = edge_views(graph.edges@);
    let dup = first_duplicate(nodes, 0);
    let bad = first_dangling(nodes, edges, 0);
    let astray = first_astray(nodes, edges, 0);
    if trim(graph.name@).len() == 0 {
        Some("Pipeline name is required"@)
    } else if trim(graph.version@).len() == 0 {
        Some("Pipeline version is required"@)
    } else if dup < nodes.len() {
        Some("Duplicate node ID '"@ + nodes[dup].id@ + "'"@)
    } else if !has_node(nodes, START_NODE_ID@) {
        Some("Visual graph is missing a Start node"@)
    } else if !has_node(nodes, END_NODE_ID@) {
        Some("Visual graph is missing an End node"@)
    } else if bad < edges.len() {
        Some("Edge '"@ + edges[bad].id + "' points to a missing node"@)
    } else if first_node_error(nodes, edges, 0) is Some {
        first_node_error(nodes, edges, 0)
    } else if astray < step_nodes(nodes).len() {
        Some("Step '"@ + step_nodes(nodes)[astray].id@ + "' has an invalid outgoing connection"@)
    } else {
        None
    }
}

/// Whether the steps are those that the nodes describe, in order.
pub open spec fn steps_of(
    steps: Seq<PipelineStep>,
    nodes: Seq<VisualNode>,
    edges: Seq<EdgeV>,
) -> bool {
    &&& steps.len() == step_nodes(nodes).len()
    &&& forall|i: int|
        0 <= i < steps.len() ==> step_of(#[trigger] steps[i], step_nodes(nodes)[i], edges)
}

/// Whether the pipeline is the one that the graph draws.
pub open spec fn definition_of(d: PipelineDefinition, graph: VisualPipelineGraph) -> bool {
    &&& d.name@ == trim(graph.name@)
    &&& d.version@ == trim(graph.version@)
    &&& opt_text(d.description) == (if trim(graph.description@).len() == 0 {
        None
    } else {
        Some(trim(graph.description@))
    })
    &&& d.permissions@.len() == 0
    &&& steps_of(d.steps@, graph.nodes@, edge_views(graph.edges@))
    &&& opt_text(d.output) == graph_output(
        graph.nodes@,
        graph.nodes@,
        edge_views(graph.edges@),
    )
    &&& d.max_cost_usd == graph.max_cost_usd
    &&& d.max_wall_time_minutes == graph.max_wall_time_minutes
}

proof fn lemma_incoming_exist(nodes: Seq<VisualNode>, edges: Seq<EdgeV>, id: Seq<char>, n: int)
    requires
        0 <= n <= edges.len(),
        forall|e: int| 0 <= e < edges.len() ==> !dangling(nodes, #[trigger] edges[e]),
    ensures
        forall|i: int|
            0 <= i < incoming(edges.take(n), id).len() ==> has_node(
                nodes,
                #[trigger] incoming(edges.take(n), id)[i],
            ),
    decreases n,
{
    if n > 0 {
        lemma_incoming_exist(nodes, edges, id, n - 1);
        assert(edges.take(n).drop_last() =~= edges.take(n - 1));
        assert(edges.take(n).last() == edges[n - 1]);
        assert(!dangling(nodes, edges[n - 1]));
        let before = incoming(edges.take(n - 1), id);
        let after = incoming(edges.take(n), id);
        assert forall|i: int| 0 <= i < after.len() implies has_node(nodes, #[trigger] after[i]) by {
            if i < before.len() {
                assert(has_node(nodes, before[i]));
                assert(before[i] == after[i]);
            }
        }
    }
}

proof fn lemma_no_dangling(nodes: Seq<VisualNode>, edges: Seq<EdgeV>, k: int)
    requires
        0 <= k,
        first_dangling(nodes, edges, k) >= edges.len(),
    ensures
        forall|e: int| k <= e < edges.len() ==> !dangling(nodes, #[trigger] edges[e]),
    decreases edges.len() - k,
{
    if k < edges.len() {
        lemma_no_dangling(nodes, edges, k + 1);
    }
}

/// The steps of the nodes and the output variable, or what is wrong with the first faulty
/// node.
fn collect_steps(nodes: &Vec<VisualNode>, edges: &Vec<VisualEdge>) -> (r: Result<
    (Vec<PipelineStep>, Option<String>),
    String,
>)
    requires
        first_dangling(nodes@, edge_views(edges@), 0) >= edges@.len(),
    ensures
        match r {
            Ok(p) => first_node_error(nodes@, edge_views(edges@), 0) is None && steps_of(
                p.0@,
                nodes@,
                edge_views(edges@),
            ) && opt_text(p.1) == graph_output(nodes@, nodes@, edge_views(edges@)),
            Err(m) => first_node_error(nodes@, edge_views(edges@), 0) == Some(m@),
        },
{
    let ghost all = edge_views(edges@);
    proof {
        lemma_no_dangling(nodes@, all, 0);
        assert(all.take(all.len() as int) =~= all);
        assert(nodes@.take(0) =~= Seq::<VisualNode>::empty());
    }
    let mut steps: Vec<PipelineStep> = Vec::new();
    let mut output: Option<String> = None;
    let mut i: usize = 0;
    while i < nodes.len()
        invariant
            i <= nodes@.len(),
            all == edge_views(edges@),
            all.take(all.len() as int) == all,
            forall|e: int| 0 <= e < all.len() ==> !dangling(nodes@, #[trigger] all[e]),
            first_node_error(nodes@, all, 0) == first_node_error(nodes@, all, i as int),
            steps_of(steps@, nodes@.take(i as int), all),
            opt_text(output) == graph_output(nodes@.take(i as int), nodes@, all),
        decreases nodes.len() - i,
    {
        let node: &VisualNode = &nodes[i];
        assert(nodes@.take(i + 1).drop_last() =~= nodes@.take(i as int));
        assert(nodes@.take(i + 1).last() == *node);
        match node.node_type {
            VisualNodeType::Start => {},
            VisualNodeType::End => {
                let inputs: Vec<String> = collect_incoming(edges, node.id.as_str(), true);
                assert(inputs@.len() == texts(inputs@).len());
                if inputs.len() > 1 {
                    return Err("End node can only accept one incoming connection".to_owned());
                }
                if inputs.len() == 1 {
                    proof {
                        lemma_incoming_exist(nodes@, all, node.id@, all.len() as int);
                        assert(incoming(all.take(all.len() as int), node.id@)[0]
                            == inputs@[0]@);
                        lemma_node_index(nodes@, inputs@[0]@);
                    }
                    let source: usize = find_node(nodes, inputs[0].as_str());
                    output = Some(step_output_var(&nodes[source]));
                }
            },
            _ => {
                match step_of_node(node, edges) {
                    Ok(step) => {
                        let ghost steps0 = steps@;
                        steps.push(step);
                        assert forall|k: int| 0 <= k < steps@.len() implies step_of(
                            #[trigger] steps@[k],
                            step_nodes(nodes@.take(i + 1))[k],
                            all,
                        ) by {
                            if k < steps0.len() {
                                assert(steps@[k] == steps0[k]);
                            }
                        }
                    },
                    Err(m) => {
                        return Err(m);
                    },
                }
            },
        }
        i += 1;
    }
    assert(nodes@.take(i as int) =~= nodes@);
    Ok((steps, output))
}

/// The first step that leads astray, or the number of steps.
fn find_astray(
    steps: &Vec<PipelineStep>,
    edges: &Vec<VisualEdge>,
    Ghost(nodes): Ghost<Seq<VisualNode>>,
) -> (r: usize)
    requires
        steps_of(steps@, nodes, edge_views(edges@)),
    ensures
        r == first_astray(nodes, edge_views(edges@), 0),
        r <= steps@.len(),
{
    let ghost all = edge_views(edges@);
    let mut i: usize = 0;
    while i < steps.len()
        invariant
            i <= steps@.len(),
            all == edge_views(edges@),
            steps_of(steps@, nodes, all),
            first_astray(nodes, all, 0) == first_astray(nodes, all, i as int),
        decreases steps.len() - i,
    {
        let ghost id = step_nodes(nodes)[i as int].id@;
        assert(step_of(steps@[i as int], step_nodes(nodes)[i as int], all));
        let mut e: usize = 0;
        while e < edges.len()
            invariant
                e <= edges@.len(),
                i < steps@.len(),
                all == edge_views(edges@),
                steps_of(steps@, nodes, all),
                id == steps@[i as int].id@,
                id == step_nodes(nodes)[i as int].id@,
                first_astray(nodes, all, 0) == first_astray(nodes, all, i as int),
                forall|m: int|
                    0 <= m < e ==> !(#[trigger] all[m].source == id && all[m].target
                        != END_NODE_ID@ && !has_node(step_nodes(nodes), all[m].target)),
            decreases edges.len() - e,
        {
            assert(all[e as int] == edges@[e as int]@);
            if same(edges[e].source.as_str(), steps[i].id.as_str()) && !same(
                edges[e].target.as_str(),
                END_NODE_ID,
            ) && !step_exists(steps, edges[e].target.as_str(), Ghost(nodes), Ghost(all)) {
                assert(all[e as int].source == id);
                assert(all[e as int].target != END_NODE_ID@);
                assert(!has_node(step_nodes(nodes), all[e as int].target));
                assert(leads_astray(nodes, all, id));
                return i;
            }
            e += 1;
        }
        assert(!leads_astray(nodes, all, id));
        i += 1;
    }
    i
}

fn step_exists(
    steps: &Vec<PipelineStep>,
    id: &str,
    Ghost(nodes): Ghost<Seq<VisualNode>>,
    Ghost(edges): Ghost<Seq<EdgeV>>,
) -> (r: bool)
    requires
        steps_of(steps@, nodes, edges),
    ensures
        r == has_node(step_nodes(nodes), id@),
{
    let mut i: usize = 0;
    while i < steps.len()
        invariant
            i <= steps@.len(),
            steps_of(steps@, nodes, edges),
            forall|m: int| 0 <= m < i ==> #[trigger] step_nodes(nodes)[m].id@ != id@,
        decreases steps.len() - i,
    {
        assert(step_of(steps@[i as int], step_nodes(nodes)[i as int], edges));
        if same(steps[i].id.as_str(), id) {
            assert(step_nodes(nodes)[i as int].id@ == id@);
            return true;
        }
        i += 1;
    }
    false
}

/// The pipeline that a graph draws, or what is wrong with the graph.
pub fn visual_graph_to_pipeline(graph: &VisualPipelineGraph) -> (r: Result<
    PipelineDefinition,
    String,
>)
    ensures
        match r {
            Ok(d) => graph_error(*graph) is None && definition_of(d, *graph),
            Err(m) => graph_error(*graph) == Some(m@),
        },
{
    let name: String = trimmed(graph.name.as_str());
    if name.as_str().is_empty() {
        return Err("Pipeline name is required".to_owned());
    }
    let version: String = trimmed(graph.version.as_str());
    if version.as_str().is_empty() {
        return Err("Pipeline version is required".to_owned());
    }
    let dup: usize = find_duplicate(&graph.nodes);
    if dup < graph.nodes.len() {
        return Err(quoted("Duplicate node ID '", graph.nodes[dup].id.as_str(), "'"));
    }
    if !node_exists(&graph.nodes, START_NODE_ID) {
        return Err("Visual graph is missing a Start node".to_owned());
    }
    if !node_exists(&graph.nodes, END_NODE_ID) {
        return Err("Visual graph is missing an End node".to_owned());
    }
    let bad: usize = find_dangling(&graph.nodes, &graph.edges);
    if bad < graph.edges.len() {
        assert(edge_views(graph.edges@)[bad as int] == graph.edges@[bad as int]@);
        return Err(quoted("Edge '", graph.edges[bad].id.as_str(), "' points to a missing node"));
    }
    let (steps, output) = match collect_steps(&graph.nodes, &graph.edges) {
        Ok(p) => p,
        Err(m) => {
            return Err(m);
        },
    };
    let astray: usize = find_astray(&steps, &graph.edges, Ghost(graph.nodes@));
    if astray < steps.len() {
        assert(step_of(
            steps@[astray as int],
            step_nodes(graph.nodes@)[astray as int],
            edge_views(graph.edges@),
        ));
        return Err(
            quoted("Step '", steps[astray].id.as_str(), "' has an invalid outgoing connection"),
        );
    }
    let description: String = trimmed(graph.description.as_str());
    Ok(
        PipelineDefinition {
            name,
            version,
            description: if description.as_str().is_empty() {
                None
            } else {
                Some(description)
            },
            permissions: Vec::new(),
            steps,
            output,
            max_cost_usd: graph.max_cost_usd,
            max_wall_time_minutes: graph.max_wall_time_minutes,
        },
    )
}

// ---------------------------------------------------------------------------
// Laws of a drawn pipeline
// ---------------------------------------------------------------------------

proof fn lemma_dependencies_exist(
    nodes: Seq<VisualNode>,
    edges: Seq<EdgeV>,
    id: Seq<char>,
    n: int,
)
    requires
        0 <= n <= edges.len(),
        forall|e: int| 0 <= e < edges.len() ==> !dangling(nodes, #[trigger] edges[e]),
    ensures
        forall|i: int|
            0 <= i < dependencies(edges.take(n), id).len() ==> has_node(
                nodes,
                #[trigger] dependencies(edges.take(n), id)[i],
            ) && dependencies(edges.take(n), id)[i] != START_NODE_ID@,
    decreases n,
{
    if n > 0 {
        lemma_dependencies_exist(nodes, edges, id, n - 1);
        assert(edges.take(n).drop_last() =~= edges.take(n - 1));
        assert(edges.take(n).last() == edges[n - 1]);
        assert(!dangling(nodes, edges[n - 1]));
        let before = dependencies(edges.take(n - 1), id);
        let after = dependencies(edges.take(n), id);
        assert forall|i: int| 0 <= i < after.len() implies has_node(nodes, #[trigger] after[i])
            && after[i] != START_NODE_ID@ by {
            if i < before.len() {
                assert(has_node(nodes, before[i]));
                assert(before[i] == after[i]);
            }
        }
    }
}

/// Whatever a graph is turned into, each of its steps depends on nodes of the graph alone,
/// and never on the start node.
pub proof fn law_dependencies_are_nodes(graph: VisualPipelineGraph, d: PipelineDefinition, i: int, k: int)
    requires
        graph_error(graph) is None,
        definition_of(d, graph),
        0 <= i < d.steps@.len(),
        0 <= k < d.steps@[i].depends_on@.len(),
    ensures
        has_node(graph.nodes@, d.steps@[i].depends_on@[k]@),
        d.steps@[i].depends_on@[k]@ != START_NODE_ID@,
{
    let edges = edge_views(graph.edges@);
    let node = step_nodes(graph.nodes@)[i];
    assert(step_of(d.steps@[i], node, edges));
    lemma_no_dangling(graph.nodes@, edges, 0);
    lemma_dependencies_exist(graph.nodes@, edges, node.id@, edges.len() as int);
    assert(edges.take(edges.len() as int) =~= edges);
    assert(texts(d.steps@[i].depends_on@)[k] == d.steps@[i].depends_on@[k]@);
    assert(dependencies(edges, node.id@)[k] == d.steps@[i].depends_on@[k]@);
    assert(has_node(graph.nodes@, dependencies(edges.take(edges.len() as int), node.id@)[k]));
}

proof fn lemma_failure_words()
    ensures
        "fail"@ != "skip"@,
        "fail"@ != "use_default"@,
        "skip"@ != "use_default"@,
        trim("fail"@) == "fail"@,
        trim("skip"@) == "skip"@,
        trim("use_default"@) == "use_default"@,
        "fail"@.len() > 0,
        "skip"@.len() > 0,
        "use_default"@.len() > 0,
{
    reveal_strlit("fail");
    reveal_strlit("skip");
    reveal_strlit("use_default");
    assert("fail"@[0] != "skip"@[0]);
    assert("fail"@.len() != "use_default"@.len());
    assert("skip"@.len() != "use_default"@.len());
}

/// What a step does when it fails is what its node says: a step whose setting is blank or `fail`
/// stops the run, `skip` goes on past it, and `use_default` takes its default value. Any other
/// word is an error of the graph.
pub proof fn law_failure_settings_mean_what_they_say(
    graph: VisualPipelineGraph,
    d: PipelineDefinition,
    i: int,
    k: int,
)
    requires
        graph_error(graph) is None,
        definition_of(d, graph),
        0 <= i < graph.nodes@.len(),
        0 <= k < d.steps@.len(),
        is_step(graph.nodes@[i]),
        graph.nodes@[i].id@ == d.steps@[k].id@,
    ensures
        ({
            let setting = trim(graph.nodes@[i].config.on_failure@);
            let rule = d.steps@[k].on_failure;
            &&& rule == OnFailure::Fail <==> setting.len() == 0 || setting == "fail"@
            &&& rule == OnFailure::Skip <==> setting == "skip"@
            &&& rule == OnFailure::UseDefault <==> setting == "use_default"@
        }),
{
    lemma_failure_words();
    lemma_step_of_its_node(graph, d, i, k);
}

/// The step with the id of a node is the one that the node describes.
proof fn lemma_step_of_its_node(
    graph: VisualPipelineGraph,
    d: PipelineDefinition,
    i: int,
    k: int,
)
    requires
        graph_error(graph) is None,
        definition_of(d, graph),
        0 <= i < graph.nodes@.len(),
        0 <= k < d.steps@.len(),
        is_step(graph.nodes@[i]),
        graph.nodes@[i].id@ == d.steps@[k].id@,
    ensures
        step_nodes(graph.nodes@)[k] == graph.nodes@[i],
        step_of(d.steps@[k], graph.nodes@[i], edge_views(graph.edges@)),
{
    let nodes = graph.nodes@;
    lemma_steps_are_nodes(nodes);
    assert(step_of(d.steps@[k], step_nodes(nodes)[k], edge_views(graph.edges@)));
    let j = choose|j: int| 0 <= j < nodes.len() && nodes[j] == step_nodes(nodes)[k];
    lemma_ids_differ(nodes, 0);
    if i < j {
        assert(!duplicate_at(nodes, j));
        assert(nodes[i].id@ != nodes[j].id@);
    } else if j < i {
        assert(!duplicate_at(nodes, i));
        assert(nodes[j].id@ != nodes[i].id@);
    }
}

proof fn lemma_ids_differ(nodes: Seq<VisualNode>, k: int)
    requires
        0 <= k,
        first_duplicate(nodes, k) >= nodes.len(),
    ensures
        forall|i: int| k <= i < nodes.len() ==> !#[trigger] duplicate_at(nodes, i),
    decreases nodes.len() - k,
{
    if k < nodes.len() {
        lemma_ids_differ(nodes, k + 1);
    }
}

/// The step nodes are the nodes of agents and tools, each as often as it stands there.
proof fn lemma_steps_are_nodes(nodes: Seq<VisualNode>)
    ensures
        step_nodes(nodes).len() <= nodes.len(),
        forall|k: int|
            0 <= k < step_nodes(nodes).len() ==> is_step(#[trigger] step_nodes(nodes)[k])
                && nodes.contains(step_nodes(nodes)[k]),
        forall|i: int|
            0 <= i < nodes.len() && is_step(#[trigger] nodes[i]) ==> step_nodes(nodes).contains(
                nodes[i],
            ),
    decreases nodes.len(),
{
    if nodes.len() > 0 {
        let head = nodes.drop_last();
        lemma_steps_are_nodes(head);
        let before = step_nodes(head);
        let all = step_nodes(nodes);
        assert forall|k: int| 0 <= k < all.len() implies is_step(#[trigger] all[k])
            && nodes.contains(all[k]) by {
            if k < before.len() {
                assert(all[k] == before[k]);
                let n = choose|n: int| 0 <= n < head.len() && head[n] == before[k];
                assert(nodes[n] == all[k]);
            } else {
                assert(nodes[nodes.len() - 1] == all[k]);
            }
        }
        assert forall|i: int| 0 <= i < nodes.len() && is_step(#[trigger] nodes[i]) implies
            all.contains(nodes[i]) by {
            if i < head.len() {
                assert(head[i] == nodes[i]);
                let n = choose|n: int| 0 <= n < before.len() && before[n] == head[i];
                assert(all[n] == nodes[i]);
            } else {
                assert(all[all.len() - 1] == nodes[i]);
            }
        }
    }
}

/// The position of a node among the steps.
proof fn lemma_step_place(nodes: Seq<VisualNode>, i: int, j: int)
    requires
        0 <= i < j < nodes.len(),
        is_step(nodes[i]),
        is_step(nodes[j]),
    ensures
        exists|a: int, b: int|
            0 <= a < b < step_nodes(nodes).len() && #[trigger] step_nodes(nodes)[a] == nodes[i]
                && #[trigger] step_nodes(nodes)[b] == nodes[j],
    decreases nodes.len(),
{
    let head = nodes.drop_last();
    let all = step_nodes(nodes);
    let before = step_nodes(head);
    if j < head.len() {
        assert(head[i] == nodes[i] && head[j] == nodes[j]);
        lemma_step_place(head, i, j);
        let (a, b) = choose|a: int, b: int|
            0 <= a < b < before.len() && #[trigger] before[a] == head[i] && #[trigger] before[b]
                == head[j];
        assert(all[a] == nodes[i] && all[b] == nodes[j]);
    } else {
        lemma_steps_are_nodes(head);
        assert(head[i] == nodes[i]);
        let a = choose|a: int| 0 <= a < before.len() && before[a] == head[i];
        assert(all[a] == nodes[i] && all[all.len() - 1] == nodes[j]);
    }
}

/// Every agent or tool that is drawn becomes a step, in the order in which they are drawn, and
/// nothing else does. The step has the node's id, does what the node says, and takes over its
/// limits, its retries and its default value.
pub proof fn law_each_node_becomes_its_step(
    graph: VisualPipelineGraph,
    d: PipelineDefinition,
    i: int,
)
    requires
        graph_error(graph) is None,
        definition_of(d, graph),
        0 <= i < graph.nodes@.len(),
    ensures
        ({
            let node = graph.nodes@[i];
            let kept = node.node_type == VisualNodeType::Agent || node.node_type
                == VisualNodeType::Tool;
            &&& kept <==> exists|k: int|
                0 <= k < d.steps@.len() && (#[trigger] d.steps@[k]).id@ == node.id@
            &&& forall|k: int|
                0 <= k < d.steps@.len() && (#[trigger] d.steps@[k]).id@ == node.id@ ==> {
                    let step = d.steps@[k];
                    &&& node.node_type == VisualNodeType::Agent ==> (step.action matches StepAction::Agent {
                        agent,
                        task,
                    } && agent@ == trim(node.config.agent_name@) && task@ == trim(node.config.task@))
                    &&& node.node_type == VisualNodeType::Tool ==> (step.action matches StepAction::Tool {
                        tool,
                        input,
                    } && tool@ == trim(node.config.tool_name@) && (if trim(
                        node.config.tool_input_json@,
                    ).len() > 0 {
                        parsed(node.config.tool_input_json@) == Ok::<JsonV, Seq<char>>(input@)
                    } else {
                        input@ == JsonV::Object(Seq::empty())
                    }))
                    &&& step.timeout_minutes == node.config.timeout_minutes
                    &&& step.retry_on_failure == node.config.retry_on_failure
                    &&& step.retry_backoff_ms == node.config.retry_backoff_ms
                    &&& step.retry_max_delay_ms == node.config.retry_max_delay_ms
                    &&& trim(node.config.default_value@).len() == 0 ==> step.default_value is None
                    &&& trim(node.config.default_value@).len() > 0 ==> opt_text(step.default_value)
                        == Some(node.config.default_value@)
                    &&& trim(node.config.output_var@).len() > 0 ==> opt_text(step.output_var)
                        == Some(trim(node.config.output_var@))
                    &&& trim(node.config.output_var@).len() == 0 ==> opt_text(step.output_var)
                        == Some(identifier(node.id@) + "_output"@)
                }
            &&& forall|j: int|
                0 <= j < i && kept && is_step(#[trigger] graph.nodes@[j]) ==> exists|a: int, b: int|
                    0 <= a < b < d.steps@.len() && (#[trigger] d.steps@[a]).id@
                        == graph.nodes@[j].id@ && (#[trigger] d.steps@[b]).id@ == node.id@
        }),
{
    let nodes = graph.nodes@;
    let edges = edge_views(graph.edges@);
    let steps = step_nodes(nodes);
    lemma_steps_are_nodes(nodes);
    lemma_ids_differ(nodes, 0);
    if is_step(nodes[i]) {
        let k = choose|k: int| 0 <= k < steps.len() && steps[k] == nodes[i];
        assert(step_of(d.steps@[k], steps[k], edges));
        assert(d.steps@[k].id@ == nodes[i].id@);
    }
    assert forall|k: int| 0 <= k < d.steps@.len() && (#[trigger] d.steps@[k]).id@
        == nodes[i].id@ implies is_step(nodes[i]) && step_of(d.steps@[k], nodes[i], edges) by {
        assert(step_of(d.steps@[k], steps[k], edges));
        let j = choose|j: int| 0 <= j < nodes.len() && nodes[j] == steps[k];
        if i < j {
            assert(!duplicate_at(nodes, j));
            assert(nodes[i].id@ != nodes[j].id@);
        } else if j < i {
            assert(!duplicate_at(nodes, i));
            assert(nodes[j].id@ != nodes[i].id@);
        }
    }
    assert forall|j: int| 0 <= j < i && is_step(nodes[i]) && is_step(
        #[trigger] nodes[j],
    ) implies exists|a: int, b: int|
        0 <= a < b < d.steps@.len() && (#[trigger] d.steps@[a]).id@ == nodes[j].id@ && (
        #[trigger] d.steps@[b]).id@ == nodes[i].id@ by {
        lemma_step_place(nodes, j, i);
        let (a, b) = choose|a: int, b: int|
            0 <= a < b < steps.len() && #[trigger] steps[a] == nodes[j] && #[trigger] steps[b]
                == nodes[i];
        assert(step_of(d.steps@[a], steps[a], edges));
        assert(step_of(d.steps@[b], steps[b], edges));
        assert(d.steps@[a].id@ == nodes[j].id@ && d.steps@[b].id@ == nodes[i].id@);
    }
}

proof fn lemma_dependencies_are_sources(edges: Seq<EdgeV>, id: Seq<char>, source: Seq<char>)
    ensures
        dependencies(edges, id).contains(source) <==> source != START_NODE_ID@ && exists|e: int|
            0 <= e < edges.len() && (#[trigger] edges[e]).target == id && edges[e].source == source,
        incoming(edges, id).contains(source) <==> exists|e: int|
            0 <= e < edges.len() && (#[trigger] edges[e]).target == id && edges[e].source == source,
    decreases edges.len(),
{
    if edges.len() > 0 {
        let head = edges.drop_last();
        let top = edges.len() - 1;
        lemma_dependencies_are_sources(head, id, source);
        let (a, b) = (dependencies(head, id), dependencies(edges, id));
        let (c, d) = (incoming(head, id), incoming(edges, id));
        assert(edges[top] == edges.last());
        if b.contains(source) {
            let k = choose|k: int| 0 <= k < b.len() && b[k] == source;
            if k < a.len() {
                assert(a[k] == source);
            }
        }
        if a.contains(source) {
            let k = choose|k: int| 0 <= k < a.len() && a[k] == source;
            assert(b[k] == source);
        }
        if d.contains(source) {
            let k = choose|k: int| 0 <= k < d.len() && d[k] == source;
            if k < c.len() {
                assert(c[k] == source);
            }
        }
        if c.contains(source) {
            let k = choose|k: int| 0 <= k < c.len() && c[k] == source;
            assert(d[k] == source);
        }
        if edges.last().target == id && edges.last().source == source {
            assert(d[d.len() - 1] == source);
            if source != START_NODE_ID@ {
                assert(b[b.len() - 1] == source);
            }
        }
        assert forall|e: int| 0 <= e < head.len() implies #[trigger] head[e] == edges[e] by {}
        if exists|e: int|
            0 <= e < edges.len() && (#[trigger] edges[e]).target == id && edges[e].source == source {
            let e = choose|e: int|
                0 <= e < edges.len() && (#[trigger] edges[e]).target == id && edges[e].source
                    == source;
            if e < head.len() {
                assert(head[e] == edges[e]);
            }
        }
        if exists|e: int|
            0 <= e < head.len() && (#[trigger] head[e]).target == id && head[e].source == source {
            let e = choose|e: int|
                0 <= e < head.len() && (#[trigger] head[e]).target == id && head[e].source == source;
            assert(edges[e] == head[e]);
        }
    }
}

/// A step depends on exactly those from which a connection leads to it, the start node aside.
pub proof fn law_connections_are_dependencies(
    graph: VisualPipelineGraph,
    d: PipelineDefinition,
    k: int,
    source: Seq<char>,
)
    requires
        graph_error(graph) is None,
        definition_of(d, graph),
        0 <= k < d.steps@.len(),
    ensures
        (exists|j: int|
            0 <= j < d.steps@[k].depends_on@.len() && (#[trigger] d.steps@[k].depends_on@[j])@
                == source) <==> source != START_NODE_ID@ && exists|e: int|
            0 <= e < graph.edges@.len() && (#[trigger] graph.edges@[e]).target@
                == d.steps@[k].id@ && graph.edges@[e].source@ == source,
{
    let edges = edge_views(graph.edges@);
    let deps = texts(d.steps@[k].depends_on@);
    assert(step_of(d.steps@[k], step_nodes(graph.nodes@)[k], edges));
    lemma_dependencies_are_sources(edges, d.steps@[k].id@, source);
    if deps.contains(source) {
        let j = choose|j: int| 0 <= j < deps.len() && deps[j] == source;
        assert(d.steps@[k].depends_on@[j]@ == source);
    }
    if exists|j: int|
        0 <= j < d.steps@[k].depends_on@.len() && (#[trigger] d.steps@[k].depends_on@[j])@ == source {
        let j = choose|j: int|
            0 <= j < d.steps@[k].depends_on@.len() && (#[trigger] d.steps@[k].depends_on@[j])@
                == source;
        assert(deps[j] == source);
    }
    assert forall|e: int| 0 <= e < edges.len() implies #[trigger] edges[e].target
        == graph.edges@[e].target@ && edges[e].source == graph.edges@[e].source@ by {}
    if exists|e: int|
        0 <= e < edges.len() && (#[trigger] edges[e]).target == d.steps@[k].id@ && edges[e].source
            == source {
        let e = choose|e: int|
            0 <= e < edges.len() && (#[trigger] edges[e]).target == d.steps@[k].id@
                && edges[e].source == source;
        assert(graph.edges@[e].target@ == d.steps@[k].id@);
    }
    if exists|e: int|
        0 <= e < graph.edges@.len() && (#[trigger] graph.edges@[e]).target@ == d.steps@[k].id@
            && graph.edges@[e].source@ == source {
        let e = choose|e: int|
            0 <= e < graph.edges@.len() && (#[trigger] graph.edges@[e]).target@ == d.steps@[k].id@
                && graph.edges@[e].source@ == source;
        assert(edges[e].target == d.steps@[k].id@);
    }
}

proof fn lemma_output_comes_from(
    nodes: Seq<VisualNode>,
    all: Seq<VisualNode>,
    edges: Seq<EdgeV>,
    n: int,
)
    requires
        0 <= n < nodes.len(),
        nodes[n].node_type == VisualNodeType::End,
        incoming(edges, nodes[n].id@).len() > 0,
        forall|i: int|
            0 <= i < nodes.len() && i != n ==> (#[trigger] nodes[i]).node_type
                != VisualNodeType::End,
    ensures
        graph_output(nodes, all, edges) == Some(
            output_var_of(all[node_index(all, incoming(edges, nodes[n].id@)[0])]),
        ),
    decreases nodes.len(),
{
    if n < nodes.len() - 1 {
        let head = nodes.drop_last();
        assert(nodes[nodes.len() - 1].node_type != VisualNodeType::End);
        assert(head[n] == nodes[n]);
        assert forall|i: int| 0 <= i < head.len() && i != n implies (#[trigger] head[i]).node_type
            != VisualNodeType::End by {
            assert(head[i] == nodes[i]);
        }
        lemma_output_comes_from(head, all, edges, n);
    }
}

/// What the pipeline gives out is what the step gives out from which a connection leads to the
/// end node.
pub proof fn law_the_output_is_that_of_the_last_step(
    graph: VisualPipelineGraph,
    d: PipelineDefinition,
    n: int,
    e: int,
    k: int,
)
    requires
        graph_error(graph) is None,
        definition_of(d, graph),
        0 <= n < graph.nodes@.len(),
        graph.nodes@[n].node_type == VisualNodeType::End,
        forall|i: int|
            0 <= i < graph.nodes@.len() && i != n ==> (#[trigger] graph.nodes@[i]).node_type
                != VisualNodeType::End,
        0 <= e < graph.edges@.len(),
        graph.edges@[e].target@ == graph.nodes@[n].id@,
        0 <= k < d.steps@.len(),
        d.steps@[k].id@ == graph.edges@[e].source@,
    ensures
        d.output is Some,
        opt_text(d.output) == opt_text(d.steps@[k].output_var),
{
    let nodes = graph.nodes@;
    let edges = edge_views(graph.edges@);
    let id = nodes[n].id@;
    let source = graph.edges@[e].source@;
    assert(edges[e].target == id && edges[e].source == source);
    lemma_dependencies_are_sources(edges, id, source);
    assert(incoming(edges, id).contains(source));
    lemma_first_node_error(nodes, edges, 0);
    assert(node_error(nodes[n], edges) is None);
    assert(incoming(edges, id).len() <= 1);
    assert(incoming(edges, id)[0] == source);
    lemma_output_comes_from(nodes, nodes, edges, n);
    lemma_steps_are_nodes(nodes);
    assert(step_of(d.steps@[k], step_nodes(nodes)[k], edges));
    let j = choose|j: int| 0 <= j < nodes.len() && nodes[j] == step_nodes(nodes)[k];
    assert(nodes[j].id@ == source);
    lemma_node_index(nodes, source);
    let at = node_index(nodes, source);
    assert(has_node(nodes, source));
    lemma_ids_differ(nodes, 0);
    if at < j {
        assert(!duplicate_at(nodes, j));
        assert(nodes[at].id@ != nodes[j].id@);
    } else if j < at {
        assert(!duplicate_at(nodes, at));
        assert(nodes[j].id@ != nodes[at].id@);
    }
}

proof fn lemma_first_node_error(nodes: Seq<VisualNode>, edges: Seq<EdgeV>, k: int)
    requires
        0 <= k,
    ensures
        first_node_error(nodes, edges, k) is None <==> forall|i: int|
            k <= i < nodes.len() ==> node_error(#[trigger] nodes[i], edges) is None,
    decreases nodes.len() - k,
{
    if k < nodes.len() {
        lemma_first_node_error(nodes, edges, k + 1);
        if node_error(nodes[k], edges) is None && first_node_error(nodes, edges, k + 1) is None {
            assert forall|i: int| k <= i < nodes.len() implies node_error(
                #[trigger] nodes[i],
                edges,
            ) is None by {}
        }
    }
}

proof fn lemma_no_duplicates(nodes: Seq<VisualNode>, k: int)
    requires
        0 <= k <= nodes.len(),
        forall|i: int, j: int|
            0 <= i < j < nodes.len() ==> (#[trigger] nodes[i]).id@ != (#[trigger] nodes[j]).id@,
    ensures
        first_duplicate(nodes, k) == nodes.len(),
    decreases nodes.len() - k,
{
    if k < nodes.len() {
        lemma_no_duplicates(nodes, k + 1);
        assert(!duplicate_at(nodes, k));
    }
}

proof fn lemma_none_dangles(nodes: Seq<VisualNode>, edges: Seq<EdgeV>, k: int)
    requires
        0 <= k <= edges.len(),
        forall|e: int| 0 <= e < edges.len() ==> !dangling(nodes, #[trigger] edges[e]),
    ensures
        first_dangling(nodes, edges, k) == edges.len(),
    decreases edges.len() - k,
{
    if k < edges.len() {
        lemma_none_dangles(nodes, edges, k + 1);
    }
}

proof fn lemma_first_astray(nodes: Seq<VisualNode>, edges: Seq<EdgeV>, k: int)
    requires
        0 <= k,
    ensures
        first_astray(nodes, edges, k) >= step_nodes(nodes).len() <==> forall|i: int|
            k <= i < step_nodes(nodes).len() ==> !leads_astray(
                nodes,
                edges,
                (#[trigger] step_nodes(nodes)[i]).id@,
            ),
    decreases step_nodes(nodes).len() - k,
{
    if k < step_nodes(nodes).len() {
        lemma_first_astray(nodes, edges, k + 1);
        if !leads_astray(nodes, edges, step_nodes(nodes)[k].id@) && first_astray(
            nodes,
            edges,
            k + 1,
        ) >= step_nodes(nodes).len() {
            assert forall|i: int| k <= i < step_nodes(nodes).len() implies !leads_astray(
                nodes,
                edges,
                (#[trigger] step_nodes(nodes)[i]).id@,
            ) by {}
        }
    }
}

/// A graph is taken exactly where it is sound: it has a name and a version; no id stands twice; a
/// start and an end node are there; every connection runs between nodes that are there; every
/// agent has a name and a task, every tool a name and an input that can be read; every setting for
/// failures is known; an end node is reached at most once; and no step leads back to the start.
pub proof fn law_sound_graphs_are_taken(graph: VisualPipelineGraph)
    ensures
        graph_error(graph) is None <==> {
            let nodes = graph.nodes@;
            let edges = edge_views(graph.edges@);
            &&& trim(graph.name@).len() > 0
            &&& trim(graph.version@).len() > 0
            &&& forall|i: int, j: int|
                0 <= i < j < nodes.len() ==> (#[trigger] nodes[i]).id@ != (#[trigger] nodes[j]).id@
            &&& has_node(nodes, "__start__"@)
            &&& has_node(nodes, "__end__"@)
            &&& forall|e: int|
                0 <= e < edges.len() ==> has_node(nodes, (#[trigger] edges[e]).source) && has_node(
                    nodes,
                    edges[e].target,
                )
            &&& forall|i: int|
                0 <= i < nodes.len() ==> {
                    let c = (#[trigger] nodes[i]).config;
                    let rule = trim(c.on_failure@);
                    let known = rule.len() == 0 || rule == "fail"@ || rule == "skip"@ || rule
                        == "use_default"@;
                    match nodes[i].node_type {
                        VisualNodeType::Start => true,
                        VisualNodeType::End => incoming(edges, nodes[i].id@).len() <= 1,
                        VisualNodeType::Agent => known && trim(c.agent_name@).len() > 0 && trim(
                            c.task@,
                        ).len() > 0,
                        VisualNodeType::Tool => known && trim(c.tool_name@).len() > 0 && (trim(
                            c.tool_input_json@,
                        ).len() == 0 || parsed(c.tool_input_json@) is Ok),
                    }
                }
            &&& forall|i: int, e: int|
                0 <= i < nodes.len() && is_step(nodes[i]) && 0 <= e < edges.len() && (
                #[trigger] edges[e]).source == (#[trigger] nodes[i]).id@ ==> edges[e].target
                    == "__end__"@ || exists|j: int|
                    0 <= j < nodes.len() && is_step(#[trigger] nodes[j]) && nodes[j].id@
                        == edges[e].target
        },
{
    let nodes = graph.nodes@;
    let edges = edge_views(graph.edges@);
    let steps = step_nodes(nodes);
    lemma_first_node_error(nodes, edges, 0);
    lemma_first_astray(nodes, edges, 0);
    lemma_steps_are_nodes(nodes);
    if graph_error(graph) is None {
        lemma_ids_differ(nodes, 0);
        lemma_no_dangling(nodes, edges, 0);
        assert forall|i: int, j: int| 0 <= i < j < nodes.len() implies (#[trigger] nodes[i]).id@ != (
        #[trigger] nodes[j]).id@ by {
            assert(!duplicate_at(nodes, j));
        }
        assert forall|e: int| 0 <= e < edges.len() implies has_node(
            nodes,
            (#[trigger] edges[e]).source,
        ) && has_node(nodes, edges[e].target) by {
            assert(!dangling(nodes, edges[e]));
        }
        assert forall|i: int, e: int|
            0 <= i < nodes.len() && is_step(nodes[i]) && 0 <= e < edges.len() && (
            #[trigger] edges[e]).source == (#[trigger] nodes[i]).id@ implies edges[e].target
            == "__end__"@ || exists|j: int|
            0 <= j < nodes.len() && is_step(#[trigger] nodes[j]) && nodes[j].id@ == edges[e].target by {
            let k = choose|k: int| 0 <= k < steps.len() && steps[k] == nodes[i];
            assert(!leads_astray(nodes, edges, steps[k].id@));
            if edges[e].target != END_NODE_ID@ {
                assert(has_node(steps, edges[e].target));
                let m = choose|m: int|
                    0 <= m < steps.len() && #[trigger] steps[m].id@ == edges[e].target;
                let j = choose|j: int| 0 <= j < nodes.len() && nodes[j] == steps[m];
                assert(is_step(nodes[j]) && nodes[j].id@ == edges[e].target);
            }
        }
    }
    let sound = {
        &&& trim(graph.name@).len() > 0
        &&& trim(graph.version@).len() > 0
        &&& forall|i: int, j: int|
            0 <= i < j < nodes.len() ==> (#[trigger] nodes[i]).id@ != (#[trigger] nodes[j]).id@
        &&& has_node(nodes, "__start__"@)
        &&& has_node(nodes, "__end__"@)
        &&& forall|e: int|
            0 <= e < edges.len() ==> has_node(nodes, (#[trigger] edges[e]).source) && has_node(
                nodes,
                edges[e].target,
            )
        &&& forall|i: int| 0 <= i < nodes.len() ==> node_error(#[trigger] nodes[i], edges) is None
        &&& forall|i: int, e: int|
            0 <= i < nodes.len() && is_step(nodes[i]) && 0 <= e < edges.len() && (
            #[trigger] edges[e]).source == (#[trigger] nodes[i]).id@ ==> edges[e].target
                == "__end__"@ || exists|j: int|
                0 <= j < nodes.len() && is_step(#[trigger] nodes[j]) && nodes[j].id@
                    == edges[e].target
    };
    if sound {
        lemma_no_duplicates(nodes, 0);
        assert forall|e: int| 0 <= e < edges.len() implies !dangling(nodes, #[trigger] edges[e]) by {}
        lemma_none_dangles(nodes, edges, 0);
        assert forall|k: int| 0 <= k < steps.len() implies !leads_astray(
            nodes,
            edges,
            (#[trigger] steps[k]).id@,
        ) by {
            let i = choose|i: int| 0 <= i < nodes.len() && nodes[i] == steps[k];
            assert forall|e: int|
                0 <= e < edges.len() && #[trigger] edges[e].source == steps[k].id@
                    && edges[e].target != END_NODE_ID@ implies has_node(steps, edges[e].target) by {
                assert(edges[e].source == nodes[i].id@);
                let j = choose|j: int|
                    0 <= j < nodes.len() && is_step(#[trigger] nodes[j]) && nodes[j].id@
                        == edges[e].target;
                let m = choose|m: int| 0 <= m < steps.len() && steps[m] == nodes[j];
                assert(steps[m].id@ == edges[e].target);
            }
        }
    }
}

/// An identifier is made of lower-case letters, digits and underscores; underscores stand neither
/// at its ends nor next to each other.
pub proof fn law_identifiers_are_plain(s: Seq<char>)
    ensures
        ({
            let id = identifier(s);
            &&& forall|i: int|
                0 <= i < id.len() ==> ('a' <= #[trigger] id[i] <= 'z') || ('0' <= id[i] <= '9')
                    || id[i] == '_'
            &&& id.len() > 0 ==> id[0] != '_' && id.last() != '_'
            &&& forall|i: int|
                0 < i < id.len() && #[trigger] id[i] == '_' ==> id[i - 1] != '_'
            &&& id.len() <= s.len()
        }),
{
    let mapped = Seq::new(s.len(), |i: int| identifier_char(s[i]));
    let sq = squeezed(mapped);
    lemma_squeezed_chars(mapped);
    crate::text::lemma_trim_ends(sq, Cut::Is('_'));
    let (a, b) = crate::text::lemma_trim_is_part(sq, Cut::Is('_'));
    let id = identifier(s);
    assert forall|i: int| 0 <= i < id.len() implies ('a' <= #[trigger] id[i] <= 'z') || ('0'
        <= id[i] <= '9') || id[i] == '_' by {
        assert(id[i] == sq[a + i]);
        assert(mapped.contains(sq[a + i]));
        let m = choose|m: int| 0 <= m < mapped.len() && mapped[m] == sq[a + i];
        assert(mapped[m] == identifier_char(s[m]));
    }
    assert forall|i: int| 0 < i < id.len() && #[trigger] id[i] == '_' implies id[i - 1] != '_' by {
        assert(id[i] == sq[a + i] && id[i - 1] == sq[a + i - 1]);
    }
}

/// A text that is an identifier already is its own.
pub proof fn law_identifiers_stay(s: Seq<char>)
    requires
        forall|i: int|
            0 <= i < s.len() ==> ('a' <= #[trigger] s[i] <= 'z') || ('0' <= s[i] <= '9') || s[i]
                == '_',
        s.len() > 0 ==> s[0] != '_' && s.last() != '_',
        forall|i: int| 0 < i < s.len() && #[trigger] s[i] == '_' ==> s[i - 1] != '_',
    ensures
        identifier(s) == s,
{
    let mapped = Seq::new(s.len(), |i: int| identifier_char(s[i]));
    assert forall|i: int| 0 <= i < s.len() implies identifier_char(#[trigger] s[i]) == s[i] by {}
    assert(mapped =~= s);
    lemma_squeezed_stays(s);
}

proof fn lemma_squeezed_stays(s: Seq<char>)
    requires
        forall|i: int| 0 < i < s.len() && #[trigger] s[i] == '_' ==> s[i - 1] != '_',
    ensures
        squeezed(s) == s,
    decreases s.len(),
{
    if s.len() > 0 {
        let head = s.drop_last();
        assert forall|i: int| 0 < i < head.len() && #[trigger] head[i] == '_' implies head[i - 1]
            != '_' by {
            assert(s[i] == '_');
        }
        lemma_squeezed_stays(head);
        assert(head.push(s.last()) =~= s);
        if s.last() == '_' && head.len() > 0 {
            assert(s[s.len() - 1] == '_');
            assert(head.last() == s[s.len() - 2]);
        }
    }
}

proof fn lemma_squeezed_chars(s: Seq<char>)
    ensures
        squeezed(s).len() <= s.len(),
        forall|i: int| 0 <= i < squeezed(s).len() ==> s.contains(#[trigger] squeezed(s)[i]),
        forall|i: int|
            0 < i < squeezed(s).len() && #[trigger] squeezed(s)[i] == '_' ==> squeezed(s)[i - 1]
                != '_',
    decreases s.len(),
{
    if s.len() > 0 {
        let head = s.drop_last();
        lemma_squeezed_chars(head);
        assert forall|i: int| 0 < i < squeezed(s).len() && #[trigger] squeezed(s)[i]
            == '_' implies squeezed(s)[i - 1] != '_' by {
            assert(squeezed(head)[i - 1] == squeezed(s)[i - 1]);
            if i < squeezed(head).len() {
                assert(squeezed(head)[i] == '_');
            }
        }
        assert forall|i: int| 0 <= i < squeezed(s).len() implies s.contains(
            #[trigger] squeezed(s)[i],
        ) by {
            if i < squeezed(head).len() {
                assert(squeezed(s)[i] == squeezed(head)[i]);
                let k = choose|k: int| 0 <= k < head.len() && head[k] == squeezed(head)[i];
                assert(s[k] == squeezed(s)[i]);
            } else {
                assert(s[s.len() - 1] == squeezed(s)[i]);
            }
        }
    }
}

// ---------------------------------------------------------------------------
// Requests
// ---------------------------------------------------------------------------

/// The name of a copy: the one asked for, unless it is blank; else the original's with
/// `-copy` behind it.
pub open spec fn clone_name_of(asked: Option<Seq<char>>, name: Seq<char>) -> Seq<char> {
    match asked {
        Some(n) => if trim(n).len() > 0 {
            n
        } else {
            name + "-copy"@
        },
        None => name + "-copy"@,
    }
}

/// The name of a copy.
pub fn clone_name(form: CloneForm, name: &str) -> (r: String)
    ensures
        r@ == clone_name_of(opt_text(form.name), name@),
{
    match form.name {
        Some(n) => {
            if !is_blank(n.as_str()) {
                return n;
            }
        },
        None => {},
    }
    let mut out: String = name.to_owned();
    out.push_str("-copy");
    out
}

/// A run needs the names of an agent and of a pipeline.
pub fn check_run(request: &RunRequest) -> (r: Result<(), String>)
    ensures
        match r {
            Ok(_) => trim(request.agent_name@).len() > 0 && trim(request.pipeline_name@).len() > 0,
            Err(m) => (trim(request.agent_name@).len() == 0 && m@ == "Agent name is required"@) || (
            trim(request.agent_name@).len() > 0 && trim(request.pipeline_name@).len() == 0 && m@
                == "Pipeline name is required"@),
        },
{
    if is_blank(request.agent_name.as_str()) {
        return Err("Agent name is required".to_owned());
    }
    if is_blank(request.pipeline_name.as_str()) {
        return Err("Pipeline name is required".to_owned());
    }
    Ok(())
}

/// The answer to a saved graph.
pub fn save_response(definition: &PipelineDefinition) -> (r: SaveResponse)
    ensures
        r.name@ == definition.name@,
        r.version@ == definition.version@,
        r.step_count == definition.steps@.len(),
{
    SaveResponse {
        name: definition.name.clone(),
        version: definition.version.clone(),
        step_count: definition.steps.len(),
    }
}

/// The answer to a run request: the id of the run, or the empty string where none was given.
pub fn run_response(id: Option<String>) -> (r: RunResponse)
    ensures
        r.run_id@ == (match opt_text(id) {
            Some(t) => t,
            None => Seq::empty(),
        }),
        r.status@ == "running"@,
{
    RunResponse {
        run_id: match id {
            Some(t) => t,
            None => String::new(),
        },
        status: "running".to_owned(),
    }
}

/// The first `max_chars` characters.
pub fn truncate(value: &str, max_chars: usize) -> (r: String)
    ensures
        r@ == take_chars(value@, max_chars as int),
{
    first_chars(value, max_chars)
}

/// A copy of a pipeline bears the name that was asked for; where none was, or only blanks, it
/// bears the name of its source with `-copy` behind it.
pub proof fn law_copies_are_named(asked: Seq<char>, blank: Seq<char>, name: Seq<char>)
    requires
        trim(asked).len() > 0,
        trim(blank).len() == 0,
    ensures
        clone_name_of(Some(asked), name) == asked,
        clone_name_of(Some(blank), name) == name + "-copy"@,
        clone_name_of(None, name) == name + "-copy"@,
{
}

/// A complaint about a node says what is missing in it: the agent, its task or the tool, with the
/// label of the node; a failure rule that there is not is quoted.
pub proof fn law_complaints_name_their_node(node: VisualNode, edges: Seq<EdgeV>)
    requires
        failure_rule(node.config.on_failure@) is Some,
    ensures
        node.node_type is Agent && trim(node.config.agent_name@).len() == 0 ==> node_error(
            node,
            edges,
        ) == Some("Agent step '"@ + node.label@ + "' must specify an agent name"@),
        node.node_type is Agent && trim(node.config.agent_name@).len() > 0 && trim(
            node.config.task@,
        ).len() == 0 ==> node_error(node, edges) == Some(
            "Agent step '"@ + node.label@ + "' must specify a task"@,
        ),
        node.node_type is Tool && trim(node.config.tool_name@).len() == 0 ==> node_error(
            node,
            edges,
        ) == Some("Tool step '"@ + node.label@ + "' must specify a tool name"@),
        node.node_type is Start ==> node_error(node, edges) is None,
        node.node_type is End && incoming(edges, node.id@).len() <= 1 ==> node_error(
            node,
            edges,
        ) is None,
{
}

/// What a step puts out goes by the name that it was given, and else by one made of its own id.
pub proof fn law_outputs_have_names(node: VisualNode)
    ensures
        trim(node.config.output_var@).len() > 0 ==> output_var_of(node) == trim(
            node.config.output_var@,
        ),
        trim(node.config.output_var@).len() == 0 ==> output_var_of(node) == identifier(node.id@)
            + "_output"@,
{
}

/// A definition keeps the frame of its graph: the name, the version and the description without
/// the blanks around them, none where the description is blank, and the limits as they are.
pub proof fn law_definitions_keep_their_frame(d: PipelineDefinition, graph: VisualPipelineGraph)
    requires
        definition_of(d, graph),
    ensures
        d.name@ == trim(graph.name@) && d.version@ == trim(graph.version@),
        trim(graph.description@).len() > 0 ==> d.description is Some && d.description->0@ == trim(
            graph.description@,
        ),
        trim(graph.description@).len() == 0 ==> d.description is None,
        d.max_cost_usd == graph.max_cost_usd,
        d.max_wall_time_minutes == graph.max_wall_time_minutes,
        d.permissions@.len() == 0,
{
}

/// A tool is handed what its node says, and an empty object where the node says nothing.
pub proof fn law_tools_are_handed_what_is_written(text: Seq<char>, blank: Seq<char>)
    requires
        trim(text).len() > 0,
        trim(blank).len() == 0,
    ensures
        tool_input(text) == parsed(text),
        tool_input(blank) == Ok::<JsonV, Seq<char>>(JsonV::Object(Seq::empty())),
{
}

} // verus!
