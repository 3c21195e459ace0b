use agentos_web::handlers::pipeline_layout::{
    compute_depth, default_graph, humanize_step_label, pipeline_to_visual_graph, step_to_config,
};
use agentos_web::handlers::pipeline_meta::{
    extract_visual_meta, visual_meta_of_yaml, visual_meta_value,
};
use agentos_web::handlers::pipeline_ui::{
    check_run, clone_name, parse_on_failure, run_response, sanitize_identifier, save_response,
    truncate, visual_graph_to_pipeline, CloneForm, RunRequest, VisualEdge, VisualNode,
    VisualNodeConfig, VisualNodeType, VisualPipelineGraph, END_NODE_ID, START_NODE_ID,
};
use agentos_web::pipeline::{OnFailure, PipelineStep, StepAction};
use agentos_web::stream::Cost;
use agentos_web::textmap::TextMap;
use agentos_web::yaml::Yaml;

fn node(
    id: &str,
    node_type: VisualNodeType,
    label: &str,
    at: (i32, i32),
    config: VisualNodeConfig,
) -> VisualNode {
    VisualNode {
        id: id.to_string(),
        node_type,
        label: label.to_string(),
        x: at.0,
        y: at.1,
        config,
    }
}

fn edge(id: &str, source: &str, target: &str) -> VisualEdge {
    VisualEdge {
        id: id.to_string(),
        source: source.to_string(),
        target: target.to_string(),
    }
}

#[test]
fn visual_graph_round_trip_preserves_steps_and_meta() {
    let graph = VisualPipelineGraph {
        name: "review-docs".to_string(),
        version: "1.2.3".to_string(),
        description: "Pipeline generated by the builder".to_string(),
        output: None,
        max_cost_usd: Some(Cost { bits: 3.5f64.to_bits() }),
        max_wall_time_minutes: Some(15),
        nodes: vec![
            node(
                START_NODE_ID,
                VisualNodeType::Start,
                "Start",
                (10, 20),
                VisualNodeConfig::default(),
            ),
            node(
                "collect",
                VisualNodeType::Agent,
                "Collect",
                (250, 120),
                VisualNodeConfig {
                    agent_name: "researcher".to_string(),
                    task: "Summarize {{input}}".to_string(),
                    output_var: "summary".to_string(),
                    on_failure: "skip".to_string(),
                    ..VisualNodeConfig::default()
                },
            ),
            node(
                "notify",
                VisualNodeType::Tool,
                "Notify",
                (520, 120),
                VisualNodeConfig {
                    tool_name: "notify_user".to_string(),
                    tool_input_json: "{\n  \"message\": \"{{summary}}\"\n}".to_string(),
                    output_var: "sent".to_string(),
                    on_failure: "use_default".to_string(),
                    default_value: "queued".to_string(),
                    ..VisualNodeConfig::default()
                },
            ),
            node(
                END_NODE_ID,
                VisualNodeType::End,
                "End",
                (820, 160),
                VisualNodeConfig::default(),
            ),
        ],
        edges: vec![
            edge("edge-1", START_NODE_ID, "collect"),
            edge("edge-2", "collect", "notify"),
            edge("edge-3", "notify", END_NODE_ID),
        ],
    };

    let definition = visual_graph_to_pipeline(&graph).expect("graph converts");
    assert_eq!(definition.name, "review-docs");
    assert_eq!(definition.output.as_deref(), Some("sent"));
    assert_eq!(definition.steps.len(), 2);
    assert_eq!(definition.steps[0].depends_on, Vec::<String>::new());
    assert_eq!(definition.steps[0].on_failure, OnFailure::Skip);
    assert_eq!(definition.steps[1].depends_on, vec!["collect".to_string()]);
    assert_eq!(definition.steps[1].on_failure, OnFailure::UseDefault);
    assert_eq!(definition.steps[1].default_value.as_deref(), Some("queued"));

    let root = Yaml::Mapping(vec![(
        Yaml::Text("meta".to_string()),
        visual_meta_value(&graph),
    )]);
    let meta = extract_visual_meta(&root);
    let round_trip = pipeline_to_visual_graph(&definition, &meta);
    assert_eq!(round_trip.name, graph.name);
    assert_eq!(round_trip.version, graph.version);
    assert_eq!(round_trip.nodes.len(), graph.nodes.len());
    assert_eq!(
        round_trip
            .nodes
            .iter()
            .find(|n| n.id == "notify")
            .map(|n| (n.x, n.y)),
        Some((520, 120))
    );
    let saved = save_response(&definition);
    assert_eq!((saved.name.as_str(), saved.step_count), ("review-docs", 2));
}

#[test]
fn positions_are_read_from_the_text() {
    let yaml = "name: n\nmeta:\n  visual:\n    positions:\n      a:\n        x: 3\n        y: -4\n";
    let meta = visual_meta_of_yaml(yaml).expect("yaml imports");
    assert_eq!(meta.positions.get("a"), Some(&(3, -4)));
    assert!(meta.positions.get("b").is_none());
    let error = visual_meta_of_yaml("a: [").err().unwrap();
    assert!(error.starts_with("Failed to parse pipeline YAML metadata: "));
}

fn step(id: &str, agent: &str, needs: &[&str]) -> PipelineStep {
    PipelineStep {
        id: id.to_string(),
        action: StepAction::Agent {
            agent: agent.to_string(),
            task: "t".to_string(),
        },
        output_var: None,
        depends_on: needs.iter().map(|s| s.to_string()).collect(),
        timeout_minutes: None,
        retry_on_failure: None,
        retry_backoff_ms: None,
        retry_max_delay_ms: None,
        on_failure: OnFailure::Fail,
        default_value: None,
    }
}

#[test]
fn compute_depth_handles_cycle_without_stack_overflow() {
    let steps = vec![step("a", "x", &["b"]), step("b", "y", &["a"])];
    let mut cache = TextMap::new();
    let mut in_progress = Vec::new();
    let depth_a = compute_depth(&steps, 0, &mut cache, &mut in_progress);
    let depth_b = compute_depth(&steps, 1, &mut cache, &mut in_progress);
    assert!(depth_a > 0);
    assert!(depth_b > 0);
    assert!(in_progress.is_empty());
}

#[test]
fn a_step_lies_deeper_than_what_it_needs() {
    let steps = vec![step("a", "x", &[]), step("b", "y", &["a"]), step("c", "z", &["b", "a"])];
    let mut cache = TextMap::new();
    let mut in_progress = Vec::new();
    let c = compute_depth(&steps, 2, &mut cache, &mut in_progress);
    let b = compute_depth(&steps, 1, &mut cache, &mut in_progress);
    let a = compute_depth(&steps, 0, &mut cache, &mut in_progress);
    assert!(a < b && b < c);
    assert_eq!(c - a, 2);
    assert_eq!(humanize_step_label(&steps[0]), "Agent: x");
    assert_eq!(step_to_config(&steps[0]).agent_name, "x");
}

#[test]
fn invalid_tool_json_is_rejected() {
    let graph = VisualPipelineGraph {
        name: "bad-json".to_string(),
        version: "1.0.0".to_string(),
        description: String::new(),
        output: None,
        max_cost_usd: None,
        max_wall_time_minutes: None,
        nodes: vec![
            node(
                START_NODE_ID,
                VisualNodeType::Start,
                "Start",
                (0, 0),
                VisualNodeConfig::default(),
            ),
            node(
                "tool-step",
                VisualNodeType::Tool,
                "Tool",
                (0, 0),
                VisualNodeConfig {
                    tool_name: "notify_user".to_string(),
                    tool_input_json: "{invalid".to_string(),
                    on_failure: "fail".to_string(),
                    ..VisualNodeConfig::default()
                },
            ),
            node(
                END_NODE_ID,
                VisualNodeType::End,
                "End",
                (0, 0),
                VisualNodeConfig::default(),
            ),
        ],
        edges: vec![],
    };

    let error = visual_graph_to_pipeline(&graph)
        .err()
        .expect("bad json should fail");
    assert!(error.contains("invalid"));
}

#[test]
fn a_graph_needs_a_name_and_a_version() {
    let mut graph = default_graph("x");
    graph.name = "  ".to_string();
    assert_eq!(
        visual_graph_to_pipeline(&graph).err().as_deref(),
        Some("Pipeline name is required")
    );
    graph.name = "x".to_string();
    graph.version = String::new();
    assert_eq!(
        visual_graph_to_pipeline(&graph).err().as_deref(),
        Some("Pipeline version is required")
    );
}

#[test]
fn the_first_drawing_holds_a_start_and_an_end() {
    let graph = default_graph("untitled-pipeline");
    assert_eq!(graph.version, "1.0.0");
    assert!(graph.nodes.iter().any(|n| n.id == START_NODE_ID));
    assert!(graph.nodes.iter().any(|n| n.id == END_NODE_ID));
}

#[test]
fn small_rules_of_the_builder() {
    assert_eq!(sanitize_identifier("My Step-1"), "my_step_1");
    assert!(matches!(parse_on_failure("skip"), Ok(OnFailure::Skip)));
    assert_eq!(
        parse_on_failure("never").err().as_deref(),
        Some("Unsupported on_failure value 'never'")
    );
    assert_eq!(clone_name(CloneForm { name: None }, "a"), "a-copy");
    assert_eq!(
        clone_name(CloneForm { name: Some(" b".to_string()) }, "a"),
        " b"
    );
    assert_eq!(truncate("abcdef", 3), "abc");
    assert_eq!(run_response(None).run_id, "");
    let request = RunRequest {
        pipeline_name: " ".to_string(),
        input: String::new(),
        agent_name: "a".to_string(),
    };
    assert_eq!(
        check_run(&request).err().as_deref(),
        Some("Pipeline name is required")
    );
}
