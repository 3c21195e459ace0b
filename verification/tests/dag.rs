use agentos_web::clock::Moment;
use agentos_web::handlers::dag::{
    build_dag_nodes, build_task_records, dag_mermaid, human_duration, mermaid_key,
    mermaid_label, root_tasks, task_state_badge_class, truncate_chars, wants_tree, DagQuery,
    GraphTask, ListedTask, TaskViewRecord,
};
use agentos_web::handlers::events_log::AgentName;
use agentos_web::task_events::TaskState;

#[test]
fn test_task_state_badge_class() {
    assert_eq!(task_state_badge_class(TaskState::Queued), "badge-queued");
    assert_eq!(task_state_badge_class(TaskState::Running), "badge-running");
    assert_eq!(task_state_badge_class(TaskState::Complete), "badge-complete");
    assert_eq!(task_state_badge_class(TaskState::Failed), "badge-failed");
    assert_eq!(
        task_state_badge_class(TaskState::Cancelled),
        "badge-cancelled"
    );
}

#[test]
fn test_mermaid_output_starts_with_graph() {
    let label = mermaid_label("parent task", TaskState::Running);
    assert!(label.contains("Running"));
    assert!(mermaid_key(0x5f3e0c1a).starts_with("task_"));
    assert_eq!(label, "parent task | Running");
    assert_eq!(
        mermaid_key(0x5f3e0c1a),
        "task_00000000_0000_0000_0000_00005f3e0c1a"
    );
}

#[test]
fn a_graph_names_each_child() {
    let tasks = vec![
        GraphTask { id: 1, prompt: "say \"hi\"".to_string(), state: TaskState::Running },
        GraphTask { id: 2, prompt: "child".to_string(), state: TaskState::Queued },
    ];
    let graph = dag_mermaid(&tasks, &vec![(1, vec![2])]);
    assert!(graph.starts_with("graph TD\n"));
    assert!(graph.contains("say 'hi' | Running"));
    assert!(graph.contains("child | Queued"));
}

#[test]
fn durations_are_short() {
    assert_eq!(human_duration(59), "59s");
    assert_eq!(human_duration(60), "1m");
    assert_eq!(human_duration(3725), "1h 2m");
    assert_eq!(human_duration(86_400 + 3600), "1d 1h");
}

#[test]
fn long_prompts_are_cut() {
    assert_eq!(truncate_chars("abcdef", 3), "abc...");
    assert_eq!(truncate_chars("abc", 3), "abc");
}

fn record(id: u128, parent: Option<u128>) -> TaskViewRecord {
    TaskViewRecord {
        id,
        agent_id: 9,
        agent_name: "a".to_string(),
        state: TaskState::Running,
        prompt_preview: "p".to_string(),
        created_at: Moment { secs: 100, nanos: 0 },
        started_at: None,
        finished_at: None,
        parent_task_id: parent,
        spawn_depth: 0,
    }
}

#[test]
fn the_last_record_of_a_task_counts() {
    let mut again = record(1, None);
    again.prompt_preview = "again".to_string();
    let records = vec![record(1, None), record(2, Some(1)), again];
    let nodes = build_dag_nodes(&records, &vec![(1, vec![2])], Moment { secs: 160, nanos: 0 });
    assert_eq!(nodes.len(), 1);
    assert_eq!(nodes[0].prompt_preview, "again");
    assert_eq!(nodes[0].children.len(), 1);
    let tasks = vec![
        GraphTask { id: 1, prompt: "first".to_string(), state: TaskState::Running },
        GraphTask { id: 1, prompt: "last".to_string(), state: TaskState::Failed },
    ];
    assert!(dag_mermaid(&tasks, &vec![(1, vec![1])]).contains("last | Failed"));
}

#[test]
fn each_task_stands_once_even_in_a_cycle() {
    let records = vec![record(1, None), record(2, Some(1)), record(3, Some(2))];
    let children = vec![(1, vec![2]), (2, vec![3]), (3, vec![1])];
    let nodes = build_dag_nodes(&records, &children, Moment { secs: 160, nanos: 0 });
    assert_eq!(nodes.len(), 1);
    assert_eq!(nodes[0].children.len(), 1);
    assert_eq!(nodes[0].children[0].children.len(), 1);
    assert_eq!(nodes[0].children[0].children[0].children.len(), 0);
    assert_eq!(root_tasks(&records).len(), 1);
}

#[test]
fn tasks_are_recorded_with_their_agents() {
    let at = Moment { secs: 100, nanos: 0 };
    let task = |id: u128, agent_id: u128| ListedTask {
        id,
        agent_id,
        state: TaskState::Running,
        original_prompt: "p".repeat(121),
        created_at: at,
        started_at: None,
        spawn_depth: 1,
        parent_task_id: Some(9),
        finished_at: Some(at),
    };
    let agents = vec![AgentName { id: 5, name: "ann".to_string() }];
    let records = build_task_records(&vec![task(1, 5), task(2, 6)], &agents);
    assert_eq!(records.len(), 2);
    assert_eq!(records[0].agent_name, "ann");
    assert_eq!(records[1].agent_name, "00000000-0000-0000-0000-000000000006");
    assert_eq!(records[0].prompt_preview, format!("{}...", "p".repeat(120)));
    assert_eq!((records[1].id, records[1].parent_task_id), (2, Some(9)));
    assert!(records[1].finished_at == Some(at));
    assert!(wants_tree(&DagQuery { partial: Some(true) }));
    assert!(!wants_tree(&DagQuery { partial: None }));
}
