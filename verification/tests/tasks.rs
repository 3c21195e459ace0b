use agentos_web::clock::Moment;
use agentos_web::handlers::tasks::{
    call_status, check_resume, check_task_id, context_error, history_preview, input_preview,
    is_listed, log_refusal, log_start, log_step, resume, resume_error, resume_intents, resumed_task,
    search_tasks, status_filter, trace_error, wants_rows, Checkpoint, CheckpointTask, ListQuery,
    LogEntry, LogEvent, ResumeAgent, ResumeTaskForm, TaskRow, IDLE_INTERVAL_SECS, IDLE_NANOS,
    STREAM_TIMEOUT_NANOS,
};
use agentos_web::handlers::teams::{child_tasks, find_team, hierarchy, team_rows, TeamTask};
use agentos_web::handlers::workflow::{
    builder_title, node_parameters, node_properties, UNTITLED,
    agent_option, check_node_properties, end_frame, is_run_id, is_workflow_id, option_source,
    pipeline_name, poll_run, run_id_of, run_report, saved_id, sort_workflows, step_frame,
    tool_option, workflow_file, workflow_option, workflow_summary, NodePropertiesForm,
    OptionSource, RunEnd, RunReport, MAX_POLLS, START_POLLS,
};
use agentos_web::ids::is_uuid;
use agentos_web::json::{parse_json, Json};
use agentos_web::reply::Lookup;
use agentos_web::task_events::{TaskEventType, TaskState};
use agentos_web::watch::{StatusWatch, StepReport};

const ID: &str = "00000000-0000-0000-0000-000000000007";
const NOON: Moment = Moment { secs: 1_775_908_800, nanos: 0 };

fn row(id: &str, prompt: &str, agent: Option<&str>) -> TaskRow {
    TaskRow {
        id: id.to_string(),
        status: "Running".to_string(),
        agent_name: agent.map(|a| a.to_string()),
        prompt_preview: prompt.to_string(),
        created_at: NOON,
    }
}

#[test]
fn tasks_are_searched_by_their_prompts() {
    let rows = vec![row("1", "Write docs", Some("Ann")), row("2", "Test", None)];
    let find = |s: &str| search_tasks(&rows, &Some(s.to_string())).len();
    assert_eq!(find("DOCS"), 1);
    assert_eq!(find("te"), 2);
    assert_eq!(find("nothing"), 0);
    assert_eq!(search_tasks(&rows, &None).len(), 2);
    assert!(is_listed(&rows[0], &Some(String::new())));
}

#[test]
fn task_queries_are_read() {
    let query = ListQuery {
        partial: Some("list".to_string()),
        search: None,
        status: Some(String::new()),
    };
    assert!(wants_rows(&query));
    assert!(status_filter(&query).is_none());
    let query = ListQuery { partial: None, search: None, status: Some("Running".to_string()) };
    assert!(!wants_rows(&query));
    assert_eq!(status_filter(&query).as_deref(), Some("Running"));
    assert_eq!(check_task_id(ID).ok(), Some(7));
    assert_eq!(check_task_id("x").err().map(|r| r.body).as_deref(), Some("Invalid task ID"));
}

#[test]
fn traces_are_previewed() {
    let json = parse_json(&format!("\"{}\"", "x".repeat(200))).ok().unwrap();
    assert_eq!(history_preview(&json).chars().count(), 81);
    assert_eq!(input_preview(&json).chars().count(), 121);
    assert!(input_preview(&json).ends_with('…'));
    assert_eq!(call_status(false, true), "denied");
    assert_eq!(call_status(true, true), "error");
    assert_eq!(call_status(true, false), "ok");
    assert!(trace_error(&Lookup::Found(())).is_none());
    assert_eq!(
        trace_error(&Lookup::Missing).map(|r| r.body),
        Some(format!("No {} found for this {}", "trace", "task"))
    );
    assert_eq!(trace_error(&Lookup::Failed).map(|r| r.status), Some(500));
    assert_eq!(context_error(None, 0).map(|r| r.status), Some(404));
    assert!(context_error(Some(1), 0).is_none());
    assert_eq!(
        context_error(Some(1), 1).map(|r| r.body).as_deref(),
        Some("Context message index out of range")
    );
}

#[test]
fn a_resume_is_confirmed() {
    let form = |s: &str| ResumeTaskForm { confirm: s.to_string() };
    assert_eq!(check_resume(&form(" Resume "), ID).ok(), Some(7));
    assert_eq!(
        check_resume(&form("yes"), ID).err().map(|r| r.body).as_deref(),
        Some("Confirmation required: type RESUME to restore from checkpoint")
    );
    assert!(check_resume(&form("RESUME"), "x").is_err());
}

fn checkpoint_task() -> CheckpointTask {
    CheckpointTask {
        agent_id: 1,
        priority: 5,
        original_prompt: "go".to_string(),
        parent_task: Some(3),
        max_iterations: Some(4),
        autonomous: true,
        parent_task_id: None,
        spawn_depth: 2,
        is_team_coordinator: true,
        skip_checkpoint: false,
        reasoning_hints: Json::Text("plan first".to_string()),
        thinking_level: Json::Text("high".to_string()),
    }
}

#[test]
fn only_a_lost_task_of_a_live_agent_is_resumed() {
    let loaded = || Checkpoint::Loaded(checkpoint_task());
    let status = |c: Checkpoint, s: Option<TaskState>, a: ResumeAgent| {
        resume_error(&c, s, a).map(|r| r.status)
    };
    assert_eq!(status(Checkpoint::Missing, None, ResumeAgent::Online), Some(404));
    assert_eq!(status(Checkpoint::LoadFailed, None, ResumeAgent::Online), Some(500));
    assert_eq!(status(Checkpoint::Unreadable, None, ResumeAgent::Online), Some(400));
    assert_eq!(status(loaded(), Some(TaskState::Running), ResumeAgent::Online), Some(409));
    assert!(status(loaded(), Some(TaskState::Failed), ResumeAgent::Online).is_none());
    assert_eq!(status(loaded(), None, ResumeAgent::Unknown), Some(404));
    assert_eq!(status(loaded(), None, ResumeAgent::Offline), Some(400));
    assert!(status(loaded(), None, ResumeAgent::Online).is_none());
    assert_eq!(resume_intents().len(), 11);
}

#[test]
fn a_chain_of_tasks_is_followed_to_its_end() {
    let task = |id: u128, parent: Option<u128>| TeamTask {
        id,
        state: TaskState::Running,
        agent_id: 1,
        prompt_preview: String::new(),
        created_at: NOON,
        tool_calls: 0,
        tokens_used: 0,
        spawn_depth: 0,
        parent_task_id: parent,
        is_team_coordinator: false,
    };
    let tasks = vec![task(3, Some(2)), task(2, Some(1)), task(1, Some(0))];
    let found: Vec<(usize, u128)> =
        hierarchy(&tasks, 0).iter().map(|(depth, t)| (*depth, t.id)).collect();
    assert_eq!(found, vec![(1, 1), (2, 2), (3, 3)]);
}

#[test]
fn a_resumed_task_starts_afresh() {
    let form = ResumeTaskForm { confirm: "RESUME".to_string() };
    let resumed = |existing: Option<TaskState>, issued: bool| {
        let checkpoint = Checkpoint::Loaded(checkpoint_task());
        resume(&form, ID, checkpoint, existing, ResumeAgent::Online, issued, 600, NOON)
    };
    let queued = resumed(Some(TaskState::Failed), true).ok().unwrap();
    assert!(queued.state == TaskState::Queued);
    assert_eq!((queued.id, queued.agent_id, queued.assigned_llm), (7, 1, Some(1)));
    assert_eq!((queued.history_len, queued.timeout_secs), (0, 600));
    assert!(queued.started_at.is_none());
    assert_eq!(queued.parent_task, Some(3));
    assert!(matches!(&queued.reasoning_hints, Json::Text(t) if t == "plan first"));
    assert!(matches!(&queued.thinking_level, Json::Text(t) if t == "high"));
    assert_eq!(resumed(Some(TaskState::Running), true).err().map(|r| r.status), Some(409));
    assert_eq!(
        resumed(None, false).err().map(|r| r.body).as_deref(),
        Some("Failed to issue capability token for resumed task")
    );
    assert_eq!(resumed_task(9, 1, checkpoint_task(), 600, NOON).id, 9);
}

fn entry(row_id: i64, is_finding: bool) -> LogEntry {
    LogEntry {
        row_id,
        is_finding,
        kind: "ToolCall".to_string(),
        timestamp: NOON,
        details: parse_json("{\"n\":1}").ok().unwrap(),
    }
}

#[test]
fn the_log_stream_goes_on_behind_the_last_row() {
    assert_eq!(log_refusal("7"), Some("Error: invalid task ID"));
    assert!(log_refusal("00000000-0000-0000-0000-000000000007").is_none());
    let start = log_start(Some("5"), 0);
    assert_eq!((start.last_seen, start.interval_secs), (5, 0));
    assert_eq!(log_start(Some("-3"), 0).last_seen, 0);
    assert_eq!(log_start(Some("x"), 0).last_seen, 0);
    let entries = vec![entry(6, false), entry(7, true)];
    let (events, next) = log_step(start, 0, 10, &entries, Some(TaskState::Running));
    assert_eq!(events.len(), 2);
    assert!(matches!(&events[0], LogEvent::Finding { id: 7, .. }));
    match &events[1] {
        LogEvent::Lines { id, data } => {
            assert_eq!(*id, 7);
            assert_eq!(data, "[12:00:00] ToolCall - {\"n\":1}");
        }
        _ => panic!("log lines are sent as lines"),
    }
    let cursor = next.unwrap();
    assert_eq!(cursor.last_seen, 7);
    let (events, next) = log_step(cursor, 0, IDLE_NANOS + 11, &vec![], Some(TaskState::Running));
    assert!(matches!(events[0], LogEvent::KeepAlive));
    assert_eq!(next.map(|c| c.interval_secs), Some(IDLE_INTERVAL_SECS));
}

#[test]
fn the_log_stream_ends_with_its_task() {
    let (events, next) = log_step(log_start(None, 0), 0, 1, &vec![], Some(TaskState::Complete));
    assert!(next.is_none());
    assert!(matches!(&events[0], LogEvent::Done { data } if data == "stream closed"));
    let (events, next) =
        log_step(log_start(None, 0), 0, STREAM_TIMEOUT_NANOS, &vec![], Some(TaskState::Running));
    assert!(next.is_none());
    assert!(matches!(&events[0], LogEvent::Done { data } if data == "stream timeout reached"));
    let (events, _) = log_step(log_start(None, 0), 0, 1, &vec![entry(1, false)], None);
    assert_eq!(events.len(), 2);
}

#[test]
fn states_have_names() {
    assert!(TaskState::Cancelled.is_terminal());
    assert!(!TaskState::Waiting.is_terminal());
    assert_eq!(TaskState::Suspended.name(), "Suspended");
    assert_eq!(TaskEventType::SubAgentSpawned.event_name(), "task-sub-agent-spawned");
}

fn team_task(id: u128, parent: Option<u128>, secs: i64) -> TeamTask {
    TeamTask {
        id,
        state: TaskState::Running,
        agent_id: 1,
        prompt_preview: String::new(),
        created_at: Moment { secs, nanos: 0 },
        tool_calls: 0,
        tokens_used: 0,
        spawn_depth: 0,
        parent_task_id: parent,
        is_team_coordinator: parent.is_none(),
    }
}

#[test]
fn a_team_is_shown_below_its_coordinator() {
    let tasks = vec![
        team_task(1, None, 0),
        team_task(2, Some(1), 20),
        team_task(3, Some(1), 10),
        team_task(4, Some(3), 30),
    ];
    let ids: Vec<u128> = child_tasks(&tasks, 1).iter().map(|t| t.id).collect();
    assert_eq!(ids, vec![3, 2]);
    let rows = team_rows(&tasks);
    assert_eq!((rows.len(), rows[0].task.id, rows[0].child_count), (1, 1, 2));
    let tree: Vec<(usize, u128)> =
        hierarchy(&tasks, 1).iter().map(|(d, t)| (*d, t.id)).collect();
    assert_eq!(tree.iter().map(|t| t.1).collect::<Vec<u128>>(), vec![3, 4, 2]);
    assert_eq!(tree[1].0, tree[0].0 + 1);
    assert_eq!(
        find_team(&tasks, "00000000-0000-0000-0000-000000000001").ok().map(|t| t.id),
        Some(1)
    );
    assert_eq!(find_team(&tasks, "x").err().map(|r| r.status), Some(400));
    assert_eq!(find_team(&tasks, ID).err().map(|r| r.status), Some(404));
}

fn step(id: &str, status: &str) -> StepReport {
    StepReport {
        step_id: id.to_string(),
        status: status.to_string(),
        output: None,
        error: None,
    }
}

#[test]
fn a_watch_tells_news_once() {
    let mut watch = StatusWatch::new();
    let steps = vec![step("a", "running"), step("b", "pending")];
    assert_eq!(watch.look(&steps).len(), 2);
    assert!(watch.look(&steps).is_empty());
    let steps = vec![step("a", "complete"), step("b", "pending")];
    let news = watch.look(&steps);
    assert_eq!(news.len(), 1);
    assert_eq!(news[0].step_id, "a");
}

#[test]
fn a_run_is_polled_until_it_ends() {
    let mut watch = StatusWatch::new();
    let report = RunReport { steps: vec![step("a", "running")], status: "Running".to_string() };
    let (news, end) = poll_run(1, Some(&report), &mut watch);
    assert_eq!(news.len(), 1);
    assert!(matches!(end, RunEnd::Goes));
    let done = RunReport { steps: vec![], status: "complete".to_string() };
    assert!(matches!(poll_run(2, Some(&done), &mut watch).1, RunEnd::Complete));
    let failed = RunReport { steps: vec![], status: "Failed".to_string() };
    assert!(matches!(poll_run(2, Some(&failed), &mut watch).1, RunEnd::Failed));
    assert!(matches!(poll_run(START_POLLS, None, &mut watch).1, RunEnd::Goes));
    assert!(matches!(poll_run(START_POLLS + 1, None, &mut watch).1, RunEnd::NotFound));
    assert!(matches!(poll_run(MAX_POLLS + 1, Some(&done), &mut watch).1, RunEnd::Timeout));
}

#[test]
fn run_frames_say_what_happened() {
    assert_eq!(
        step_frame(&step("a", "running")),
        "{\"node_id\":\"a\",\"status\":\"running\",\"type\":\"step\"}"
    );
    assert!(end_frame(RunEnd::Goes, None, None).is_none());
    assert_eq!(
        end_frame(RunEnd::Complete, parse_json("\"x\"").ok(), None).as_deref(),
        Some("{\"output\":\"x\",\"type\":\"complete\"}")
    );
    assert_eq!(
        end_frame(RunEnd::Failed, None, None).as_deref(),
        Some("{\"message\":null,\"type\":\"error\"}")
    );
    assert_eq!(
        end_frame(RunEnd::Timeout, None, None).as_deref(),
        Some("{\"message\":\"timeout\",\"type\":\"error\"}")
    );
    assert_eq!(
        end_frame(RunEnd::NotFound, None, None).as_deref(),
        Some("{\"message\":\"run not found\",\"type\":\"error\"}")
    );
}

#[test]
fn run_data_is_read() {
    let data = parse_json(
        "{\"status\":\"running\",\"step_results\":{\"a\":{\"status\":\"complete\",\
         \"output\":\"o\"},\"b\":{}}}",
    )
    .ok()
    .unwrap();
    let report = run_report(&data);
    assert_eq!(report.status, "running");
    assert_eq!(report.steps.len(), 2);
    assert_eq!(report.steps[0].step_id, "a");
    assert_eq!(report.steps[0].status, "complete");
    assert_eq!(run_id_of(&parse_json("{\"id\":\"r1\"}").ok().unwrap()), "r1");
    assert_eq!(run_id_of(&parse_json("{\"run_id\":7}").ok().unwrap()), "");
    assert!(is_run_id("r1"));
    assert!(!is_run_id("../r1"));
    assert!(!is_run_id(&"r".repeat(129)));
}

#[test]
fn workflows_have_safe_ids() {
    assert!(is_workflow_id("daily"));
    assert!(!is_workflow_id("../x"));
    assert!(!is_workflow_id("a/b"));
    assert_eq!(workflow_file("daily"), "daily.json");
    assert_eq!(saved_id("daily".to_string()), "daily");
    assert!(is_uuid(&saved_id(String::new())));
    assert_eq!(pipeline_name("daily"), "workflow-daily");
}

#[test]
fn workflows_are_listed_by_name() {
    let one = workflow_summary("1".to_string(), "b".to_string(), "1.0".to_string(), 2);
    let two = workflow_summary("2".to_string(), "a".to_string(), "1.0".to_string(), 0);
    assert_eq!(one.status, "active");
    let names: Vec<String> =
        sort_workflows(vec![one, two]).iter().map(|w| w.name.clone()).collect();
    assert_eq!(names, vec!["a".to_string(), "b".to_string()]);
}

#[test]
fn pickers_get_their_options() {
    assert!(matches!(option_source(true, false, "agents"), OptionSource::Agents));
    assert!(matches!(option_source(true, false, "tools"), OptionSource::Tools));
    assert!(matches!(option_source(true, false, "workflows"), OptionSource::Workflows));
    assert!(matches!(option_source(true, false, "x"), OptionSource::Nowhere));
    assert!(matches!(option_source(true, true, "agents"), OptionSource::Own));
    assert!(matches!(option_source(false, false, "agents"), OptionSource::Own));
    assert_eq!(agent_option("a").label, "a");
    assert_eq!(tool_option("t", "does").label, "t — does");
    assert_eq!(workflow_option("1", "n").label, "n");
    let form = NodePropertiesForm {
        node_type: "x".repeat(257),
        node_id: String::new(),
        parameters: String::new(),
    };
    assert!(!check_node_properties(&form));
    assert!(node_properties(&form).is_none());
}

#[test]
fn node_parameters_are_parsed() {
    assert!(matches!(node_parameters("[1]"), Json::Array(items) if items.len() == 1));
    assert!(matches!(node_parameters("{oops"), Json::Object(entries) if entries.is_empty()));
    let form = NodePropertiesForm {
        node_type: "http".to_string(),
        node_id: "n".to_string(),
        parameters: "\"x\"".to_string(),
    };
    assert!(matches!(node_properties(&form), Some(Json::Text(t)) if t == "x"));
}

#[test]
fn workflows_are_built_under_their_names() {
    assert_eq!(builder_title(UNTITLED), "Untitled Workflow — Workflow Builder");
}
