use agentos_web::clock::Moment;
use agentos_web::handlers::a2a::{
    content_preview, page, sent_at, target_label, AgentMessage, MessageContent, MessageTarget,
};
use agentos_web::handlers::audit::{
    audit_filter, check_trace_id, detail, detail_error, list, unquoted, wants_lines, AuditEntry,
    ListQuery, TypeFilter,
};
use agentos_web::handlers::costs::{running_tasks, shown, totals, CostQuery, CostSnapshot};
use agentos_web::handlers::logs::{
    log_filter, read_line, read_value, LogQuery, LogSearch, MAX_RESULTS,
};
use agentos_web::handlers::observability::{
    checkpoint_rows, endpoint_rows, logged_rows, note_rows, pending_rows, scratch, Checkpoint,
    Endpoint, Logged, Note, ObsQuery, Pending, OBSERVED_ROWS,
};
use agentos_web::handlers::pipeline_runs::{
    builder_title, check_run_id, error_frame, load_error, look_at_run, run_payload,
    sorted_names, step_payload, store_error, PipelineRun, StoreAction,
};
use agentos_web::handlers::pipelines::{check_run, run_reply, RunForm, RunReply};
use agentos_web::handlers::scratchpad::{
    agent_query, lists_pages, looks_up, selected_agent, tags_text, ScratchpadQuery,
};
use agentos_web::json::{compact, parse_json};
use agentos_web::reply::Lookup;
use agentos_web::stream::Cost;
use agentos_web::task_events::TaskState;
use agentos_web::watch::{StatusWatch, StepReport};

const ID: &str = "00000000-0000-0000-0000-000000000007";
const NOON: Moment = Moment { secs: 1_775_908_800, nanos: 0 };

fn query(event_type: Option<&str>) -> ListQuery {
    ListQuery {
        partial: Some("list".to_string()),
        limit: None,
        event_type: event_type.map(|t| t.to_string()),
        severity: None,
        from_ts: Some(NOON),
        to_ts: None,
    }
}

#[test]
fn audit_entries_are_listed_by_type() {
    let entry = |t: &str| AuditEntry {
        at: NOON,
        event_type: t.to_string(),
        agent_id: None,
        details: "d".to_string(),
    };
    let entries = vec![entry("\"TaskCreated\""), entry("\"ToolExecuted\"")];
    let rows = list(&entries, &TypeFilter { event_type: Some("TASK".to_string()) });
    assert_eq!(rows.len(), 1);
    assert_eq!(rows[0].event_type, "TaskCreated");
    assert_eq!(rows[0].timestamp, "2026-04-11 12:00:00");
    assert_eq!(list(&entries, &TypeFilter { event_type: None }).len(), 2);
    assert_eq!(unquoted("\"x\""), "x");
    assert!(wants_lines(&query(None)));
    let filter = audit_filter(&query(None));
    assert!(filter.from == Some(NOON) && filter.to.is_none());
}

#[test]
fn an_audit_entry_is_shown() {
    assert!(check_trace_id(ID).is_none());
    assert_eq!(check_trace_id("x").map(|r| r.status), Some(400));
    assert!(detail_error(&Lookup::Found(())).is_none());
    assert_eq!(detail_error(&Lookup::Missing).map(|r| r.status), Some(404));
    assert_eq!(detail_error(&Lookup::Failed).map(|r| r.status), Some(500));
    let shown = detail(ID, NOON, "\"TaskCreated\"", &parse_json("{\"a\":1}").ok().unwrap());
    assert_eq!(shown.event_type, "TaskCreated");
    assert_eq!(shown.details, "{\n  \"a\": 1\n}");
}

fn logs(q: &str, level: &str, from: Option<&str>) -> LogQuery {
    LogQuery {
        q: Some(q.to_string()),
        level: Some(level.to_string()),
        event_type: None,
        from: from.map(|f| f.to_string()),
        to: None,
    }
}

#[test]
fn log_lines_are_searched() {
    let line = "{\"timestamp\":\"2026-04-11T12:00:00Z\",\"severity\":\"Warn\",\
                \"event_type\":\"X\",\"m\":\"Disk\"}";
    let row = read_line(&log_filter(&logs("disk", "WARN", None)), line).unwrap();
    assert_eq!((row.severity.as_str(), row.event_type.as_str()), ("Warn", "X"));
    assert_eq!(row.line, line);
    assert!(read_line(&log_filter(&logs("tape", "", None)), line).is_none());
    assert!(read_line(&log_filter(&logs("", "error", None)), line).is_none());
    assert!(read_line(&log_filter(&logs("", "", Some("2026-04-11T13:00:00Z"))), line).is_none());
    assert!(read_line(&log_filter(&logs("", "", Some("2026-04-11T12:00:00Z"))), line).is_some());
    assert!(read_line(&log_filter(&logs("", "", None)), "no json").is_none());
    let value = parse_json("{}").ok().unwrap();
    assert!(read_value(&log_filter(&logs("", "", None)), "{}", &value).is_some());
}

#[test]
fn a_log_search_ends_with_a_full_page() {
    let mut search = LogSearch::new(log_filter(&logs("", "", None)));
    for _ in 0..MAX_RESULTS + 3 {
        search.take("{}");
    }
    assert_eq!(search.rows.len(), MAX_RESULTS);
}

#[test]
fn costs_are_summed() {
    let snapshot = |id: u128, tokens: u64| CostSnapshot {
        agent_id: id,
        agent_name: "a".to_string(),
        cost_usd: Cost { bits: 0 },
        tokens_used: tokens,
        tool_calls: 2,
    };
    let all = vec![snapshot(7, u64::MAX), snapshot(8, 1)];
    let rows = shown(&all, &CostQuery { agent_id: None });
    let sum = totals(&rows);
    assert_eq!(sum.tokens, u64::MAX as u128 + 1);
    assert_eq!((sum.tool_calls, sum.agents), (4, 2));
    assert_eq!(shown(&all, &CostQuery { agent_id: Some(ID.to_string()) }).len(), 1);
    assert_eq!(
        running_tasks(&vec![TaskState::Running, TaskState::Waiting, TaskState::Queued]),
        2
    );
}

fn message(id: u128, secs: i64) -> AgentMessage {
    AgentMessage {
        id,
        from: 1,
        to: MessageTarget::Broadcast,
        at: Moment { secs, nanos: 0 },
        trace_id: 0,
        content: MessageContent::Text("t".repeat(300)),
    }
}

#[test]
fn messages_between_agents_are_listed_once() {
    let all = vec![message(1, 10), message(2, 20), message(1, 10)];
    let ids: Vec<u128> = page(&all).iter().map(|m| m.id).collect();
    assert_eq!(ids, vec![2, 1]);
    assert_eq!(content_preview(&all[0].content).len(), 200);
    assert_eq!(target_label(&MessageTarget::Direct(7)), format!("Direct:{ID}"));
    assert_eq!(target_label(&MessageTarget::DirectByName("a".to_string())), "DirectByName:a");
    assert_eq!(
        content_preview(&MessageContent::TaskDelegation { prompt: "p".to_string() }),
        "TaskDelegation: p"
    );
    assert_eq!(
        content_preview(&MessageContent::TaskResult { task_id: 7 }),
        format!("TaskResult: {ID}")
    );
    assert!(sent_at(&message(1, NOON.secs)).starts_with("2026-04-11"));
}

#[test]
fn the_scratchpad_opens_at_an_agent() {
    let agents = vec!["a".to_string(), "b".to_string()];
    assert_eq!(selected_agent(&None, &agents), "a");
    assert_eq!(selected_agent(&Some("b".to_string()), &agents), "b");
    assert_eq!(selected_agent(&None, &vec![]), "");
    assert!(lists_pages("a"));
    assert!(!lists_pages(""));
    assert!(looks_up("a", "x"));
    assert!(!looks_up("a", " "));
    let asked = ScratchpadQuery { agent: None, q: Some("x".to_string()), title: None };
    assert_eq!(agent_query("b".to_string(), asked).agent.as_deref(), Some("b"));
    assert_eq!(tags_text(&agents), "a, b");
}

fn run(status: &str, running: bool) -> PipelineRun {
    PipelineRun {
        run_id: "r".to_string(),
        running,
        status: status.to_string(),
        output: Some("o".repeat(300)),
        error: None,
        steps: vec![StepReport {
            step_id: "a".to_string(),
            status: "running".to_string(),
            output: Some("x".to_string()),
            error: Some("e\"".to_string()),
        }],
    }
}

#[test]
fn pipeline_runs_are_streamed() {
    let mut watch = StatusWatch::new();
    let (frames, again) = look_at_run(&run("running", true), &mut watch);
    assert!(again);
    assert_eq!(frames.len(), 2);
    assert_eq!(frames[0].event, "step-status");
    assert_eq!(
        frames[0].data,
        "{\"step_id\":\"a\",\"status\":\"running\",\"output_preview\":\"x\",\"error\":\"e\\\"\"}"
    );
    let (frames, again) = look_at_run(&run("complete", false), &mut watch);
    assert!(!again);
    assert_eq!(frames.len(), 1);
    assert!(run_payload(&run("complete", false)).contains(&"o".repeat(240)));
    assert!(!run_payload(&run("complete", false)).contains(&"o".repeat(241)));
    assert!(step_payload(&run("x", true).steps[0]).contains("\"step_id\":\"a\""));
    assert_eq!(error_frame("no").data, "{\"message\":\"no\"}");
    assert!(check_run_id(ID).is_none());
    assert!(check_run_id("x").is_some());
}

#[test]
fn pipelines_are_run_and_stored() {
    let form = |agent: Option<&str>, input: String| RunForm {
        pipeline_name: "p".to_string(),
        input,
        agent_name: agent.map(|a| a.to_string()),
    };
    assert!(check_run(&form(None, String::new())).is_none());
    assert_eq!(
        check_run(&form(Some(" "), String::new())).map(|r| r.body).as_deref(),
        Some("Agent name must not be empty. Omit the field to use the kernel default.")
    );
    assert_eq!(
        check_run(&form(None, "x".repeat(65_537))).map(|r| r.body).as_deref(),
        Some("Pipeline input too long")
    );
    assert!(matches!(run_reply(&form(None, String::new()), true), RunReply::Started { .. }));
    assert!(matches!(run_reply(&form(None, String::new()), false), RunReply::Refused { .. }));
    assert_eq!(
        sorted_names(vec!["b".to_string(), "a".to_string()]),
        vec!["a".to_string(), "b".to_string()]
    );
    assert_ne!(builder_title("p", true), builder_title("p", false));
    assert_eq!(load_error(&Lookup::Missing).map(|r| r.status), Some(404));
    assert_eq!(load_error(&Lookup::Failed).map(|r| r.status), Some(500));
    assert_eq!(store_error(StoreAction::Save, false).body, "Internal error");
    assert_eq!(store_error(StoreAction::Save, true).body, "Failed to save pipeline");
    assert_eq!(store_error(StoreAction::Clone, true).status, 500);
    assert_eq!(store_error(StoreAction::Delete, true).status, 400);
}

#[test]
fn the_observability_page_is_made_of_rows() {
    let (noon, id) = (NOON, ID);
    let names = vec!["ann".to_string(), "bob".to_string()];
    let first = scratch(ObsQuery { scratch_agent: None, scratch_q: None }, &names);
    assert_eq!((first.agent.as_str(), first.q.as_str()), ("ann", ""));
    assert_eq!((first.lists, first.searches), (true, false));
    let query = ObsQuery {
        scratch_agent: Some("bob".to_string()),
        scratch_q: Some("tea".to_string()),
    };
    let asked = scratch(query, &names);
    assert_eq!((asked.agent.as_str(), asked.lists, asked.searches), ("bob", true, true));
    let none = scratch(ObsQuery { scratch_agent: None, scratch_q: None }, &vec![]);
    assert_eq!((none.agent.as_str(), none.lists, none.searches), ("", false, false));

    let pending = pending_rows(&vec![Pending {
        id: 4,
        task_id: 7,
        agent_id: 7,
        urgency: "high".to_string(),
        reason: "Budget".to_string(),
        created_at: noon,
        expires_at: Moment { secs: noon.secs + 60, nanos: 0 },
    }]);
    assert_eq!((pending[0].id, pending[0].task_id.as_str()), (4, id));
    assert_eq!(pending[0].expires_at, "2026-04-11 12:01:00");

    let endpoint = |last_received_at| Endpoint {
        id: 7,
        agent_id: 7,
        provider: "github".to_string(),
        active: true,
        debounce_seconds: 5,
        total_received: 9,
        created_at: noon,
        last_received_at,
    };
    let endpoints = endpoint_rows(&vec![endpoint(None), endpoint(Some(noon))]);
    assert_eq!((endpoints[0].id.as_str(), endpoints[0].last_received_at.as_str()), (id, ""));
    assert_eq!(endpoints[1].last_received_at, "2026-04-11 12:00:00");

    let checkpoint = |n: u64| Checkpoint {
        checkpoint_id: format!("c{n}"),
        task_id: 7,
        agent_id: 7,
        step_num: n,
        updated_at: noon,
        schema_version: 1,
    };
    let checkpoints = checkpoint_rows(&(0..OBSERVED_ROWS as u64 + 3).map(checkpoint).collect());
    assert_eq!(checkpoints.len(), OBSERVED_ROWS);
    assert_eq!((checkpoints[99].checkpoint_id.as_str(), checkpoints[99].step_num), ("c99", 99));

    let notes = note_rows(&vec![Note {
        id: parse_json("12").ok().unwrap(),
        title: "plan".to_string(),
        tags: vec!["a".to_string(), "b".to_string()],
        updated_at: noon,
    }]);
    assert_eq!((compact(&notes[0].id).as_str(), notes[0].tags.as_str()), ("12", "a, b"));

    let logged = logged_rows(&vec![Logged {
        at: noon,
        event_type: "TaskStarted".to_string(),
        severity: "Info".to_string(),
        details: parse_json("{\"a\":1}").ok().unwrap(),
    }]);
    assert_eq!(logged[0].timestamp, "2026-04-11 12:00:00");
    assert_eq!(compact(&logged[0].details), "{\"a\":1}");
}

#[test]
fn numbers_are_written_as_they_were_read() {
    for text in ["0.1", "1e-7", "123456789012345680.0", "2.2250738585072014e-308", "-0.0", "7"] {
        let value: serde_json::Value = serde_json::from_str(text).unwrap();
        assert_eq!(compact(&parse_json(text).ok().unwrap()), value.to_string());
    }
    let mut n: u64 = 1;
    for _ in 0..2000 {
        n = n.wrapping_mul(6364136223846793005).wrapping_add(1442695040888963407);
        let exponent = (n >> 33) % 600;
        let text = format!("{}.{}e{}", n % 10, n >> 4, exponent as i64 - 300);
        let value: serde_json::Value = serde_json::from_str(&text).unwrap();
        assert_eq!(compact(&parse_json(&text).ok().unwrap()), value.to_string(), "{text}");
    }
}
