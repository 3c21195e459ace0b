use agentos_web::clock::Moment;
use agentos_web::handlers::agent_detail::{
    detail_title, granted, revoked, task_items, tasks_of, AgentTask, GrantPermissionForm, PermissionReply,
    RevokePermissionForm,
};
use agentos_web::handlers::agents::{
    connect, connect_failed, connected_trigger, disconnected, find_agent, form_error, is_htmx,
    list_providers, parse_thinking_level, read_connect_form, wants_cards, AgentEntry,
    CatalogProvider, ConnectForm, ConnectRefusal, ListQuery, ThinkingLevel,
    MAX_SYSTEM_PROMPT_BYTES,
};
use agentos_web::handlers::dashboard::{audit_row, format_uptime, task_summary, AuditLine};
use agentos_web::handlers::events::{active_tasks, dashboard_turn, DashboardEvent};
use agentos_web::handlers::events_log::{
    count_allowed, create_subscription, emit_test_event, event_filter, fetch_limit,
    kernel_error, limit_of, page, parse_severity, subscriber_name, AgentName,
    CreateSubscriptionForm, EmitEventForm, EventEntry, EventSeverity, EventsQuery, KernelAnswer,
};
use agentos_web::handlers::notifications::{
    breadcrumb, check_notification_id, fetch_error, inbox_error, notification_title,
    notification_view, push, respond_error,
    respond, responded, sender_label, unread_count, NotificationSource, Received, RespondForm,
    UserMessage, UserMessageKind, MAX_RESPONSE_BYTES,
};
use agentos_web::json::{compact, parse_json};
use agentos_web::reply::Lookup;
use agentos_web::task_events::TaskState;

const ID: &str = "00000000-0000-0000-0000-000000000007";
const NOON: Moment = Moment { secs: 1_775_908_800, nanos: 0 };

fn form(name: &str) -> ConnectForm {
    ConnectForm {
        name: name.to_string(),
        provider: "ollama".to_string(),
        model: "llama3".to_string(),
        base_url: None,
        roles: Some("dev, ops".to_string()),
        description: Some("  ".to_string()),
        thinking_level: Some(" HIGH ".to_string()),
        system_prompt: Some(" be brief ".to_string()),
    }
}

fn complaint(form: &ConnectForm) -> String {
    match connect(form) {
        Err(ConnectRefusal::Form(text)) => text,
        Err(ConnectRefusal::Bad(reply)) => reply.body,
        Ok(_) => String::new(),
    }
}

#[test]
fn an_agent_is_connected_as_the_form_says() {
    let request = match connect(&form("researcher-1")) {
        Ok(request) => request,
        Err(_) => panic!("the form is filled in"),
    };
    assert_eq!(request.name, "researcher-1");
    assert_eq!(request.roles, vec!["dev".to_string(), "ops".to_string()]);
    assert!(request.description.is_none());
    assert_eq!(request.thinking_level, Some(ThinkingLevel::High));
    assert_eq!(request.system_prompt.as_deref(), Some("be brief"));
}

#[test]
fn connect_forms_are_refused() {
    assert_eq!(complaint(&form(" ")), "Agent name is required");
    assert_eq!(
        complaint(&form("Bad Name")),
        "Agent name must be lowercase alphanumeric with dashes"
    );
    let mut f = form("a");
    f.model = String::new();
    assert_eq!(complaint(&f), "Model is required");
    let mut f = form("a");
    f.base_url = Some("not a url".to_string());
    assert_eq!(complaint(&f), "Base URL must be a valid URL");
    f.base_url = Some("http://localhost:11434".to_string());
    assert_eq!(complaint(&f), "");
    let mut f = form("a");
    f.thinking_level = Some("huge".to_string());
    assert!(matches!(connect(&f), Err(ConnectRefusal::Bad(r)) if r.status == 400));
    let mut f = form("a");
    f.system_prompt = Some("x".repeat(MAX_SYSTEM_PROMPT_BYTES + 1));
    assert_eq!(complaint(&f), "System prompt too long (max 16,384 chars)");
    let mut f = form("a");
    f.base_url = Some("anything".to_string());
    assert!(read_connect_form(&f, true).is_ok());
    assert!(read_connect_form(&f, false).is_err());
    assert_eq!(parse_thinking_level("max"), Some(ThinkingLevel::Max));
    assert_eq!(parse_thinking_level("most"), None);
}

#[test]
fn the_connect_form_shows_its_error() {
    let e = form_error(422, "a < b");
    assert_eq!(e.status, 422);
    assert_eq!(
        e.html,
        "<small class=\"form-error\" id=\"connect-form-error\" role=\"alert\">a &lt; b</small>"
    );
    assert_eq!((e.retarget.as_str(), e.reswap.as_str()), ("#connect-form-error", "outerHTML"));
    assert!(connect_failed("no").html.contains("Failed to connect agent: no"));
    assert_eq!(
        connected_trigger("a"),
        "{\"agent-connected\":{\"name\":\"a\"},\"closeAgentModal\":true,\
         \"showToast\":{\"message\":\"Agent 'a' connected\",\"type\":\"success\"}}"
    );
    assert!(is_htmx(Some("True")));
    assert!(!is_htmx(None));
}

#[test]
fn agents_are_found_and_disconnected() {
    let agents = vec![
        AgentEntry { id: 1, name: "a".to_string() },
        AgentEntry { id: 2, name: "a".to_string() },
    ];
    assert_eq!(find_agent(&agents, "a"), Some(1));
    assert_eq!(find_agent(&agents, "b"), None);
    assert_eq!(disconnected(&Lookup::Found(())).status, 204);
    assert_eq!(disconnected(&Lookup::Missing).status, 404);
    let failed = disconnected(&Lookup::Failed);
    assert_eq!(failed.status, 500);
    assert!(failed.trigger.unwrap().contains("Failed to disconnect agent"));
    assert!(wants_cards(&ListQuery { partial: Some("list".to_string()) }));
    assert!(!wants_cards(&ListQuery { partial: None }));
}

#[test]
fn built_in_providers_come_behind_the_catalog() {
    let catalog = vec![CatalogProvider {
        name: "ollama".to_string(),
        display_name: "Ollama".to_string(),
    }];
    let options = list_providers(&catalog);
    assert_eq!(options[0].label, "Ollama (ollama)");
    assert_eq!(options.iter().filter(|o| o.id == "ollama").count(), 1);
    assert!(list_providers(&vec![]).iter().any(|o| o.id == "ollama"));
}

#[test]
fn permissions_are_granted_and_revoked() {
    let grant = GrantPermissionForm { permission: "fs:r".to_string() };
    match granted("ann", &grant, true) {
        PermissionReply::Back { location, trigger } => {
            assert_eq!(location, "/agents/ann/detail");
            assert!(trigger.contains("fs:r"));
        }
        _ => panic!("a granted permission leads back"),
    }
    let revoke = RevokePermissionForm { permission: "fs:r".to_string() };
    match revoked("ann", &revoke, false) {
        PermissionReply::Refused { reply, trigger } => {
            assert_eq!(reply.status, 400);
            assert!(trigger.contains("Failed to revoke permission"));
        }
        _ => panic!("a failure is told"),
    }
    assert_eq!(detail_title("ann"), "Agent: ann");
    let task = |id: u128, agent_id: u128| AgentTask {
        id,
        agent_id,
        state: TaskState::Running,
        prompt_preview: format!("task {id}"),
        created_at: NOON,
        tool_calls: 3,
        tokens_used: 40,
    };
    let tasks = vec![task(1, 7), task(2, 8)];
    assert_eq!(tasks_of(&tasks, 8).len(), 1);
    let items = task_items(&tasks, 8);
    assert_eq!(items.len(), 1);
    assert_eq!(items[0].id, "00000000-0000-0000-0000-000000000002");
    assert_eq!(items[0].state, "Running");
    assert_eq!(items[0].prompt_preview, "task 2");
    assert_eq!(items[0].created_at, "2026-04-11 12:00:00");
    assert_eq!((items[0].tool_calls, items[0].tokens_used), (3, 40));
    assert!(task_items(&tasks, 9).is_empty());
}

fn event(details: &str, emitted: bool) -> EventEntry {
    EventEntry {
        emitted,
        at: NOON,
        trace_id: 1,
        severity: "Info".to_string(),
        agent_id: Some(255),
        task_id: None,
        details: parse_json(details).ok().unwrap(),
    }
}

#[test]
fn emitted_events_are_filtered() {
    let entries = vec![
        event("{\"event_type\":\"DiskSpaceLow\",\"source\":\"hal\"}", true),
        event("{\"event_type\":\"CPUSpikeDetected\"}", true),
        event("{\"event_type\":\"DiskSpaceLow\"}", false),
    ];
    let query = |q: &str, t: &str, a: &str| EventsQuery {
        q: Some(q.to_string()),
        event_type: Some(t.to_string()),
        agent_id: Some(a.to_string()),
        limit: None,
    };
    let found = |q: EventsQuery| page(&entries, &event_filter(&q), 10);
    assert_eq!(found(query("", "", "")).len(), 2);
    let rows = found(query("", "DISK", ""));
    assert_eq!(rows.len(), 1);
    assert_eq!(rows[0].timestamp, "2026-04-11 12:00:00");
    assert_eq!(rows[0].event_source, "hal");
    assert_eq!(rows[0].details.text_at("source"), Some("hal"));
    assert_eq!(rows[0].task_id, "");
    assert_eq!(found(query("hal", "", "")).len(), 1);
    assert_eq!(found(query("", "", "00FF")).len(), 2);
    assert_eq!(found(query("", "", "abc")).len(), 0);
    assert_eq!(page(&entries, &event_filter(&query("", "", "")), 1).len(), 1);
}

#[test]
fn event_limits_are_bounded() {
    assert_eq!(limit_of(None), 200);
    assert_eq!(limit_of(Some(0)), 1);
    assert_eq!(limit_of(Some(5000)), 1000);
    assert_eq!(fetch_limit(200), 1000);
    assert_eq!(fetch_limit(1000), 5000);
    assert_eq!(count_allowed(&vec![true, false, true]), 2);
    let agents = vec![AgentName { id: 1, name: "a".to_string() }];
    assert_eq!(subscriber_name(&agents, 1), "a");
    assert_eq!(subscriber_name(&agents, 2), "(unknown)");
}

#[test]
fn subscriptions_need_an_agent_and_a_filter() {
    let form = |agent: &str, filter: &str| CreateSubscriptionForm {
        agent_name: agent.to_string(),
        event_filter: filter.to_string(),
        payload_filter: Some(String::new()),
        throttle: None,
        priority: Some("high".to_string()),
    };
    let made = create_subscription(&form(" a ", "X")).ok().unwrap();
    assert_eq!(made.agent_name, "a");
    assert!(made.payload_filter.is_none());
    assert_eq!(made.priority.as_deref(), Some("high"));
    assert_eq!(
        create_subscription(&form("a", " ")).err().map(|r| r.body).as_deref(),
        Some("agent_name and event_filter required")
    );
    assert!(kernel_error(&KernelAnswer::Done).is_none());
    assert_eq!(
        kernel_error(&KernelAnswer::Error("no".to_string())).map(|r| r.status),
        Some(400)
    );
    assert!(kernel_error(&KernelAnswer::Other("odd".to_string())).is_some());
}

#[test]
fn test_events_carry_a_payload() {
    let form = |severity: Option<&str>, payload: Option<&str>| EmitEventForm {
        event_type: "DiskSpaceLow".to_string(),
        severity: severity.map(|s| s.to_string()),
        payload: payload.map(|s| s.to_string()),
    };
    let (severity, payload) = emit_test_event(&form(None, None), true).ok().unwrap();
    assert_eq!(severity, EventSeverity::Warning);
    assert_eq!(compact(&payload), "{\"source\":\"web_ui_test_emit\"}");
    let (severity, payload) =
        emit_test_event(&form(Some("critical"), Some("")), true).ok().unwrap();
    assert_eq!(severity, EventSeverity::Critical);
    assert_eq!(compact(&payload), "{}");
    let body = |f: EmitEventForm, known: bool| {
        emit_test_event(&f, known).err().map(|r| r.body).unwrap_or_default()
    };
    assert!(body(form(None, None), false).starts_with("unknown event type 'DiskSpaceLow'"));
    assert_eq!(
        body(form(Some("loud"), None), true),
        "unknown severity 'loud'. Use info/warning/critical."
    );
    assert!(body(form(None, Some("{")), true).starts_with("payload must be JSON: "));
    assert_eq!(parse_severity("Warning"), Some(EventSeverity::Warning));
    assert_eq!(parse_severity("WARNING"), None);
}

#[test]
fn the_dashboard_counts_and_turns() {
    assert_eq!(format_uptime(59), "0m");
    assert_eq!(format_uptime(3_720), "1h 2m");
    assert_eq!(format_uptime(90_060), "1d 1h 1m");
    let states = vec![
        TaskState::Queued,
        TaskState::Running,
        TaskState::Waiting,
        TaskState::Complete,
        TaskState::Failed,
        TaskState::Cancelled,
    ];
    let summary = task_summary(&states);
    assert_eq!(
        summary.queued + summary.running + summary.completed + summary.failed,
        states.len()
    );
    assert_eq!(summary.completed, 1);
    assert_eq!(dashboard_turn(0), DashboardEvent::Stats);
    assert_eq!(dashboard_turn(4), DashboardEvent::Agents);
    assert_eq!(dashboard_turn(5), DashboardEvent::Audit);
    assert_ne!(DashboardEvent::Stats.event_name(), DashboardEvent::Agents.event_name());
    assert!(DashboardEvent::Audit.template().ends_with(".html"));
    assert_eq!(active_tasks(&vec![TaskState::Running, TaskState::Complete]), 1);
    let row = audit_row(&AuditLine {
        at: NOON,
        event_type: "\"TaskCreated\"".to_string(),
        agent_id: None,
    });
    assert_eq!(row.event_type, "TaskCreated");
    assert_eq!(row.timestamp, "2026-04-11 12:00:00");
}

fn message(kind: UserMessageKind, response: Option<&str>) -> UserMessage {
    UserMessage {
        id: 7,
        from: NotificationSource::Agent(0xabcd_ef01_u128 << 96),
        priority: "Urgent".to_string(),
        subject: "s".to_string(),
        body: "b".to_string(),
        kind,
        interactive: true,
        response: response.map(|r| r.to_string()),
        read: false,
        created_at: NOON,
        expires_at: None,
    }
}

#[test]
fn notifications_are_shown() {
    let question = UserMessageKind::Question {
        question: "ok?".to_string(),
        options: Some(vec!["yes".to_string()]),
    };
    let msg = message(question, None);
    assert_eq!(unread_count(&vec![]).count, 0);
    let view = notification_view(&msg);
    assert_eq!(view.from, "agent:abcdef01");
    assert_eq!((view.priority.as_str(), view.kind_tag.as_str()), ("urgent", "question"));
    assert_eq!(view.created_at, "2026-04-11 12:00:00 UTC");
    assert!(view.requires_response);
    assert!(!notification_view(&message(UserMessageKind::TaskComplete, Some("yes")))
        .requires_response);
    assert_eq!(sender_label(&NotificationSource::Kernel), "kernel");
    assert_eq!(unread_count(&vec![msg]).count, 1);
    assert_eq!(notification_title("s"), "Notification — s");
    assert_eq!(breadcrumb(&"x".repeat(50)).len(), 40);
}

#[test]
fn notifications_are_answered() {
    let form = |s: &str| RespondForm { response: s.to_string() };
    assert_eq!(respond(ID, &form(" yes ")).ok(), Some((7, "yes".to_string())));
    assert_eq!(respond("x", &form("yes")).err().map(|r| r.status), Some(400));
    assert!(respond(ID, &form(" ")).is_err());
    assert_eq!(
        respond(ID, &form(&"x".repeat(MAX_RESPONSE_BYTES + 1))).err().map(|r| r.status),
        Some(413)
    );
    assert!(responded(7, "<y>").contains("&lt;y&gt;"));
    assert!(responded(7, "y").contains("notif-00000000-0000-0000-0000-000000000007"));
    assert_eq!(check_notification_id(ID).ok(), Some(7));
    assert!(inbox_error(true).is_none() && respond_error(true).is_none());
    let told = |r: Option<agentos_web::reply::Reply>| r.map(|r| (r.status, r.body));
    assert_eq!(told(inbox_error(false)), Some((500, "Unable to load notifications".to_string())));
    assert_eq!(told(respond_error(false)), Some((422, "Failed to submit response".to_string())));
    assert!(fetch_error(&Lookup::Missing).map(|r| r.status) == Some(404));
    assert!(fetch_error(&Lookup::Failed).map(|r| r.status) == Some(500));
}

#[test]
fn notifications_are_pushed() {
    let p = push(Received::Payload("{}".to_string())).unwrap();
    assert_eq!((p.event.as_str(), p.data.as_str()), ("notification-new", "{}"));
    let p = push(Received::Lagged(3)).unwrap();
    assert_eq!((p.event.as_str(), p.data.as_str()), ("notification-reload", "3"));
    assert!(push(Received::Closed).is_none());
}
