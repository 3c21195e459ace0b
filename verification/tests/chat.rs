use agentos_web::chat_inflight::{
    Cursor, InFlightChat, InFlightInference, COALESCE_TARGET, COALESCE_THRESHOLD,
    MAX_BUFFERED_EVENTS,
};
use agentos_web::chat_store::{
    backfill, ChatMessage, ChatStore, ChatToolCallRecord, StoreError, TimelineEntry,
};
use agentos_web::handlers::chat::{
    agent_initial, attached, change_error, check_agent, check_agent_name, check_message,
    check_new_session, check_session_id, check_title, conversation_title, conversation_totals,
    delete_reply, export_disposition, export_markdown, found_session,
    is_secret_tool, key_is_sensitive, needs_stream_reconnect, parts_display_for_chat_log,
    render_redacted, render_sent, session_item, stop_error, stream_error, user_content,
    AgentState, Changed, ContentPart, DeleteReply, NewSessionForm, SendForm, build_history,
};
use agentos_web::handlers::chat_pages::{
    conversation, export_session, new_session, new_session_as,
};
use agentos_web::handlers::chat_send::{begin_send, finish_send, stop_reply, store_reply};
use agentos_web::json::parse_json;
use agentos_web::reply::Lookup;
use agentos_web::stream::{stream_frame, ChatStreamEvent, ChatStreamFrame, Cost};

const ID: &str = "123e4567-e89b-12d3-a456-426614174000";

fn cost(usd: f64) -> Cost {
    Cost { bits: usd.to_bits() }
}

fn chunk(text: &str) -> ChatStreamEvent {
    ChatStreamEvent::TextChunk { text: text.to_string() }
}

fn store_with(id: &str, message: &str) -> ChatStore {
    let mut store = ChatStore::new();
    let made = store.create_session(id.to_string(), "Researcher", message, None, "t1");
    assert!(made.is_ok());
    store
}

fn call(name: &str, payload: &str, result: &str) -> ChatToolCallRecord {
    ChatToolCallRecord {
        tool_name: name.to_string(),
        intent_type: "Query".to_string(),
        payload: parse_json(payload).ok().unwrap(),
        result: parse_json(result).ok().unwrap(),
        duration_ms: 12,
    }
}

#[test]
fn a_new_session_holds_its_first_message() {
    let store = store_with(ID, "hello");
    let session = store.get_session(ID).unwrap();
    assert_eq!(session.agent_name, "Researcher");
    assert_eq!(session.updated_at, "t1");
    assert!(session.title.is_none());
    let msgs = store.get_messages(ID);
    assert_eq!(msgs.len(), 1);
    assert_eq!((msgs[0].role.as_str(), msgs[0].content.as_str()), ("user", "hello"));
    let listed = store.list_sessions();
    assert_eq!(listed[0].last_preview.as_deref(), Some("hello"));
    assert_eq!(session_item(&listed[0]).preview, "hello");
}

#[test]
fn an_id_is_used_once() {
    let mut store = store_with(ID, "hello");
    let again = store.create_session(ID.to_string(), "X", "y", None, "t2");
    assert!(matches!(again, Err(StoreError::IdTaken)));
    assert_eq!(store.sessions.len(), 1);
    assert!(store
        .create_session_with_first_message("X", "y", Some("f1,f2"), "t2")
        .is_ok());
    assert_eq!(store.sessions.len(), 2);
}

#[test]
fn messages_are_read_back_in_order() {
    let mut store = store_with(ID, "one");
    assert!(store.add_message(ID, "user", "two", Some("f"), "t2").is_ok());
    assert!(store
        .add_assistant_message(ID, "three", Some(7), Some(cost(0.5)), "t3")
        .is_ok());
    let texts: Vec<&str> = store.get_messages(ID).iter().map(|m| m.content.as_str()).collect();
    assert_eq!(texts, vec!["one", "two", "three"]);
    assert_eq!(store.get_session(ID).unwrap().updated_at, "t3");
    assert!(matches!(
        store.add_message(ID, "robot", "x", None, "t"),
        Err(StoreError::UnknownRole)
    ));
    assert!(matches!(
        store.add_message("nobody", "user", "x", None, "t"),
        Err(StoreError::NoSession)
    ));
}

#[test]
fn the_timeline_holds_tool_calls() {
    let mut store = store_with(ID, "one");
    let calls = vec![call("web-search", "{\"q\":1}", "{\"ok\":true}")];
    assert!(store.add_tool_calls(ID, &calls, "t2").is_ok());
    assert!(store.add_assistant_message(ID, "done", Some(42), None, "t3").is_ok());
    let timeline = store.get_timeline(ID);
    assert_eq!(timeline.len(), 3);
    match &timeline[1] {
        TimelineEntry::Tool { tool_name, tool_payload_json, tool_success, .. } => {
            assert_eq!(tool_name, "web-search");
            assert_eq!(tool_payload_json.as_deref(), Some("{\"q\":1}"));
            assert_eq!(*tool_success, Some(true));
        }
        _ => panic!("a tool call stands between the messages"),
    }
    assert_eq!(conversation_totals(&timeline), (42, 1));
}

#[test]
fn sessions_are_renamed_forked_and_deleted() {
    let mut store = store_with(ID, "one");
    assert!(store.rename_session(ID, Some("Plan"), "t2").is_ok());
    assert_eq!(store.get_session(ID).unwrap().title.as_deref(), Some("Plan"));
    assert!(matches!(
        store.rename_session("nobody", None, "t2"),
        Err(StoreError::NoSession)
    ));
    let forked = store.fork_session(ID, None, "t3").ok().unwrap();
    assert_ne!(forked, ID);
    assert_eq!(store.get_messages(&forked).len(), 1);
    assert_eq!(store.get_messages(&forked)[0].content, "one");
    assert!(store.delete_session(ID).is_ok());
    assert!(store.get_session(ID).is_none());
    assert!(store.get_messages(ID).is_empty());
    assert_eq!(store.get_messages(&forked).len(), 1);
    assert!(matches!(store.delete_session(ID), Err(StoreError::NoSession)));
}

#[test]
fn old_tool_rows_get_their_columns() {
    let columns = backfill(
        "{\"intent_type\":\"Query\",\"payload\":{\"a\":1},\"result\":{\"error\":\"no\"}}",
    )
    .unwrap();
    assert_eq!(columns.intent_type.as_deref(), Some("Query"));
    assert_eq!(columns.payload_json.as_deref(), Some("{\"a\":1}"));
    assert_eq!(columns.success, Some(false));
    assert!(backfill("not json").is_none());
}

#[test]
fn a_message_goes_from_the_form_to_the_store() {
    let mut store = store_with(ID, "first");
    let mut inflight = InFlightChat::new();
    let form = SendForm { message: "  second ".to_string(), file_ids: Some(" ".to_string()) };
    let start = match begin_send(&store, &mut inflight, ID, &form) {
        Ok(start) => start,
        Err(reply) => panic!("{}", reply.body),
    };
    assert_eq!(start.message, "second");
    assert!(start.file_ids.is_none());
    assert_eq!(start.agent_name, "Researcher");
    let refused = begin_send(&store, &mut inflight, ID, &form).err().unwrap();
    assert_eq!(
        (refused.status, refused.body.as_str()),
        (409, "A reply is already being generated for this session")
    );
    let expanded = vec!["first".to_string()];
    let history = finish_send(&mut store, &mut inflight, ID, &start, &expanded, &vec![], "t2")
        .ok()
        .unwrap();
    assert_eq!(history, vec![("user".to_string(), "first".to_string())]);
    assert_eq!(store.get_messages(ID)[1].content, "second");
    inflight.finish(ID, start.number);
    assert!(begin_send(&store, &mut inflight, ID, &form).is_ok());
}

#[test]
fn a_message_is_refused_with_the_first_complaint() {
    let store = store_with(ID, "first");
    let mut inflight = InFlightChat::new();
    let cases = vec![
        ("no-id", "x".to_string(), 400, "Invalid session ID"),
        (ID, "  ".to_string(), 400, "Message cannot be empty"),
        (ID, "x".repeat(32_769), 400, "Message too long (max 32 KB)"),
        (
            "123e4567-e89b-12d3-a456-426614174001",
            "x".to_string(),
            404,
            "Session not found",
        ),
    ];
    for (id, message, status, body) in cases {
        let form = SendForm { message, file_ids: None };
        let reply = begin_send(&store, &mut inflight, id, &form).err().unwrap();
        assert_eq!((reply.status, reply.body.as_str()), (status, body));
    }
    assert!(!inflight.is_running(ID));
}

#[test]
fn a_message_that_cannot_be_stored_frees_its_session() {
    let mut store = store_with(ID, "first");
    let mut inflight = InFlightChat::new();
    let form = SendForm { message: "x".to_string(), file_ids: None };
    let start = begin_send(&store, &mut inflight, ID, &form).ok().unwrap();
    assert!(store.delete_session(ID).is_ok());
    let reply = finish_send(&mut store, &mut inflight, ID, &start, &vec![], &vec![], "t2")
        .err()
        .unwrap();
    assert_eq!((reply.status, reply.body.as_str()), (500, "Failed to save message"));
    assert!(!inflight.is_running(ID));
}

#[test]
fn a_reply_is_stored_behind_its_tool_calls() {
    let mut store = store_with(ID, "first");
    let calls = vec![call("web-search", "{}", "{}")];
    assert!(store_reply(&mut store, ID, &calls, "answer", 10, cost(0.0), "t2").is_ok());
    let roles: Vec<&str> = store.get_messages(ID).iter().map(|m| m.role.as_str()).collect();
    assert_eq!(roles, vec!["user", "tool", "assistant"]);
    assert_eq!(store.messages[2].tokens_used, Some(10));
    assert!(store.messages[2].cost.is_none());
    assert!(store_reply(&mut store, "nobody", &calls, "x", 1, cost(1.0), "t").is_err());
}

#[test]
fn a_reply_is_stopped_once() {
    let mut store = store_with(ID, "first");
    let mut inference = InFlightInference::new();
    inference.push(chunk("par"));
    let (_, cursor, _) = inference.read_from(Cursor::start());
    assert!(stop_reply(&mut store, &mut inference, ID, "t2"));
    assert!(inference.is_done());
    assert_eq!(store.get_messages(ID)[1].content, "_Stopped by user._");
    let (events, cursor, done) = inference.read_from(cursor);
    assert!(done);
    assert_eq!(events.len(), 1);
    match &events[0] {
        ChatStreamEvent::Done { answer, iterations, tokens_used, cost } => {
            assert_eq!(answer, "_Stopped by user._");
            assert_eq!((*iterations, *tokens_used, cost.bits), (0, 0, 0));
        }
        _ => panic!("a reader is sent the closing event"),
    }
    let row = store.messages.last().expect("the message is stored");
    assert_eq!((row.id, row.tokens_used), (2, None));
    assert!(row.cost.is_none());
    assert_eq!(store.next_id, 3);
    assert_eq!(store.sessions[0].updated_at, "t2");
    assert!(!stop_reply(&mut store, &mut inference, ID, "t3"));
    assert_eq!(store.get_messages(ID).len(), 2);
    assert!(inference.read_from(cursor).0.is_empty());
}

#[test]
fn a_reply_is_stopped_where_nothing_can_be_stored() {
    let mut store = store_with(ID, "first");
    store.next_id = i64::MAX;
    let mut inference = InFlightInference::new();
    assert!(stop_reply(&mut store, &mut inference, ID, "t2"));
    assert!(inference.is_done());
    assert_eq!(inference.read_from(Cursor::start()).0.len(), 1);
    assert_eq!(store.get_messages(ID).len(), 1);
    let mut other = InFlightInference::new();
    assert!(stop_reply(&mut store, &mut other, "missing", "t2"));
    assert_eq!(store.messages.len(), 1);
}

#[test]
fn readers_see_every_event_once() {
    let mut inference = InFlightInference::new();
    inference.push(chunk("a"));
    inference.push(chunk("b"));
    let (events, cursor, done) = inference.read_from(Cursor::start());
    assert_eq!((events.len(), cursor.seq, cursor.text, done), (2, 2, 2, false));
    inference.push(chunk("c"));
    inference.mark_done();
    let (events, cursor, done) = inference.read_from(cursor);
    assert_eq!((events.len(), cursor.seq, cursor.text, done), (1, 3, 3, true));
    let (events, _, _) = inference.read_from(cursor);
    assert!(events.is_empty());
}

#[test]
fn old_text_is_joined() {
    let mut inference = InFlightInference::new();
    for _ in 0..COALESCE_THRESHOLD {
        inference.push(chunk("x"));
    }
    let (events, _, _) = inference.read_from(Cursor::start());
    assert!(events.len() <= COALESCE_THRESHOLD);
    let mut text = String::new();
    for event in &events {
        if let ChatStreamEvent::TextChunk { text: t } = event {
            text.push_str(t);
        }
    }
    assert_eq!(text.len(), COALESCE_THRESHOLD);
    inference.push(chunk("x"));
    let (events, _, _) = inference.read_from(Cursor::start());
    assert!(events.len() >= COALESCE_TARGET);
}

/// The text of the events, put together.
fn joined(events: &[ChatStreamEvent]) -> String {
    let mut text = String::new();
    for event in events {
        if let ChatStreamEvent::TextChunk { text: t } = event {
            text.push_str(t);
        }
    }
    text
}

#[test]
fn a_reader_that_keeps_up_is_sent_each_event_once() {
    let mut inference = InFlightInference::new();
    let mut cursor = Cursor::start();
    let mut received = String::new();
    let mut pushed = String::new();
    for n in 0..2 * COALESCE_THRESHOLD {
        let piece = format!("{n} ");
        inference.push(chunk(&piece));
        pushed.push_str(&piece);
        let (events, next, _) = inference.read_from(cursor);
        assert_eq!(events.len(), 1);
        received.push_str(&joined(&events));
        cursor = next;
    }
    assert_eq!(received, pushed);
    assert!(inference.read_from(cursor).0.is_empty());
}

#[test]
fn a_reader_that_lags_is_sent_what_was_joined() {
    let mut inference = InFlightInference::new();
    let mut pushed = String::new();
    let mut cursor = Cursor::start();
    let mut received = String::new();
    for n in 0..20_000 {
        let piece = format!("é{n},");
        inference.push(chunk(&piece));
        pushed.push_str(&piece);
        if n == 100 || n == 7_999 || n == 15_000 {
            let (events, next, _) = inference.read_from(cursor);
            received.push_str(&joined(&events));
            assert_eq!(received, pushed);
            cursor = next;
        }
    }
    let (events, _, _) = inference.read_from(cursor);
    received.push_str(&joined(&events));
    assert_eq!(received, pushed);
    assert_eq!(joined(&inference.read_from(Cursor::start()).0), pushed);
}

#[test]
fn the_buffer_is_capped() {
    let mut inference = InFlightInference::new();
    inference.push(chunk("kept"));
    for iteration in 0..10_050 {
        inference.push(ChatStreamEvent::Thinking { iteration, reasoning: None });
    }
    let (events, cursor, _) = inference.read_from(Cursor::start());
    assert_eq!(events.len(), MAX_BUFFERED_EVENTS + 1);
    assert_eq!(joined(&events), "kept");
    assert_eq!((cursor.seq, cursor.text), (10_051, 4));
    inference.push(ChatStreamEvent::Error { message: "no".to_string() });
    assert_eq!(inference.read_from(cursor).0.len(), 1);
}

#[test]
fn nothing_is_added_to_a_reply_that_is_over() {
    let mut inference = InFlightInference::new();
    inference.push(ChatStreamEvent::Error { message: "no".to_string() });
    assert!(!inference.is_done());
    inference.mark_done();
    assert!(inference.is_done());
    inference.push(chunk("late"));
    assert_eq!(inference.read_from(Cursor::start()).0.len(), 1);
    assert!(!inference.cancel("again".to_string()));
    let mut running = InFlightInference::new();
    assert!(running.cancel("stopped".to_string()));
    let (events, _, done) = running.read_from(Cursor::start());
    assert!(done);
    assert!(matches!(
        &events[0],
        ChatStreamEvent::Done { answer, .. } if answer == "stopped"
    ));
}

#[test]
fn frames_hide_reasoning_and_zero_costs() {
    let frame = stream_frame(ChatStreamEvent::Thinking {
        iteration: 2,
        reasoning: Some("private".to_string()),
    });
    assert!(matches!(frame, ChatStreamFrame::Thinking { iteration: 2 }));
    let frame = stream_frame(ChatStreamEvent::Done {
        answer: "a".to_string(),
        iterations: 1,
        tokens_used: 0,
        cost: cost(0.0),
    });
    match frame {
        ChatStreamFrame::Done { tokens_used, cost, .. } => {
            assert_eq!(tokens_used, Some(0));
            assert!(cost.is_none());
        }
        _ => panic!("an answer is framed as an answer"),
    }
    assert!(cost(-1.0).if_positive().is_none());
    assert_eq!(cost(0.25).if_positive().map(|c| c.bits), Some(0.25f64.to_bits()));
}

fn message(role: &str, content: &str) -> ChatMessage {
    ChatMessage {
        role: role.to_string(),
        content: content.to_string(),
        created_at: "t".to_string(),
        file_ids: None,
        tool_name: None,
        tool_duration_ms: None,
        tool_intent_type: None,
        tool_payload_json: None,
        tool_result_json: None,
        tool_success: None,
    }
}

fn tool_message(name: &str, payload: &str, result: &str) -> ChatMessage {
    let mut m = message("tool", "");
    m.tool_name = Some(name.to_string());
    m.tool_payload_json = Some(payload.to_string());
    m.tool_result_json = Some(result.to_string());
    m
}

fn history(msgs: &[ChatMessage]) -> Vec<(String, String)> {
    let refs: Vec<&ChatMessage> = msgs.iter().collect();
    let expanded: Vec<String> = msgs.iter().map(|m| m.content.clone()).collect();
    let meta_tools = vec!["agent-manual".to_string(), "list-tools".to_string()];
    build_history(&refs, &expanded, &meta_tools)
}

#[test]
fn tool_calls_are_told_before_the_answer() {
    let msgs = vec![
        message("user", "find it"),
        tool_message("web-search", "{\"token\":\"abc\",\"q\":1}", "line\nbreak"),
        message("assistant", "found"),
    ];
    let h = history(&msgs);
    assert_eq!(h.len(), 2);
    assert_eq!(
        h[1].1,
        "[Prior tool call: web-search (ok) args=`{\"q\":1,\"token\":\"[redacted]\"}` \
         result=`line\\nbreak`]\n\nfound"
    );
}

#[test]
fn at_most_five_calls_are_told_of() {
    let mut msgs = vec![message("user", "go")];
    for _ in 0..7 {
        msgs.push(tool_message("calc", "{}", "{}"));
    }
    msgs.push(tool_message("agent-manual", "{}", "first"));
    msgs.push(tool_message("agent-manual", "{}", "second"));
    let h = history(&msgs);
    assert_eq!(h.len(), 2);
    assert_eq!(h[1].1.matches("[Prior tool call: calc").count(), 5);
    assert_eq!(h[1].1.matches("[Prior discovery: ").count(), 1);
    assert!(h[1].1.contains("second"));
}

#[test]
fn secrets_are_not_told() {
    assert!(is_secret_tool("vault-get"));
    assert!(!is_secret_tool("calc"));
    assert!(key_is_sensitive("X-API-Key"));
    assert!(key_is_sensitive("user.access_token"));
    assert!(!key_is_sensitive("tokenizer"));
    assert_eq!(
        render_redacted("{\"a\":[{\"password\":\"x\"}]}"),
        "{\"a\":[{\"password\":\"[redacted]\"}]}"
    );
    let msgs = vec![tool_message("vault-get", "{\"k\":1}", "s3cret")];
    let h = history(&msgs);
    assert_eq!(
        h[0].1,
        "[Prior tool call: vault-get (ok) args=`[redacted]` result=`[redacted]`]"
    );
}

#[test]
fn forms_are_checked() {
    assert!(check_session_id(ID).is_none());
    assert_eq!(check_session_id("x").map(|r| r.status), Some(400));
    assert_eq!(check_title(&Some(" Plan ".to_string())).ok(), Some(Some("Plan".to_string())));
    assert_eq!(check_title(&Some("  ".to_string())).ok(), Some(None));
    assert_eq!(
        check_title(&Some("x".repeat(121))).err().map(|r| r.body),
        Some("Title too long (max 120 chars)".to_string())
    );
    assert_eq!(check_message(" hi ").ok().as_deref(), Some("hi"));
    assert_eq!(attached(&Some(" a,b ".to_string())).as_deref(), Some("a,b"));
    assert_eq!(check_agent_name(" r ").ok().as_deref(), Some("r"));
    assert_eq!(
        check_agent_name(&"x".repeat(257)).err().map(|r| r.body).as_deref(),
        Some("Agent name too long")
    );
    let form = NewSessionForm {
        agent_name: " ".to_string(),
        message: "hi".to_string(),
        file_ids: None,
    };
    assert_eq!(
        check_new_session(&form).err().map(|r| r.body).as_deref(),
        Some("Select an agent")
    );
}

#[test]
fn only_agents_that_are_there_are_asked() {
    let agents = vec![
        AgentState { name: "a".to_string(), status: "online".to_string() },
        AgentState { name: "b".to_string(), status: "offline".to_string() },
    ];
    assert!(check_agent(&agents, "a").is_none());
    assert_eq!(
        check_agent(&agents, "b").map(|r| r.body).as_deref(),
        Some("Agent is offline")
    );
    assert_eq!(
        check_agent(&agents, "c").map(|r| r.body).as_deref(),
        Some("Agent not found")
    );
}

#[test]
fn changes_are_answered() {
    assert!(change_error(&Changed::Done, "no").is_none());
    let reply = change_error(&Changed::Refused(StoreError::NoSession), "no").unwrap();
    assert_eq!((reply.status, reply.body.as_str()), (404, "Session not found"));
    assert_eq!(change_error(&Changed::StoreFailed, "no").map(|r| r.body).as_deref(), Some("no"));
    assert_eq!(change_error(&Changed::TaskFailed, "no").map(|r| r.status), Some(500));
    assert!(matches!(delete_reply(&Changed::Done, true), DeleteReply::Gone));
    assert!(matches!(delete_reply(&Changed::Done, false), DeleteReply::ToList));
    assert!(matches!(
        delete_reply(&Changed::StoreFailed, true),
        DeleteReply::Refused(_)
    ));
    assert_eq!(found_session(Lookup::Missing).err().map(|r| r.status), Some(404));
    assert_eq!(found_session(Lookup::Failed).err().map(|r| r.status), Some(500));
    assert!(stop_error(true).is_none());
    assert_eq!(stop_error(false).map(|r| r.status), Some(409));
    assert!(stream_error(ID, true).is_none());
    assert!(stream_error("x", true).is_some());
    assert!(stream_error(ID, false).is_some());
    assert!(needs_stream_reconnect(Some(false)));
    assert!(!needs_stream_reconnect(Some(true)));
    assert!(!needs_stream_reconnect(None));
}

#[test]
fn attachments_follow_the_text() {
    let image = ContentPart::Image { mime: "image/png".to_string(), file_id: "f".to_string() };
    let (log, parts) = user_content("look".to_string(), vec![image]);
    assert!(log.starts_with("look"));
    assert_eq!(parts.map(|p| p.len()), Some(2));
    let (log, parts) = user_content("look".to_string(), vec![]);
    assert_eq!(log, "look");
    assert!(parts.is_none());
    let text = ContentPart::Text { text: "only text".to_string() };
    assert_eq!(parts_display_for_chat_log(&vec![text]), "only text");
}

#[test]
fn pages_show_what_was_said() {
    assert_eq!(agent_initial("écho", 'A'), "É");
    assert_eq!(agent_initial("", 'a'), "A");
    assert_eq!(conversation_title(ID), "Chat — 123e4567");
    assert_eq!(export_disposition(ID), "attachment; filename=\"chat-123e4567.md\"");
    let html = render_sent("<b>", ID, "A&B");
    assert!(html.contains("&lt;b&gt;"));
    assert!(html.contains("A&amp;B"));
    assert!(!html.contains("<b>"));
}

#[test]
fn sessions_are_exported_as_markdown() {
    let mut store = store_with(ID, "hi");
    assert!(store.add_assistant_message(ID, "hello", None, None, "t2").is_ok());
    let session = store.get_session(ID).unwrap();
    assert_eq!(
        export_markdown(&session, &store.get_messages(ID)),
        "# Chat with Researcher\n\n## You\n\nhi\n\n## Researcher\n\nhello\n\n"
    );
    assert!(store.rename_session(ID, Some("Plan"), "t3").is_ok());
    let session = store.get_session(ID).unwrap();
    let tool = tool_message("calc", "{}", "4");
    let msgs = vec![&tool];
    assert_eq!(
        export_markdown(&session, &msgs),
        "# Plan\n\n### Tool: calc\n\n#### Input\n\n```json\n{}\n```\n\n\
         #### Result\n\n```json\n4\n```\n\n"
    );
}

fn new_form(agent: &str, message: &str) -> NewSessionForm {
    NewSessionForm {
        agent_name: agent.to_string(),
        message: message.to_string(),
        file_ids: Some("f1".to_string()),
    }
}

#[test]
fn a_chat_is_started_and_shown() {
    let agents = vec![AgentState { name: "ann".to_string(), status: "online".to_string() }];
    let mut store = ChatStore::new();
    let mut inflight = InFlightChat::new();
    let form = new_form(" ann ", " hi ");
    let (id, start) = new_session(&mut store, &mut inflight, Some(&agents), &form, "t1")
        .ok()
        .unwrap();
    assert_eq!((start.message.as_str(), start.agent_name.as_str()), ("hi", "ann"));
    assert_eq!(start.file_ids.as_deref(), Some("f1"));
    assert!(store
        .add_assistant_message(&id, "hello", Some(u64::MAX), None, "t2")
        .is_ok());
    assert!(store.add_assistant_message(&id, "again", Some(1), None, "t3").is_ok());
    let page = conversation(&store, &inflight, &id).ok().unwrap();
    assert_eq!(page.short_id, id[..8]);
    assert_eq!(page.agent_initial, "A");
    assert_eq!(page.entries.len(), 3);
    assert_eq!(page.total_tokens_used, u64::MAX as u128 + 1);
    assert_eq!(page.total_tool_calls, 0);
    assert!(page.needs_stream_reconnect);
    inflight.finish(&id, start.number);
    assert!(!conversation(&store, &inflight, &id).ok().unwrap().needs_stream_reconnect);
    let (disposition, text) = export_session(&store, &id).ok().unwrap();
    assert!(disposition.ends_with(".md\""));
    assert!(text.starts_with("# Chat with ann\n\n## You\n\nhi\n\n"));
}

#[test]
fn a_chat_needs_an_id_that_is_free() {
    let agents = vec![AgentState { name: "ann".to_string(), status: "online".to_string() }];
    let mut store = ChatStore::new();
    let mut inflight = InFlightChat::new();
    let id = "123e4567-e89b-12d3-a456-426614174000";
    let start = |store: &mut ChatStore, inflight: &mut InFlightChat| {
        let form = new_form("ann", "hi");
        new_session_as(store, inflight, Some(&agents), &form, id.to_string(), "t1")
            .map(|(id, start)| (id, start.number))
            .map_err(|r| (r.status, r.body))
    };
    assert_eq!(start(&mut store, &mut inflight), Ok((id.to_string(), 0)));
    assert_eq!(
        start(&mut store, &mut inflight),
        Err((500, "Failed to create session".to_string()))
    );
    assert!(store.delete_session(id).is_ok());
    assert_eq!(start(&mut store, &mut inflight).map_err(|r| r.0), Err(409));
    assert_eq!(store.get_messages(id).len(), 1);
}

#[test]
fn a_chat_is_not_started_or_shown() {
    let agents = vec![AgentState { name: "ann".to_string(), status: "offline".to_string() }];
    let mut store = ChatStore::new();
    let mut inflight = InFlightChat::new();
    let mut refused = |agents: Option<&Vec<AgentState>>, form: NewSessionForm| {
        new_session(&mut store, &mut inflight, agents, &form, "t1")
            .err()
            .map(|r| (r.status, r.body))
            .unwrap()
    };
    assert_eq!(refused(Some(&agents), new_form("ann", " ")).1, "Message cannot be empty");
    assert_eq!(refused(Some(&agents), new_form("", "hi")).1, "Select an agent");
    assert_eq!(refused(Some(&agents), new_form("ann", "hi")).1, "Agent is offline");
    assert_eq!(refused(Some(&agents), new_form("bob", "hi")).1, "Agent not found");
    assert_eq!(refused(None, new_form("ann", "hi")).0, 500);
    assert!(store.sessions.is_empty());
    assert_eq!(conversation(&store, &inflight, "x").err().map(|r| r.status), Some(400));
    assert_eq!(conversation(&store, &inflight, ID).err().map(|r| r.status), Some(404));
    assert_eq!(export_session(&store, "x").err().map(|r| r.status), Some(400));
    assert_eq!(export_session(&store, ID).err().map(|r| r.status), Some(404));
}
