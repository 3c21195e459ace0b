use agentos_web::convo_inflight::{
    ConvoStreamEvent, InFlightConvo, InFlightConvos, CURSOR_INIT, MAX_BUFFERED_EVENTS,
    TRUNCATION_NOTICE,
};
use agentos_web::convo_store::{
    participants_of, participants_text, ConvoStore, USER_SPEAKER,
};
use agentos_web::handlers::agent_convo::{
    agent_color, begin_convo, check_convo_id, convo_frame, convo_title, creation_error,
    found_convo, has_ended, is_active, new_convo, participant_color, participant_items,
    stop_convo, stream_error, translate_event, turn_item, ConvoEvent, Creation, NewConvoForm,
    DEFAULT_TURNS, MAX_TURNS, MIN_TURNS,
};
use agentos_web::inflight::Runs;
use agentos_web::reply::Lookup;
use agentos_web::stream::{ChatStreamEvent, Cost};

const ID: &str = "123e4567-e89b-12d3-a456-426614174000";

fn strings(names: &[&str]) -> Vec<String> {
    names.iter().map(|n| n.to_string()).collect()
}

#[test]
fn a_conversation_is_kept_with_its_turns() {
    let mut store = ConvoStore::new();
    let id = store.create_as(ID.to_string(), "plans", strings(&["a", "b"]), 8, "t1");
    assert_eq!(id.as_deref(), Some(ID));
    assert!(store.create_as(ID.to_string(), "again", vec![], 2, "t1").is_none());
    assert!(store.add_turn(ID, 2, "b", "second", 1, "t3").is_ok());
    assert!(store.add_turn(ID, 1, "a", "first", 0, "t2").is_ok());
    assert!(store.add_turn("nowhere", 1, "a", "x", 0, "t").is_err());
    let texts: Vec<&str> = store.get_turns(ID).iter().map(|t| t.content.as_str()).collect();
    assert_eq!(texts, vec!["first", "second"]);
    store.set_status(ID, "complete", "t4");
    let convo = store.get_convo(ID).unwrap();
    assert_eq!((convo.status.as_str(), convo.updated_at.as_str()), ("complete", "t4"));
    assert_eq!(convo.participants, strings(&["a", "b"]));
    assert!(store.create_convo("other", strings(&["c"]), 4, "t5").is_some());
    assert_eq!(store.list_convos()[0].topic, "other");
    assert!(store.get_convo("nowhere").is_none());
}

#[test]
fn participants_are_read_back() {
    let names = strings(&["a", "b, c", "say \"hi\"\n", "é"]);
    let text = participants_text(&names);
    assert_eq!(text, "[\"a\",\"b, c\",\"say \\\"hi\\\"\\n\",\"é\"]");
    assert_eq!(participants_of(&text), names);
    assert_eq!(participants_text(&vec![]), "[]");
    assert!(participants_of("a,b").is_empty());
    assert!(participants_of("[1]").is_empty());
    assert!(participants_of("{}").is_empty());
}

fn chunk(text: &str) -> ConvoStreamEvent {
    ConvoStreamEvent::TextChunk { agent: "a".to_string(), turn: 1, text: text.to_string() }
}

#[test]
fn convo_readers_go_on_where_they_stopped() {
    let mut convo = InFlightConvo::new();
    convo.push(chunk("1"));
    let (events, cursor, done) = convo.read_from(CURSOR_INIT);
    assert_eq!((events.len(), cursor, done), (1, 0, false));
    convo.push(chunk("2"));
    convo.mark_done();
    let (events, cursor, done) = convo.read_from(cursor);
    assert_eq!((events.len(), cursor, done), (1, 1, true));
    assert!(convo.is_done());
    assert!(convo.read_from(cursor).0.is_empty());
}

#[test]
fn readers_are_told_of_lost_events() {
    let mut convo = InFlightConvo::new();
    for _ in 0..MAX_BUFFERED_EVENTS + 5 {
        convo.push(chunk("x"));
    }
    let (events, cursor, _) = convo.read_from(0);
    assert!(
        matches!(&events[0], ConvoStreamEvent::Error { message } if message == TRUNCATION_NOTICE)
    );
    assert_eq!(cursor, (MAX_BUFFERED_EVENTS + 4) as u64);
    assert_eq!(events.len(), MAX_BUFFERED_EVENTS + 1);
    let (events, _, _) = convo.read_from(CURSOR_INIT);
    assert!(
        matches!(&events[0], ConvoStreamEvent::Error { message } if message == TRUNCATION_NOTICE)
    );
}

#[test]
fn a_conversation_runs_once_at_a_time() {
    let mut convos = InFlightConvos::new();
    let number = convos.try_start(ID).unwrap();
    assert!(convos.is_running(ID));
    assert!(convos.try_start(ID).is_none());
    assert_eq!(convos.active_count(), 1);
    convos.finish(ID, number);
    assert!(!convos.is_running(ID));
    assert_eq!(convos.active_count(), 0);
    assert!(convos.get(ID).map(|r| r.done) == Some(true));
    let next = convos.try_start(ID).unwrap();
    assert_ne!(next, number);
    convos.finish(ID, number);
    assert!(convos.is_running(ID));
    convos.forget(ID);
    assert!(convos.get(ID).is_none());
}

#[test]
fn a_stopped_conversation_is_over() {
    let mut store = ConvoStore::new();
    let mut convos = InFlightConvos::new();
    store.create_as(ID.to_string(), "plans", strings(&["a", "b"]), 8, "t1");
    let number = begin_convo(&mut store, &mut convos, ID, "t2").ok();
    assert_eq!(number, Some(0));
    assert_eq!(store.get_convo(ID).unwrap().updated_at, "t1");
    let refused = stop_convo(&mut store, &mut convos, "no id", "t3").unwrap();
    assert_eq!((refused.status, refused.body.as_str()), (400, "Invalid conversation ID"));
    assert!(convos.is_running(ID));
    assert!(stop_convo(&mut store, &mut convos, ID, "t3").is_none());
    let convo = store.get_convo(ID).unwrap();
    assert_eq!((convo.status.as_str(), convo.updated_at.as_str()), ("stopped", "t3"));
    assert!(!is_active(&convo.status, convos.get(ID).map(|r| r.done)));
}

#[test]
fn a_conversation_that_runs_already_is_marked_as_failed() {
    let mut store = ConvoStore::new();
    let mut convos = InFlightConvos::new();
    store.create_as(ID.to_string(), "plans", strings(&["a", "b"]), 8, "t1");
    assert!(begin_convo(&mut store, &mut convos, ID, "t2").is_ok());
    match begin_convo(&mut store, &mut convos, ID, "t3") {
        Ok(_) => panic!("started twice"),
        Err(r) => {
            assert_eq!((r.status, r.body.as_str()), (409, "Conversation already running"))
        }
    }
    assert_eq!(store.get_convo(ID).unwrap().status, "error");
    assert!(creation_error(&Creation::Made).is_none());
    let r = creation_error(&Creation::BadRequest("Topic is empty".to_string())).unwrap();
    assert_eq!((r.status, r.body.as_str()), (400, "Topic is empty"));
    let r = creation_error(&Creation::Failed).unwrap();
    assert_eq!((r.status, r.body.as_str()), (500, "Failed to create conversation"));
}

#[test]
fn runs_are_numbered() {
    let mut runs = Runs::new();
    assert_eq!(runs.try_start("a"), Some(0));
    assert_eq!(runs.try_start("b"), Some(1));
    assert_eq!(runs.active_count(), 2);
    runs.remove("a");
    assert_eq!(runs.try_start("a"), Some(2));
    assert!(runs.is_running("b"));
}

#[test]
fn new_conversations_have_bounded_turns() {
    let form = |turns: Option<u32>| NewConvoForm {
        topic: "t".to_string(),
        participants: " a, b ,,".to_string(),
        max_turns: turns,
    };
    assert_eq!(new_convo(&form(None)), (strings(&["a", "b"]), DEFAULT_TURNS));
    assert_eq!(new_convo(&form(Some(0))).1, MIN_TURNS);
    assert_eq!(new_convo(&form(Some(99))).1, MAX_TURNS);
    assert_eq!(new_convo(&form(Some(9))).1, 9);
}

#[test]
fn participants_have_colours() {
    assert_eq!(participant_color(0), "#4f86c6");
    assert_eq!(participant_color(11), "#e07b39");
    let names = strings(&["ann", "bob"]);
    assert_eq!(agent_color("bob", &names), "#e07b39");
    assert_eq!(agent_color("carl", &names), "#4f86c6");
    let items = participant_items(&names);
    assert_eq!((items[1].initial.as_str(), items[1].color), ("B", "#e07b39"));
}

#[test]
fn turns_are_shown_with_their_speaker() {
    let mut store = ConvoStore::new();
    assert!(store.create_as(ID.to_string(), "t", strings(&["ann"]), 2, "t").is_some());
    assert!(store.add_turn(ID, 1, USER_SPEAKER, "hi", 0, "t").is_ok());
    assert!(store.add_turn(ID, 2, "ann", "hello", 3, "t").is_ok());
    let names = strings(&["ann"]);
    let turns = store.get_turns(ID);
    assert_eq!(turn_item(turns[0], &names).agent_name, "You");
    let item = turn_item(turns[1], &names);
    assert_eq!((item.agent_name.as_str(), item.tool_call_count), ("ann", 3));
}

#[test]
fn conversations_are_looked_up() {
    assert!(check_convo_id(ID).is_none());
    assert!(check_convo_id("x").is_some());
    assert_eq!(found_convo(Lookup::Missing).err().map(|r| r.status), Some(404));
    assert_eq!(found_convo(Lookup::Failed).err().map(|r| r.status), Some(500));
    assert!(has_ended("stopped"));
    assert!(!has_ended("running"));
    assert!(!is_active("running", None));
    assert!(is_active("running", Some(false)));
    assert!(!is_active("running", Some(true)));
    assert!(convo_title(ID).contains("123e4567"));
    assert!(stream_error(ID, true, "running").is_none());
    assert_eq!(stream_error(ID, false, "complete").map(|r| r.status), Some(204));
    assert_eq!(stream_error(ID, false, "running").map(|r| r.status), Some(410));
    assert_eq!(stream_error("x", true, "running").map(|r| r.status), Some(400));
}

#[test]
fn chat_events_become_conversation_events() {
    let hidden = ChatStreamEvent::Thinking { iteration: 1, reasoning: Some("r".to_string()) };
    assert!(translate_event(hidden, "a", 1).is_none());
    let done = ChatStreamEvent::Done {
        answer: "x".to_string(),
        iterations: 1,
        tokens_used: 1,
        cost: Cost { bits: 0 },
    };
    assert!(translate_event(done, "a", 1).is_none());
    let error = ChatStreamEvent::Error { message: "no".to_string() };
    match translate_event(error, "ann", 1) {
        Some(ConvoStreamEvent::Error { message }) => assert_eq!(message, "ann: no"),
        _ => panic!("an error stays an error"),
    }
    let text = ConvoEvent::Chat {
        agent: "ann".to_string(),
        turn: 3,
        event: ChatStreamEvent::TextChunk { text: "t".to_string() },
    };
    assert!(matches!(
        convo_frame(text),
        Some(ConvoStreamEvent::TextChunk { turn: 3, .. })
    ));
    assert!(matches!(
        convo_frame(ConvoEvent::Done { total_turns: 4 }),
        Some(ConvoStreamEvent::ConversationDone { total_turns: 4 })
    ));
}
