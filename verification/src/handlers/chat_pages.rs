//! A chat from its first message on: how it is started, shown and exported.

use crate::chat_inflight::InFlightChat;
use crate::chat_store::{
    first_of, has_session, last_of, lemma_no_messages, messages_of, opt_view, rows_of, session_of,
    shows, started, wrote, ChatMessage, ChatSession, ChatStore, TimelineEntry, MAX_MESSAGES,
    MAX_TIMELINE,
};
use crate::handlers::chat::{
    agent_at, agent_initial, attached, busy_reply, calls_of, check_agent, check_new_session,
    check_session_id, conversation_title, conversation_totals, export_disposition,
    export_markdown, initial_of, law_agents_stand_where_they_are_listed, messages_markdown, needs_stream_reconnect, tokens_of, AgentState,
    NewSessionForm, MAX_AGENT_NAME_BYTES, MAX_MESSAGE_BYTES,
};
use crate::handlers::chat_send::{attached_to, SendStart};
use crate::ids::{fresh_id, short, short_id, uuid_like};
use crate::inflight::{can_start, running, Run};
use crate::reply::Reply;
use crate::sort::ranked;
use crate::text::{opt_text, trim, utf8_len};
use vstd::prelude::*;

verus! {

// ---------------------------------------------------------------------------
// A new chat
// ---------------------------------------------------------------------------

/// Why a chat is not started, if it is not: the first complaint that applies. `agents` are those
/// that there are, where they could be listed.
pub open spec fn start_refusal(
    form: NewSessionForm,
    agents: Option<Seq<AgentState>>,
) -> Option<(int, Seq<char>)> {
    let message = trim(form.message@);
    let name = trim(form.agent_name@);
    if message.len() == 0 {
        Some((400, "Message cannot be empty"@))
    } else if utf8_len(message) > MAX_MESSAGE_BYTES {
        Some((400, "Message too long (max 32 KB)"@))
    } else if name.len() == 0 {
        Some((400, "Select an agent"@))
    } else if utf8_len(name) > MAX_AGENT_NAME_BYTES {
        Some((400, "Agent name too long"@))
    } else {
        match agents {
            None => Some((500, "Internal error"@)),
            Some(list) => {
                let i = agent_at(list, name, 0);
                if i >= list.len() {
                    Some((400, "Agent not found"@))
                } else if list[i].status@ == "offline"@ {
                    Some((400, "Agent is offline"@))
                } else {
                    None
                }
            },
        }
    }
}

/// The agents behind the list.
pub open spec fn listed_agents(agents: Option<&Vec<AgentState>>) -> Option<Seq<AgentState>> {
    match agents {
        Some(list) => Some(list@),
        None => None,
    }
}

/// Whether this is what starting a chat under that id leads to: nothing changes where the form
/// is refused or the id is taken, and otherwise the first message is stored, and the first reply
/// is reserved unless one is running.
pub open spec fn chat_started(
    before: (ChatStore, InFlightChat),
    after: (ChatStore, InFlightChat),
    form: NewSessionForm,
    agents: Option<Seq<AgentState>>,
    id: Seq<char>,
    now: Seq<char>,
    r: Result<(String, SendStart), Reply>,
) -> bool {
    let files = attached_to(opt_text(form.file_ids));
    let stored = started(
        before.0,
        after.0,
        id,
        trim(form.agent_name@),
        trim(form.message@),
        files,
        now,
    );
    match start_refusal(form, agents) {
        Some((status, body)) => {
            &&& r matches Err(reply) && reply.is(status, body)
            &&& after.0 == before.0
            &&& after.1@ == before.1@
            &&& after.1.next_number() == before.1.next_number()
        },
        None => if has_session(before.0.sessions@, id) {
            &&& r matches Err(reply) && reply.is(500, "Failed to create session"@)
            &&& after.0 == before.0
            &&& after.1@ == before.1@
            &&& after.1.next_number() == before.1.next_number()
        } else if !can_start(before.1@, before.1.next_number(), id) {
            &&& r matches Err(reply) && reply.is(
                409,
                "A reply is already being generated for this session"@,
            )
            &&& stored
            &&& after.1@ == before.1@
            &&& after.1.next_number() == before.1.next_number()
        } else {
            &&& r matches Ok((session_id, start)) && session_id@ == id && start.message@ == trim(
                form.message@,
            ) && start.agent_name@ == trim(form.agent_name@) && opt_text(start.file_ids) == files
                && start.number == before.1.next_number()
            &&& stored
            &&& after.1@ == before.1@.insert(
                id,
                (Run { number: before.1.next_number(), done: false }),
            )
            &&& after.1.next_number() == before.1.next_number() + 1
        },
    }
}

/// Starts a chat under this id: stores its first message, and reserves its first reply.
pub fn new_session_as(
    store: &mut ChatStore,
    inflight: &mut InFlightChat,
    agents: Option<&Vec<AgentState>>,
    form: &NewSessionForm,
    id: String,
    now: &str,
) -> (r: Result<(String, SendStart), Reply>)
    requires
        old(store).wf(),
        old(store).next_id < i64::MAX,
        old(inflight).wf(),
    ensures
        final(store).wf(),
        final(inflight).wf(),
        chat_started(
            (*old(store), *old(inflight)),
            (*final(store), *final(inflight)),
            *form,
            listed_agents(agents),
            id@,
            now@,
            r,
        ),
{
    let (message, agent_name): (String, String) = match check_new_session(form) {
        Ok(pair) => pair,
        Err(reply) => {
            return Err(reply);
        },
    };
    match agents {
        None => {
            return Err(Reply::new(500, "Internal error"));
        },
        Some(list) => {
            if let Some(reply) = check_agent(list, agent_name.as_str()) {
                return Err(reply);
            }
        },
    }
    let file_ids: Option<String> = attached(&form.file_ids);
    let ids: Option<&str> = match &file_ids {
        Some(s) => Some(s.as_str()),
        None => None,
    };
    assert(opt_view(ids) == opt_text(file_ids));
    match store.create_session(id, agent_name.as_str(), message.as_str(), ids, now) {
        Err(_) => Err(Reply::new(500, "Failed to create session")),
        Ok(id) => match inflight.try_start(id.as_str()) {
            None => Err(busy_reply()),
            Some(number) => Ok((id, SendStart { message, file_ids, agent_name, number })),
        },
    }
}

/// Starts a chat under a new random id.
pub fn new_session(
    store: &mut ChatStore,
    inflight: &mut InFlightChat,
    agents: Option<&Vec<AgentState>>,
    form: &NewSessionForm,
    now: &str,
) -> (r: Result<(String, SendStart), Reply>)
    requires
        old(store).wf(),
        old(store).next_id < i64::MAX,
        old(inflight).wf(),
    ensures
        final(store).wf(),
        final(inflight).wf(),
        exists|id: Seq<char>|
            uuid_like(id) && #[trigger] chat_started(
                (*old(store), *old(inflight)),
                (*final(store), *final(inflight)),
                *form,
                listed_agents(agents),
                id,
                now@,
                r,
            ),
{
    new_session_as(store, inflight, agents, form, fresh_id(), now)
}

// ---------------------------------------------------------------------------
// The page
// ---------------------------------------------------------------------------

/// A conversation as its page shows it.
pub struct ConversationPage {
    pub page_title: String,
    pub short_id: String,
    pub session: ChatSession,
    pub agent_initial: String,
    pub entries: Vec<TimelineEntry>,
    pub total_tokens_used: u128,
    pub total_tool_calls: usize,
    /// Whether the page attaches to a reply that is being written.
    pub needs_stream_reconnect: bool,
}

/// Whether these are the entries of a session's timeline.
pub open spec fn timeline_of(
    entries: Seq<TimelineEntry>,
    store: ChatStore,
    session_id: Seq<char>,
) -> bool {
    exists|rows: Seq<TimelineEntry>|
        #![trigger ranked(rows)]
        entries == ranked(rows) && shows(
            rows,
            first_of(rows_of(store.messages@, session_id, false), MAX_TIMELINE as int) + first_of(
                rows_of(store.messages@, session_id, true),
                MAX_TIMELINE as int,
            ),
        )
}

/// Whether the session is the stored one.
pub open spec fn stored_session(session: ChatSession, store: ChatStore, id: Seq<char>) -> bool {
    exists|i: int|
        0 <= i < store.sessions@.len() && (#[trigger] store.sessions@[i]).id@ == id && session
            == session_of(store.sessions@[i], None)
}

/// The page of a conversation.
pub fn conversation(store: &ChatStore, inflight: &InFlightChat, session_id: &str) -> (r: Result<
    ConversationPage,
    Reply,
>)
    requires
        inflight.wf(),
    ensures
        match r {
            Ok(page) => {
                &&& uuid_like(session_id@)
                &&& stored_session(page.session, *store, session_id@)
                &&& page.page_title@ == "Chat — "@ + short(session_id@)
                &&& page.short_id@ == short(session_id@)
                &&& page.agent_initial@ == initial_of(page.session.agent_name@, 'A')
                &&& timeline_of(page.entries@, *store, session_id@)
                &&& page.total_tokens_used == tokens_of(page.entries@)
                &&& page.total_tool_calls == calls_of(page.entries@)
                &&& page.needs_stream_reconnect == running(inflight@, session_id@)
            },
            Err(reply) => if !uuid_like(session_id@) {
                reply.is(400, "Invalid session ID"@)
            } else {
                !has_session(store.sessions@, session_id@) && reply.is(404, "Session not found"@)
            },
        },
{
    if let Some(reply) = check_session_id(session_id) {
        return Err(reply);
    }
    let session: ChatSession = match store.get_session(session_id) {
        Some(s) => s,
        None => {
            return Err(Reply::new(404, "Session not found"));
        },
    };
    let entries: Vec<TimelineEntry> = store.get_timeline(session_id);
    let (total_tokens_used, total_tool_calls): (u128, usize) = conversation_totals(&entries);
    let done: Option<bool> = match inflight.get(session_id) {
        Some(run) => Some(run.done),
        None => None,
    };
    Ok(
        ConversationPage {
            page_title: conversation_title(session_id),
            short_id: short_id(session_id),
            agent_initial: agent_initial(session.agent_name.as_str(), 'A'),
            session,
            entries,
            total_tokens_used,
            total_tool_calls,
            needs_stream_reconnect: needs_stream_reconnect(done),
        },
    )
}

// ---------------------------------------------------------------------------
// Export
// ---------------------------------------------------------------------------

/// The heading of an exported chat.
pub open spec fn export_heading(session: ChatSession) -> Seq<char> {
    "# "@ + (match session.title {
        Some(t) => t@,
        None => "Chat with "@ + session.agent_name@,
    }) + "\n\n"@
}

/// A chat as a Markdown file: its content disposition and its text.
pub fn export_session(store: &ChatStore, session_id: &str) -> (r: Result<(String, String), Reply>)
    ensures
        match r {
            Ok((disposition, text)) => {
                &&& uuid_like(session_id@)
                &&& disposition@ == "attachment; filename=\"chat-"@ + short(session_id@) + ".md\""@
                &&& exists|session: ChatSession| #[trigger]
                    stored_session(session, *store, session_id@) && text@ == export_heading(session)
                        + messages_markdown(
                        last_of(messages_of(store.messages@, session_id@), MAX_MESSAGES as int),
                        session.agent_name@,
                    )
            },
            Err(reply) => if !uuid_like(session_id@) {
                reply.is(400, "Invalid session ID"@)
            } else {
                !has_session(store.sessions@, session_id@) && reply.is(404, "Session not found"@)
            },
        },
{
    if let Some(reply) = check_session_id(session_id) {
        return Err(reply);
    }
    let session: ChatSession = match store.get_session(session_id) {
        Some(s) => s,
        None => {
            return Err(Reply::new(404, "Session not found"));
        },
    };
    let msgs: Vec<&ChatMessage> = store.get_messages(session_id);
    let text: String = export_markdown(&session, &msgs);
    assert(stored_session(session, *store, session_id@));
    Ok((export_disposition(session_id), text))
}

/// A chat that was just started holds its first message and nothing else, and every other chat
/// reads as before.
pub proof fn law_a_new_chat_holds_its_first_message(
    before: ChatStore,
    after: ChatStore,
    id: Seq<char>,
    agent: Seq<char>,
    first: Seq<char>,
    file_ids: Option<Seq<char>>,
    now: Seq<char>,
    other: Seq<char>,
)
    requires
        before.wf(),
        !has_session(before.sessions@, id),
        started(before, after, id, agent, first, file_ids, now),
        other != id,
    ensures
        messages_of(after.messages@, id).len() == 1,
        wrote(*messages_of(after.messages@, id)[0], "user"@, first, now),
        messages_of(after.messages@, other) == messages_of(before.messages@, other),
{
    assert forall|i: int| 0 <= i < before.messages@.len() implies (
    #[trigger] before.messages@[i]).session_id@ != id by {
        assert(has_session(before.sessions@, before.messages@[i].session_id@));
    }
    lemma_no_messages(before.messages@, id);
}

/// A chat is started exactly where the message is neither blank nor too long, an agent is named,
/// the agents could be listed, and the first one of that name is there and not offline.
pub proof fn law_chats_start_with_an_agent_that_is_there(
    form: NewSessionForm,
    list: Seq<AgentState>,
    at: int,
)
    requires
        0 <= at <= list.len(),
        at < list.len() ==> list[at].name@ == trim(form.agent_name@),
        forall|k: int| 0 <= k < at ==> (#[trigger] list[k]).name@ != trim(form.agent_name@),
    ensures
        start_refusal(form, Some(list)) is None <==> {
            &&& trim(form.message@).len() > 0 && utf8_len(trim(form.message@)) <= 32 * 1024
            &&& trim(form.agent_name@).len() > 0 && utf8_len(trim(form.agent_name@)) <= 256
            &&& at < list.len() && list[at].status@ != "offline"@
        },
        start_refusal(form, None) is Some,
        start_refusal(form, Some(list)) is Some ==> (start_refusal(form, Some(list))->0).0 == 400,
{
    law_agents_stand_where_they_are_listed(list, trim(form.agent_name@), 0, at);
}

/// An exported chat is headed by its title, and by its agent where it has none.
pub proof fn law_exports_bear_their_title(session: ChatSession)
    ensures
        session.title is Some ==> export_heading(session) == "# "@ + session.title->0@ + "\n\n"@,
        session.title is None ==> export_heading(session) == "# "@ + ("Chat with "@
            + session.agent_name@) + "\n\n"@,
{
}

} // verus!
