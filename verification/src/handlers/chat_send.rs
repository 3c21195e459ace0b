//! What happens to the store and to the running replies when a message is sent, a reply comes
//! in, or a reply is stopped.

use crate::chat_inflight::{InFlightChat, InFlightInference};
use crate::chat_store::{
    called, has_session, last_of, messages_of, opt_view, touched, wrote, ChatMessage, ChatSession,
    ChatStore, ChatToolCallRecord, StoreError, MAX_MESSAGES,
};
use crate::handlers::chat::{
    attached, build_history, busy_reply, check_message, check_session_id, history_of, turns,
    SendForm, MAX_MESSAGE_BYTES, STOPPED_MESSAGE,
};
use crate::ids::uuid_like;
use crate::inflight::{can_start, Run};
use crate::reply::Reply;
use crate::stream::{ChatStreamEvent, Cost};
use crate::text::{
    law_trimming_cuts_the_ends, opt_text, texts, trim, utf8_len, whitespace,
};
use vstd::prelude::*;

verus! {

/// A message that is being sent: its session's next reply is reserved for it.
pub struct SendStart {
    pub message: String,
    pub file_ids: Option<String>,
    pub agent_name: String,
    /// The number of the reply.
    pub number: u64,
}

/// Why a message is not sent, if it is not: the first complaint that applies, as a status and a
/// text.
pub open spec fn send_refusal(
    store: ChatStore,
    runs: Map<Seq<char>, Run>,
    next: u64,
    session_id: Seq<char>,
    message: Seq<char>,
) -> Option<(int, Seq<char>)> {
    if !uuid_like(session_id) {
        Some((400, "Invalid session ID"@))
    } else if trim(message).len() == 0 {
        Some((400, "Message cannot be empty"@))
    } else if utf8_len(trim(message)) > MAX_MESSAGE_BYTES {
        Some((400, "Message too long (max 32 KB)"@))
    } else if !has_session(store.sessions@, session_id) {
        Some((404, "Session not found"@))
    } else if !can_start(runs, next, session_id) {
        Some((409, "A reply is already being generated for this session"@))
    } else {
        None
    }
}

/// The files that are attached to a message.
pub open spec fn attached_to(file_ids: Option<Seq<char>>) -> Option<Seq<char>> {
    match file_ids {
        Some(s) => if trim(s).len() == 0 {
            None
        } else {
            Some(trim(s))
        },
        None => None,
    }
}

/// Takes a message, and reserves its session's next reply for it. Nothing is stored yet, so
/// that of two messages that come at once only one is ever stored.
pub fn begin_send(
    store: &ChatStore,
    inflight: &mut InFlightChat,
    session_id: &str,
    form: &SendForm,
) -> (r: Result<SendStart, Reply>)
    requires
        old(inflight).wf(),
    ensures
        final(inflight).wf(),
        match send_refusal(
            *store,
            old(inflight)@,
            old(inflight).next_number(),
            session_id@,
            form.message@,
        ) {
            Some((status, body)) => {
                &&& r matches Err(reply) && reply.is(status, body)
                &&& final(inflight)@ == old(inflight)@
                &&& final(inflight).next_number() == old(inflight).next_number()
            },
            None => {
                &&& r matches Ok(start) && start.message@ == trim(form.message@) && opt_text(
                    start.file_ids,
                ) == attached_to(opt_text(form.file_ids)) && start.number == old(
                    inflight,
                ).next_number() && (exists|i: int|
                    0 <= i < store.sessions@.len() && (#[trigger] store.sessions@[i]).id@
                        == session_id@ && store.sessions@[i].agent_name == start.agent_name)
                &&& final(inflight)@ == old(inflight)@.insert(
                    session_id@,
                    (Run { number: old(inflight).next_number(), done: false }),
                )
                &&& final(inflight).next_number() == old(inflight).next_number() + 1
            },
        },
{
    if let Some(reply) = check_session_id(session_id) {
        return Err(reply);
    }
    let message: String = match check_message(form.message.as_str()) {
        Ok(m) => m,
        Err(reply) => {
            return Err(reply);
        },
    };
    let session: ChatSession = match store.get_session(session_id) {
        Some(s) => s,
        None => {
            return Err(Reply::new(404, "Session not found"));
        },
    };
    let ghost row = choose|i: int|
        0 <= i < store.sessions@.len() && (#[trigger] store.sessions@[i]).id@ == session_id@
            && session == crate::chat_store::session_of(store.sessions@[i], None);
    assert(has_session(store.sessions@, session_id@)) by {
        assert(store.sessions@[row].id@ == session_id@);
    }
    match inflight.try_start(session_id) {
        Some(number) => {
            assert(store.sessions@[row].agent_name == session.agent_name);
            Ok(
                SendStart {
                    message,
                    file_ids: attached(&form.file_ids),
                    agent_name: session.agent_name,
                    number,
                },
            )
        },
        None => Err(busy_reply()),
    }
}

/// Of two messages to the same session, the second is refused until the reply to the first is
/// over.
pub proof fn law_one_reply_at_a_time(
    store: ChatStore,
    runs: Map<Seq<char>, Run>,
    session_id: Seq<char>,
    first: Seq<char>,
    second: Seq<char>,
    next: u64,
    later: u64,
)
    requires
        send_refusal(store, runs, next, session_id, first) is None,
    ensures
        send_refusal(
            store,
            runs.insert(session_id, (Run { number: next, done: false })),
            later,
            session_id,
            second,
        ) is Some,
{
}

/// The messages that a session's next reply is told of.
pub open spec fn prior(store: ChatStore, session_id: Seq<char>) -> Seq<&'static ChatMessage> {
    last_of(messages_of(store.messages@, session_id), MAX_MESSAGES as int)
}

/// Stores a message that is being sent, and gives what the model is told of the turns before it.
/// `expanded` holds, for each earlier message that a person wrote, its text with mentions and
/// attachments resolved; `meta_tools` names the tools that only find out about tools. Where the
/// message cannot be stored, the reservation is given up.
pub fn finish_send(
    store: &mut ChatStore,
    inflight: &mut InFlightChat,
    session_id: &str,
    start: &SendStart,
    expanded: &Vec<String>,
    meta_tools: &Vec<String>,
    now: &str,
) -> (r: Result<Vec<(String, String)>, Reply>)
    requires
        old(store).wf(),
        old(store).next_id < i64::MAX,
        old(inflight).wf(),
        expanded@.len() == prior(*old(store), session_id@).len(),
    ensures
        final(store).wf(),
        final(inflight).wf(),
        final(inflight).next_number() == old(inflight).next_number(),
        if has_session(old(store).sessions@, session_id@) {
            &&& r matches Ok(history) && turns(history@) == history_of(
                prior(*old(store), session_id@),
                texts(expanded@),
                texts(meta_tools@),
            )
            &&& final(inflight)@ == old(inflight)@
            &&& touched(old(store).sessions@, final(store).sessions@, session_id@, now@)
            &&& final(store).next_id == old(store).next_id + 1
            &&& final(store).messages@.len() == old(store).messages@.len() + 1
            &&& final(store).messages@.drop_last() == old(store).messages@
            &&& ({
                let m = final(store).messages@.last();
                m.id == old(store).next_id && m.session_id@ == session_id@ && wrote(
                    m.message,
                    "user"@,
                    start.message@,
                    now@,
                ) && opt_text(m.message.file_ids) == opt_text(start.file_ids)
                    && m.tokens_used is None && m.cost is None
            })
        } else {
            &&& r matches Err(reply) && reply.is(500, "Failed to save message"@)
            &&& final(inflight)@ == old(inflight)@.remove(session_id@)
            &&& *final(store) == *old(store)
        },
{
    let history: Vec<(String, String)> = {
        let msgs: Vec<&ChatMessage> = store.get_messages(session_id);
        build_history(&msgs, expanded, meta_tools)
    };
    let file_ids: Option<&str> = match &start.file_ids {
        Some(s) => Some(s.as_str()),
        None => None,
    };
    assert(opt_view(file_ids) == opt_text(start.file_ids));
    match store.add_message(session_id, "user", start.message.as_str(), file_ids, now) {
        Ok(()) => Ok(history),
        Err(_) => {
            inflight.abandon(session_id);
            Err(Reply::new(500, "Failed to save message"))
        },
    }
}

/// Stores a reply: the tool calls that it took, then what was said, with what it cost where that
/// is known.
pub fn store_reply(
    store: &mut ChatStore,
    session_id: &str,
    tool_calls: &Vec<ChatToolCallRecord>,
    answer: &str,
    tokens_used: u64,
    cost: Cost,
    now: &str,
) -> (r: Result<(), StoreError>)
    requires
        old(store).wf(),
        old(store).next_id + tool_calls@.len() < i64::MAX,
    ensures
        final(store).wf(),
        if has_session(old(store).sessions@, session_id@) {
            let n = old(store).messages@.len() as int;
            let k = tool_calls@.len() as int;
            &&& r is Ok
            &&& touched(old(store).sessions@, final(store).sessions@, session_id@, now@)
            &&& final(store).next_id == old(store).next_id + k + 1
            &&& final(store).messages@.len() == n + k + 1
            &&& final(store).messages@.take(n) == old(store).messages@
            &&& forall|i: int|
                0 <= i < k ==> {
                    let m = #[trigger] final(store).messages@[n + i];
                    m.id == old(store).next_id + i && m.session_id@ == session_id@ && called(
                        m.message,
                        tool_calls@[i],
                        now@,
                    ) && m.tokens_used is None && m.cost is None
                }
            &&& ({
                let m = final(store).messages@.last();
                m.id == old(store).next_id + k && m.session_id@ == session_id@ && wrote(
                    m.message,
                    "assistant"@,
                    answer@,
                    now@,
                ) && m.message.file_ids is None && m.tokens_used == Some(tokens_used) && m.cost
                    == cost.positive()
            })
        } else {
            r == Err::<(), StoreError>(StoreError::NoSession) && *final(store) == *old(store)
        },
{
    let ghost before = store.messages@;
    let ghost sessions = store.sessions@;
    if let Err(e) = store.add_tool_calls(session_id, tool_calls, now) {
        return Err(e);
    }
    let ghost called_rows = store.messages@;
    proof {
        if has_session(sessions, session_id@) {
            let i = choose|i: int|
                0 <= i < sessions.len() && (#[trigger] sessions[i]).id@ == session_id@;
            assert(store.sessions@[i].id@ == session_id@);
            assert(has_session(store.sessions@, session_id@));
        }
    }
    let done: Result<(), StoreError> = store.add_assistant_message(
        session_id,
        answer,
        Some(tokens_used),
        cost.if_positive(),
        now,
    );
    proof {
        if has_session(sessions, session_id@) {
            let n = before.len() as int;
            assert(called_rows.take(n) =~= before);
            assert(store.messages@.drop_last() == called_rows);
            assert(store.messages@.take(n) =~= before);
            assert forall|i: int| 0 <= i < tool_calls@.len() implies #[trigger] store.messages@[n
                + i] == called_rows[n + i] by {
                assert(store.messages@.drop_last()[n + i] == store.messages@[n + i]);
            }
        }
    }
    done
}

/// Whether the event is the one that closes a reply which is stopped.
pub open spec fn closing(event: ChatStreamEvent) -> bool {
    event matches ChatStreamEvent::Done { answer, iterations, tokens_used, cost } && answer@
        == STOPPED_MESSAGE@ && iterations == 0 && tokens_used == 0 && cost.bits == 0
}

/// Stops a reply: it ends at once, its readers are told so, and so does the session say, where
/// there is one and the store has a number left for the message. A reply that is over is left
/// alone. The result says whether it was stopped.
pub fn stop_reply(
    store: &mut ChatStore,
    inference: &mut InFlightInference,
    session_id: &str,
    now: &str,
) -> (r: bool)
    requires
        old(store).wf(),
        old(inference)@.inv(),
    ensures
        final(store).wf(),
        final(inference)@.inv(),
        r == !old(inference)@.done,
        !r ==> *final(store) == *old(store) && final(inference)@ == old(inference)@,
        r ==> {
            let last = final(inference)@.entries.last().event;
            &&& final(inference)@ == old(inference)@.closed_by(last)
            &&& closing(last)
        },
        r && has_session(old(store).sessions@, session_id@) && old(store).next_id < i64::MAX ==> {
            &&& touched(old(store).sessions@, final(store).sessions@, session_id@, now@)
            &&& final(store).next_id == old(store).next_id + 1
            &&& final(store).messages@.len() == old(store).messages@.len() + 1
            &&& final(store).messages@.drop_last() == old(store).messages@
            &&& ({
                let m = final(store).messages@.last();
                m.id == old(store).next_id && m.session_id@ == session_id@ && wrote(
                    m.message,
                    "assistant"@,
                    STOPPED_MESSAGE@,
                    now@,
                ) && m.message.file_ids is None && m.tokens_used is None && m.cost is None
            })
        },
        r && !(has_session(old(store).sessions@, session_id@) && old(store).next_id < i64::MAX)
            ==> *final(store) == *old(store),
{
    let stopped: bool = inference.cancel(STOPPED_MESSAGE.to_owned());
    if stopped && store.next_id < i64::MAX {
        let _ = store.add_assistant_message(session_id, STOPPED_MESSAGE, None, None, now);
    }
    stopped
}

/// A message is sent exactly where the session's id is one, the message is neither blank nor
/// longer than 32 KB, the session is there and no reply is being made for it. Each obstacle has
/// its own answer, and a message with several is answered for the first.
pub proof fn law_messages_are_sent_where_nothing_stands_in_the_way(
    store: ChatStore,
    runs: Map<Seq<char>, Run>,
    next: u64,
    session_id: Seq<char>,
    message: Seq<char>,
)
    ensures
        send_refusal(store, runs, next, session_id, message) is None <==> {
            &&& uuid_like(session_id)
            &&& trim(message).len() > 0
            &&& utf8_len(trim(message)) <= 32 * 1024
            &&& has_session(store.sessions@, session_id)
            &&& can_start(runs, next, session_id)
        },
        uuid_like(session_id) && trim(message).len() > 0 && utf8_len(trim(message)) <= 32 * 1024 ==> {
            let r = send_refusal(store, runs, next, session_id, message);
            &&& !has_session(store.sessions@, session_id) ==> r is Some && (r->0).0 == 404
            &&& has_session(store.sessions@, session_id) && runs.dom().contains(session_id)
                && !runs[session_id].done ==> r is Some && (r->0).0 == 409
        },
        !uuid_like(session_id) || trim(message).len() == 0 || utf8_len(trim(message)) > 32 * 1024
            ==> {
            let r = send_refusal(store, runs, next, session_id, message);
            r is Some && (r->0).0 == 400
        },
{
}

/// The files that are attached are those that were named, without the blanks around them; blanks
/// alone name none.
pub proof fn law_attached_files_are_those_named(front: Seq<char>, ids: Seq<char>, back: Seq<char>)
    requires
        forall|i: int| 0 <= i < front.len() ==> whitespace(#[trigger] front[i]),
        forall|i: int| 0 <= i < back.len() ==> whitespace(#[trigger] back[i]),
        ids.len() > 0 && !whitespace(ids[0]) && !whitespace(ids.last()),
    ensures
        attached_to(Some(front + ids + back)) == Some(ids),
        attached_to(Some(front)) is None,
        attached_to(None) is None,
{
    let none = Seq::<char>::empty();
    law_trimming_cuts_the_ends(front, ids, back);
    law_trimming_cuts_the_ends(front, none, none);
    assert(front + none + none =~= front);
}

} // verus!
