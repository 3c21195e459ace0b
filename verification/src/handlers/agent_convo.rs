//! The pages of conversations between agents.

use crate::convo_inflight::{ConvoStreamEvent, InFlightConvos};
use crate::convo_store::{restated, AgentConvo, ConvoStore, ConvoTurn, USER_SPEAKER};
use crate::handlers::chat::{agent_initial, initial_of};
use crate::ids::{is_uuid, short, short_id, uuid_like};
use crate::inflight::{can_start, running, Run};
use crate::reply::{Lookup, Reply};
use crate::stream::ChatStreamEvent;
use crate::text::{comma_list, parse_comma_list, same, texts};
use vstd::prelude::*;

verus! {

/// How many colours participants have.
pub const COLOR_COUNT: usize = 10;

/// The turns of a conversation where none are asked for.
pub const DEFAULT_TURNS: u32 = 8;

/// The fewest turns of a conversation.
pub const MIN_TURNS: u32 = 2;

/// The most turns of a conversation.
pub const MAX_TURNS: u32 = 50;

/// The form that starts a conversation.
pub struct NewConvoForm {
    pub topic: String,
    /// Comma-separated agent names.
    pub participants: String,
    pub max_turns: Option<u32>,
}

/// The colour of the participant at this place. The colours repeat.
pub open spec fn color_at(i: int) -> Seq<char> {
    let k = i % (COLOR_COUNT as int);
    if k == 0 {
        "#4f86c6"@
    } else if k == 1 {
        "#e07b39"@
    } else if k == 2 {
        "#5aab61"@
    } else if k == 3 {
        "#a855f7"@
    } else if k == 4 {
        "#e84393"@
    } else if k == 5 {
        "#0ea5e9"@
    } else if k == 6 {
        "#f59e0b"@
    } else if k == 7 {
        "#10b981"@
    } else if k == 8 {
        "#ef4444"@
    } else {
        "#8b5cf6"@
    }
}

/// The colour of the participant at this place.
pub fn participant_color(i: usize) -> (r: &'static str)
    ensures
        r@ == color_at(i as int),
{
    let k: usize = i % COLOR_COUNT;
    if k == 0 {
        "#4f86c6"
    } else if k == 1 {
        "#e07b39"
    } else if k == 2 {
        "#5aab61"
    } else if k == 3 {
        "#a855f7"
    } else if k == 4 {
        "#e84393"
    } else if k == 5 {
        "#0ea5e9"
    } else if k == 6 {
        "#f59e0b"
    } else if k == 7 {
        "#10b981"
    } else if k == 8 {
        "#ef4444"
    } else {
        "#8b5cf6"
    }
}

/// The place of a name among the participants, and the first place where it is none.
pub open spec fn place_of(participants: Seq<Seq<char>>, name: Seq<char>) -> int {
    if participants.contains(name) {
        choose|i: int|
            0 <= i < participants.len() && #[trigger] participants[i] == name && forall|k: int|
                0 <= k < i ==> participants[k] != name
    } else {
        0
    }
}

/// The colour of an agent in a conversation.
pub fn agent_color(agent_name: &str, participants: &Vec<String>) -> (r: &'static str)
    ensures
        r@ == color_at(place_of(texts(participants@), agent_name@)),
{
    let mut i: usize = 0;
    while i < participants.len()
        invariant
            i <= participants@.len(),
            forall|k: int| 0 <= k < i ==> #[trigger] texts(participants@)[k] != agent_name@,
        decreases participants.len() - i,
    {
        if same(participants[i].as_str(), agent_name) {
            proof {
                let all = texts(participants@);
                assert(all[i as int] == agent_name@);
                let p = place_of(all, agent_name@);
                assert(p == i) by {
                    assert(0 <= i < all.len() && all[i as int] == agent_name@ && forall|k: int|
                        0 <= k < i ==> all[k] != agent_name@);
                    if p < i {
                        assert(all[p] == agent_name@);
                    }
                }
            }
            return participant_color(i);
        }
        i += 1;
    }
    participant_color(0)
}

/// A participant as it is shown.
pub struct ParticipantItem {
    pub name: String,
    pub color: &'static str,
    pub initial: String,
}

/// The participants as they are shown, each with its colour and its letter.
pub fn participant_items(participants: &Vec<String>) -> (r: Vec<ParticipantItem>)
    ensures
        r@.len() == participants@.len(),
        forall|i: int|
            0 <= i < r@.len() ==> (#[trigger] r@[i]).name == participants@[i] && r@[i].color@
                == color_at(i) && r@[i].initial@ == initial_of(participants@[i]@, '?'),
{
    let mut out: Vec<ParticipantItem> = Vec::new();
    let mut i: usize = 0;
    while i < participants.len()
        invariant
            i <= participants@.len(),
            out@.len() == i,
            forall|k: int|
                0 <= k < i ==> (#[trigger] out@[k]).name == participants@[k] && out@[k].color@
                    == color_at(k) && out@[k].initial@ == initial_of(participants@[k]@, '?'),
        decreases participants.len() - i,
    {
        out.push(
            ParticipantItem {
                name: participants[i].clone(),
                color: participant_color(i),
                initial: agent_initial(participants[i].as_str(), '?'),
            },
        );
        i += 1;
    }
    out
}

/// What a form asks for: its participants, and its turns within the limits.
pub fn new_convo(form: &NewConvoForm) -> (r: (Vec<String>, u32))
    ensures
        texts(r.0@) == comma_list(form.participants@),
        r.1 == (match form.max_turns {
            Some(n) => if n < MIN_TURNS {
                MIN_TURNS
            } else if n > MAX_TURNS {
                MAX_TURNS
            } else {
                n
            },
            None => DEFAULT_TURNS,
        }),
{
    let asked: u32 = match form.max_turns {
        Some(n) => n,
        None => DEFAULT_TURNS,
    };
    let max_turns: u32 = if asked < MIN_TURNS {
        MIN_TURNS
    } else if asked > MAX_TURNS {
        MAX_TURNS
    } else {
        asked
    };
    (parse_comma_list(form.participants.as_str()), max_turns)
}

/// What became of a conversation that was to be made.
pub enum Creation {
    Made,
    /// The service refused it, and said why.
    BadRequest(String),
    Failed,
}

/// The answer where no conversation was made.
pub fn creation_error(outcome: &Creation) -> (r: Option<Reply>)
    ensures
        match outcome {
            Creation::Made => r is None,
            Creation::BadRequest(why) => r matches Some(reply) && reply.is(400, why@),
            Creation::Failed => r matches Some(reply) && reply.is(
                500,
                "Failed to create conversation"@,
            ),
        },
{
    match outcome {
        Creation::Made => None,
        Creation::BadRequest(why) => Some(Reply::new(400, why.as_str())),
        Creation::Failed => Some(Reply::new(500, "Failed to create conversation")),
    }
}

/// Starts a conversation that was made: the result is the number of its run. Where it runs
/// already it is marked as failed, so that it does not seem to run for ever.
pub fn begin_convo(
    store: &mut ConvoStore,
    inflight: &mut InFlightConvos,
    convo_id: &str,
    now: &str,
) -> (r: Result<u64, Reply>)
    requires
        old(store).wf(),
        old(inflight).wf(),
    ensures
        final(store).wf(),
        final(inflight).wf(),
        final(store).turns == old(store).turns,
        final(store).next_id == old(store).next_id,
        if !can_start(old(inflight)@, old(inflight).next_number(), convo_id@) {
            &&& r matches Err(reply)
            &&& reply.is(409, "Conversation already running"@)
            &&& final(inflight)@ == old(inflight)@
            &&& final(inflight).next_number() == old(inflight).next_number()
            &&& restated(
                old(store).convos@,
                final(store).convos@,
                convo_id@,
                Some("error"@),
                now@,
            )
        } else {
            &&& r == Ok::<u64, Reply>(old(inflight).next_number())
            &&& final(inflight)@ == old(inflight)@.insert(
                convo_id@,
                (Run { number: old(inflight).next_number(), done: false }),
            )
            &&& final(inflight).next_number() == old(inflight).next_number() + 1
            &&& *final(store) == *old(store)
        },
{
    match inflight.try_start(convo_id) {
        Some(number) => Ok(number),
        None => {
            store.set_status(convo_id, "error", now);
            Err(Reply::new(409, "Conversation already running"))
        },
    }
}

/// The runs once the one of a conversation is over.
pub open spec fn ended_run(runs: Map<Seq<char>, Run>, id: Seq<char>) -> Map<Seq<char>, Run> {
    if runs.dom().contains(id) {
        runs.insert(id, (Run { number: runs[id].number, done: true }))
    } else {
        runs
    }
}

/// Stops a conversation: its status says so, and its run is over at once, whether or not its
/// agents have noticed. The result is the answer to what is no conversation id.
pub fn stop_convo(
    store: &mut ConvoStore,
    inflight: &mut InFlightConvos,
    convo_id: &str,
    now: &str,
) -> (r: Option<Reply>)
    requires
        old(store).wf(),
        old(inflight).wf(),
    ensures
        final(store).wf(),
        final(inflight).wf(),
        final(store).turns == old(store).turns,
        final(store).next_id == old(store).next_id,
        final(inflight).next_number() == old(inflight).next_number(),
        if uuid_like(convo_id@) {
            &&& r is None
            &&& restated(
                old(store).convos@,
                final(store).convos@,
                convo_id@,
                Some("stopped"@),
                now@,
            )
            &&& final(inflight)@ == ended_run(old(inflight)@, convo_id@)
        } else {
            &&& r matches Some(reply)
            &&& reply.is(400, "Invalid conversation ID"@)
            &&& *final(store) == *old(store)
            &&& final(inflight)@ == old(inflight)@
        },
{
    if let Some(reply) = check_convo_id(convo_id) {
        return Some(reply);
    }
    store.set_status(convo_id, "stopped", now);
    let number: Option<u64> = match inflight.get(convo_id) {
        Some(run) => Some(run.number),
        None => None,
    };
    if let Some(n) = number {
        inflight.finish(convo_id, n);
    }
    None
}

/// A conversation that was stopped is not going on: its status is one that does not change any
/// more, and it has no run that goes on.
pub proof fn law_a_stopped_conversation_is_over(
    before: Seq<AgentConvo>,
    after: Seq<AgentConvo>,
    runs: Map<Seq<char>, Run>,
    id: Seq<char>,
    now: Seq<char>,
    i: int,
)
    requires
        restated(before, after, id, Some("stopped"@), now),
        0 <= i < after.len(),
        after[i].id@ == id,
    ensures
        ended(after[i].status@),
        !running(ended_run(runs, id), id),
{
    assert(after[i].id == before[i].id || after[i] == before[i]);
}

/// The answer to what is no conversation id.
pub fn check_convo_id(convo_id: &str) -> (r: Option<Reply>)
    ensures
        match r {
            Some(reply) => !uuid_like(convo_id@) && reply.is(400, "Invalid conversation ID"@),
            None => uuid_like(convo_id@),
        },
{
    if is_uuid(convo_id) {
        None
    } else {
        Some(Reply::new(400, "Invalid conversation ID"))
    }
}

/// The conversation, or the answer where there is none.
pub fn found_convo(found: Lookup<&AgentConvo>) -> (r: Result<&AgentConvo, Reply>)
    ensures
        match found {
            Lookup::Found(c) => r == Ok::<&AgentConvo, Reply>(c),
            Lookup::Missing => r matches Err(reply) && reply.is(404, "Conversation not found"@),
            Lookup::Failed => r matches Err(reply) && reply.is(500, "Internal error"@),
        },
{
    match found {
        Lookup::Found(c) => Ok(c),
        Lookup::Missing => Err(Reply::new(404, "Conversation not found")),
        Lookup::Failed => Err(Reply::new(500, "Internal error")),
    }
}

/// Whether a status is one that does not change any more.
pub open spec fn ended(status: Seq<char>) -> bool {
    status == "complete"@ || status == "stopped"@ || status == "error"@
}

/// Whether a status is one that does not change any more.
pub fn has_ended(status: &str) -> (r: bool)
    ensures
        r == ended(status@),
{
    same(status, "complete") || same(status, "stopped") || same(status, "error")
}

/// Whether a conversation is going on: its status says so, and it has a place in flight that is
/// not done.
pub fn is_active(status: &str, in_flight_done: Option<bool>) -> (r: bool)
    ensures
        r == (!ended(status@) && in_flight_done == Some(false)),
{
    !has_ended(status) && match in_flight_done {
        Some(done) => !done,
        None => false,
    }
}

/// A turn as it is shown.
pub struct TurnItem {
    pub turn_number: u32,
    pub agent_name: String,
    pub content: String,
    pub tool_call_count: u32,
    pub color: &'static str,
    pub initial: String,
    pub created_at: String,
}

/// The speaker of a turn as it is shown.
pub open spec fn speaker(name: Seq<char>) -> Seq<char> {
    if name == USER_SPEAKER@ {
        "You"@
    } else {
        name
    }
}

/// The turn as it is shown. Turns that a person wrote are yours.
pub fn turn_item(t: &ConvoTurn, participants: &Vec<String>) -> (r: TurnItem)
    ensures
        r.turn_number == t.turn_number,
        r.agent_name@ == speaker(t.agent_name@),
        r.content == t.content,
        r.tool_call_count == t.tool_call_count,
        r.color@ == color_at(place_of(texts(participants@), t.agent_name@)),
        r.initial@ == initial_of(speaker(t.agent_name@), '?'),
        r.created_at == t.created_at,
{
    let name: &str = if same(t.agent_name.as_str(), USER_SPEAKER) {
        "You"
    } else {
        t.agent_name.as_str()
    };
    TurnItem {
        turn_number: t.turn_number,
        agent_name: name.to_owned(),
        content: t.content.clone(),
        tool_call_count: t.tool_call_count,
        color: agent_color(t.agent_name.as_str(), participants),
        initial: agent_initial(name, '?'),
        created_at: t.created_at.clone(),
    }
}

/// The title of a conversation's page.
pub fn convo_title(convo_id: &str) -> (r: String)
    ensures
        r@ == "Agent Chat — "@ + short(convo_id@),
{
    let id: String = short_id(convo_id);
    let mut out: String = "Agent Chat — ".to_owned();
    out.push_str(id.as_str());
    out
}

/// The answer to a reader of a conversation that has no place in flight; `None` where it has
/// one. `status` is empty where the conversation is not known.
pub fn stream_error(convo_id: &str, in_flight: bool, status: &str) -> (r: Option<Reply>)
    ensures
        if !uuid_like(convo_id@) {
            r matches Some(reply) && reply.is(400, "Invalid conversation ID"@)
        } else if in_flight {
            r is None
        } else if ended(status@) {
            r matches Some(reply) && reply.is(204, ""@)
        } else {
            r matches Some(reply) && reply.is(410, "No active conversation for this ID"@)
        },
{
    if let Some(reply) = check_convo_id(convo_id) {
        return Some(reply);
    }
    if in_flight {
        return None;
    }
    if has_ended(status) {
        return Some(Reply::new(204, ""));
    }
    Some(Reply::new(410, "No active conversation for this ID"))
}

/// Whether the conversation's event tells of the reply's event.
pub open spec fn translated(
    ev: ChatStreamEvent,
    agent: Seq<char>,
    turn: u32,
    r: Option<ConvoStreamEvent>,
) -> bool {
    match ev {
        ChatStreamEvent::Thinking { iteration, reasoning } => match reasoning {
            Some(_) => r is None,
            None => r matches Some(ConvoStreamEvent::Thinking { agent: a, turn: t, iteration: i })
                && a@ == agent && t == turn && i == iteration,
        },
        ChatStreamEvent::TextChunk { text } => r matches Some(
            ConvoStreamEvent::TextChunk { agent: a, turn: t, text: x },
        ) && a@ == agent && t == turn && x == text,
        ChatStreamEvent::ToolStart { tool_name, iteration } => r matches Some(
            ConvoStreamEvent::ToolStart { agent: a, turn: t, tool_name: n, iteration: i },
        ) && a@ == agent && t == turn && n == tool_name && i == iteration,
        ChatStreamEvent::ToolResult { tool_name, result_preview, duration_ms, success } =>
            r matches Some(
            ConvoStreamEvent::ToolResult {
                agent: a,
                turn: t,
                tool_name: n,
                result_preview: p,
                duration_ms: d,
                success: s,
            },
        ) && a@ == agent && t == turn && n == tool_name && p == result_preview && d == duration_ms
            && s == success,
        ChatStreamEvent::Error { message } => r matches Some(
            ConvoStreamEvent::Error { message: m },
        ) && m@ == agent + ": "@ + message@,
        ChatStreamEvent::Done { .. } => r is None,
    }
}

/// The event of a conversation that tells of an event of a reply. Reasoning and the end of a
/// reply are not told.
pub fn translate_event(ev: ChatStreamEvent, agent: &str, turn: u32) -> (r: Option<ConvoStreamEvent>)
    ensures
        translated(ev, agent@, turn, r),
{
    match ev {
        ChatStreamEvent::Thinking { iteration, reasoning } => match reasoning {
            Some(_) => None,
            None => Some(
                ConvoStreamEvent::Thinking { agent: agent.to_owned(), turn, iteration },
            ),
        },
        ChatStreamEvent::TextChunk { text } => Some(
            ConvoStreamEvent::TextChunk { agent: agent.to_owned(), turn, text },
        ),
        ChatStreamEvent::ToolStart { tool_name, iteration } => Some(
            ConvoStreamEvent::ToolStart { agent: agent.to_owned(), turn, tool_name, iteration },
        ),
        ChatStreamEvent::ToolResult { tool_name, result_preview, duration_ms, success } => Some(
            ConvoStreamEvent::ToolResult {
                agent: agent.to_owned(),
                turn,
                tool_name,
                result_preview,
                duration_ms,
                success,
            },
        ),
        ChatStreamEvent::Error { message } => {
            let mut text: String = agent.to_owned();
            text.push_str(": ");
            text.push_str(message.as_str());
            Some(ConvoStreamEvent::Error { message: text })
        },
        ChatStreamEvent::Done { .. } => None,
    }
}

/// What the runner of a conversation reports.
pub enum ConvoEvent {
    TurnStart { agent: String, turn: u32 },
    Chat { agent: String, turn: u32, event: ChatStreamEvent },
    TurnEnd { agent: String, turn: u32, answer: String },
    Error { message: String },
    Done { total_turns: u32 },
}

/// The event of the stream that tells of what the runner reports, where one does.
pub fn convo_frame(ev: ConvoEvent) -> (r: Option<ConvoStreamEvent>)
    ensures
        match ev {
            ConvoEvent::TurnStart { agent, turn } => r == Some(
                ConvoStreamEvent::TurnStart { agent, turn },
            ),
            ConvoEvent::Chat { agent, turn, event } => translated(event, agent@, turn, r),
            ConvoEvent::TurnEnd { agent, turn, answer } => r == Some(
                ConvoStreamEvent::TurnEnd { agent, turn, answer },
            ),
            ConvoEvent::Error { message } => r == Some(ConvoStreamEvent::Error { message }),
            ConvoEvent::Done { total_turns } => r == Some(
                ConvoStreamEvent::ConversationDone { total_turns },
            ),
        },
{
    match ev {
        ConvoEvent::TurnStart { agent, turn } => Some(ConvoStreamEvent::TurnStart { agent, turn }),
        ConvoEvent::Chat { agent, turn, event } => translate_event(event, agent.as_str(), turn),
        ConvoEvent::TurnEnd { agent, turn, answer } => Some(
            ConvoStreamEvent::TurnEnd { agent, turn, answer },
        ),
        ConvoEvent::Error { message } => Some(ConvoStreamEvent::Error { message }),
        ConvoEvent::Done { total_turns } => Some(
            ConvoStreamEvent::ConversationDone { total_turns },
        ),
    }
}

/// Ten participants have ten colours, and the eleventh begins again with the first.
pub proof fn law_ten_participants_have_ten_colours(i: int, j: int)
    requires
        0 <= i,
        0 <= j,
    ensures
        color_at(i + 10) == color_at(i),
        0 <= i < j < 10 ==> color_at(i) != color_at(j),
{
    reveal_strlit("#4f86c6");
    reveal_strlit("#e07b39");
    reveal_strlit("#5aab61");
    reveal_strlit("#a855f7");
    reveal_strlit("#e84393");
    reveal_strlit("#0ea5e9");
    reveal_strlit("#f59e0b");
    reveal_strlit("#10b981");
    reveal_strlit("#ef4444");
    reveal_strlit("#8b5cf6");
    if 0 <= i < j < 10 {
        let (a, b) = (color_at(i), color_at(j));
        assert(a.len() == 7 && b.len() == 7);
        assert(a[1] != b[1] || a[2] != b[2] || a[3] != b[3]);
    }
}

/// A participant has the colour of its place; one that takes no part has that of the first.
pub proof fn law_participants_have_their_place(participants: Seq<Seq<char>>, at: int, name: Seq<char>)
    requires
        0 <= at < participants.len(),
        forall|k: int| 0 <= k < at ==> #[trigger] participants[k] != participants[at],
    ensures
        place_of(participants, participants[at]) == at,
        !participants.contains(name) ==> place_of(participants, name) == 0,
{
    let name = participants[at];
    assert(participants.contains(name));
    let p = place_of(participants, name);
    assert(0 <= at < participants.len() && participants[at] == name && forall|k: int|
        0 <= k < at ==> participants[k] != name);
    assert(0 <= p < participants.len() && participants[p] == name && forall|k: int|
        0 <= k < p ==> participants[k] != name);
    if p < at {
        assert(participants[p] != participants[at]);
    }
}

/// What a reply's event says reaches the conversation under its agent and its turn: each piece of
/// text, each call and what came of it, and each error with the agent's name. Only the end of a
/// reply and the reasoning behind it are kept back.
pub proof fn law_events_reach_the_conversation(
    ev: ChatStreamEvent,
    agent: Seq<char>,
    turn: u32,
    r: Option<ConvoStreamEvent>,
)
    requires
        translated(ev, agent, turn, r),
    ensures
        ev is Done ==> r is None,
        ev is TextChunk ==> r is Some && r->0 is TextChunk && r->0->TextChunk_agent@ == agent
            && r->0->TextChunk_turn == turn && r->0->TextChunk_text == ev->text,
        ev is ToolStart ==> r is Some && r->0 is ToolStart && r->0->ToolStart_agent@ == agent
            && r->0->ToolStart_turn == turn && r->0->ToolStart_tool_name == ev->ToolStart_tool_name,
        ev is ToolResult ==> r is Some && r->0 is ToolResult && r->0->ToolResult_agent@ == agent
            && r->0->ToolResult_turn == turn && r->0->ToolResult_tool_name
            == ev->ToolResult_tool_name && r->0->result_preview == ev->result_preview
            && r->0->duration_ms == ev->duration_ms && r->0->success == ev->success,
        ev is Error ==> r is Some && r->0 is Error && r->0->Error_message@ == agent + ": "@
            + ev->message@,
        ev is Thinking ==> (r is Some <==> ev->reasoning is None),
        ev is Thinking && r is Some ==> r->0 is Thinking && r->0->Thinking_agent@ == agent
            && r->0->Thinking_turn == turn && r->0->Thinking_iteration == ev->Thinking_iteration,
{
}

/// A person who speaks is shown as `You`, and an agent under its own name. A conversation that is
/// complete, stopped or failed changes no more; one that runs does.
pub proof fn law_speakers_and_ends(name: Seq<char>)
    ensures
        speaker(USER_SPEAKER@) == "You"@,
        name != USER_SPEAKER@ ==> speaker(name) == name,
        ended("complete"@) && ended("stopped"@) && ended("error"@),
        !ended("running"@),
{
    reveal_strlit("complete");
    reveal_strlit("stopped");
    reveal_strlit("error");
    reveal_strlit("running");
    assert("running"@[0] == 'r' && "stopped"@[0] == 's');
    assert("complete"@.len() == 8 && "error"@.len() == 5);
}

} // verus!
