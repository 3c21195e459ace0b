//! The chat sessions and their messages.

use crate::ids::fresh_id;
use crate::json::{compact, compact_text, parse_json, parsed, Json, JsonV};
use crate::sort::{law_sorting_orders_the_rows, ranked, sort_rows, Ranked};
use crate::stream::Cost;
use crate::text::{law_trimming_cuts_the_ends, opt_text, same, trim, trimmed, whitespace};
use crate::textmap::{comes_before, lemma_text_total, lemma_text_transitive, text_less};
use vstd::prelude::*;

verus! {

/// How many sessions are listed.
pub const MAX_LISTED: usize = 100;

/// How many messages of a session are read.
pub const MAX_MESSAGES: usize = 200;

/// How many messages, and how many tool calls, a timeline holds.
pub const MAX_TIMELINE: usize = 500;

/// A chat session.
pub struct ChatSession {
    pub id: String,
    pub agent_name: String,
    /// Optional user-defined title.
    pub title: Option<String>,
    pub updated_at: String,
    /// The last message, where it was asked for.
    pub last_preview: Option<String>,
}

/// A message of a session.
pub struct ChatMessage {
    /// `user`, `assistant` or `tool`.
    pub role: String,
    pub content: String,
    pub created_at: String,
    /// The ids of attached files, comma-separated.
    pub file_ids: Option<String>,
    pub tool_name: Option<String>,
    pub tool_duration_ms: Option<u64>,
    pub tool_intent_type: Option<String>,
    pub tool_payload_json: Option<String>,
    pub tool_result_json: Option<String>,
    pub tool_success: Option<bool>,
}

/// A copy of the text.
pub fn copy_text(s: &Option<String>) -> (r: Option<String>)
    ensures
        r == *s,
{
    match s {
        Some(t) => Some(t.clone()),
        None => None,
    }
}

impl ChatMessage {
    /// A copy of the message.
    pub fn duplicate(&self) -> (r: Self)
        ensures
            r == *self,
    {
        ChatMessage {
            role: self.role.clone(),
            content: self.content.clone(),
            created_at: self.created_at.clone(),
            file_ids: copy_text(&self.file_ids),
            tool_name: copy_text(&self.tool_name),
            tool_duration_ms: self.tool_duration_ms,
            tool_intent_type: copy_text(&self.tool_intent_type),
            tool_payload_json: copy_text(&self.tool_payload_json),
            tool_result_json: copy_text(&self.tool_result_json),
            tool_success: self.tool_success,
        }
    }
}

/// One entry of a conversation as it is shown.
pub enum TimelineEntry {
    User { id: i64, content: String, created_at: String },
    Assistant {
        id: i64,
        content: String,
        created_at: String,
        tokens_used: Option<u64>,
        cost: Option<Cost>,
    },
    Tool {
        id: i64,
        tool_name: String,
        tool_intent_type: Option<String>,
        tool_payload_json: Option<String>,
        tool_result_json: Option<String>,
        tool_success: Option<bool>,
        tool_duration_ms: Option<u64>,
        created_at: String,
    },
}

impl TimelineEntry {
    /// The time of the entry.
    pub open spec fn time(self) -> Seq<char> {
        match self {
            TimelineEntry::User { created_at, .. } => created_at@,
            TimelineEntry::Assistant { created_at, .. } => created_at@,
            TimelineEntry::Tool { created_at, .. } => created_at@,
        }
    }

    /// The number of the entry.
    pub open spec fn number(self) -> i64 {
        match self {
            TimelineEntry::User { id, .. } => id,
            TimelineEntry::Assistant { id, .. } => id,
            TimelineEntry::Tool { id, .. } => id,
        }
    }

    fn created(&self) -> (r: &str)
        ensures
            r@ == self.time(),
    {
        match self {
            TimelineEntry::User { created_at, .. } => created_at.as_str(),
            TimelineEntry::Assistant { created_at, .. } => created_at.as_str(),
            TimelineEntry::Tool { created_at, .. } => created_at.as_str(),
        }
    }

    fn entry_id(&self) -> (r: i64)
        ensures
            r == self.number(),
    {
        match self {
            TimelineEntry::User { id, .. } => *id,
            TimelineEntry::Assistant { id, .. } => *id,
            TimelineEntry::Tool { id, .. } => *id,
        }
    }
}

impl Ranked for TimelineEntry {
    /// By time, and by number at the same time.
    open spec fn precedes(self, other: Self) -> bool {
        text_less(self.time(), other.time()) || (self.time() == other.time() && self.number()
            < other.number())
    }

    fn goes_before(&self, other: &Self) -> (r: bool) {
        comes_before(self.created(), other.created()) || (same(self.created(), other.created())
            && self.entry_id() < other.entry_id())
    }

    proof fn asymmetric(a: Self, b: Self) {
        lemma_text_total(a.time(), b.time());
    }

    proof fn transitive(a: Self, b: Self, c: Self) {
        lemma_text_total(a.time(), b.time());
        lemma_text_total(b.time(), c.time());
        lemma_text_total(a.time(), c.time());
        if text_less(a.time(), b.time()) && text_less(b.time(), c.time()) {
            lemma_text_transitive(a.time(), b.time(), c.time());
        }
    }
}

/// A session as it is kept.
pub struct SessionRow {
    pub id: String,
    pub agent_name: String,
    pub title: Option<String>,
    pub created_at: String,
    pub updated_at: String,
}

impl<'a> Ranked for &'a SessionRow {
    /// The session that was used last comes first.
    open spec fn precedes(self, other: Self) -> bool {
        text_less(other.updated_at@, self.updated_at@)
    }

    fn goes_before(&self, other: &Self) -> (r: bool) {
        comes_before(other.updated_at.as_str(), self.updated_at.as_str())
    }

    proof fn asymmetric(a: Self, b: Self) {
        lemma_text_total(a.updated_at@, b.updated_at@);
    }

    proof fn transitive(a: Self, b: Self, c: Self) {
        lemma_text_total(a.updated_at@, b.updated_at@);
        lemma_text_total(b.updated_at@, c.updated_at@);
        lemma_text_total(a.updated_at@, c.updated_at@);
        if text_less(c.updated_at@, b.updated_at@) && text_less(b.updated_at@, a.updated_at@) {
            lemma_text_transitive(c.updated_at@, b.updated_at@, a.updated_at@);
        }
    }
}

/// A message as it is kept.
pub struct MessageRow {
    pub id: i64,
    pub session_id: String,
    pub message: ChatMessage,
    pub tokens_used: Option<u64>,
    pub cost: Option<Cost>,
}

/// A tool call that an agent made.
pub struct ChatToolCallRecord {
    pub tool_name: String,
    pub intent_type: String,
    pub payload: Json,
    pub result: Json,
    pub duration_ms: u64,
}

/// Whether a role is one that messages have.
pub open spec fn known_role(role: Seq<char>) -> bool {
    role == "user"@ || role == "assistant"@ || role == "tool"@
}

/// The messages of a session, in order.
pub open spec fn messages_of(rows: Seq<MessageRow>, session: Seq<char>) -> Seq<&'static ChatMessage>
    decreases rows.len(),
{
    if rows.len() == 0 {
        Seq::empty()
    } else {
        let before = messages_of(rows.drop_last(), session);
        if rows.last().session_id@ == session {
            before.push(&rows.last().message)
        } else {
            before
        }
    }
}

/// The last `n` of a sequence.
pub open spec fn last_of<T>(s: Seq<T>, n: int) -> Seq<T> {
    if s.len() <= n {
        s
    } else {
        s.skip(s.len() - n)
    }
}

/// The last message of a session that a person or an agent wrote.
pub open spec fn preview_of(rows: Seq<MessageRow>, session: Seq<char>) -> Option<String>
    decreases rows.len(),
{
    if rows.len() == 0 {
        None
    } else if rows.last().session_id@ == session && (rows.last().message.role@ == "user"@
        || rows.last().message.role@ == "assistant"@) {
        Some(rows.last().message.content)
    } else {
        preview_of(rows.drop_last(), session)
    }
}

/// The entry of a message that a person or an agent wrote.
pub open spec fn spoken_entry(row: MessageRow) -> TimelineEntry {
    if row.message.role@ == "user"@ {
        TimelineEntry::User {
            id: row.id,
            content: row.message.content,
            created_at: row.message.created_at,
        }
    } else {
        TimelineEntry::Assistant {
            id: row.id,
            content: row.message.content,
            created_at: row.message.created_at,
            tokens_used: row.tokens_used,
            cost: row.cost,
        }
    }
}

/// Whether an entry shows a tool call.
pub open spec fn shows_tool(row: MessageRow, entry: TimelineEntry) -> bool {
    entry matches TimelineEntry::Tool {
        id,
        tool_name,
        tool_intent_type,
        tool_payload_json,
        tool_result_json,
        tool_success,
        tool_duration_ms,
        created_at,
    } && {
        &&& id == row.id
        &&& tool_name@ == (match row.message.tool_name {
            Some(n) => n@,
            None => "unknown"@,
        })
        &&& tool_intent_type == row.message.tool_intent_type
        &&& tool_payload_json == row.message.tool_payload_json
        &&& tool_result_json == row.message.tool_result_json
        &&& tool_success == row.message.tool_success
        &&& tool_duration_ms == row.message.tool_duration_ms
        &&& created_at == row.message.created_at
    }
}

/// The rows of a session whose message is a tool call, or is none, in order.
pub open spec fn rows_of(rows: Seq<MessageRow>, session: Seq<char>, tools: bool) -> Seq<MessageRow>
    decreases rows.len(),
{
    if rows.len() == 0 {
        rows
    } else {
        let before = rows_of(rows.drop_last(), session, tools);
        let row = rows.last();
        let wanted = if tools {
            row.message.role@ == "tool"@
        } else {
            row.message.role@ == "user"@ || row.message.role@ == "assistant"@
        };
        if row.session_id@ == session && wanted {
            before.push(row)
        } else {
            before
        }
    }
}

/// The first `n` of a sequence.
pub open spec fn first_of<T>(s: Seq<T>, n: int) -> Seq<T> {
    if s.len() <= n {
        s
    } else {
        s.take(n)
    }
}

/// Whether the entries show the rows, one by one.
pub open spec fn shows(entries: Seq<TimelineEntry>, rows: Seq<MessageRow>) -> bool {
    entries.len() == rows.len() && forall|i: int|
        0 <= i < rows.len() ==> (if rows[i].message.role@ == "tool"@ {
            shows_tool(rows[i], #[trigger] entries[i])
        } else {
            entries[i] == spoken_entry(rows[i])
        })
}

/// Whether a session has this id.
pub open spec fn has_session(sessions: Seq<SessionRow>, id: Seq<char>) -> bool {
    exists|i: int| 0 <= i < sessions.len() && (#[trigger] sessions[i]).id@ == id
}

/// A session row as it is handed out.
pub open spec fn session_of(row: SessionRow, preview: Option<String>) -> ChatSession {
    ChatSession {
        id: row.id,
        agent_name: row.agent_name,
        title: row.title,
        updated_at: row.updated_at,
        last_preview: preview,
    }
}

/// The title of a fork: the one asked for, or that of the source, marked as a fork.
pub open spec fn fork_title(asked: Option<Seq<char>>, source: Option<Seq<char>>) -> Option<
    Seq<char>,
> {
    if asked is Some && trim(asked->0).len() > 0 {
        Some(trim(asked->0))
    } else {
        match source {
            Some(t) => Some(t + " (fork)"@),
            None => None,
        }
    }
}

/// The chat sessions and their messages.
pub struct ChatStore {
    pub sessions: Vec<SessionRow>,
    pub messages: Vec<MessageRow>,
    pub next_id: i64,
}

/// Why a change was refused.
#[derive(Clone, Copy, PartialEq, Eq, Structural)]
pub enum StoreError {
    NoSession,
    UnknownRole,
    IdTaken,
}

impl ChatStore {
    /// No session id stands twice, the messages are numbered in order, and every message
    /// belongs to a session.
    pub open spec fn wf(self) -> bool {
        &&& forall|i: int, j: int|
            0 <= i < j < self.sessions@.len() ==> (#[trigger] self.sessions@[i]).id@ != (
            #[trigger] self.sessions@[j]).id@
        &&& forall|i: int, j: int|
            0 <= i < j < self.messages@.len() ==> (#[trigger] self.messages@[i]).id < (
            #[trigger] self.messages@[j]).id
        &&& forall|i: int|
            0 <= i < self.messages@.len() ==> (#[trigger] self.messages@[i]).id < self.next_id
                && has_session(self.sessions@, self.messages@[i].session_id@)
    }

    /// A store without sessions.
    pub fn new() -> (r: Self)
        ensures
            r.wf(),
            r.sessions@.len() == 0,
            r.messages@.len() == 0,
            r.next_id == 1,
    {
        ChatStore { sessions: Vec::new(), messages: Vec::new(), next_id: 1 }
    }

    fn session_index(&self, id: &str) -> (r: Option<usize>)
        ensures
            match r {
                Some(i) => i < self.sessions@.len() && self.sessions@[i as int].id@ == id@
                    && has_session(self.sessions@, id@),
                None => !has_session(self.sessions@, id@),
            },
    {
        let mut i: usize = 0;
        while i < self.sessions.len()
            invariant
                i <= self.sessions@.len(),
                forall|k: int| 0 <= k < i ==> (#[trigger] self.sessions@[k]).id@ != id@,
            decreases self.sessions.len() - i,
        {
            if same(self.sessions[i].id.as_str(), id) {
                assert(self.sessions@[i as int].id@ == id@);
                return Some(i);
            }
            i += 1;
        }
        None
    }

    /// The session with this id.
    pub fn get_session(&self, id: &str) -> (r: Option<ChatSession>)
        ensures
            match r {
                Some(s) => exists|i: int|
                    0 <= i < self.sessions@.len() && (#[trigger] self.sessions@[i]).id@ == id@ && s
                        == session_of(self.sessions@[i], None),
                None => !has_session(self.sessions@, id@),
            },
    {
        match self.session_index(id) {
            Some(i) => {
                let row: &SessionRow = &self.sessions[i];
                Some(
                    ChatSession {
                        id: row.id.clone(),
                        agent_name: row.agent_name.clone(),
                        title: copy_text(&row.title),
                        updated_at: row.updated_at.clone(),
                        last_preview: None,
                    },
                )
            },
            None => None,
        }
    }

    fn preview(&self, session: &str) -> (r: Option<String>)
        ensures
            r == preview_of(self.messages@, session@),
    {
        let mut n: usize = self.messages.len();
        assert(self.messages@.take(n as int) =~= self.messages@);
        while n > 0
            invariant
                n <= self.messages@.len(),
                preview_of(self.messages@.take(n as int), session@) == preview_of(
                    self.messages@,
                    session@,
                ),
            decreases n,
        {
            let row: &MessageRow = &self.messages[n - 1];
            assert(self.messages@.take(n as int).drop_last() =~= self.messages@.take(n - 1));
            assert(self.messages@.take(n as int).last() == *row);
            if same(row.session_id.as_str(), session) && (same(row.message.role.as_str(), "user")
                || same(row.message.role.as_str(), "assistant")) {
                return Some(row.message.content.clone());
            }
            n -= 1;
        }
        None
    }

    /// The sessions that were used last, each with its last message.
    pub fn list_sessions(&self) -> (r: Vec<ChatSession>)
        ensures
            ({
                let rows = first_of(
                    ranked(Seq::new(self.sessions@.len(), |i: int| &self.sessions@[i])),
                    MAX_LISTED as int,
                );
                r@ == Seq::new(
                    rows.len(),
                    |i: int| session_of(*rows[i], preview_of(self.messages@, rows[i].id@)),
                )
            }),
    {
        let mut all: Vec<&SessionRow> = Vec::new();
        let mut i: usize = 0;
        while i < self.sessions.len()
            invariant
                i <= self.sessions@.len(),
                all@.len() == i,
                forall|k: int| 0 <= k < i ==> #[trigger] all@[k] == &self.sessions@[k],
            decreases self.sessions.len() - i,
        {
            all.push(&self.sessions[i]);
            i += 1;
        }
        assert(all@ =~= Seq::new(self.sessions@.len(), |i: int| &self.sessions@[i]));
        let sorted: Vec<&SessionRow> = sort_rows(all);
        let ghost rows = first_of(sorted@, MAX_LISTED as int);
        let n: usize = if sorted.len() > MAX_LISTED {
            MAX_LISTED
        } else {
            sorted.len()
        };
        let mut out: Vec<ChatSession> = Vec::new();
        let mut k: usize = 0;
        while k < n
            invariant
                k <= n <= sorted@.len(),
                n == rows.len(),
                rows == first_of(sorted@, MAX_LISTED as int),
                out@.len() == k,
                forall|j: int|
                    0 <= j < k ==> #[trigger] out@[j] == session_of(
                        *rows[j],
                        preview_of(self.messages@, rows[j].id@),
                    ),
            decreases n - k,
        {
            let row: &SessionRow = sorted[k];
            assert(rows[k as int] == row);
            out.push(
                ChatSession {
                    id: row.id.clone(),
                    agent_name: row.agent_name.clone(),
                    title: copy_text(&row.title),
                    updated_at: row.updated_at.clone(),
                    last_preview: self.preview(row.id.as_str()),
                },
            );
            k += 1;
        }
        assert(out@ =~= Seq::new(
            rows.len(),
            |i: int| session_of(*rows[i], preview_of(self.messages@, rows[i].id@)),
        ));
        out
    }

    /// Creates a session with its first message under this id. An id that is taken is refused.
    pub fn create_session(
        &mut self,
        id: String,
        agent_name: &str,
        first_message: &str,
        file_ids: Option<&str>,
        now: &str,
    ) -> (r: Result<String, StoreError>)
        requires
            old(self).wf(),
            old(self).next_id < i64::MAX,
        ensures
            final(self).wf(),
            start_outcome(
                *old(self),
                *final(self),
                id@,
                agent_name@,
                first_message@,
                opt_view(file_ids),
                now@,
                r,
            ),
    {
        if let Some(i) = self.session_index(id.as_str()) {
            return Err(StoreError::IdTaken);
        }
        let ghost sessions = self.sessions@;
        let ghost messages = self.messages@;
        self.sessions.push(
            SessionRow {
                id: id.clone(),
                agent_name: agent_name.to_owned(),
                title: None,
                created_at: now.to_owned(),
                updated_at: now.to_owned(),
            },
        );
        let message: ChatMessage = spoken("user", first_message, now, file_ids);
        self.messages.push(
            MessageRow {
                id: self.next_id,
                session_id: id.clone(),
                message,
                tokens_used: None,
                cost: None,
            },
        );
        self.next_id = self.next_id + 1;
        proof {
            assert(self.sessions@.drop_last() =~= sessions);
            assert(self.messages@.drop_last() =~= messages);
            lemma_grown(*old(self), *self, id@);
        }
        Ok(id)
    }

    /// Creates a session with its first message under a new random id.
    pub fn create_session_with_first_message(
        &mut self,
        agent_name: &str,
        first_message: &str,
        file_ids: Option<&str>,
        now: &str,
    ) -> (r: Result<String, StoreError>)
        requires
            old(self).wf(),
            old(self).next_id < i64::MAX,
        ensures
            final(self).wf(),
            exists|id: Seq<char>|
                crate::ids::uuid_like(id) && #[trigger] start_outcome(
                    *old(self),
                    *final(self),
                    id,
                    agent_name@,
                    first_message@,
                    opt_view(file_ids),
                    now@,
                    r,
                ),
    {
        self.create_session(fresh_id(), agent_name, first_message, file_ids, now)
    }

    /// Gives a session another title, or none.
    pub fn rename_session(&mut self, id: &str, title: Option<&str>, now: &str) -> (r: Result<
        (),
        StoreError,
    >)
        requires
            old(self).wf(),
        ensures
            final(self).wf(),
            final(self).messages == old(self).messages,
            final(self).next_id == old(self).next_id,
            !has_session(old(self).sessions@, id@) ==> r == Err::<(), StoreError>(
                StoreError::NoSession,
            ) && *final(self) == *old(self),
            has_session(old(self).sessions@, id@) ==> r == Ok::<(), StoreError>(()) && retitled(
                old(self).sessions@,
                final(self).sessions@,
                id@,
                opt_view(title),
                now@,
            ),
    {
        let i: usize = match self.session_index(id) {
            Some(i) => i,
            None => {
                return Err(StoreError::NoSession);
            },
        };
        let row = SessionRow {
            id: self.sessions[i].id.clone(),
            agent_name: self.sessions[i].agent_name.clone(),
            title: match title {
                Some(t) => Some(t.to_owned()),
                None => None,
            },
            created_at: self.sessions[i].created_at.clone(),
            updated_at: now.to_owned(),
        };
        let ghost before = self.sessions@;
        self.sessions.set(i, row);
        proof {
            lemma_same_ids(*old(self), *self);
        }
        Ok(())
    }

    fn touch(&mut self, id: &str, now: &str)
        requires
            old(self).wf(),
        ensures
            final(self).wf(),
            final(self).messages == old(self).messages,
            final(self).next_id == old(self).next_id,
            touched(old(self).sessions@, final(self).sessions@, id@, now@),
    {
        if let Some(i) = self.session_index(id) {
            let row = SessionRow {
                id: self.sessions[i].id.clone(),
                agent_name: self.sessions[i].agent_name.clone(),
                title: copy_text(&self.sessions[i].title),
                created_at: self.sessions[i].created_at.clone(),
                updated_at: now.to_owned(),
            };
            self.sessions.set(i, row);
            proof {
                lemma_same_ids(*old(self), *self);
            }
        } else {
            assert(forall|k: int|
                0 <= k < self.sessions@.len() ==> (#[trigger] self.sessions@[k]).id@ != id@);
        }
    }

    /// Removes a session and its messages.
    pub fn delete_session(&mut self, id: &str) -> (r: Result<(), StoreError>)
        requires
            old(self).wf(),
        ensures
            final(self).wf(),
            final(self).next_id == old(self).next_id,
            !has_session(old(self).sessions@, id@) ==> r == Err::<(), StoreError>(
                StoreError::NoSession,
            ) && *final(self) == *old(self),
            has_session(old(self).sessions@, id@) ==> r == Ok::<(), StoreError>(())
                && !has_session(final(self).sessions@, id@) && (exists|i: int|
                0 <= i < old(self).sessions@.len() && (#[trigger] old(self).sessions@[i]).id@ == id@
                    && final(self).sessions@ == old(self).sessions@.remove(i))
                && final(self).messages@ == without(old(self).messages@, id@),
    {
        let at: usize = match self.session_index(id) {
            Some(i) => i,
            None => {
                return Err(StoreError::NoSession);
            },
        };
        let ghost sessions = self.sessions@;
        let ghost messages = self.messages@;
        self.sessions.remove(at);
        let mut kept: Vec<MessageRow> = Vec::new();
        let mut rows: Vec<MessageRow> = Vec::new();
        std::mem::swap(&mut rows, &mut self.messages);
        assert(messages.take(0) =~= Seq::<MessageRow>::empty());
        for row in it: rows.into_iter()
            invariant
                it.seq() == messages,
                kept@ == without(messages.take(it.index() as int), id@),
        {
            proof {
                let n = it.index() as int;
                assert(messages.take(n + 1).drop_last() =~= messages.take(n));
                assert(messages.take(n + 1).last() == row);
            }
            if !same(row.session_id.as_str(), id) {
                kept.push(row);
            }
        }
        assert(messages.take(messages.len() as int) =~= messages);
        self.messages = kept;
        proof {
            assert(sessions[at as int].id@ == id@);
            lemma_without(messages, id@);
            assert forall|i: int| 0 <= i < self.sessions@.len() implies (
            #[trigger] self.sessions@[i]) == sessions[if i < at {
                i
            } else {
                i + 1
            }] && self.sessions@[i].id@ != id@ by {
                let k = if i < at {
                    i
                } else {
                    i + 1
                };
                assert(sessions[k].id@ != sessions[at as int].id@);
            }
            assert forall|i: int| 0 <= i < self.messages@.len() implies (
            #[trigger] self.messages@[i]).id < self.next_id && has_session(
                self.sessions@,
                self.messages@[i].session_id@,
            ) by {
                assert(messages.contains(self.messages@[i]));
                let k = choose|k: int| 0 <= k < messages.len() && messages[k] == self.messages@[i];
                assert(messages[k].id < self.next_id);
                let n = choose|n: int|
                    0 <= n < sessions.len() && (#[trigger] sessions[n]).id@
                        == messages[k].session_id@;
                let n2 = if n < at {
                    n
                } else {
                    n - 1
                };
                assert(self.sessions@[n2].id@ == self.messages@[i].session_id@);
            }
        }
        Ok(())
    }

    fn append(
        &mut self,
        session_id: &str,
        message: ChatMessage,
        tokens_used: Option<u64>,
        cost: Option<Cost>,
    )
        requires
            old(self).wf(),
            old(self).next_id < i64::MAX,
            has_session(old(self).sessions@, session_id@),
        ensures
            final(self).wf(),
            final(self).sessions == old(self).sessions,
            final(self).next_id == old(self).next_id + 1,
            final(self).messages@.len() == old(self).messages@.len() + 1,
            final(self).messages@.drop_last() == old(self).messages@,
            ({
                let m = final(self).messages@.last();
                m.id == old(self).next_id && m.session_id@ == session_id@ && m.message == message
                    && m.tokens_used == tokens_used && m.cost == cost
            }),
    {
        let ghost messages = self.messages@;
        self.messages.push(
            MessageRow {
                id: self.next_id,
                session_id: session_id.to_owned(),
                message,
                tokens_used,
                cost,
            },
        );
        self.next_id = self.next_id + 1;
        assert(self.messages@.drop_last() =~= messages);
    }

    /// Adds a message to a session.
    pub fn add_message(
        &mut self,
        session_id: &str,
        role: &str,
        content: &str,
        file_ids: Option<&str>,
        now: &str,
    ) -> (r: Result<(), StoreError>)
        requires
            old(self).wf(),
            old(self).next_id < i64::MAX,
        ensures
            final(self).wf(),
            !known_role(role@) ==> r == Err::<(), StoreError>(StoreError::UnknownRole)
                && *final(self) == *old(self),
            known_role(role@) && !has_session(old(self).sessions@, session_id@) ==> r == Err::<
                (),
                StoreError,
            >(StoreError::NoSession) && *final(self) == *old(self),
            known_role(role@) && has_session(old(self).sessions@, session_id@) ==> {
                &&& r == Ok::<(), StoreError>(())
                &&& touched(old(self).sessions@, final(self).sessions@, session_id@, now@)
                &&& final(self).next_id == old(self).next_id + 1
                &&& final(self).messages@.len() == old(self).messages@.len() + 1
                &&& final(self).messages@.drop_last() == old(self).messages@
                &&& ({
                    let m = final(self).messages@.last();
                    m.id == old(self).next_id && m.session_id@ == session_id@ && wrote(
                        m.message,
                        role@,
                        content@,
                        now@,
                    ) && opt_text(m.message.file_ids) == opt_view(file_ids) && m.tokens_used is None
                        && m.cost is None
                })
            },
    {
        if !(same(role, "user") || same(role, "assistant") || same(role, "tool")) {
            return Err(StoreError::UnknownRole);
        }
        if self.session_index(session_id).is_none() {
            return Err(StoreError::NoSession);
        }
        let message: ChatMessage = spoken(role, content, now, file_ids);
        self.append(session_id, message, None, None);
        self.touch(session_id, now);
        Ok(())
    }

    /// Adds the reply of an agent to a session, with what it took.
    pub fn add_assistant_message(
        &mut self,
        session_id: &str,
        content: &str,
        tokens_used: Option<u64>,
        cost: Option<Cost>,
        now: &str,
    ) -> (r: Result<(), StoreError>)
        requires
            old(self).wf(),
            old(self).next_id < i64::MAX,
        ensures
            final(self).wf(),
            !has_session(old(self).sessions@, session_id@) ==> r == Err::<(), StoreError>(
                StoreError::NoSession,
            ) && *final(self) == *old(self),
            has_session(old(self).sessions@, session_id@) ==> {
                &&& r == Ok::<(), StoreError>(())
                &&& touched(old(self).sessions@, final(self).sessions@, session_id@, now@)
                &&& final(self).next_id == old(self).next_id + 1
                &&& final(self).messages@.len() == old(self).messages@.len() + 1
                &&& final(self).messages@.drop_last() == old(self).messages@
                &&& ({
                    let m = final(self).messages@.last();
                    m.id == old(self).next_id && m.session_id@ == session_id@ && wrote(
                        m.message,
                        "assistant"@,
                        content@,
                        now@,
                    ) && m.message.file_ids is None && m.tokens_used == tokens_used && m.cost == cost
                })
            },
    {
        if self.session_index(session_id).is_none() {
            return Err(StoreError::NoSession);
        }
        let message: ChatMessage = spoken("assistant", content, now, None);
        self.append(session_id, message, tokens_used, cost);
        self.touch(session_id, now);
        Ok(())
    }

    /// Adds tool calls to a session, in order. Without calls nothing changes.
    pub fn add_tool_calls(
        &mut self,
        session_id: &str,
        tool_calls: &Vec<ChatToolCallRecord>,
        now: &str,
    ) -> (r: Result<(), StoreError>)
        requires
            old(self).wf(),
            old(self).next_id + tool_calls@.len() <= i64::MAX,
        ensures
            final(self).wf(),
            tool_calls@.len() == 0 ==> r == Ok::<(), StoreError>(()) && *final(self) == *old(self),
            tool_calls@.len() > 0 && !has_session(old(self).sessions@, session_id@) ==> r == Err::<
                (),
                StoreError,
            >(StoreError::NoSession) && *final(self) == *old(self),
            tool_calls@.len() > 0 && has_session(old(self).sessions@, session_id@) ==> {
                &&& r == Ok::<(), StoreError>(())
                &&& touched(old(self).sessions@, final(self).sessions@, session_id@, now@)
                &&& final(self).next_id == old(self).next_id + tool_calls@.len()
                &&& final(self).messages@.len() == old(self).messages@.len() + tool_calls@.len()
                &&& final(self).messages@.take(old(self).messages@.len() as int) == old(
                    self,
                ).messages@
                &&& forall|k: int|
                    0 <= k < tool_calls@.len() ==> {
                        let m = #[trigger] final(self).messages@[old(self).messages@.len() + k];
                        m.id == old(self).next_id + k && m.session_id@ == session_id@ && called(
                            m.message,
                            tool_calls@[k],
                            now@,
                        ) && m.tokens_used is None && m.cost is None
                    }
            },
    {
        if tool_calls.len() == 0 {
            return Ok(());
        }
        if self.session_index(session_id).is_none() {
            return Err(StoreError::NoSession);
        }
        let ghost had = self.messages@.len() as int;
        let ghost before = self.messages@;
        let mut i: usize = 0;
        assert(self.messages@.take(had) =~= before);
        while i < tool_calls.len()
            invariant
                i <= tool_calls@.len(),
                self.wf(),
                old(self).next_id + tool_calls@.len() <= i64::MAX,
                has_session(self.sessions@, session_id@),
                self.sessions == old(self).sessions,
                self.next_id == old(self).next_id + i,
                had == before.len(),
                before == old(self).messages@,
                self.messages@.len() == had + i,
                self.messages@.take(had) == before,
                forall|k: int|
                    0 <= k < i ==> {
                        let m = #[trigger] self.messages@[had + k];
                        m.id == old(self).next_id + k && m.session_id@ == session_id@ && called(
                            m.message,
                            tool_calls@[k],
                            now@,
                        ) && m.tokens_used is None && m.cost is None
                    },
            decreases tool_calls.len() - i,
        {
            let ghost last = self.messages@;
            let message: ChatMessage = tool_message(&tool_calls[i], now);
            self.append(session_id, message, None, None);
            proof {
                assert(self.messages@.drop_last() == last);
                assert(self.messages@.take(had) =~= last.take(had));
                assert forall|k: int| 0 <= k < i + 1 implies {
                    let m = #[trigger] self.messages@[had + k];
                    m.id == old(self).next_id + k && m.session_id@ == session_id@ && called(
                        m.message,
                        tool_calls@[k],
                        now@,
                    ) && m.tokens_used is None && m.cost is None
                } by {
                    if k < i {
                        assert(self.messages@.drop_last()[had + k] == last[had + k]);
                    }
                }
            }
            i += 1;
        }
        self.touch(session_id, now);
        Ok(())
    }

    /// The last messages of a session, oldest first.
    pub fn get_messages(&self, session_id: &str) -> (r: Vec<&ChatMessage>)
        ensures
            r@ == last_of(messages_of(self.messages@, session_id@), MAX_MESSAGES as int),
    {
        let mut all: Vec<&ChatMessage> = Vec::new();
        let mut i: usize = 0;
        assert(self.messages@.take(0) =~= Seq::<MessageRow>::empty());
        while i < self.messages.len()
            invariant
                i <= self.messages@.len(),
                all@ == messages_of(self.messages@.take(i as int), session_id@),
            decreases self.messages.len() - i,
        {
            assert(self.messages@.take(i + 1).drop_last() =~= self.messages@.take(i as int));
            assert(self.messages@.take(i + 1).last() == self.messages@[i as int]);
            if same(self.messages[i].session_id.as_str(), session_id) {
                all.push(&self.messages[i].message);
            }
            i += 1;
        }
        assert(self.messages@.take(i as int) =~= self.messages@);
        if all.len() <= MAX_MESSAGES {
            return all;
        }
        let mut out: Vec<&ChatMessage> = Vec::new();
        let from: usize = all.len() - MAX_MESSAGES;
        let mut k: usize = from;
        while k < all.len()
            invariant
                from <= k <= all@.len(),
                out@ == all@.subrange(from as int, k as int),
            decreases all.len() - k,
        {
            out.push(all[k]);
            assert(all@.subrange(from as int, k + 1) =~= all@.subrange(
                from as int,
                k as int,
            ).push(all@[k as int]));
            k += 1;
        }
        assert(all@.subrange(from as int, k as int) =~= all@.skip(from as int));
        out
    }

    /// The conversation as it is shown: its messages and its tool calls, by time, and in the
    /// order in which they came at the same time.
    pub fn get_timeline(&self, session_id: &str) -> (r: Vec<TimelineEntry>)
        ensures
            exists|entries: Seq<TimelineEntry>|
                #![trigger ranked(entries)]
                r@ == ranked(entries) && shows(
                    entries,
                    first_of(rows_of(self.messages@, session_id@, false), MAX_TIMELINE as int)
                        + first_of(
                        rows_of(self.messages@, session_id@, true),
                        MAX_TIMELINE as int,
                    ),
                ),
    {
        let mut spoken_rows: Vec<&MessageRow> = Vec::new();
        let mut tool_rows: Vec<&MessageRow> = Vec::new();
        let mut i: usize = 0;
        assert(self.messages@.take(0) =~= Seq::<MessageRow>::empty());
        while i < self.messages.len()
            invariant
                i <= self.messages@.len(),
                derefs(spoken_rows@) == first_of(
                    rows_of(self.messages@.take(i as int), session_id@, false),
                    MAX_TIMELINE as int,
                ),
                derefs(tool_rows@) == first_of(
                    rows_of(self.messages@.take(i as int), session_id@, true),
                    MAX_TIMELINE as int,
                ),
            decreases self.messages.len() - i,
        {
            let ghost upto = self.messages@.take(i + 1);
            assert(upto.drop_last() =~= self.messages@.take(i as int));
            assert(upto.last() == self.messages@[i as int]);
            let row: &MessageRow = &self.messages[i];
            let ghost s0 = rows_of(self.messages@.take(i as int), session_id@, false);
            let ghost t0 = rows_of(self.messages@.take(i as int), session_id@, true);
            proof {
                lemma_first_of_push(s0, *row, MAX_TIMELINE as int);
                lemma_first_of_push(t0, *row, MAX_TIMELINE as int);
            }
            if same(row.session_id.as_str(), session_id) {
                if same(row.message.role.as_str(), "tool") {
                    assert("tool"@ != "user"@ && "tool"@ != "assistant"@) by {
                        reveal_strlit("tool");
                        reveal_strlit("user");
                        reveal_strlit("assistant");
                        assert("tool"@[0] != "user"@[0]);
                        assert("tool"@[0] != "assistant"@[0]);
                    }
                    if tool_rows.len() < MAX_TIMELINE {
                        let ghost was = derefs(tool_rows@);
                        tool_rows.push(row);
                        assert(derefs(tool_rows@) =~= was.push(*row));
                    }
                } else if same(row.message.role.as_str(), "user") || same(
                    row.message.role.as_str(),
                    "assistant",
                ) {
                    if spoken_rows.len() < MAX_TIMELINE {
                        let ghost was = derefs(spoken_rows@);
                        spoken_rows.push(row);
                        assert(derefs(spoken_rows@) =~= was.push(*row));
                    }
                }
            }
            i += 1;
        }
        assert(self.messages@.take(i as int) =~= self.messages@);
        let ghost rows = derefs(spoken_rows@) + derefs(tool_rows@);
        let mut entries: Vec<TimelineEntry> = Vec::new();
        let mut k: usize = 0;
        while k < spoken_rows.len()
            invariant
                k <= spoken_rows@.len(),
                shows(entries@, derefs(spoken_rows@).take(k as int)),
            decreases spoken_rows.len() - k,
        {
            entries.push(entry_of(spoken_rows[k]));
            k += 1;
        }
        let mut n: usize = 0;
        assert(derefs(spoken_rows@).take(k as int) + derefs(tool_rows@).take(0) =~= derefs(
            spoken_rows@,
        ));
        assert(derefs(spoken_rows@).take(k as int) =~= derefs(spoken_rows@));
        while n < tool_rows.len()
            invariant
                n <= tool_rows@.len(),
                shows(entries@, derefs(spoken_rows@) + derefs(tool_rows@).take(n as int)),
            decreases tool_rows.len() - n,
        {
            let ghost before = derefs(spoken_rows@) + derefs(tool_rows@).take(n as int);
            let ghost had = entries@;
            entries.push(entry_of(tool_rows[n]));
            assert(derefs(spoken_rows@) + derefs(tool_rows@).take(n + 1) =~= before.push(
                *tool_rows@[n as int],
            ));
            n += 1;
        }
        assert(derefs(tool_rows@).take(n as int) =~= derefs(tool_rows@));
        let ghost all = entries@;
        let out: Vec<TimelineEntry> = sort_rows(entries);
        assert(shows(all, rows) && out@ == ranked(all));
        out
    }

    /// Copies a session and its messages into a new one under this id.
    pub fn fork_as(
        &mut self,
        new_id: String,
        source_session_id: &str,
        new_title: Option<&str>,
        now: &str,
    ) -> (r: Result<String, StoreError>)
        requires
            old(self).wf(),
            old(self).next_id + old(self).messages@.len() <= i64::MAX,
        ensures
            final(self).wf(),
            fork_outcome(
                *old(self),
                *final(self),
                new_id@,
                source_session_id@,
                opt_view(new_title),
                now@,
                r,
            ),
    {
        let at: usize = match self.session_index(source_session_id) {
            Some(i) => i,
            None => {
                return Err(StoreError::NoSession);
            },
        };
        if let Some(i) = self.session_index(new_id.as_str()) {
            return Err(StoreError::IdTaken);
        }
        let asked: Option<String> = match new_title {
            Some(t) => {
                let t: String = trimmed(t);
                assert(t@.len() == 0 ==> t@ =~= ""@) by {
                    reveal_strlit("");
                }
                proof {
                    reveal_strlit("");
                }
                if same(t.as_str(), "") {
                    None
                } else {
                    Some(t)
                }
            },
            None => None,
        };
        let title: Option<String> = match asked {
            Some(t) => Some(t),
            None => match &self.sessions[at].title {
                Some(t) => {
                    let mut marked: String = t.clone();
                    marked.push_str(" (fork)");
                    Some(marked)
                },
                None => None,
            },
        };
        let ghost sessions = self.sessions@;
        let ghost messages = self.messages@;
        let agent_name: String = self.sessions[at].agent_name.clone();
        self.sessions.push(
            SessionRow {
                id: new_id.clone(),
                agent_name,
                title,
                created_at: now.to_owned(),
                updated_at: now.to_owned(),
            },
        );
        proof {
            assert(self.sessions@.drop_last() =~= sessions);
            lemma_one_more_session(*old(self), *self, new_id@);
            assert(self.sessions@[sessions.len() as int].id@ == new_id@);
        }
        let count: usize = self.messages.len();
        let mut i: usize = 0;
        assert(messages.take(0) =~= Seq::<MessageRow>::empty());
        assert(self.messages@.take(count as int) =~= messages);
        while i < count
            invariant
                i <= count,
                count == messages.len(),
                messages == old(self).messages@,
                self.wf(),
                has_session(self.sessions@, new_id@),
                old(self).next_id + messages.len() <= i64::MAX,
                self.sessions@.len() == sessions.len() + 1,
                self.sessions@.drop_last() == sessions,
                self.sessions@.last().id@ == new_id@,
                self.sessions@.last().agent_name == sessions[at as int].agent_name,
                self.sessions@.last().created_at@ == now@,
                self.sessions@.last().updated_at@ == now@,
                opt_text(self.sessions@.last().title) == fork_title(
                    opt_view(new_title),
                    opt_text(sessions[at as int].title),
                ),
                self.messages@.len() >= count,
                self.messages@.take(count as int) == messages,
                copies(
                    session_rows(messages.take(i as int), source_session_id@),
                    self.messages@.skip(count as int),
                    new_id@,
                    old(self).next_id as int,
                ),
                self.next_id == old(self).next_id + session_rows(
                    messages.take(i as int),
                    source_session_id@,
                ).len(),
                session_rows(messages.take(i as int), source_session_id@).len() <= i,
            decreases count - i,
        {
            proof {
                assert(messages.take(i + 1).drop_last() =~= messages.take(i as int));
                assert(messages.take(i + 1).last() == messages[i as int]);
                assert(self.messages@.take(count as int)[i as int] == self.messages@[i as int]);
            }
            if same(self.messages[i].session_id.as_str(), source_session_id) {
                let ghost last = self.messages@;
                let message: ChatMessage = self.messages[i].message.duplicate();
                let tokens_used: Option<u64> = self.messages[i].tokens_used;
                let cost: Option<Cost> = self.messages[i].cost;
                self.append(new_id.as_str(), message, tokens_used, cost);
                proof {
                    assert(self.messages@ =~= last.push(self.messages@.last()));
                    assert(self.messages@.take(count as int) =~= last.take(count as int));
                    assert(self.messages@.skip(count as int) =~= last.skip(count as int).push(
                        self.messages@.last(),
                    ));
                }
            }
            i += 1;
        }
        proof {
            assert(messages.take(count as int) =~= messages);
            assert(sessions[at as int].id@ == source_session_id@);
        }
        Ok(new_id)
    }

    /// Copies a session and its messages into a new one, under a new random id.
    pub fn fork_session(
        &mut self,
        source_session_id: &str,
        new_title: Option<&str>,
        now: &str,
    ) -> (r: Result<String, StoreError>)
        requires
            old(self).wf(),
            old(self).next_id + old(self).messages@.len() <= i64::MAX,
        ensures
            final(self).wf(),
            exists|id: Seq<char>|
                crate::ids::uuid_like(id) && #[trigger] fork_outcome(
                    *old(self),
                    *final(self),
                    id,
                    source_session_id@,
                    opt_view(new_title),
                    now@,
                    r,
                ),
    {
        self.fork_as(fresh_id(), source_session_id, new_title, now)
    }
}

/// The text behind a reference, where there is one.
pub open spec fn opt_view(o: Option<&str>) -> Option<Seq<char>> {
    match o {
        Some(s) => Some(s@),
        None => None,
    }
}

/// The rows behind the references.
pub open spec fn derefs(rows: Seq<&MessageRow>) -> Seq<MessageRow> {
    Seq::new(rows.len(), |i: int| *rows[i])
}

/// Whether the new store is the old one with this session and its first message.
pub open spec fn started(
    before: ChatStore,
    after: ChatStore,
    id: Seq<char>,
    agent: Seq<char>,
    first: Seq<char>,
    file_ids: Option<Seq<char>>,
    now: Seq<char>,
) -> bool {
    let s = after.sessions@.last();
    let m = after.messages@.last();
    &&& after.next_id == before.next_id + 1
    &&& after.sessions@.len() == before.sessions@.len() + 1
    &&& after.sessions@.drop_last() == before.sessions@
    &&& s.id@ == id && s.agent_name@ == agent && s.title is None && s.created_at@ == now
        && s.updated_at@ == now
    &&& after.messages@.len() == before.messages@.len() + 1
    &&& after.messages@.drop_last() == before.messages@
    &&& m.id == before.next_id && m.session_id@ == id && wrote(m.message, "user"@, first, now)
        && opt_text(m.message.file_ids) == file_ids && m.tokens_used is None && m.cost is None
}

/// Whether this is what creating a session under that id leads to: an id that is taken is
/// refused, and nothing changes then.
pub open spec fn start_outcome(
    before: ChatStore,
    after: ChatStore,
    id: Seq<char>,
    agent: Seq<char>,
    first: Seq<char>,
    file_ids: Option<Seq<char>>,
    now: Seq<char>,
    r: Result<String, StoreError>,
) -> bool {
    if has_session(before.sessions@, id) {
        r == Err::<String, StoreError>(StoreError::IdTaken) && after == before
    } else {
        (r matches Ok(new_id) && new_id@ == id) && started(
            before,
            after,
            id,
            agent,
            first,
            file_ids,
            now,
        )
    }
}

/// Whether the sessions are the same but for the time of one.
pub open spec fn touched(
    before: Seq<SessionRow>,
    after: Seq<SessionRow>,
    id: Seq<char>,
    now: Seq<char>,
) -> bool {
    after.len() == before.len() && forall|i: int|
        0 <= i < before.len() ==> (if before[i].id@ == id {
            (#[trigger] after[i]).id == before[i].id && after[i].agent_name == before[i].agent_name
                && after[i].title == before[i].title && after[i].created_at == before[i].created_at
                && after[i].updated_at@ == now
        } else {
            after[i] == before[i]
        })
}

/// Whether the sessions are the same but for the title and the time of one.
pub open spec fn retitled(
    before: Seq<SessionRow>,
    after: Seq<SessionRow>,
    id: Seq<char>,
    title: Option<Seq<char>>,
    now: Seq<char>,
) -> bool {
    after.len() == before.len() && forall|i: int|
        0 <= i < before.len() ==> (if before[i].id@ == id {
            (#[trigger] after[i]).id == before[i].id && after[i].agent_name == before[i].agent_name
                && opt_text(after[i].title) == title && after[i].created_at == before[i].created_at
                && after[i].updated_at@ == now
        } else {
            after[i] == before[i]
        })
}

/// The rows of other sessions.
pub open spec fn without(rows: Seq<MessageRow>, session: Seq<char>) -> Seq<MessageRow>
    decreases rows.len(),
{
    if rows.len() == 0 {
        rows
    } else if rows.last().session_id@ == session {
        without(rows.drop_last(), session)
    } else {
        without(rows.drop_last(), session).push(rows.last())
    }
}

/// The rows of a session.
pub open spec fn session_rows(rows: Seq<MessageRow>, session: Seq<char>) -> Seq<MessageRow>
    decreases rows.len(),
{
    if rows.len() == 0 {
        rows
    } else if rows.last().session_id@ == session {
        session_rows(rows.drop_last(), session).push(rows.last())
    } else {
        session_rows(rows.drop_last(), session)
    }
}

/// Whether the second rows are the first ones under another session, numbered from `first` on.
pub open spec fn copies(
    source: Seq<MessageRow>,
    copied: Seq<MessageRow>,
    session: Seq<char>,
    first: int,
) -> bool {
    copied.len() == source.len() && forall|k: int|
        0 <= k < source.len() ==> (#[trigger] copied[k]).id == first + k && copied[k].session_id@
            == session && copied[k].message == source[k].message && copied[k].tokens_used
            == source[k].tokens_used && copied[k].cost == source[k].cost
}

/// Whether the new store is the old one with a copy of a session.
pub open spec fn forked(
    before: ChatStore,
    after: ChatStore,
    id: Seq<char>,
    source: Seq<char>,
    title: Option<Seq<char>>,
    now: Seq<char>,
) -> bool {
    let s = after.sessions@.last();
    let count = before.messages@.len() as int;
    &&& after.sessions@.len() == before.sessions@.len() + 1
    &&& after.sessions@.drop_last() == before.sessions@
    &&& s.id@ == id && s.created_at@ == now && s.updated_at@ == now
    &&& exists|i: int|
        0 <= i < before.sessions@.len() && (#[trigger] before.sessions@[i]).id@ == source
            && s.agent_name == before.sessions@[i].agent_name && opt_text(s.title) == fork_title(
            title,
            opt_text(before.sessions@[i].title),
        )
    &&& after.messages@.len() >= count
    &&& after.messages@.take(count) == before.messages@
    &&& copies(
        session_rows(before.messages@, source),
        after.messages@.skip(count),
        id,
        before.next_id as int,
    )
}

/// Whether this is what copying a session under that id leads to: a session that is not there and
/// an id that is taken are refused, and nothing changes then.
pub open spec fn fork_outcome(
    before: ChatStore,
    after: ChatStore,
    id: Seq<char>,
    source: Seq<char>,
    title: Option<Seq<char>>,
    now: Seq<char>,
    r: Result<String, StoreError>,
) -> bool {
    if !has_session(before.sessions@, source) {
        r == Err::<String, StoreError>(StoreError::NoSession) && after == before
    } else if has_session(before.sessions@, id) {
        r == Err::<String, StoreError>(StoreError::IdTaken) && after == before
    } else {
        (r matches Ok(new_id) && new_id@ == id) && forked(before, after, id, source, title, now)
    }
}

/// Whether a tool's result is a success: it is no object with an error.
pub open spec fn succeeded(result: JsonV) -> bool {
    result.get("error"@) is None
}

/// Whether a message records a tool call.
pub open spec fn called(m: ChatMessage, call: ChatToolCallRecord, now: Seq<char>) -> bool {
    &&& m.role@ == "tool"@
    &&& m.content@ == "Tool call: "@ + call.tool_name@
    &&& m.created_at@ == now
    &&& m.file_ids is None
    &&& m.tool_name == Some(call.tool_name)
    &&& m.tool_duration_ms == Some(
        if call.duration_ms > i64::MAX {
            i64::MAX as u64
        } else {
            call.duration_ms
        },
    )
    &&& m.tool_intent_type == Some(call.intent_type)
    &&& opt_text(m.tool_payload_json) == Some(compact_text(call.payload@))
    &&& opt_text(m.tool_result_json) == Some(compact_text(call.result@))
    &&& m.tool_success == Some(succeeded(call.result@))
}

fn tool_message(call: &ChatToolCallRecord, now: &str) -> (r: ChatMessage)
    ensures
        called(r, *call, now@),
{
    let mut content: String = "Tool call: ".to_owned();
    content.push_str(call.tool_name.as_str());
    ChatMessage {
        role: "tool".to_owned(),
        content,
        created_at: now.to_owned(),
        file_ids: None,
        tool_name: Some(call.tool_name.clone()),
        tool_duration_ms: Some(
            if call.duration_ms > 0x7fff_ffff_ffff_ffff {
                0x7fff_ffff_ffff_ffff
            } else {
                call.duration_ms
            },
        ),
        tool_intent_type: Some(call.intent_type.clone()),
        tool_payload_json: Some(compact(&call.payload)),
        tool_result_json: Some(compact(&call.result)),
        tool_success: Some(call.result.get("error").is_none()),
    }
}

fn entry_of(row: &MessageRow) -> (r: TimelineEntry)
    ensures
        row.message.role@ == "tool"@ ==> shows_tool(*row, r),
        row.message.role@ != "tool"@ ==> r == spoken_entry(*row),
{
    if same(row.message.role.as_str(), "tool") {
        TimelineEntry::Tool {
            id: row.id,
            tool_name: match &row.message.tool_name {
                Some(n) => n.clone(),
                None => "unknown".to_owned(),
            },
            tool_intent_type: copy_text(&row.message.tool_intent_type),
            tool_payload_json: copy_text(&row.message.tool_payload_json),
            tool_result_json: copy_text(&row.message.tool_result_json),
            tool_success: row.message.tool_success,
            tool_duration_ms: row.message.tool_duration_ms,
            created_at: row.message.created_at.clone(),
        }
    } else if same(row.message.role.as_str(), "user") {
        TimelineEntry::User {
            id: row.id,
            content: row.message.content.clone(),
            created_at: row.message.created_at.clone(),
        }
    } else {
        TimelineEntry::Assistant {
            id: row.id,
            content: row.message.content.clone(),
            created_at: row.message.created_at.clone(),
            tokens_used: row.tokens_used,
            cost: row.cost,
        }
    }
}

proof fn lemma_first_of_push(s: Seq<MessageRow>, row: MessageRow, n: int)
    requires
        0 <= n,
    ensures
        first_of(s.push(row), n) == (if s.len() < n {
            first_of(s, n).push(row)
        } else {
            first_of(s, n)
        }),
        s.len() < n <==> first_of(s, n).len() < n,
{
    if s.len() >= n {
        assert(s.push(row).take(n) =~= first_of(s, n));
    }
}

proof fn lemma_without(rows: Seq<MessageRow>, session: Seq<char>)
    ensures
        forall|i: int|
            0 <= i < without(rows, session).len() ==> rows.contains(
                #[trigger] without(rows, session)[i],
            ) && without(rows, session)[i].session_id@ != session,
        (forall|i: int, j: int|
            0 <= i < j < rows.len() ==> (#[trigger] rows[i]).id < (#[trigger] rows[j]).id) ==> (
        forall|i: int, j: int|
            0 <= i < j < without(rows, session).len() ==> (#[trigger] without(rows, session)[i]).id
                < (#[trigger] without(rows, session)[j]).id),
    decreases rows.len(),
{
    if rows.len() > 0 {
        let head = rows.drop_last();
        lemma_without(head, session);
        let before = without(head, session);
        let after = without(rows, session);
        assert forall|i: int| 0 <= i < after.len() implies rows.contains(#[trigger] after[i])
            && after[i].session_id@ != session by {
            if i < before.len() {
                assert(after[i] == before[i]);
                let k = choose|k: int| 0 <= k < head.len() && head[k] == before[i];
                assert(rows[k] == after[i]);
            } else {
                assert(rows[rows.len() - 1] == after[i]);
            }
        }
        if forall|i: int, j: int|
            0 <= i < j < rows.len() ==> (#[trigger] rows[i]).id < (#[trigger] rows[j]).id {
            assert forall|i: int, j: int| 0 <= i < j < head.len() implies (#[trigger] head[i]).id
                < (#[trigger] head[j]).id by {
                assert(head[i] == rows[i] && head[j] == rows[j]);
            }
            assert forall|i: int, j: int| 0 <= i < j < after.len() implies (
            #[trigger] after[i]).id < (#[trigger] after[j]).id by {
                assert(after[i] == before[i]);
                if j < before.len() {
                    assert(after[j] == before[j]);
                } else {
                    let k = choose|k: int| 0 <= k < head.len() && head[k] == before[i];
                    assert(rows[k] == before[i]);
                    assert(rows[rows.len() - 1] == after[j]);
                }
            }
        }
    }
}

/// A store whose sessions keep their ids stays well-formed.
proof fn lemma_same_ids(before: ChatStore, after: ChatStore)
    requires
        before.wf(),
        after.messages == before.messages,
        after.next_id == before.next_id,
        after.sessions@.len() == before.sessions@.len(),
        forall|i: int|
            0 <= i < before.sessions@.len() ==> (#[trigger] after.sessions@[i]).id@
                == before.sessions@[i].id@,
    ensures
        after.wf(),
{
    assert forall|i: int| 0 <= i < after.messages@.len() implies (#[trigger] after.messages@[i]).id
        < after.next_id && has_session(after.sessions@, after.messages@[i].session_id@) by {
        let k = choose|k: int|
            0 <= k < before.sessions@.len() && (#[trigger] before.sessions@[k]).id@
                == before.messages@[i].session_id@;
        assert(after.sessions@[k].id@ == after.messages@[i].session_id@);
    }
}

/// A store with one more session is well-formed.
proof fn lemma_one_more_session(before: ChatStore, after: ChatStore, id: Seq<char>)
    requires
        before.wf(),
        !has_session(before.sessions@, id),
        after.messages == before.messages,
        after.next_id == before.next_id,
        after.sessions@.len() == before.sessions@.len() + 1,
        after.sessions@.drop_last() == before.sessions@,
        after.sessions@.last().id@ == id,
    ensures
        after.wf(),
{
    let n = before.sessions@.len() as int;
    assert forall|i: int| 0 <= i < n implies after.sessions@[i] == before.sessions@[i] by {
        assert(after.sessions@.drop_last()[i] == after.sessions@[i]);
    }
    assert forall|i: int, j: int| 0 <= i < j < after.sessions@.len() implies (
    #[trigger] after.sessions@[i]).id@ != (#[trigger] after.sessions@[j]).id@ by {
        assert(before.sessions@[i].id@ != id);
    }
    assert forall|i: int| 0 <= i < after.messages@.len() implies (#[trigger] after.messages@[i]).id
        < after.next_id && has_session(after.sessions@, after.messages@[i].session_id@) by {
        let k = choose|k: int|
            0 <= k < n && (#[trigger] before.sessions@[k]).id@ == before.messages@[i].session_id@;
        assert(after.sessions@[k].id@ == after.messages@[i].session_id@);
    }
}

/// Whether a message is plain text of this role.
pub open spec fn wrote(m: ChatMessage, role: Seq<char>, content: Seq<char>, now: Seq<char>) -> bool {
    m.role@ == role && m.content@ == content && m.created_at@ == now && m.tool_name is None
        && m.tool_duration_ms is None && m.tool_intent_type is None && m.tool_payload_json is None
        && m.tool_result_json is None && m.tool_success is None
}

fn spoken(role: &str, content: &str, now: &str, file_ids: Option<&str>) -> (r: ChatMessage)
    ensures
        wrote(r, role@, content@, now@),
        opt_text(r.file_ids) == (match file_ids {
            Some(f) => Some(f@),
            None => None,
        }),
{
    ChatMessage {
        role: role.to_owned(),
        content: content.to_owned(),
        created_at: now.to_owned(),
        file_ids: match file_ids {
            Some(f) => Some(f.to_owned()),
            None => None,
        },
        tool_name: None,
        tool_duration_ms: None,
        tool_intent_type: None,
        tool_payload_json: None,
        tool_result_json: None,
        tool_success: None,
    }
}

/// A store with one more session and one more message of it is well-formed.
proof fn lemma_grown(old_store: ChatStore, new_store: ChatStore, id: Seq<char>)
    requires
        old_store.wf(),
        new_store.next_id == old_store.next_id + 1,
        new_store.sessions@.len() == old_store.sessions@.len() + 1,
        new_store.sessions@.drop_last() == old_store.sessions@,
        new_store.sessions@.last().id@ == id,
        new_store.messages@.len() == old_store.messages@.len() + 1,
        new_store.messages@.drop_last() == old_store.messages@,
        new_store.messages@.last().id == old_store.next_id,
        new_store.messages@.last().session_id@ == id,
    ensures
        !has_session(old_store.sessions@, id) ==> new_store.wf(),
{
    if !has_session(old_store.sessions@, id) {
        let n = old_store.sessions@.len() as int;
        assert forall|i: int| 0 <= i < n implies new_store.sessions@[i] == old_store.sessions@[i] by {
            assert(new_store.sessions@.drop_last()[i] == new_store.sessions@[i]);
        }
        let m = old_store.messages@.len() as int;
        assert forall|i: int| 0 <= i < m implies new_store.messages@[i] == old_store.messages@[i] by {
            assert(new_store.messages@.drop_last()[i] == new_store.messages@[i]);
        }
        assert forall|i: int, j: int| 0 <= i < j < new_store.sessions@.len() implies (
        #[trigger] new_store.sessions@[i]).id@ != (#[trigger] new_store.sessions@[j]).id@ by {
            assert(old_store.sessions@[i].id@ != id);
        }
        assert forall|i: int| 0 <= i < new_store.messages@.len() implies (
        #[trigger] new_store.messages@[i]).id < new_store.next_id && has_session(
            new_store.sessions@,
            new_store.messages@[i].session_id@,
        ) by {
            if i < m {
                let k = choose|k: int|
                    0 <= k < n && (#[trigger] old_store.sessions@[k]).id@
                        == old_store.messages@[i].session_id@;
                assert(new_store.sessions@[k].id@ == new_store.messages@[i].session_id@);
            } else {
                assert(new_store.sessions@[n].id@ == id);
            }
        }
    }
}

// ---------------------------------------------------------------------------
// Laws
// ---------------------------------------------------------------------------

proof fn lemma_messages_of_joined(a: Seq<MessageRow>, b: Seq<MessageRow>, session: Seq<char>)
    ensures
        messages_of(a + b, session) == messages_of(a, session) + messages_of(b, session),
    decreases b.len(),
{
    if b.len() == 0 {
        assert(a + b =~= a);
        assert(messages_of(a, session) + messages_of(b, session) =~= messages_of(a, session));
    } else {
        assert((a + b).drop_last() =~= a + b.drop_last());
        lemma_messages_of_joined(a, b.drop_last(), session);
        assert(messages_of(a + b, session) =~= messages_of(a, session) + messages_of(b, session));
    }
}

/// A session without rows has no messages.
pub proof fn lemma_no_messages(rows: Seq<MessageRow>, session: Seq<char>)
    requires
        forall|i: int| 0 <= i < rows.len() ==> (#[trigger] rows[i]).session_id@ != session,
    ensures
        messages_of(rows, session) == Seq::<&'static ChatMessage>::empty(),
    decreases rows.len(),
{
    if rows.len() > 0 {
        let head = rows.drop_last();
        assert forall|i: int| 0 <= i < head.len() implies (#[trigger] head[i]).session_id@
            != session by {
            assert(head[i] == rows[i]);
        }
        lemma_no_messages(head, session);
        assert(rows[rows.len() - 1].session_id@ != session);
    }
}

proof fn lemma_copies_read_the_same(
    rows: Seq<MessageRow>,
    source: Seq<char>,
    copied: Seq<MessageRow>,
    session: Seq<char>,
    first: int,
)
    requires
        copies(session_rows(rows, source), copied, session, first),
    ensures
        messages_of(copied, session) == messages_of(rows, source),
    decreases rows.len(),
{
    if rows.len() > 0 {
        let head = rows.drop_last();
        if rows.last().session_id@ == source {
            let fewer = copied.drop_last();
            assert(copies(session_rows(head, source), fewer, session, first)) by {
                assert forall|k: int| 0 <= k < session_rows(head, source).len() implies (
                #[trigger] fewer[k]).id == first + k && fewer[k].session_id@ == session
                    && fewer[k].message == session_rows(head, source)[k].message
                    && fewer[k].tokens_used == session_rows(head, source)[k].tokens_used
                    && fewer[k].cost == session_rows(head, source)[k].cost by {
                    assert(fewer[k] == copied[k]);
                    assert(session_rows(rows, source)[k] == session_rows(head, source)[k]);
                }
            }
            lemma_copies_read_the_same(head, source, fewer, session, first);
            assert(copied[copied.len() - 1].session_id@ == session);
            assert(copied.last().message == rows.last().message);
        } else {
            lemma_copies_read_the_same(head, source, copied, session, first);
        }
    } else {
        assert(copied.len() == 0);
    }
}

/// What is added to a session is the last thing read from it, and other sessions read as
/// before.
pub proof fn law_added_messages_are_read_back(
    rows: Seq<MessageRow>,
    row: MessageRow,
    session: Seq<char>,
)
    ensures
        messages_of(rows.push(row), session) == (if row.session_id@ == session {
            messages_of(rows, session).push(&row.message)
        } else {
            messages_of(rows, session)
        }),
{
    assert(rows.push(row).drop_last() =~= rows);
}

/// A fork is a copy, and leaves its source alone. It is refused, with nothing changed, exactly
/// where the source is missing or the new id is taken. Otherwise the new session has the source's
/// agent, the title that was asked for or the source's marked as a fork, and the source's
/// messages in their order; the source and every other session stay as they were.
pub proof fn law_a_fork_is_a_copy(
    before: ChatStore,
    after: ChatStore,
    id: Seq<char>,
    source: Seq<char>,
    title: Option<Seq<char>>,
    now: Seq<char>,
    r: Result<String, StoreError>,
)
    requires
        before.wf(),
        fork_outcome(before, after, id, source, title, now, r),
    ensures
        r is Err <==> !has_session(before.sessions@, source) || has_session(before.sessions@, id),
        r is Err ==> after == before,
        r is Ok ==> {
            let s = after.sessions@.last();
            &&& r->Ok_0@ == id && s.id@ == id
            &&& forall|i: int|
                0 <= i < before.sessions@.len() && (#[trigger] before.sessions@[i]).id@ == source
                    ==> s.agent_name == before.sessions@[i].agent_name && opt_text(s.title)
                    == fork_title(title, opt_text(before.sessions@[i].title))
            &&& messages_of(after.messages@, id) == messages_of(before.messages@, source)
            &&& after.sessions@.drop_last() == before.sessions@
            &&& forall|other: Seq<char>|
                other != id ==> #[trigger] messages_of(after.messages@, other) == messages_of(
                    before.messages@,
                    other,
                )
        },
{
    if r is Ok {
        let s = after.sessions@.last();
        let at = choose|i: int|
            0 <= i < before.sessions@.len() && (#[trigger] before.sessions@[i]).id@ == source
                && s.agent_name == before.sessions@[i].agent_name && opt_text(s.title)
                == fork_title(title, opt_text(before.sessions@[i].title));
        assert forall|i: int|
            0 <= i < before.sessions@.len() && (#[trigger] before.sessions@[i]).id@
                == source implies s.agent_name == before.sessions@[i].agent_name && opt_text(
            s.title,
        ) == fork_title(title, opt_text(before.sessions@[i].title)) by {
            assert(i == at);
        }
        assert forall|other: Seq<char>| other != id implies #[trigger] messages_of(
            after.messages@,
            other,
        ) == messages_of(before.messages@, other) by {
            law_forks_read_as_their_source(before, after, id, source, title, now, other);
        }
        law_forks_read_as_their_source(before, after, id, source, title, now, source);
    }
}

/// A fork reads as its source does, and every other session as before.
pub proof fn law_forks_read_as_their_source(
    before: ChatStore,
    after: ChatStore,
    id: Seq<char>,
    source: Seq<char>,
    title: Option<Seq<char>>,
    now: Seq<char>,
    other: Seq<char>,
)
    requires
        before.wf(),
        !has_session(before.sessions@, id),
        forked(before, after, id, source, title, now),
        other != id,
    ensures
        messages_of(after.messages@, id) == messages_of(before.messages@, source),
        messages_of(after.messages@, other) == messages_of(before.messages@, other),
{
    let count = before.messages@.len() as int;
    let copied = after.messages@.skip(count);
    assert(after.messages@ =~= before.messages@ + copied) by {
        assert(after.messages@ =~= after.messages@.take(count) + copied);
    }
    lemma_messages_of_joined(before.messages@, copied, id);
    lemma_messages_of_joined(before.messages@, copied, other);
    assert forall|i: int| 0 <= i < before.messages@.len() implies (
    #[trigger] before.messages@[i]).session_id@ != id by {
        assert(has_session(before.sessions@, before.messages@[i].session_id@));
    }
    lemma_no_messages(before.messages@, id);
    lemma_copies_read_the_same(before.messages@, source, copied, id, before.next_id as int);
    assert forall|i: int| 0 <= i < copied.len() implies (#[trigger] copied[i]).session_id@
        != other by {
    }
    lemma_no_messages(copied, other);
    assert(messages_of(before.messages@, id) + messages_of(copied, id) =~= messages_of(copied, id));
    assert(messages_of(before.messages@, other) + messages_of(copied, other) =~= messages_of(
        before.messages@,
        other,
    ));
}

/// Nothing is read from a session that was deleted, and every other session reads as before.
pub proof fn law_deleted_sessions_are_gone(
    rows: Seq<MessageRow>,
    session: Seq<char>,
    other: Seq<char>,
)
    requires
        other != session,
    ensures
        messages_of(without(rows, session), session).len() == 0,
        messages_of(without(rows, session), other) == messages_of(rows, other),
    decreases rows.len(),
{
    if rows.len() > 0 {
        law_deleted_sessions_are_gone(rows.drop_last(), session, other);
        let kept = without(rows.drop_last(), session);
        if rows.last().session_id@ != session {
            assert(kept.push(rows.last()).drop_last() =~= kept);
        }
    }
}

/// Whether a person or an agent wrote this message in this session.
pub open spec fn said_in(row: MessageRow, session: Seq<char>) -> bool {
    row.session_id@ == session && (row.message.role@ == "user"@ || row.message.role@
        == "assistant"@)
}

/// The preview of a session is what was said last in it: neither a tool call nor another session
/// changes it, and a session in which nothing was said has none.
pub proof fn law_previews_show_what_was_said_last(
    rows: Seq<MessageRow>,
    session: Seq<char>,
    at: int,
)
    requires
        -1 <= at < rows.len(),
        at >= 0 ==> said_in(rows[at], session),
        forall|k: int| at < k < rows.len() ==> !said_in(#[trigger] rows[k], session),
    ensures
        at >= 0 ==> preview_of(rows, session) == Some(rows[at].message.content),
        at < 0 ==> preview_of(rows, session) is None,
    decreases rows.len(),
{
    if rows.len() > 0 && at < rows.len() - 1 {
        assert(!said_in(rows[rows.len() - 1], session));
        assert forall|k: int| at < k < rows.drop_last().len() implies !said_in(
            #[trigger] rows.drop_last()[k],
            session,
        ) by {
            assert(rows.drop_last()[k] == rows[k]);
        }
        law_previews_show_what_was_said_last(rows.drop_last(), session, at);
    }
}

/// Of a session's rows, one more is one more at the end, under what was said or under the tool
/// calls; a row of another session changes nothing.
pub proof fn law_rows_are_told_in_order(rows: Seq<MessageRow>, row: MessageRow, session: Seq<char>)
    ensures
        rows_of(Seq::empty(), session, false) == Seq::<MessageRow>::empty(),
        rows_of(Seq::empty(), session, true) == Seq::<MessageRow>::empty(),
        row.session_id@ != session ==> rows_of(rows.push(row), session, false) == rows_of(
            rows,
            session,
            false,
        ) && rows_of(rows.push(row), session, true) == rows_of(rows, session, true),
        said_in(row, session) ==> rows_of(rows.push(row), session, false) == rows_of(
            rows,
            session,
            false,
        ).push(row) && rows_of(rows.push(row), session, true) == rows_of(rows, session, true),
        row.session_id@ == session && row.message.role@ == "tool"@ ==> rows_of(
            rows.push(row),
            session,
            true,
        ) == rows_of(rows, session, true).push(row) && rows_of(rows.push(row), session, false)
            == rows_of(rows, session, false),
{
    assert(rows.push(row).drop_last() =~= rows);
    assert("user"@ != "tool"@ && "assistant"@ != "tool"@) by {
        reveal_strlit("user");
        reveal_strlit("assistant");
        reveal_strlit("tool");
        assert("user"@[0] != "tool"@[0]);
        assert("assistant"@.len() != "tool"@.len());
    }
}

/// The first rows of a timeline are kept where there are more than it holds, and of the messages
/// the last ones are read.
pub proof fn law_long_sessions_are_cut<T>(s: Seq<T>, n: nat)
    ensures
        s.len() <= n ==> first_of(s, n as int) == s && last_of(s, n as int) == s,
        s.len() > n ==> first_of(s, n as int).len() == n && last_of(s, n as int).len() == n,
        forall|i: int|
            0 <= i < first_of(s, n as int).len() ==> #[trigger] first_of(s, n as int)[i] == s[i],
        forall|i: int|
            0 <= i < last_of(s, n as int).len() ==> #[trigger] last_of(s, n as int)[i] == s[s.len()
                - last_of(s, n as int).len() + i],
{
}

/// A timeline entry says who spoke or which tool was called, with what was kept of it: what was
/// written, when, under which number, and of an answer what it took.
pub proof fn law_entries_say_what_was_kept(
    entries: Seq<TimelineEntry>,
    rows: Seq<MessageRow>,
    at: int,
)
    requires
        shows(entries, rows),
        0 <= at < rows.len(),
    ensures
        entries.len() == rows.len(),
        entries[at].number() == rows[at].id,
        entries[at].time() == rows[at].message.created_at@,
        rows[at].message.role@ == "user"@ ==> entries[at] is User && entries[at]->User_content
            == rows[at].message.content,
        rows[at].message.role@ == "assistant"@ ==> entries[at] is Assistant
            && entries[at]->Assistant_content == rows[at].message.content
            && entries[at]->Assistant_tokens_used == rows[at].tokens_used
            && entries[at]->Assistant_cost == rows[at].cost,
        rows[at].message.role@ == "tool"@ ==> {
            &&& entries[at] is Tool
            &&& rows[at].message.tool_name is Some ==> entries[at]->Tool_tool_name@
                == rows[at].message.tool_name->0@
            &&& rows[at].message.tool_name is None ==> entries[at]->Tool_tool_name@ == "unknown"@
            &&& entries[at]->Tool_tool_intent_type == rows[at].message.tool_intent_type
            &&& entries[at]->Tool_tool_payload_json == rows[at].message.tool_payload_json
            &&& entries[at]->Tool_tool_result_json == rows[at].message.tool_result_json
            &&& entries[at]->Tool_tool_success == rows[at].message.tool_success
            &&& entries[at]->Tool_tool_duration_ms == rows[at].message.tool_duration_ms
        },
{
    assert("user"@ != "tool"@ && "assistant"@ != "tool"@ && "user"@ != "assistant"@) by {
        reveal_strlit("user");
        reveal_strlit("assistant");
        reveal_strlit("tool");
        assert("user"@[0] != "tool"@[0]);
        assert("assistant"@.len() != "tool"@.len());
        assert("assistant"@.len() != "user"@.len());
    }
    let entry = entries[at];
}

/// The timeline runs from the oldest entry to the newest. Of two entries of the same time the one
/// with the smaller number comes first.
pub proof fn law_timelines_run_forward(entries: Seq<TimelineEntry>, i: int, j: int)
    requires
        0 <= i < j < entries.len(),
    ensures
        ranked(entries).len() == entries.len(),
        ranked(entries).to_multiset() == entries.to_multiset(),
        !text_less(ranked(entries)[j].time(), ranked(entries)[i].time()),
        ranked(entries)[i].time() == ranked(entries)[j].time() ==> ranked(entries)[i].number()
            <= ranked(entries)[j].number(),
{
    law_sorting_orders_the_rows(entries);
    assert(!ranked(entries)[j].precedes(ranked(entries)[i]));
}

/// The sessions are listed from the one that was used last to the one that was not used for
/// longest.
pub proof fn law_sessions_are_listed_newest_first(sessions: Seq<&SessionRow>, i: int, j: int)
    requires
        0 <= i < j < sessions.len(),
    ensures
        ranked(sessions).len() == sessions.len(),
        ranked(sessions).to_multiset() == sessions.to_multiset(),
        !text_less(ranked(sessions)[i].updated_at@, ranked(sessions)[j].updated_at@),
{
    law_sorting_orders_the_rows(sessions);
    assert(!ranked(sessions)[j].precedes(ranked(sessions)[i]));
}

/// A fork bears the title that was asked for, without the blanks around it. Where none was asked
/// for, or nothing but blanks, it bears the title of its source with ` (fork)` behind it, and
/// none where the source has none.
pub proof fn law_forks_are_named(
    asked: Seq<char>,
    blank: Seq<char>,
    source: Seq<char>,
    kept: Option<Seq<char>>,
)
    requires
        asked.len() > 0 && !whitespace(asked[0]) && !whitespace(asked.last()),
        forall|i: int| 0 <= i < blank.len() ==> whitespace(#[trigger] blank[i]),
    ensures
        fork_title(Some(asked), kept) == Some(asked),
        fork_title(Some(blank + asked), kept) == Some(asked),
        fork_title(Some(asked + blank), kept) == Some(asked),
        fork_title(Some(blank), Some(source)) == Some(source + " (fork)"@),
        fork_title(None, Some(source)) == Some(source + " (fork)"@),
        fork_title(Some(blank), None) is None,
        fork_title(None, None) is None,
{
    let none = Seq::<char>::empty();
    law_trimming_cuts_the_ends(none, asked, none);
    law_trimming_cuts_the_ends(blank, asked, none);
    law_trimming_cuts_the_ends(none, asked, blank);
    law_trimming_cuts_the_ends(blank, none, none);
    assert(none + asked + none =~= asked);
    assert(blank + asked + none =~= blank + asked);
    assert(none + asked + blank =~= asked + blank);
    assert(blank + none + none =~= blank);
}

/// A tool call failed exactly where its result is an object with an error. An older row is
/// believed where it says itself whether the call succeeded.
pub proof fn law_errors_are_failures(
    call: ChatToolCallRecord,
    m: ChatMessage,
    now: Seq<char>,
    older: JsonV,
    error: JsonV,
)
    requires
        called(m, call, now),
    ensures
        m.role@ == "tool"@,
        m.tool_name == Some(call.tool_name),
        m.tool_intent_type == Some(call.intent_type),
        m.tool_payload_json is Some && m.tool_payload_json->0@ == compact_text(call.payload@),
        m.tool_result_json is Some && m.tool_result_json->0@ == compact_text(call.result@),
        call.duration_ms <= i64::MAX ==> m.tool_duration_ms == Some(call.duration_ms),
        m.created_at@ == now,
        m.tool_success == Some(!(call.result@.get("error"@) is Some)),
        older.get("success"@) == Some(JsonV::Bool(true)) ==> recorded_success(older) == Some(true),
        older.get("success"@) == Some(JsonV::Bool(false)) ==> recorded_success(older) == Some(
            false,
        ),
        older.get("success"@) is None && older.get("result"@) is None ==> recorded_success(
            older,
        ) is None,
        older.get("success"@) is None && older.get("result"@) is Some && older.get(
            "result"@,
        )->0 is Object ==> recorded_success(older) == Some(
            older.get("result"@)->0.get("error"@) is None,
        ),
{
}

/// Renaming changes the title and the time of one session, and what is written into a session
/// changes its time alone. Its agent, its start and every other session stay.
pub proof fn law_other_sessions_stay(
    before: Seq<SessionRow>,
    after: Seq<SessionRow>,
    id: Seq<char>,
    title: Option<Seq<char>>,
    now: Seq<char>,
    i: int,
)
    requires
        0 <= i < before.len(),
        retitled(before, after, id, title, now) || touched(before, after, id, now),
    ensures
        after.len() == before.len(),
        after[i].id == before[i].id && after[i].agent_name == before[i].agent_name
            && after[i].created_at == before[i].created_at,
        before[i].id@ != id ==> after[i] == before[i],
        before[i].id@ == id ==> after[i].updated_at@ == now,
        before[i].id@ == id && retitled(before, after, id, title, now) ==> opt_text(after[i].title)
            == title,
        !retitled(before, after, id, title, now) ==> after[i].title == before[i].title,
{
    let row = after[i];
}

// ---------------------------------------------------------------------------
// Older rows
// ---------------------------------------------------------------------------

/// What an older row, which kept a tool call as JSON in its content, says of the call.
pub struct ToolColumns {
    pub intent_type: Option<String>,
    pub payload_json: Option<String>,
    pub result_json: Option<String>,
    pub success: Option<bool>,
}

/// Whether a recorded call succeeded: as it says, or by its result where that is an object.
pub open spec fn recorded_success(v: JsonV) -> Option<bool> {
    match v.get("success"@) {
        Some(JsonV::Bool(b)) => Some(b),
        _ => match v.get("result"@) {
            Some(JsonV::Object(entries)) => Some(
                crate::json::entry(entries, "error"@) is None,
            ),
            _ => None,
        },
    }
}

/// The compact text of a value, where there is one.
pub open spec fn opt_compact(v: Option<JsonV>) -> Option<Seq<char>> {
    match v {
        Some(j) => Some(compact_text(j)),
        None => None,
    }
}

/// What the content of an older row says of its tool call. Content that is no JSON says
/// nothing.
pub fn backfill(content: &str) -> (r: Option<ToolColumns>)
    ensures
        match parsed(content@) {
            Ok(v) => r matches Some(c) && opt_text(c.intent_type) == v.text_at("intent_type"@)
                && opt_text(c.payload_json) == opt_compact(v.get("payload"@)) && opt_text(
                c.result_json,
            ) == opt_compact(v.get("result"@)) && c.success == recorded_success(v),
            Err(_) => r is None,
        },
{
    let v: Json = match parse_json(content) {
        Ok(v) => v,
        Err(_) => {
            return None;
        },
    };
    let intent_type: Option<String> = match v.text_at("intent_type") {
        Some(t) => Some(t.to_owned()),
        None => None,
    };
    let payload_json: Option<String> = match v.get("payload") {
        Some(p) => Some(compact(p)),
        None => None,
    };
    let result_json: Option<String> = match v.get("result") {
        Some(p) => Some(compact(p)),
        None => None,
    };
    let said: Option<bool> = match v.get("success") {
        Some(Json::Bool(b)) => Some(*b),
        _ => None,
    };
    let success: Option<bool> = match said {
        Some(b) => Some(b),
        None => match v.get("result") {
            Some(res) => match res {
                Json::Object(entries) => Some(res.get("error").is_none()),
                _ => None,
            },
            None => None,
        },
    };
    Some(ToolColumns { intent_type, payload_json, result_json, success })
}

/// A session is handed out as it is kept, with its preview.
pub proof fn law_sessions_are_handed_out_as_kept(row: SessionRow, preview: Option<String>)
    ensures
        session_of(row, preview).id == row.id,
        session_of(row, preview).agent_name == row.agent_name,
        session_of(row, preview).title == row.title,
        session_of(row, preview).updated_at == row.updated_at,
        session_of(row, preview).last_preview == preview,
{
}

/// A new session begins with its first message and nothing else: it has no title yet, and the
/// sessions and messages that were there stay.
pub proof fn law_new_sessions_begin_with_their_message(
    before: ChatStore,
    after: ChatStore,
    id: Seq<char>,
    agent: Seq<char>,
    first: Seq<char>,
    file_ids: Option<Seq<char>>,
    now: Seq<char>,
    r: Result<String, StoreError>,
)
    requires
        before.wf(),
        start_outcome(before, after, id, agent, first, file_ids, now, r),
    ensures
        r is Ok <==> !has_session(before.sessions@, id),
        r is Err ==> after == before,
        r is Ok ==> {
            let s = after.sessions@.last();
            let m = after.messages@.last();
            &&& r->Ok_0@ == id && s.id@ == id && s.agent_name@ == agent && s.title is None
            &&& s.created_at@ == now && s.updated_at@ == now
            &&& after.sessions@ == before.sessions@.push(s)
            &&& after.messages@ == before.messages@.push(m)
            &&& m.session_id@ == id && m.message.role@ == "user"@ && m.message.content@ == first
            &&& opt_text(m.message.file_ids) == file_ids
            &&& preview_of(after.messages@, id) == Some(m.message.content)
        },
{
    if r is Ok {
        assert(after.sessions@ =~= after.sessions@.drop_last().push(after.sessions@.last()));
        assert(after.messages@ =~= after.messages@.drop_last().push(after.messages@.last()));
    }
}

/// A message can be said by a person, by an agent, or stand for a tool call, and by nobody else.
pub proof fn law_messages_have_known_roles(role: Seq<char>)
    ensures
        known_role(role) <==> role == "user"@ || role == "assistant"@ || role == "tool"@,
{
}

} // verus!
