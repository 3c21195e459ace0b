//! The chat pages: what is asked of a message, what a model is told of earlier turns, and how a
//! conversation is shown and exported.

use crate::chat_store::{copy_text, opt_view, ChatMessage, ChatSession, StoreError, TimelineEntry};
use crate::escape::{escaped, html_escape, Entities};
use crate::ids::{is_uuid, short, short_id, uuid_like};
use crate::json::{
    compact, compact_text, contents, entry_contents, lemma_view, parse_json, parsed, Json, JsonV,
};
use crate::reply::{Lookup, Reply};
use crate::text::{
    byte_len, char_uppercase, chars_of, clip, clipped, contains_text, ends_with, has_string, join,
    join_strings, lower_ascii, lower_ascii_chars, occurs_at, opt_text, same, split, split_chars, starts_with, string_of,
    texts, to_ascii_lower, trim, trimmed, uppercased, utf8_len, views,
};
use vstd::prelude::*;

verus! {

/// The longest title of a session, in bytes.
pub const MAX_TITLE_BYTES: usize = 120;

/// The longest message, in bytes.
pub const MAX_MESSAGE_BYTES: usize = 32_768;

/// The longest agent name, in bytes.
pub const MAX_AGENT_NAME_BYTES: usize = 256;

/// How many characters of a message the session list shows.
pub const PREVIEW_CHARS: usize = 80;

/// What is said in place of a reply that was stopped.
pub const STOPPED_MESSAGE: &'static str = "_Stopped by user._";

/// The form that starts a session.
pub struct NewSessionForm {
    pub agent_name: String,
    pub message: String,
    pub file_ids: Option<String>,
}

/// The form that sends a message.
pub struct SendForm {
    pub message: String,
    pub file_ids: Option<String>,
}

/// The form that renames a session.
pub struct RenameSessionForm {
    pub title: Option<String>,
}

/// The form that forks a session.
pub struct ForkSessionForm {
    pub title: Option<String>,
}

// ---------------------------------------------------------------------------
// What is asked of a request
// ---------------------------------------------------------------------------

fn is_empty(s: &str) -> (r: bool)
    ensures
        r == (s@.len() == 0),
{
    proof {
        reveal_strlit("");
    }
    assert(s@.len() == 0 ==> s@ =~= ""@);
    same(s, "")
}

/// The answer to what is no session id.
pub fn check_session_id(session_id: &str) -> (r: Option<Reply>)
    ensures
        match r {
            Some(reply) => !uuid_like(session_id@) && reply.is(400, "Invalid session ID"@),
            None => uuid_like(session_id@),
        },
{
    if is_uuid(session_id) {
        None
    } else {
        Some(Reply::new(400, "Invalid session ID"))
    }
}

/// The title that a form asks for: trimmed, and none where nothing is left. A title that is too
/// long is refused.
pub fn check_title(title: &Option<String>) -> (r: Result<Option<String>, Reply>)
    ensures
        ({
            let t = match title {
                Some(s) => trim(s@),
                None => ""@,
            };
            if utf8_len(t) > MAX_TITLE_BYTES {
                r matches Err(reply) && reply.is(400, "Title too long (max 120 chars)"@)
            } else {
                r matches Ok(o) && opt_text(o) == (if t.len() == 0 {
                    None
                } else {
                    Some(t)
                })
            }
        }),
{
    let t: String = match title {
        Some(s) => trimmed(s.as_str()),
        None => "".to_owned(),
    };
    if byte_len(t.as_str()) > MAX_TITLE_BYTES {
        return Err(Reply::new(400, "Title too long (max 120 chars)"));
    }
    if is_empty(t.as_str()) {
        Ok(None)
    } else {
        Ok(Some(t))
    }
}

/// What became of a change to a session.
pub enum Changed {
    Done,
    Refused(StoreError),
    /// The store failed.
    StoreFailed,
    /// The change was never made.
    TaskFailed,
}

/// The answer to a change that was not made; `None` where it was. `failed` says what failed.
pub fn change_error(outcome: &Changed, failed: &str) -> (r: Option<Reply>)
    ensures
        match outcome {
            Changed::Done => r is None,
            Changed::Refused(e) => r matches Some(reply) && (if *e == StoreError::NoSession {
                reply.is(404, "Session not found"@)
            } else {
                reply.is(500, failed@)
            }),
            Changed::StoreFailed => r matches Some(reply) && reply.is(500, failed@),
            Changed::TaskFailed => r matches Some(reply) && reply.is(500, "Internal error"@),
        },
{
    match outcome {
        Changed::Done => None,
        Changed::Refused(e) => {
            if *e == StoreError::NoSession {
                Some(Reply::new(404, "Session not found"))
            } else {
                Some(Reply::new(500, failed))
            }
        },
        Changed::StoreFailed => Some(Reply::new(500, failed)),
        Changed::TaskFailed => Some(Reply::new(500, "Internal error")),
    }
}

/// What a delete is answered with.
pub enum DeleteReply {
    /// Status 200 without a text.
    Gone,
    /// A redirect to the session list.
    ToList,
    Refused(Reply),
}

/// The answer to a delete. To a script a session that is already gone is a success.
pub fn delete_reply(outcome: &Changed, is_htmx: bool) -> (r: DeleteReply)
    ensures
        match outcome {
            Changed::Done => if is_htmx {
                r is Gone
            } else {
                r is ToList
            },
            Changed::Refused(e) => if *e == StoreError::NoSession && is_htmx {
                r is Gone
            } else {
                r matches DeleteReply::Refused(reply) && (if *e == StoreError::NoSession {
                    reply.is(404, "Session not found"@)
                } else {
                    reply.is(500, "Failed to delete session"@)
                })
            },
            Changed::StoreFailed => r matches DeleteReply::Refused(reply) && reply.is(
                500,
                "Failed to delete session"@,
            ),
            Changed::TaskFailed => r matches DeleteReply::Refused(reply) && reply.is(
                500,
                "Internal error"@,
            ),
        },
{
    if is_htmx {
        if let Changed::Refused(e) = outcome {
            if *e == StoreError::NoSession {
                return DeleteReply::Gone;
            }
        }
    }
    match change_error(outcome, "Failed to delete session") {
        Some(reply) => DeleteReply::Refused(reply),
        None => if is_htmx {
            DeleteReply::Gone
        } else {
            DeleteReply::ToList
        },
    }
}

/// The text of a message: trimmed. An empty one and one that is too long are refused.
pub fn check_message(message: &str) -> (r: Result<String, Reply>)
    ensures
        ({
            let t = trim(message@);
            if t.len() == 0 {
                r matches Err(reply) && reply.is(400, "Message cannot be empty"@)
            } else if utf8_len(t) > MAX_MESSAGE_BYTES {
                r matches Err(reply) && reply.is(400, "Message too long (max 32 KB)"@)
            } else {
                r matches Ok(s) && s@ == t
            }
        }),
{
    let t: String = trimmed(message);
    if is_empty(t.as_str()) {
        return Err(Reply::new(400, "Message cannot be empty"));
    }
    if byte_len(t.as_str()) > MAX_MESSAGE_BYTES {
        return Err(Reply::new(400, "Message too long (max 32 KB)"));
    }
    Ok(t)
}

/// The attached files of a form: trimmed, and none where nothing is left.
pub fn attached(file_ids: &Option<String>) -> (r: Option<String>)
    ensures
        opt_text(r) == (match file_ids {
            Some(s) => if trim(s@).len() == 0 {
                None
            } else {
                Some(trim(s@))
            },
            None => None,
        }),
{
    match file_ids {
        Some(s) => {
            let t: String = trimmed(s.as_str());
            if is_empty(t.as_str()) {
                None
            } else {
                Some(t)
            }
        },
        None => None,
    }
}

/// The agent that a form asks for: trimmed, and refused where it is empty or too long.
pub fn check_agent_name(agent_name: &str) -> (r: Result<String, Reply>)
    ensures
        ({
            let t = trim(agent_name@);
            if t.len() == 0 {
                r matches Err(reply) && reply.is(400, "Select an agent"@)
            } else if utf8_len(t) > MAX_AGENT_NAME_BYTES {
                r matches Err(reply) && reply.is(400, "Agent name too long"@)
            } else {
                r matches Ok(s) && s@ == t
            }
        }),
{
    let t: String = trimmed(agent_name);
    if is_empty(t.as_str()) {
        return Err(Reply::new(400, "Select an agent"));
    }
    if byte_len(t.as_str()) > MAX_AGENT_NAME_BYTES {
        return Err(Reply::new(400, "Agent name too long"));
    }
    Ok(t)
}

/// An agent and whether it can be talked to.
pub struct AgentState {
    pub name: String,
    pub status: String,
}

/// Where the first agent of this name stands, from `i` on.
pub open spec fn agent_at(agents: Seq<AgentState>, name: Seq<char>, i: int) -> int
    decreases agents.len() - i,
{
    if i < 0 || i >= agents.len() || agents[i].name@ == name {
        i
    } else {
        agent_at(agents, name, i + 1)
    }
}

/// The answer where an agent cannot be talked to; `None` where it can.
pub fn check_agent(agents: &Vec<AgentState>, name: &str) -> (r: Option<Reply>)
    ensures
        ({
            let i = agent_at(agents@, name@, 0);
            if i >= agents@.len() {
                r matches Some(reply) && reply.is(400, "Agent not found"@)
            } else if agents@[i].status@ == "offline"@ {
                r matches Some(reply) && reply.is(400, "Agent is offline"@)
            } else {
                r is None
            }
        }),
{
    let mut i: usize = 0;
    while i < agents.len()
        invariant
            i <= agents@.len(),
            agent_at(agents@, name@, i as int) == agent_at(agents@, name@, 0),
        decreases agents.len() - i,
    {
        if same(agents[i].name.as_str(), name) {
            if same(agents[i].status.as_str(), "offline") {
                return Some(Reply::new(400, "Agent is offline"));
            }
            return None;
        }
        i += 1;
    }
    Some(Reply::new(400, "Agent not found"))
}

/// What is asked of a new session, in this order: its message, then its agent.
pub fn check_new_session(form: &NewSessionForm) -> (r: Result<(String, String), Reply>)
    ensures
        ({
            let m = trim(form.message@);
            let a = trim(form.agent_name@);
            if m.len() == 0 {
                r matches Err(reply) && reply.is(400, "Message cannot be empty"@)
            } else if utf8_len(m) > MAX_MESSAGE_BYTES {
                r matches Err(reply) && reply.is(400, "Message too long (max 32 KB)"@)
            } else if a.len() == 0 {
                r matches Err(reply) && reply.is(400, "Select an agent"@)
            } else if utf8_len(a) > MAX_AGENT_NAME_BYTES {
                r matches Err(reply) && reply.is(400, "Agent name too long"@)
            } else {
                r matches Ok((message, agent)) && message@ == m && agent@ == a
            }
        }),
{
    let message: String = match check_message(form.message.as_str()) {
        Ok(m) => m,
        Err(reply) => {
            return Err(reply);
        },
    };
    let agent: String = match check_agent_name(form.agent_name.as_str()) {
        Ok(a) => a,
        Err(reply) => {
            return Err(reply);
        },
    };
    Ok((message, agent))
}

/// The answer to a message to a session whose reply is still being written.
pub fn busy_reply() -> (r: Reply)
    ensures
        r.is(409, "A reply is already being generated for this session"@),
{
    Reply::new(409, "A reply is already being generated for this session")
}

/// The session that a message goes to, or the answer where there is none.
pub fn found_session(found: Lookup<ChatSession>) -> (r: Result<ChatSession, Reply>)
    ensures
        match found {
            Lookup::Found(s) => r == Ok::<ChatSession, Reply>(s),
            Lookup::Missing => r matches Err(reply) && reply.is(404, "Session not found"@),
            Lookup::Failed => r matches Err(reply) && reply.is(500, "Internal error"@),
        },
{
    match found {
        Lookup::Found(s) => Ok(s),
        Lookup::Missing => Err(Reply::new(404, "Session not found")),
        Lookup::Failed => Err(Reply::new(500, "Internal error")),
    }
}

/// The answer to a stop: `None` where a reply is being written.
pub fn stop_error(streaming: bool) -> (r: Option<Reply>)
    ensures
        match r {
            Some(reply) => !streaming && reply.is(409, "No response is currently streaming"@),
            None => streaming,
        },
{
    if streaming {
        None
    } else {
        Some(Reply::new(409, "No response is currently streaming"))
    }
}

/// The answer to a reader of a reply that is not being written: `None` where it is.
pub fn stream_error(session_id: &str, in_flight: bool) -> (r: Option<Reply>)
    ensures
        match r {
            Some(reply) => if !uuid_like(session_id@) {
                reply.is(400, "Invalid session ID"@)
            } else {
                !in_flight && reply.is(410, "No in-flight inference for this session"@)
            },
            None => uuid_like(session_id@) && in_flight,
        },
{
    if let Some(reply) = check_session_id(session_id) {
        return Some(reply);
    }
    if in_flight {
        None
    } else {
        Some(Reply::new(410, "No in-flight inference for this session"))
    }
}

// ---------------------------------------------------------------------------
// What a model is told
// ---------------------------------------------------------------------------

/// A part of a message to a model.
pub enum ContentPart {
    Text { text: String },
    Image { mime: String, file_id: String },
}

/// Message parts as text: an image is a line of its own.
pub open spec fn parts_text(parts: Seq<ContentPart>) -> Seq<char>
    decreases parts.len(),
{
    if parts.len() == 0 {
        Seq::empty()
    } else {
        let before = parts_text(parts.drop_last());
        match parts.last() {
            ContentPart::Text { text } => before + text@,
            ContentPart::Image { .. } => (if before.len() > 0 && before.last() != '\n' {
                before.push('\n')
            } else {
                before
            }) + "[image attachment]\n"@,
        }
    }
}

/// Message parts as text: an image is a line of its own.
pub fn parts_display_for_chat_log(parts: &Vec<ContentPart>) -> (r: String)
    ensures
        r@ == parts_text(parts@),
{
    let mut out: Vec<char> = Vec::new();
    let line: Vec<char> = chars_of("[image attachment]\n");
    let mut i: usize = 0;
    assert(parts@.take(0) =~= Seq::<ContentPart>::empty());
    while i < parts.len()
        invariant
            i <= parts@.len(),
            line@ == "[image attachment]\n"@,
            out@ == parts_text(parts@.take(i as int)),
        decreases parts.len() - i,
    {
        assert(parts@.take(i + 1).drop_last() =~= parts@.take(i as int));
        assert(parts@.take(i + 1).last() == parts@[i as int]);
        match &parts[i] {
            ContentPart::Text { text } => {
                let mut v: Vec<char> = chars_of(text.as_str());
                out.append(&mut v);
            },
            ContentPart::Image { .. } => {
                if out.len() > 0 && out[out.len() - 1] != '\n' {
                    out.push('\n');
                }
                out.extend_from_slice(&line);
            },
        }
        i += 1;
    }
    assert(parts@.take(i as int) =~= parts@);
    string_of(&out)
}

/// The message to a model, from its text with mentions resolved and its attachments: the text
/// that is kept in the history, and the parts where there are attachments.
pub fn user_content(with_mentions: String, file_parts: Vec<ContentPart>) -> (r: (
    String,
    Option<Vec<ContentPart>>,
))
    ensures
        file_parts@.len() == 0 ==> r.0 == with_mentions && r.1 is None,
        file_parts@.len() > 0 ==> (r.1 matches Some(parts) && parts@ == seq![
            ContentPart::Text { text: with_mentions },
        ] + file_parts@ && r.0@ == parts_text(parts@)),
{
    if file_parts.len() == 0 {
        return (with_mentions, None);
    }
    let ghost first = ContentPart::Text { text: with_mentions };
    let mut parts: Vec<ContentPart> = Vec::new();
    parts.push(ContentPart::Text { text: with_mentions });
    let mut rest: Vec<ContentPart> = file_parts;
    parts.append(&mut rest);
    assert(parts@ =~= seq![first] + file_parts@);
    let display: String = parts_display_for_chat_log(&parts);
    (display, Some(parts))
}

/// How many tool calls of a turn a model is told of.
pub const MAX_SUMMARIES_PER_TURN: usize = 5;

/// From how many bytes of summaries on no more calls are told of.
pub const MAX_SUMMARY_BYTES_PER_TURN: usize = 2048;

/// What stands for a hidden value.
pub const REDACTED: &'static str = "[redacted]";

/// Whether a tool's arguments and results are hidden altogether.
pub open spec fn secret_tool(name: Seq<char>) -> bool {
    ||| name == "vault-set"@
    ||| name == "vault-get"@
    ||| name == "vault-list"@
    ||| name == "secrets-set"@
    ||| name == "secrets-get"@
    ||| name == "secrets-list"@
    ||| name == "mcp-oauth-store"@
    ||| name == "shell-exec"@
    ||| name == "proc-spawn"@
    ||| name == "host-package-install"@
    ||| name == "net-http"@
    ||| name == "web-fetch"@
    ||| name == "http-client"@
}

/// Whether a tool's arguments and results are hidden altogether.
pub fn is_secret_tool(name: &str) -> (r: bool)
    ensures
        r == secret_tool(name@),
{
    same(name, "vault-set") || same(name, "vault-get") || same(name, "vault-list") || same(
        name,
        "secrets-set",
    ) || same(name, "secrets-get") || same(name, "secrets-list") || same(name, "mcp-oauth-store")
        || same(name, "shell-exec") || same(name, "proc-spawn") || same(
        name,
        "host-package-install",
    ) || same(name, "net-http") || same(name, "web-fetch") || same(name, "http-client")
}

/// Whether a word in lower case names something secret.
pub open spec fn secret_word(w: Seq<char>) -> bool {
    ||| w == "token"@
    ||| w == "secret"@
    ||| w == "secrets"@
    ||| w == "api_key"@
    ||| w == "apikey"@
    ||| w == "password"@
    ||| w == "passwd"@
    ||| w == "passphrase"@
    ||| w == "authorization"@
    ||| w == "cookie"@
    ||| w == "credential"@
    ||| w == "credentials"@
    ||| w == "private_key"@
    ||| w == "privatekey"@
    ||| w == "bearer"@
    ||| w == "access_key"@
    ||| w == "access_token"@
    ||| w == "refresh_token"@
    ||| w == "client_secret"@
    ||| w == "x-api-key"@
    ||| w == "set-cookie"@
}

/// Whether a word in lower case names something secret.
pub fn is_secret_word(w: &str) -> (r: bool)
    ensures
        r == secret_word(w@),
{
    same(w, "token") || same(w, "secret") || same(w, "secrets") || same(w, "api_key") || same(
        w,
        "apikey",
    ) || same(w, "password") || same(w, "passwd") || same(w, "passphrase") || same(
        w,
        "authorization",
    ) || same(w, "cookie") || same(w, "credential") || same(w, "credentials") || same(
        w,
        "private_key",
    ) || same(w, "privatekey") || same(w, "bearer") || same(w, "access_key") || same(
        w,
        "access_token",
    ) || same(w, "refresh_token") || same(w, "client_secret") || same(w, "x-api-key") || same(
        w,
        "set-cookie",
    )
}

/// Whether a character stands between the words of a key.
pub open spec fn word_break(c: char) -> bool {
    c == '.' || c == '_' || c == '-' || c == ' '
}

/// The key with a dot between its words.
pub open spec fn dotted(key: Seq<char>) -> Seq<char> {
    Seq::new(
        key.len(),
        |i: int|
            if word_break(key[i]) {
                '.'
            } else {
                key[i]
            },
    )
}

/// Whether a key names something secret: as a whole or by one of its words, in upper or lower
/// case.
pub open spec fn secret_key(key: Seq<char>) -> bool {
    secret_word(lower_ascii(key)) || exists|i: int|
        0 <= i < split(dotted(lower_ascii(key)), '.').len() && secret_word(
            #[trigger] split(dotted(lower_ascii(key)), '.')[i],
        )
}

/// Whether a key names something secret.
pub fn key_is_sensitive(key: &str) -> (r: bool)
    ensures
        r == secret_key(key@),
{
    let v: Vec<char> = chars_of(key);
    let low: Vec<char> = lower_ascii_chars(&v);
    let whole: String = string_of(&low);
    if is_secret_word(whole.as_str()) {
        return true;
    }
    let mut parted: Vec<char> = Vec::new();
    let mut i: usize = 0;
    while i < low.len()
        invariant
            i <= low@.len(),
            low@ == lower_ascii(key@),
            parted@.len() == i,
            forall|k: int| 0 <= k < i ==> #[trigger] parted@[k] == dotted(low@)[k],
        decreases low.len() - i,
    {
        let c: char = low[i];
        if c == '.' || c == '_' || c == '-' || c == ' ' {
            parted.push('.');
        } else {
            parted.push(c);
        }
        i += 1;
    }
    assert(parted@ =~= dotted(low@));
    let words: Vec<Vec<char>> = split_chars(&parted, '.');
    let mut k: usize = 0;
    while k < words.len()
        invariant
            k <= words@.len(),
            views(words@) == split(dotted(lower_ascii(key@)), '.'),
            forall|j: int| 0 <= j < k ==> !secret_word(#[trigger] views(words@)[j]),
        decreases words.len() - k,
    {
        let word: String = string_of(&words[k]);
        assert(views(words@)[k as int] == word@);
        if is_secret_word(word.as_str()) {
            return true;
        }
        k += 1;
    }
    false
}

/// The value with everything hidden that stands under a key that names something secret.
pub open spec fn redacted(v: JsonV) -> JsonV
    decreases v,
{
    match v {
        JsonV::Array(items) => JsonV::Array(
            Seq::new(
                items.len(),
                |i: int|
                    if 0 <= i < items.len() {
                        redacted(items[i])
                    } else {
                        JsonV::Null
                    },
            ),
        ),
        JsonV::Object(entries) => JsonV::Object(
            Seq::new(
                entries.len(),
                |i: int|
                    if 0 <= i < entries.len() {
                        (
                            entries[i].0,
                            if secret_key(entries[i].0) {
                                JsonV::Text(REDACTED@)
                            } else {
                                redacted(entries[i].1)
                            },
                        )
                    } else {
                        (Seq::empty(), JsonV::Null)
                    },
            ),
        ),
        _ => v,
    }
}

/// The value with everything hidden that stands under a key that names something secret.
pub fn redact_json(v: &Json) -> (r: Json)
    ensures
        r@ == redacted(v@),
    decreases v,
{
    proof {
        lemma_view(*v);
    }
    match v {
        Json::Null => Json::Null,
        Json::Bool(b) => Json::Bool(*b),
        Json::Number(n) => Json::Number(n.clone()),
        Json::Float(n) => Json::Float(n.clone()),
        Json::Text(t) => Json::Text(t.clone()),
        Json::Array(items) => {
            let mut out: Vec<Json> = Vec::new();
            let mut i: usize = 0;
            while i < items.len()
                invariant
                    i <= items@.len(),
                    *v == Json::Array(*items),
                    out@.len() == i,
                    forall|k: int|
                        0 <= k < i ==> (#[trigger] out@[k])@ == redacted(items@[k]@),
                decreases items.len() - i,
            {
                assert(decreases_to!(*v => v->Array_0));
                assert(decreases_to!(items@ => items@[i as int]));
                out.push(redact_json(&items[i]));
                i += 1;
            }
            let r: Json = Json::Array(out);
            proof {
                lemma_view(r);
                assert(contents(out@) =~= redacted(v@)->Array_0);
            }
            r
        },
        Json::Object(entries) => {
            let mut out: Vec<(String, Json)> = Vec::new();
            let mut i: usize = 0;
            while i < entries.len()
                invariant
                    i <= entries@.len(),
                    *v == Json::Object(*entries),
                    out@.len() == i,
                    forall|k: int|
                        0 <= k < i ==> (#[trigger] out@[k]).0@ == entries@[k].0@ && out@[k].1@ == (
                        if secret_key(entries@[k].0@) {
                            JsonV::Text(REDACTED@)
                        } else {
                            redacted(entries@[k].1@)
                        }),
                decreases entries.len() - i,
            {
                assert(decreases_to!(*v => v->Object_0));
                assert(decreases_to!(entries@ => entries@[i as int]));
                assert(decreases_to!(entries@[i as int] => entries@[i as int].1));
                let key: String = entries[i].0.clone();
                let shown: Json = if key_is_sensitive(key.as_str()) {
                    Json::Text(REDACTED.to_owned())
                } else {
                    redact_json(&entries[i].1)
                };
                out.push((key, shown));
                i += 1;
            }
            let r: Json = Json::Object(out);
            proof {
                lemma_view(r);
                let want = redacted(v@)->Object_0;
                assert forall|k: int| 0 <= k < out@.len() implies entry_contents(out@)[k]
                    == want[k] by {
                    assert(out@[k].0@ == entries@[k].0@);
                    assert(entry_contents(entries@)[k] == (entries@[k].0@, entries@[k].1@));
                }
                assert(entry_contents(out@) =~= want);
            }
            r
        },
    }
}

/// Whether nothing secret is shown in a value: whatever stands under a key that names
/// something secret, at any depth, is hidden.
pub open spec fn hides_secrets(v: JsonV) -> bool
    decreases v,
{
    match v {
        JsonV::Array(items) => forall|i: int|
            0 <= i < items.len() ==> hides_secrets(#[trigger] items[i]),
        JsonV::Object(entries) => forall|i: int|
            0 <= i < entries.len() ==> (if secret_key((#[trigger] entries[i]).0) {
                entries[i].1 == JsonV::Text(REDACTED@)
            } else {
                hides_secrets(entries[i].1)
            }),
        _ => true,
    }
}

/// What a model is told of a tool call shows nothing secret.
pub proof fn law_redacted_values_hide_secrets(v: JsonV)
    ensures
        hides_secrets(redacted(v)),
    decreases v,
{
    match v {
        JsonV::Array(items) => {
            let out = redacted(v)->Array_0;
            assert forall|i: int| 0 <= i < out.len() implies hides_secrets(#[trigger] out[i]) by {
                law_redacted_values_hide_secrets(items[i]);
            }
        },
        JsonV::Object(entries) => {
            let out = redacted(v)->Object_0;
            assert forall|i: int| 0 <= i < out.len() implies (if secret_key(
                (#[trigger] out[i]).0,
            ) {
                out[i].1 == JsonV::Text(REDACTED@)
            } else {
                hides_secrets(out[i].1)
            }) by {
                if !secret_key(entries[i].0) {
                    law_redacted_values_hide_secrets(entries[i].1);
                }
            }
        },
        _ => {},
    }
}

/// The text on one line.
pub open spec fn one_line(s: Seq<char>) -> Seq<char>
    decreases s.len(),
{
    if s.len() == 0 {
        s
    } else {
        one_line(s.drop_last()) + (if s.last() == '\n' {
            "\\n"@
        } else if s.last() == '\r' {
            "\\r"@
        } else {
            seq![s.last()]
        })
    }
}

fn on_one_line(s: &str) -> (r: String)
    ensures
        r@ == one_line(s@),
{
    let v: Vec<char> = chars_of(s);
    let mut out: String = String::new();
    let mut i: usize = 0;
    assert(s@.take(0) =~= Seq::<char>::empty());
    while i < v.len()
        invariant
            i <= v@.len(),
            v@ == s@,
            out@ == one_line(s@.take(i as int)),
        decreases v.len() - i,
    {
        assert(s@.take(i + 1).drop_last() =~= s@.take(i as int));
        assert(s@.take(i + 1).last() == v@[i as int]);
        let ghost before = out@;
        let c: char = v[i];
        if c == '\n' {
            out.push_str("\\n");
        } else if c == '\r' {
            out.push_str("\\r");
        } else {
            out.push(c);
            assert(before.push(c) =~= before + seq![c]);
        }
        i += 1;
    }
    assert(s@.take(i as int) =~= s@);
    out
}

/// What is told of a tool's arguments or result: JSON without its secrets, other text on one
/// line.
pub open spec fn told(raw: Seq<char>) -> Seq<char> {
    match parsed(raw) {
        Ok(v) => compact_text(redacted(v)),
        Err(_) => one_line(raw),
    }
}

/// What is told of a tool's arguments or result.
pub fn render_redacted(raw: &str) -> (r: String)
    ensures
        r@ == told(raw@),
{
    match parse_json(raw) {
        Ok(v) => compact(&redact_json(&v)),
        Err(_) => on_one_line(raw),
    }
}

/// The line on a tool call: `kind` says what it was, and the arguments and the result are cut.
pub open spec fn call_line(
    kind: Seq<char>,
    m: ChatMessage,
    name: Seq<char>,
    args_max: int,
    result_max: int,
) -> Seq<char> {
    let args = match m.tool_payload_json {
        Some(s) => s@,
        None => "{}"@,
    };
    let result = match m.tool_result_json {
        Some(s) => s@,
        None => ""@,
    };
    let status = if m.tool_success == Some(false) {
        "FAILED"@
    } else {
        "ok"@
    };
    let (a, r) = if secret_tool(name) {
        (REDACTED@, REDACTED@)
    } else {
        (told(args), told(result))
    };
    kind + name + " ("@ + status + ") args=`"@ + clipped(a, args_max, "…"@) + "` result=`"@
        + clipped(r, result_max, "…"@) + "`]"@
}

fn line_of(kind: &str, m: &ChatMessage, name: &str, args_max: usize, result_max: usize) -> (r:
    String)
    ensures
        r@ == call_line(kind@, *m, name@, args_max as int, result_max as int),
{
    let args: &str = match &m.tool_payload_json {
        Some(s) => s.as_str(),
        None => "{}",
    };
    let result: &str = match &m.tool_result_json {
        Some(s) => s.as_str(),
        None => "",
    };
    let status: &str = match m.tool_success {
        Some(false) => "FAILED",
        _ => "ok",
    };
    let (a, r): (String, String) = if is_secret_tool(name) {
        (REDACTED.to_owned(), REDACTED.to_owned())
    } else {
        (render_redacted(args), render_redacted(result))
    };
    let a: String = clip(a.as_str(), args_max, "…");
    let r: String = clip(r.as_str(), result_max, "…");
    let mut out: String = kind.to_owned();
    out.push_str(name);
    out.push_str(" (");
    out.push_str(status);
    out.push_str(") args=`");
    out.push_str(a.as_str());
    out.push_str("` result=`");
    out.push_str(r.as_str());
    out.push_str("`]");
    out
}

/// How much of a conversation has been told: the turns so far, the lines on tool calls that the
/// next turn of the agent begins with, their length, and the line on the last thing that was
/// found out about tools.
#[verifier::ext_equal]
pub struct Told {
    pub history: Seq<(Seq<char>, Seq<char>)>,
    pub pending: Seq<Seq<char>>,
    pub bytes: int,
    pub meta: Option<Seq<char>>,
}

impl Told {
    /// The lines that the next turn of the agent begins with.
    pub open spec fn lines(self) -> Seq<Seq<char>> {
        match self.meta {
            Some(m) => self.pending.push(m),
            None => self.pending,
        }
    }

    /// With a turn of the agent: the lines, and behind them what it said.
    pub open spec fn flushed(self, said: Option<Seq<char>>) -> Told {
        let lines = self.lines();
        let prefix = join(lines, "\n"@);
        let turn = if lines.len() == 0 {
            said
        } else {
            match said {
                Some(c) => if c.len() == 0 {
                    Some(prefix)
                } else {
                    Some(prefix + "\n\n"@ + c)
                },
                None => Some(prefix),
            }
        };
        Told {
            history: match turn {
                Some(t) => self.history.push(("assistant"@, t)),
                None => self.history,
            },
            pending: Seq::empty(),
            bytes: 0,
            meta: None,
        }
    }

    /// With a tool call. Of the tools that only find out about tools, the last call counts.
    pub open spec fn with_call(self, m: ChatMessage, meta_tools: Seq<Seq<char>>) -> Told {
        match m.tool_name {
            Some(name) => if name@.len() == 0 {
                self
            } else if meta_tools.contains(name@) {
                Told {
                    meta: Some(call_line("[Prior discovery: "@, m, name@, 120, 600)),
                    ..self
                }
            } else if self.pending.len() >= MAX_SUMMARIES_PER_TURN || self.bytes
                >= MAX_SUMMARY_BYTES_PER_TURN {
                self
            } else {
                let line = call_line("[Prior tool call: "@, m, name@, 200, 400);
                Told {
                    pending: self.pending.push(line),
                    bytes: self.bytes + utf8_len(line),
                    ..self
                }
            },
            None => self,
        }
    }

    /// With a message. What a person wrote is told as it was expanded.
    pub open spec fn with(
        self,
        m: ChatMessage,
        expanded: Seq<char>,
        meta_tools: Seq<Seq<char>>,
    ) -> Told {
        if m.role@ == "tool"@ {
            self.with_call(m, meta_tools)
        } else if m.role@ == "user"@ {
            let before = if self.lines().len() > 0 {
                self.flushed(None)
            } else {
                self
            };
            Told { history: before.history.push(("user"@, expanded)), ..before }
        } else if m.role@ == "assistant"@ {
            self.flushed(Some(m.content@))
        } else {
            self
        }
    }
}

/// What has been told behind the messages.
pub open spec fn told_of(
    msgs: Seq<&ChatMessage>,
    expanded: Seq<Seq<char>>,
    meta_tools: Seq<Seq<char>>,
) -> Told
    decreases msgs.len(),
{
    if msgs.len() == 0 || expanded.len() != msgs.len() {
        Told { history: Seq::empty(), pending: Seq::empty(), bytes: 0, meta: None }
    } else {
        told_of(msgs.drop_last(), expanded.drop_last(), meta_tools).with(
            *msgs.last(),
            expanded.last(),
            meta_tools,
        )
    }
}

/// The earlier turns that a model is given.
pub open spec fn history_of(
    msgs: Seq<&ChatMessage>,
    expanded: Seq<Seq<char>>,
    meta_tools: Seq<Seq<char>>,
) -> Seq<(Seq<char>, Seq<char>)> {
    let t = told_of(msgs, expanded, meta_tools);
    if t.lines().len() > 0 {
        t.flushed(None).history
    } else {
        t.history
    }
}

/// The turns behind the pairs.
pub open spec fn turns(h: Seq<(String, String)>) -> Seq<(Seq<char>, Seq<char>)> {
    Seq::new(h.len(), |i: int| (h[i].0@, h[i].1@))
}

struct Teller {
    history: Vec<(String, String)>,
    pending: Vec<String>,
    /// Never more than the limit.
    bytes: usize,
    meta: Option<String>,
}

impl Teller {
    spec fn tells(self, t: Told) -> bool {
        &&& turns(self.history@) == t.history
        &&& texts(self.pending@) == t.pending
        &&& t.bytes >= 0
        &&& self.bytes == (if t.bytes > MAX_SUMMARY_BYTES_PER_TURN {
            MAX_SUMMARY_BYTES_PER_TURN as int
        } else {
            t.bytes
        })
        &&& opt_text(self.meta) == t.meta
    }

    fn has_lines(&self) -> (r: bool)
        ensures
            forall|t: Told| #[trigger] self.tells(t) ==> r == (t.lines().len() > 0),
    {
        assert(texts(self.pending@).len() == self.pending@.len());
        self.pending.len() > 0 || self.meta.is_some()
    }

    fn push_turn(&mut self, role: &str, text: String)
        ensures
            turns(final(self).history@) == turns(old(self).history@).push((role@, text@)),
            final(self).pending == old(self).pending,
            final(self).bytes == old(self).bytes,
            final(self).meta == old(self).meta,
    {
        let ghost before = turns(self.history@);
        self.history.push((role.to_owned(), text));
        assert(turns(self.history@) =~= before.push((role@, text@)));
    }

    fn flush(&mut self, said: Option<&str>, Ghost(t): Ghost<Told>)
        requires
            old(self).tells(t),
        ensures
            final(self).tells(t.flushed(opt_view(said))),
    {
        if let Some(m) = self.meta.take() {
            let ghost before = texts(self.pending@);
            self.pending.push(m);
            assert(texts(self.pending@) =~= before.push(m@));
        }
        assert(texts(self.pending@) == t.lines());
        assert(texts(self.pending@).len() == self.pending@.len());
        if self.pending.len() == 0 {
            if let Some(c) = said {
                self.push_turn("assistant", c.to_owned());
            }
        } else {
            let mut text: String = join_strings(&self.pending, "\n");
            if let Some(c) = said {
                if !is_empty(c) {
                    text.push_str("\n\n");
                    text.push_str(c);
                }
            }
            self.push_turn("assistant", text);
        }
        self.pending = Vec::new();
        self.bytes = 0;
        self.meta = None;
        assert(texts(self.pending@) =~= Seq::<Seq<char>>::empty());
    }

    fn tell_call(&mut self, m: &ChatMessage, meta_tools: &Vec<String>, Ghost(t): Ghost<Told>)
        requires
            old(self).tells(t),
        ensures
            final(self).tells(t.with_call(*m, texts(meta_tools@))),
    {
        let name: &str = match &m.tool_name {
            Some(n) => n.as_str(),
            None => {
                return ;
            },
        };
        if is_empty(name) {
            return ;
        }
        if has_string(meta_tools, name) {
            self.meta = Some(line_of("[Prior discovery: ", m, name, 120, 600));
            return ;
        }
        assert(texts(self.pending@).len() == self.pending@.len());
        if self.pending.len() >= MAX_SUMMARIES_PER_TURN || self.bytes
            >= MAX_SUMMARY_BYTES_PER_TURN {
            return ;
        }
        let line: String = line_of("[Prior tool call: ", m, name, 200, 400);
        let n: usize = byte_len(line.as_str());
        if n > MAX_SUMMARY_BYTES_PER_TURN - self.bytes {
            self.bytes = MAX_SUMMARY_BYTES_PER_TURN;
        } else {
            self.bytes = self.bytes + n;
        }
        let ghost before = texts(self.pending@);
        self.pending.push(line);
        assert(texts(self.pending@) =~= before.push(line@));
    }
}

/// The earlier turns that a model is given: what was said, with the tool calls of each turn of
/// the agent in front of it. `expanded` holds, for each message that a person wrote, its text
/// with mentions and attachments resolved; `meta_tools` names the tools that only find out about
/// tools.
pub fn build_history(
    msgs: &Vec<&ChatMessage>,
    expanded: &Vec<String>,
    meta_tools: &Vec<String>,
) -> (r: Vec<(String, String)>)
    requires
        expanded@.len() == msgs@.len(),
    ensures
        turns(r@) == history_of(msgs@, texts(expanded@), texts(meta_tools@)),
{
    let mut st = Teller { history: Vec::new(), pending: Vec::new(), bytes: 0, meta: None };
    let ghost all = texts(expanded@);
    let mut i: usize = 0;
    proof {
        assert(turns(st.history@) =~= Seq::<(Seq<char>, Seq<char>)>::empty());
        assert(texts(st.pending@) =~= Seq::<Seq<char>>::empty());
    }
    while i < msgs.len()
        invariant
            i <= msgs@.len(),
            expanded@.len() == msgs@.len(),
            all == texts(expanded@),
            st.tells(told_of(msgs@.take(i as int), all.take(i as int), texts(meta_tools@))),
        decreases msgs.len() - i,
    {
        let ghost t = told_of(msgs@.take(i as int), all.take(i as int), texts(meta_tools@));
        proof {
            assert(msgs@.take(i + 1).drop_last() =~= msgs@.take(i as int));
            assert(all.take(i + 1).drop_last() =~= all.take(i as int));
            assert(msgs@.take(i + 1).last() == msgs@[i as int]);
            assert(all.take(i + 1).last() == expanded@[i as int]@);
        }
        let m: &ChatMessage = msgs[i];
        if same(m.role.as_str(), "tool") {
            st.tell_call(m, meta_tools, Ghost(t));
        } else if same(m.role.as_str(), "user") {
            if st.has_lines() {
                st.flush(None, Ghost(t));
            }
            st.push_turn("user", expanded[i].clone());
        } else if same(m.role.as_str(), "assistant") {
            st.flush(Some(m.content.as_str()), Ghost(t));
        }
        i += 1;
    }
    proof {
        assert(msgs@.take(i as int) =~= msgs@);
        assert(all.take(i as int) =~= all);
    }
    if st.has_lines() {
        st.flush(None, Ghost(told_of(msgs@, all, texts(meta_tools@))));
    }
    st.history
}

/// The turns of a person, in order.
pub open spec fn user_turns(h: Seq<(Seq<char>, Seq<char>)>) -> Seq<Seq<char>>
    decreases h.len(),
{
    if h.len() == 0 {
        Seq::empty()
    } else if h.last().0 == "user"@ {
        user_turns(h.drop_last()).push(h.last().1)
    } else {
        user_turns(h.drop_last())
    }
}

/// The expanded texts of the messages that a person wrote, in order.
pub open spec fn user_texts(msgs: Seq<&ChatMessage>, expanded: Seq<Seq<char>>) -> Seq<Seq<char>>
    decreases msgs.len(),
{
    if msgs.len() == 0 || expanded.len() != msgs.len() {
        Seq::empty()
    } else {
        let before = user_texts(msgs.drop_last(), expanded.drop_last());
        if msgs.last().role@ == "user"@ {
            before.push(expanded.last())
        } else {
            before
        }
    }
}

proof fn lemma_flush_keeps_user_turns(t: Told, said: Option<Seq<char>>)
    ensures
        user_turns(t.flushed(said).history) == user_turns(t.history),
{
    reveal_strlit("user");
    reveal_strlit("assistant");
    assert("user"@.len() != "assistant"@.len());
    let after = t.flushed(said).history;
    if after.len() > t.history.len() {
        assert(after.drop_last() =~= t.history);
    }
}

proof fn lemma_told_keeps_user_turns(
    msgs: Seq<&ChatMessage>,
    expanded: Seq<Seq<char>>,
    meta_tools: Seq<Seq<char>>,
)
    requires
        expanded.len() == msgs.len(),
    ensures
        user_turns(told_of(msgs, expanded, meta_tools).history) == user_texts(msgs, expanded),
        told_of(msgs, expanded, meta_tools).pending.len() <= MAX_SUMMARIES_PER_TURN,
    decreases msgs.len(),
{
    if msgs.len() > 0 {
        let t = told_of(msgs.drop_last(), expanded.drop_last(), meta_tools);
        lemma_told_keeps_user_turns(msgs.drop_last(), expanded.drop_last(), meta_tools);
        let m = *msgs.last();
        reveal_strlit("user");
        reveal_strlit("assistant");
        reveal_strlit("tool");
        assert("user"@.len() != "assistant"@.len());
        assert("user"@[0] != "tool"@[0]);
        lemma_flush_keeps_user_turns(t, None);
        lemma_flush_keeps_user_turns(t, Some(m.content@));
        if m.role@ == "user"@ {
            let before = if t.lines().len() > 0 {
                t.flushed(None)
            } else {
                t
            };
            let after = t.with(m, expanded.last(), meta_tools).history;
            assert(after.drop_last() =~= before.history);
        }
    }
}

/// A model is given every message that a person wrote, in order, and of each turn no more than
/// so many tool calls.
pub proof fn law_history_keeps_what_was_asked(
    msgs: Seq<&ChatMessage>,
    expanded: Seq<Seq<char>>,
    meta_tools: Seq<Seq<char>>,
)
    requires
        expanded.len() == msgs.len(),
    ensures
        user_turns(history_of(msgs, expanded, meta_tools)) == user_texts(msgs, expanded),
        told_of(msgs, expanded, meta_tools).pending.len() <= MAX_SUMMARIES_PER_TURN,
{
    lemma_told_keeps_user_turns(msgs, expanded, meta_tools);
    lemma_flush_keeps_user_turns(told_of(msgs, expanded, meta_tools), None);
}

/// Whether the message is a call of a tool that has a name.
pub open spec fn names_tool(m: ChatMessage) -> bool {
    m.role@ == "tool"@ && (m.tool_name matches Some(n) && n@.len() > 0)
}

/// Whether a person or the agent said the message.
pub open spec fn is_said(m: ChatMessage) -> bool {
    m.role@ == "user"@ || m.role@ == "assistant"@
}

/// Whether tool calls stand behind the last thing that was said.
pub open spec fn calls_open(msgs: Seq<&ChatMessage>) -> bool {
    exists|i: int|
        0 <= i < msgs.len() && names_tool(*#[trigger] msgs[i]) && forall|j: int|
            i < j < msgs.len() ==> !is_said(*#[trigger] msgs[j])
}

proof fn lemma_roles()
    ensures
        "user"@ != "assistant"@,
        "user"@ != "tool"@,
        "assistant"@ != "tool"@,
{
    reveal_strlit("user");
    reveal_strlit("assistant");
    reveal_strlit("tool");
    assert("user"@.len() != "assistant"@.len());
    assert("tool"@.len() != "assistant"@.len());
    assert("user"@[0] != "tool"@[0]);
}

proof fn lemma_calls_open_grows(msgs: Seq<&ChatMessage>, m: &ChatMessage)
    ensures
        calls_open(msgs.push(m)) <==> names_tool(*m) || (!is_said(*m) && calls_open(msgs)),
{
    lemma_roles();
    let all = msgs.push(m);
    let n = msgs.len() as int;
    assert(all[n] == m);
    if calls_open(all) {
        let i = choose|i: int|
            0 <= i < all.len() && names_tool(*#[trigger] all[i]) && forall|j: int|
                i < j < all.len() ==> !is_said(*#[trigger] all[j]);
        if i < n {
            assert(!is_said(*all[n]));
            assert(msgs[i] == all[i]);
            assert forall|j: int| i < j < msgs.len() implies !is_said(*#[trigger] msgs[j]) by {
                assert(all[j] == msgs[j]);
            }
        }
    }
    if names_tool(*m) {
        assert(names_tool(*all[n]));
    } else if !is_said(*m) && calls_open(msgs) {
        let i = choose|i: int|
            0 <= i < msgs.len() && names_tool(*#[trigger] msgs[i]) && forall|j: int|
                i < j < msgs.len() ==> !is_said(*#[trigger] msgs[j]);
        assert(all[i] == msgs[i]);
        assert forall|j: int| i < j < all.len() implies !is_said(*#[trigger] all[j]) by {
            if j < n {
                assert(all[j] == msgs[j]);
            }
        }
    }
}

/// Lines wait for the next turn exactly where calls stand behind the last thing that was said.
proof fn lemma_lines_wait(
    msgs: Seq<&ChatMessage>,
    expanded: Seq<Seq<char>>,
    meta_tools: Seq<Seq<char>>,
)
    requires
        expanded.len() == msgs.len(),
    ensures
        ({
            let t = told_of(msgs, expanded, meta_tools);
            &&& t.lines().len() > 0 <==> calls_open(msgs)
            &&& t.pending.len() == 0 ==> t.bytes == 0
        }),
    decreases msgs.len(),
{
    if msgs.len() > 0 {
        let head = msgs.drop_last();
        lemma_lines_wait(head, expanded.drop_last(), meta_tools);
        lemma_roles();
        lemma_calls_open_grows(head, msgs.last());
        assert(head.push(msgs.last()) =~= msgs);
    }
}

proof fn lemma_told_grows(
    msgs: Seq<&ChatMessage>,
    expanded: Seq<Seq<char>>,
    meta_tools: Seq<Seq<char>>,
    m: &ChatMessage,
    e: Seq<char>,
)
    requires
        expanded.len() == msgs.len(),
    ensures
        told_of(msgs.push(m), expanded.push(e), meta_tools) == told_of(
            msgs,
            expanded,
            meta_tools,
        ).with(*m, e, meta_tools),
{
    assert(msgs.push(m).drop_last() =~= msgs);
    assert(expanded.push(e).drop_last() =~= expanded);
}

/// A conversation without messages has no turns.
pub proof fn law_history_begins_empty(meta_tools: Seq<Seq<char>>)
    ensures
        history_of(Seq::empty(), Seq::empty(), meta_tools).len() == 0,
{
}

/// A message that a person wrote is one more turn, with its text expanded, and leaves the turns
/// before it as they were.
pub proof fn law_a_question_is_one_more_turn(
    msgs: Seq<&ChatMessage>,
    expanded: Seq<Seq<char>>,
    meta_tools: Seq<Seq<char>>,
    m: &ChatMessage,
    e: Seq<char>,
)
    requires
        expanded.len() == msgs.len(),
        m.role@ == "user"@,
    ensures
        history_of(msgs.push(m), expanded.push(e), meta_tools) == history_of(
            msgs,
            expanded,
            meta_tools,
        ).push(("user"@, e)),
{
    lemma_roles();
    lemma_told_grows(msgs, expanded, meta_tools, m, e);
}

/// A message of the agent is a turn of the agent with what it said. Where tool calls stand in
/// front of it, it ends the turn that tells of them, behind an empty line; where none do, it is
/// one more turn, and the turns before it stay as they were.
pub proof fn law_an_answer_is_a_turn(
    msgs: Seq<&ChatMessage>,
    expanded: Seq<Seq<char>>,
    meta_tools: Seq<Seq<char>>,
    m: &ChatMessage,
    e: Seq<char>,
)
    requires
        expanded.len() == msgs.len(),
        m.role@ == "assistant"@,
    ensures
        ({
            let before = history_of(msgs, expanded, meta_tools);
            let after = history_of(msgs.push(m), expanded.push(e), meta_tools);
            if calls_open(msgs) {
                &&& before.len() > 0
                &&& before.last().0 == "assistant"@
                &&& after == before.drop_last().push(
                    (
                        "assistant"@,
                        if m.content@.len() == 0 {
                            before.last().1
                        } else {
                            before.last().1 + "\n\n"@ + m.content@
                        },
                    ),
                )
            } else {
                after == before.push(("assistant"@, m.content@))
            }
        }),
{
    lemma_roles();
    lemma_told_grows(msgs, expanded, meta_tools, m, e);
    lemma_lines_wait(msgs, expanded, meta_tools);
    let t = told_of(msgs, expanded, meta_tools);
    let before = history_of(msgs, expanded, meta_tools);
    if calls_open(msgs) {
        assert(before.drop_last() =~= t.history);
    }
}

/// A call of a tool tells of itself in the turn that waits for what the agent says next, and a
/// message of another kind tells nothing. The turns in front of that one stay as they were.
pub proof fn law_a_call_is_told_in_the_next_turn(
    msgs: Seq<&ChatMessage>,
    expanded: Seq<Seq<char>>,
    meta_tools: Seq<Seq<char>>,
    m: &ChatMessage,
    e: Seq<char>,
)
    requires
        expanded.len() == msgs.len(),
        !is_said(*m),
    ensures
        ({
            let before = history_of(msgs, expanded, meta_tools);
            let after = history_of(msgs.push(m), expanded.push(e), meta_tools);
            if !names_tool(*m) {
                after == before
            } else if calls_open(msgs) {
                &&& before.len() > 0 && before.last().0 == "assistant"@
                &&& after == before.drop_last().push(("assistant"@, after.last().1))
            } else {
                &&& after == before.push(("assistant"@, after.last().1))
                &&& starts_with(
                    after.last().1,
                    (if meta_tools.contains(m.tool_name->0@) {
                        "[Prior discovery: "@
                    } else {
                        "[Prior tool call: "@
                    }) + m.tool_name->0@ + (if m.tool_success == Some(false) {
                        " (FAILED) args=`"@
                    } else {
                        " (ok) args=`"@
                    }),
                )
            }
        }),
{
    lemma_roles();
    lemma_told_grows(msgs, expanded, meta_tools, m, e);
    lemma_lines_wait(msgs, expanded, meta_tools);
    lemma_lines_wait(msgs.push(m), expanded.push(e), meta_tools);
    lemma_calls_open_grows(msgs, m);
    let t = told_of(msgs, expanded, meta_tools);
    let u = told_of(msgs.push(m), expanded.push(e), meta_tools);
    let before = history_of(msgs, expanded, meta_tools);
    let after = history_of(msgs.push(m), expanded.push(e), meta_tools);
    assert(u.history == t.history);
    if names_tool(*m) {
        assert(after.drop_last() =~= t.history);
        assert(after =~= t.history.push(("assistant"@, after.last().1)));
        if calls_open(msgs) {
            assert(before.drop_last() =~= t.history);
        } else {
            let name = m.tool_name->0@;
            assert(t.pending.len() == 0 && t.meta is None);
            assert(u.lines().len() == 1);
            assert(after.last().1 == u.lines()[0]);
            if meta_tools.contains(name) {
                assert(u.lines()[0] == call_line("[Prior discovery: "@, *m, name, 120, 600));
                lemma_line_starts("[Prior discovery: "@, *m, name, 120, 600);
            } else {
                assert(u.lines()[0] == call_line("[Prior tool call: "@, *m, name, 200, 400));
                lemma_line_starts("[Prior tool call: "@, *m, name, 200, 400);
            }
        }
    }
}

proof fn lemma_line_starts(
    kind: Seq<char>,
    m: ChatMessage,
    name: Seq<char>,
    args_max: int,
    result_max: int,
)
    ensures
        starts_with(
            call_line(kind, m, name, args_max, result_max),
            kind + name + (if m.tool_success == Some(false) {
                " (FAILED) args=`"@
            } else {
                " (ok) args=`"@
            }),
        ),
{
    reveal_strlit(" (FAILED) args=`");
    reveal_strlit(" (ok) args=`");
    reveal_strlit(" (");
    reveal_strlit("FAILED");
    reveal_strlit("ok");
    reveal_strlit(") args=`");
    let line = call_line(kind, m, name, args_max, result_max);
    let head = kind + name + (if m.tool_success == Some(false) {
        " (FAILED) args=`"@
    } else {
        " (ok) args=`"@
    });
    assert(" ("@ + "FAILED"@ + ") args=`"@ =~= " (FAILED) args=`"@);
    assert(" ("@ + "ok"@ + ") args=`"@ =~= " (ok) args=`"@);
    assert(head =~= kind + name + " ("@ + (if m.tool_success == Some(false) {
        "FAILED"@
    } else {
        "ok"@
    }) + ") args=`"@);
    assert(line.subrange(0, head.len() as int) =~= head);
}

/// Nothing that was said is lost, and nothing changes its place: what is said stands in the
/// history for good, behind all that was said before it. A person's message is its expanded text;
/// the agent's message ends its turn, and is all of it where no tool calls stand in front.
pub proof fn law_all_that_was_said_is_told_in_order(
    msgs: Seq<&ChatMessage>,
    expanded: Seq<Seq<char>>,
    meta_tools: Seq<Seq<char>>,
    i: int,
)
    requires
        expanded.len() == msgs.len(),
        0 <= i < msgs.len(),
        is_said(*msgs[i]),
    ensures
        ({
            let all = history_of(msgs, expanded, meta_tools);
            let upto = history_of(msgs.take(i + 1), expanded.take(i + 1), meta_tools);
            let said = all[upto.len() - 1];
            &&& 0 < upto.len() <= all.len()
            &&& all.take(upto.len() as int) == upto
            &&& forall|j: int|
                #![trigger msgs[j]]
                0 <= j < i && is_said(*msgs[j]) ==> history_of(
                    msgs.take(j + 1),
                    expanded.take(j + 1),
                    meta_tools,
                ).len() < upto.len()
            &&& said.0 == msgs[i].role@
            &&& msgs[i].role@ == "user"@ ==> said.1 == expanded[i]
            &&& msgs[i].role@ == "assistant"@ ==> ends_with(said.1, msgs[i].content@)
            &&& msgs[i].role@ == "assistant"@ && !calls_open(msgs.take(i)) ==> said.1
                == msgs[i].content@
        }),
    decreases msgs.len(),
{
    lemma_roles();
    let all = history_of(msgs, expanded, meta_tools);
    let upto = history_of(msgs.take(i + 1), expanded.take(i + 1), meta_tools);
    lemma_said_ends_a_turn(msgs.take(i), expanded.take(i), meta_tools, msgs[i], expanded[i]);
    assert(msgs.take(i).push(msgs[i]) =~= msgs.take(i + 1));
    assert(expanded.take(i).push(expanded[i]) =~= expanded.take(i + 1));
    lemma_history_is_kept(msgs, expanded, meta_tools, i + 1);
    assert(all.take(upto.len() as int)[upto.len() - 1] == all[upto.len() - 1]);
    assert forall|j: int|
        #![trigger msgs[j]]
        0 <= j < i && is_said(*msgs[j]) implies history_of(
        msgs.take(j + 1),
        expanded.take(j + 1),
        meta_tools,
    ).len() < upto.len() by {
        lemma_history_is_kept(msgs.take(i), expanded.take(i), meta_tools, j + 1);
        assert(msgs.take(i).take(j + 1) =~= msgs.take(j + 1));
        assert(expanded.take(i).take(j + 1) =~= expanded.take(j + 1));
        assert(msgs.take(i)[j] == msgs[j]);
        lemma_open_calls_add_a_turn(msgs.take(i), expanded.take(i), meta_tools, j);
    }
}

/// What is said ends the history of what was said so far.
proof fn lemma_said_ends_a_turn(
    msgs: Seq<&ChatMessage>,
    expanded: Seq<Seq<char>>,
    meta_tools: Seq<Seq<char>>,
    m: &ChatMessage,
    e: Seq<char>,
)
    requires
        expanded.len() == msgs.len(),
        is_said(*m),
    ensures
        ({
            let before = history_of(msgs, expanded, meta_tools);
            let after = history_of(msgs.push(m), expanded.push(e), meta_tools);
            &&& after.len() == before.len() + (if m.role@ == "assistant"@ && calls_open(msgs) {
                0int
            } else {
                1int
            })
            &&& after.len() > 0
            &&& after.last().0 == m.role@
            &&& m.role@ == "user"@ ==> after.last().1 == e
            &&& m.role@ == "assistant"@ ==> ends_with(after.last().1, m.content@)
            &&& m.role@ == "assistant"@ && !calls_open(msgs) ==> after.last().1 == m.content@
            &&& calls_open(msgs) ==> before.len() > 0
        }),
{
    lemma_roles();
    lemma_lines_wait(msgs, expanded, meta_tools);
    let before = history_of(msgs, expanded, meta_tools);
    let after = history_of(msgs.push(m), expanded.push(e), meta_tools);
    if m.role@ == "user"@ {
        law_a_question_is_one_more_turn(msgs, expanded, meta_tools, m, e);
    } else {
        law_an_answer_is_a_turn(msgs, expanded, meta_tools, m, e);
        let c = m.content@;
        let turn = after.last().1;
        assert(turn.subrange(turn.len() - c.len(), turn.len() as int) =~= c);
    }
}

/// Behind something that was said, calls that are still open have a turn of their own.
proof fn lemma_open_calls_add_a_turn(
    msgs: Seq<&ChatMessage>,
    expanded: Seq<Seq<char>>,
    meta_tools: Seq<Seq<char>>,
    j: int,
)
    requires
        expanded.len() == msgs.len(),
        0 <= j < msgs.len(),
        is_said(*msgs[j]),
    ensures
        history_of(msgs, expanded, meta_tools).len() >= history_of(
            msgs.take(j + 1),
            expanded.take(j + 1),
            meta_tools,
        ).len() + (if calls_open(msgs) {
            1int
        } else {
            0int
        }),
    decreases msgs.len(),
{
    lemma_roles();
    let n = msgs.len() - 1;
    let head = msgs.drop_last();
    let m = msgs[n];
    assert(head.push(m) =~= msgs);
    assert(expanded.drop_last().push(expanded[n]) =~= expanded);
    lemma_calls_open_grows(head, m);
    if j == n {
        assert(msgs.take(j + 1) =~= msgs);
        assert(expanded.take(j + 1) =~= expanded);
    } else {
        assert(head.take(j + 1) =~= msgs.take(j + 1));
        assert(expanded.drop_last().take(j + 1) =~= expanded.take(j + 1));
        assert(head[j] == msgs[j]);
        lemma_open_calls_add_a_turn(head, expanded.drop_last(), meta_tools, j);
        if is_said(*m) {
            lemma_said_ends_a_turn(head, expanded.drop_last(), meta_tools, m, expanded[n]);
        } else {
            law_a_call_is_told_in_the_next_turn(
                head,
                expanded.drop_last(),
                meta_tools,
                m,
                expanded[n],
            );
        }
    }
}

/// The history up to something that was said is a beginning of the whole.
proof fn lemma_history_is_kept(
    msgs: Seq<&ChatMessage>,
    expanded: Seq<Seq<char>>,
    meta_tools: Seq<Seq<char>>,
    k: int,
)
    requires
        expanded.len() == msgs.len(),
        0 < k <= msgs.len(),
        is_said(*msgs[k - 1]),
    ensures
        ({
            let upto = history_of(msgs.take(k), expanded.take(k), meta_tools);
            let all = history_of(msgs, expanded, meta_tools);
            &&& upto.len() <= all.len()
            &&& all.take(upto.len() as int) == upto
        }),
    decreases msgs.len(),
{
    lemma_roles();
    let n = msgs.len() - 1;
    let head = msgs.drop_last();
    let m = msgs[n];
    let upto = history_of(msgs.take(k), expanded.take(k), meta_tools);
    let all = history_of(msgs, expanded, meta_tools);
    assert(head.push(m) =~= msgs);
    assert(expanded.drop_last().push(expanded[n]) =~= expanded);
    if k == msgs.len() {
        assert(msgs.take(k) =~= msgs);
        assert(expanded.take(k) =~= expanded);
        assert(all.take(upto.len() as int) =~= upto);
    } else {
        assert(head.take(k) =~= msgs.take(k));
        assert(expanded.drop_last().take(k) =~= expanded.take(k));
        assert(head[k - 1] == msgs[k - 1]);
        lemma_history_is_kept(head, expanded.drop_last(), meta_tools, k);
        lemma_open_calls_add_a_turn(head, expanded.drop_last(), meta_tools, k - 1);
        let before = history_of(head, expanded.drop_last(), meta_tools);
        if m.role@ == "user"@ {
            law_a_question_is_one_more_turn(head, expanded.drop_last(), meta_tools, m, expanded[n]);
        } else if m.role@ == "assistant"@ {
            law_an_answer_is_a_turn(head, expanded.drop_last(), meta_tools, m, expanded[n]);
        } else {
            law_a_call_is_told_in_the_next_turn(
                head,
                expanded.drop_last(),
                meta_tools,
                m,
                expanded[n],
            );
        }
        assert(before.take(upto.len() as int) =~= all.take(upto.len() as int));
    }
}

/// How many calls of tools that have a name stand behind the last thing that was said.
pub open spec fn open_calls(msgs: Seq<&ChatMessage>) -> nat
    decreases msgs.len(),
{
    if msgs.len() == 0 || is_said(*msgs.last()) {
        0
    } else if names_tool(*msgs.last()) {
        open_calls(msgs.drop_last()) + 1
    } else {
        open_calls(msgs.drop_last())
    }
}

proof fn lemma_utf8_of_two(a: Seq<char>, b: Seq<char>)
    ensures
        utf8_len(a + b) == utf8_len(a) + utf8_len(b),
    decreases a.len(),
{
    if a.len() == 0 {
        assert(a + b =~= b);
    } else {
        lemma_utf8_of_two(a.drop_first(), b);
        assert((a + b).drop_first() =~= a.drop_first() + b);
        assert((a + b)[0] == a[0]);
    }
}

proof fn lemma_counted_calls(
    msgs: Seq<&ChatMessage>,
    expanded: Seq<Seq<char>>,
    meta_tools: Seq<Seq<char>>,
)
    requires
        expanded.len() == msgs.len(),
        meta_tools.len() == 0,
    ensures
        ({
            let t = told_of(msgs, expanded, meta_tools);
            &&& t.meta is None
            &&& t.pending.len() <= open_calls(msgs)
            &&& t.pending.len() == open_calls(msgs) || t.pending.len() >= 5 || t.bytes >= 2048
            &&& t.bytes <= utf8_len(join(t.pending, "\n"@))
        }),
    decreases msgs.len(),
{
    if msgs.len() > 0 {
        lemma_roles();
        let head = msgs.drop_last();
        lemma_counted_calls(head, expanded.drop_last(), meta_tools);
        let t = told_of(head, expanded.drop_last(), meta_tools);
        let u = told_of(msgs, expanded, meta_tools);
        if u.pending.len() > t.pending.len() {
            let line = u.pending.last();
            assert(u.pending.drop_last() =~= t.pending);
            if t.pending.len() > 0 {
                lemma_utf8_of_two(join(t.pending, "\n"@), "\n"@);
                lemma_utf8_of_two(join(t.pending, "\n"@) + "\n"@, line);
            } else {
                lemma_lines_wait(head, expanded.drop_last(), meta_tools);
            }
        }
    }
}

/// Without tools that only find out about tools, the calls of a turn are told line by line, in
/// order, until there are five of them or 2048 bytes; what is called behind those is not told.
pub proof fn law_the_first_calls_are_told(
    msgs: Seq<&ChatMessage>,
    expanded: Seq<Seq<char>>,
    meta_tools: Seq<Seq<char>>,
    m: &ChatMessage,
    e: Seq<char>,
)
    requires
        expanded.len() == msgs.len(),
        meta_tools.len() == 0,
        names_tool(*m),
        calls_open(msgs),
    ensures
        ({
            let before = history_of(msgs, expanded, meta_tools);
            let after = history_of(msgs.push(m), expanded.push(e), meta_tools);
            let was = before.last().1;
            let is = after.last().1;
            &&& open_calls(msgs) >= 5 ==> after == before
            &&& open_calls(msgs) < 5 && utf8_len(was) < 2048 ==> starts_with(
                is,
                was + "\n"@ + "[Prior tool call: "@ + m.tool_name->0@ + (if m.tool_success
                    == Some(false) {
                    " (FAILED) args=`"@
                } else {
                    " (ok) args=`"@
                }),
            )
        }),
{
    lemma_roles();
    lemma_told_grows(msgs, expanded, meta_tools, m, e);
    lemma_lines_wait(msgs, expanded, meta_tools);
    lemma_counted_calls(msgs, expanded, meta_tools);
    lemma_counted_calls(msgs.push(m), expanded.push(e), meta_tools);
    let t = told_of(msgs, expanded, meta_tools);
    let u = told_of(msgs.push(m), expanded.push(e), meta_tools);
    let before = history_of(msgs, expanded, meta_tools);
    let after = history_of(msgs.push(m), expanded.push(e), meta_tools);
    let was = before.last().1;
    assert(t.lines() == t.pending && u.lines() == u.pending);
    if open_calls(msgs) < 5 && utf8_len(was) < 2048 {
        let line = call_line("[Prior tool call: "@, *m, m.tool_name->0@, 200, 400);
        lemma_line_starts("[Prior tool call: "@, *m, m.tool_name->0@, 200, 400);
        let status = if m.tool_success == Some(false) {
            " (FAILED) args=`"@
        } else {
            " (ok) args=`"@
        };
        let head = "[Prior tool call: "@ + m.tool_name->0@ + status;
        assert(u.pending == t.pending.push(line));
        assert(u.pending.drop_last() =~= t.pending);
        assert(after.last().1 == was + "\n"@ + line);
        let want = was + "\n"@ + "[Prior tool call: "@ + m.tool_name->0@ + status;
        assert(want =~= was + "\n"@ + head);
        assert(line.subrange(0, head.len() as int) == head);
        assert forall|k: int| 0 <= k < want.len() implies want[k] == after.last().1[k] by {
            let d = k - was.len() - "\n"@.len();
            if d >= 0 {
                assert(line.subrange(0, head.len() as int)[d] == line[d]);
            }
        }
        assert(after.last().1.subrange(0, want.len() as int) =~= want);
    }
}

/// Whether two calls differ in nothing but what was handed to the tool and what came back.
pub open spec fn same_call(a: ChatMessage, b: ChatMessage) -> bool {
    a.role == b.role && a.tool_name == b.tool_name && a.tool_success == b.tool_success
}

/// What a tool that handles secrets, runs commands or fetches from outside was given, and what it
/// gave back, leaves no trace in what the model is told.
pub proof fn law_calls_of_secret_tools_tell_nothing(
    msgs: Seq<&ChatMessage>,
    expanded: Seq<Seq<char>>,
    meta_tools: Seq<Seq<char>>,
    a: &ChatMessage,
    b: &ChatMessage,
    e: Seq<char>,
)
    requires
        expanded.len() == msgs.len(),
        names_tool(*a),
        same_call(*a, *b),
        seq![
            "vault-set"@,
            "vault-get"@,
            "vault-list"@,
            "secrets-set"@,
            "secrets-get"@,
            "secrets-list"@,
            "mcp-oauth-store"@,
            "shell-exec"@,
            "proc-spawn"@,
            "host-package-install"@,
            "net-http"@,
            "web-fetch"@,
            "http-client"@,
        ].contains(a.tool_name->0@),
    ensures
        history_of(msgs.push(a), expanded.push(e), meta_tools) == history_of(
            msgs.push(b),
            expanded.push(e),
            meta_tools,
        ),
{
    lemma_roles();
    let names = seq![
        "vault-set"@,
        "vault-get"@,
        "vault-list"@,
        "secrets-set"@,
        "secrets-get"@,
        "secrets-list"@,
        "mcp-oauth-store"@,
        "shell-exec"@,
        "proc-spawn"@,
        "host-package-install"@,
        "net-http"@,
        "web-fetch"@,
        "http-client"@,
    ];
    let name = a.tool_name->0@;
    let k = choose|k: int| 0 <= k < names.len() && names[k] == name;
    assert(secret_tool(name));
    lemma_told_grows(msgs, expanded, meta_tools, a, e);
    lemma_told_grows(msgs, expanded, meta_tools, b, e);
}

/// What a model is told of another tool's call: what the tool was given stands behind `args=`, and
/// what it gave back behind `result=`, each cut to a length, and each, where it is JSON, with its
/// secrets hidden.
pub proof fn law_calls_tell_arguments_and_results(
    msgs: Seq<&ChatMessage>,
    expanded: Seq<Seq<char>>,
    meta_tools: Seq<Seq<char>>,
    m: &ChatMessage,
    e: Seq<char>,
    given: JsonV,
    back: JsonV,
)
    requires
        expanded.len() == msgs.len(),
        names_tool(*m),
        !calls_open(msgs),
        !secret_tool(m.tool_name->0@),
        !meta_tools.contains(m.tool_name->0@),
        m.tool_payload_json is Some,
        m.tool_result_json is Some,
        parsed(m.tool_payload_json->0@) == Ok::<JsonV, Seq<char>>(given),
        parsed(m.tool_result_json->0@) == Ok::<JsonV, Seq<char>>(back),
        compact_text(redacted(given)).len() <= 200,
        compact_text(redacted(back)).len() <= 400,
    ensures
        ends_with(
            history_of(msgs.push(m), expanded.push(e), meta_tools).last().1,
            " args=`"@ + compact_text(redacted(given)) + "` result=`"@ + compact_text(
                redacted(back),
            ) + "`]"@,
        ),
{
    lemma_roles();
    lemma_told_grows(msgs, expanded, meta_tools, m, e);
    lemma_lines_wait(msgs, expanded, meta_tools);
    let t = told_of(msgs, expanded, meta_tools);
    let u = told_of(msgs.push(m), expanded.push(e), meta_tools);
    let name = m.tool_name->0@;
    let line = call_line("[Prior tool call: "@, *m, name, 200, 400);
    assert(t.pending.len() == 0 && t.meta is None);
    assert(u.lines() =~= seq![line]);
    let x = compact_text(redacted(given));
    let y = compact_text(redacted(back));
    reveal_strlit(") args=`");
    reveal_strlit(" args=`");
    let end = " args=`"@ + x + "` result=`"@ + y + "`]"@;
    assert(") args=`"@.drop_first() =~= " args=`"@);
    assert(line.subrange(line.len() - end.len(), line.len() as int) =~= end);
}

/// Whatever stands under a key that names a secret, in upper or lower case, is hidden; the other
/// entries of an object stay under their keys, and so do the items of a list and plain values.
pub proof fn law_values_under_secret_keys_are_hidden(v: JsonV)
    ensures
        v matches JsonV::Object(entries) ==> {
            &&& redacted(v) matches JsonV::Object(out) && out.len() == entries.len() && forall|
                i: int,
            |
                0 <= i < entries.len() ==> (#[trigger] out[i]).0 == entries[i].0 && (seq![
                    "token"@,
                    "secret"@,
                    "secrets"@,
                    "api_key"@,
                    "apikey"@,
                    "password"@,
                    "passwd"@,
                    "passphrase"@,
                    "authorization"@,
                    "cookie"@,
                    "credential"@,
                    "credentials"@,
                    "private_key"@,
                    "privatekey"@,
                    "bearer"@,
                    "access_key"@,
                    "access_token"@,
                    "refresh_token"@,
                    "client_secret"@,
                    "x-api-key"@,
                    "set-cookie"@,
                ].contains(lower_ascii(entries[i].0)) ==> out[i].1 == JsonV::Text("[redacted]"@))
                    && (!secret_key(entries[i].0) ==> out[i].1 == redacted(entries[i].1))
        },
        v matches JsonV::Array(items) ==> {
            &&& redacted(v) matches JsonV::Array(out) && out.len() == items.len() && forall|i: int|
                0 <= i < items.len() ==> #[trigger] out[i] == redacted(items[i])
        },
        !(v is Object) && !(v is Array) ==> redacted(v) == v,
{
    if let JsonV::Object(entries) = v {
        let words = seq![
            "token"@,
            "secret"@,
            "secrets"@,
            "api_key"@,
            "apikey"@,
            "password"@,
            "passwd"@,
            "passphrase"@,
            "authorization"@,
            "cookie"@,
            "credential"@,
            "credentials"@,
            "private_key"@,
            "privatekey"@,
            "bearer"@,
            "access_key"@,
            "access_token"@,
            "refresh_token"@,
            "client_secret"@,
            "x-api-key"@,
            "set-cookie"@,
        ];
        assert forall|i: int| 0 <= i < entries.len() && words.contains(
            lower_ascii((#[trigger] entries[i]).0),
        ) implies secret_key(entries[i].0) by {
            let low = lower_ascii(entries[i].0);
            let k = choose|k: int| 0 <= k < words.len() && words[k] == low;
            assert(secret_word(low));
        }
    }
}

/// A key is secret by one of its words just as by the whole: in front of a secret word, behind it
/// or on both sides of it other words may stand, with a dot, an underscore, a dash or a blank
/// between.
pub proof fn law_a_secret_word_makes_a_key_secret(
    front: Seq<char>,
    word: Seq<char>,
    back: Seq<char>,
    a: char,
    b: char,
)
    requires
        secret_word(lower_ascii(word)),
        forall|i: int| 0 <= i < word.len() ==> !word_break(#[trigger] lower_ascii(word)[i]),
        a == '.' || a == '_' || a == '-' || a == ' ',
        b == '.' || b == '_' || b == '-' || b == ' ',
    ensures
        secret_key(word),
        secret_key(front.push(a) + word),
        secret_key(word.push(b) + back),
        secret_key(front.push(a) + word.push(b) + back),
{
    let low = lower_ascii(word);
    assert(word_break(a) && word_break(b));
    assert(to_ascii_lower(a) == a && to_ascii_lower(b) == b);
    assert(dotted(low) =~= low);
    let one = front.push(a) + word;
    let left = dotted(lower_ascii(front));
    assert(dotted(lower_ascii(one)) =~= left.push('.') + low);
    lemma_split_between(left, low, Seq::empty(), true, false);
    let two = word.push(b) + back;
    let right = dotted(lower_ascii(back));
    assert(dotted(lower_ascii(two)) =~= low.push('.') + right);
    lemma_split_between(Seq::empty(), low, right, false, true);
    let three = front.push(a) + word.push(b) + back;
    assert(dotted(lower_ascii(three)) =~= left.push('.') + low.push('.') + right);
    lemma_split_between(left, low, right, true, true);
}

proof fn lemma_split_between(
    left: Seq<char>,
    mid: Seq<char>,
    right: Seq<char>,
    has_left: bool,
    has_right: bool,
)
    requires
        forall|i: int| 0 <= i < mid.len() ==> #[trigger] mid[i] != '.',
    ensures
        ({
            let front = if has_left {
                left.push('.') + mid
            } else {
                mid
            };
            let all = if has_right {
                front.push('.') + right
            } else {
                front
            };
            &&& has_left && !has_right ==> split(left.push('.') + mid, '.').contains(mid)
            &&& !has_left && has_right ==> split(mid.push('.') + right, '.').contains(mid)
            &&& has_left && has_right ==> split(left.push('.') + mid.push('.') + right, '.').contains(
                mid,
            )
        }),
{
    let front = if has_left {
        left.push('.') + mid
    } else {
        mid
    };
    lemma_split_last(if has_left {
        left.push('.')
    } else {
        Seq::empty()
    }, mid);
    if !has_left {
        assert(Seq::<char>::empty() + mid =~= mid);
    }
    let k = split(front, '.').len() - 1;
    assert(split(front, '.')[k] == mid);
    if has_right {
        lemma_split_keeps(front, right, k);
        assert(left.push('.') + mid.push('.') + right =~= (left.push('.') + mid).push('.') + right);
        assert(split(front.push('.') + right, '.')[k] == mid);
    }
}

proof fn lemma_split_last(front: Seq<char>, mid: Seq<char>)
    requires
        front.len() == 0 || front.last() == '.',
        forall|i: int| 0 <= i < mid.len() ==> #[trigger] mid[i] != '.',
    ensures
        split(front + mid, '.').len() > 0,
        split(front + mid, '.').last() == mid,
    decreases mid.len(),
{
    crate::text::lemma_split_nonempty(front + mid, '.');
    if mid.len() == 0 {
        assert(front + mid =~= front);
        assert(split(front, '.').last() =~= mid);
    } else {
        let less = mid.drop_last();
        assert((front + mid).drop_last() =~= front + less);
        assert((front + mid).last() == mid[mid.len() - 1]);
        assert forall|i: int| 0 <= i < less.len() implies #[trigger] less[i] != '.' by {
            assert(less[i] == mid[i]);
        }
        lemma_split_last(front, less);
        assert(less.push(mid.last()) =~= mid);
    }
}

proof fn lemma_split_keeps(front: Seq<char>, right: Seq<char>, k: int)
    requires
        0 <= k < split(front, '.').len(),
    ensures
        split(front.push('.') + right, '.').len() > split(front, '.').len(),
        split(front.push('.') + right, '.')[k] == split(front, '.')[k],
    decreases right.len(),
{
    let all = front.push('.') + right;
    if right.len() == 0 {
        assert(all =~= front.push('.'));
        assert(all.drop_last() =~= front);
    } else {
        lemma_split_keeps(front, right.drop_last(), k);
        assert(all.drop_last() =~= front.push('.') + right.drop_last());
    }
}

// ---------------------------------------------------------------------------
// How a conversation is shown
// ---------------------------------------------------------------------------

/// The letter that stands for an agent.
pub open spec fn initial_of(name: Seq<char>, default: char) -> Seq<char> {
    uppercased(
        if name.len() == 0 {
            default
        } else {
            name[0]
        },
    )
}

/// The letter that stands for an agent: the first of its name, as a capital.
pub fn agent_initial(name: &str, default: char) -> (r: String)
    ensures
        r@ == initial_of(name@, default),
{
    let v: Vec<char> = chars_of(name);
    let first: char = if v.len() == 0 {
        default
    } else {
        v[0]
    };
    char_uppercase(first)
}

/// A session as it is listed.
pub struct SessionItem {
    pub id: String,
    pub agent_name: String,
    pub title: Option<String>,
    pub updated_at: String,
    pub preview: String,
}

/// The session as it is listed.
pub fn session_item(s: &ChatSession) -> (r: SessionItem)
    ensures
        r.id == s.id,
        r.agent_name == s.agent_name,
        r.title == s.title,
        r.updated_at == s.updated_at,
        r.preview@ == (match s.last_preview {
            Some(p) => clipped(p@, PREVIEW_CHARS as int, "…"@),
            None => ""@,
        }),
{
    SessionItem {
        id: s.id.clone(),
        agent_name: s.agent_name.clone(),
        title: copy_text(&s.title),
        updated_at: s.updated_at.clone(),
        preview: match &s.last_preview {
            Some(p) => clip(p.as_str(), PREVIEW_CHARS, "…"),
            None => "".to_owned(),
        },
    }
}

/// The tokens that the replies of a conversation took.
pub open spec fn tokens_of(entries: Seq<TimelineEntry>) -> int
    decreases entries.len(),
{
    if entries.len() == 0 {
        0
    } else {
        tokens_of(entries.drop_last()) + (match entries.last() {
            TimelineEntry::Assistant { tokens_used: Some(n), .. } => n as int,
            _ => 0,
        })
    }
}

/// The tool calls of a conversation.
pub open spec fn calls_of(entries: Seq<TimelineEntry>) -> int
    decreases entries.len(),
{
    if entries.len() == 0 {
        0
    } else {
        calls_of(entries.drop_last()) + (if entries.last() is Tool {
            1int
        } else {
            0int
        })
    }
}

/// The totals of a conversation: the tokens of its replies, and its tool calls.
pub fn conversation_totals(entries: &Vec<TimelineEntry>) -> (r: (u128, usize))
    ensures
        r.0 == tokens_of(entries@),
        r.1 == calls_of(entries@),
{
    let mut tokens: u128 = 0;
    let mut calls: usize = 0;
    let mut i: usize = 0;
    assert(entries@.take(0) =~= Seq::<TimelineEntry>::empty());
    while i < entries.len()
        invariant
            i <= entries@.len(),
            tokens == tokens_of(entries@.take(i as int)),
            tokens <= i * u64::MAX,
            calls == calls_of(entries@.take(i as int)),
            calls <= i,
        decreases entries.len() - i,
    {
        proof {
            assert(entries@.take(i + 1).drop_last() =~= entries@.take(i as int));
            assert(entries@.take(i + 1).last() == entries@[i as int]);
            assert(i * u64::MAX + u64::MAX == (i + 1) * u64::MAX) by (nonlinear_arith);
            assert((i + 1) * u64::MAX <= u128::MAX) by (nonlinear_arith)
                requires
                    i < usize::MAX,
            ;
        }
        match &entries[i] {
            TimelineEntry::Assistant { tokens_used, .. } => {
                if let Some(n) = tokens_used {
                    tokens = tokens + *n as u128;
                }
            },
            TimelineEntry::Tool { .. } => {
                calls = calls + 1;
            },
            TimelineEntry::User { .. } => {},
        }
        i += 1;
    }
    assert(entries@.take(i as int) =~= entries@);
    (tokens, calls)
}

/// Whether a page of a conversation attaches to a reply: one is in flight and not done.
pub fn needs_stream_reconnect(in_flight_done: Option<bool>) -> (r: bool)
    ensures
        r == (in_flight_done == Some(false)),
{
    match in_flight_done {
        Some(done) => !done,
        None => false,
    }
}

/// The title of a conversation's page.
pub fn conversation_title(session_id: &str) -> (r: String)
    ensures
        r@ == "Chat — "@ + short(session_id@),
{
    let id: String = short_id(session_id);
    let mut out: String = "Chat — ".to_owned();
    out.push_str(id.as_str());
    out
}

/// A piece of the page part that a message is answered with.
pub const PARTIAL_0: &'static str = r#"<div class="chat-row chat-row-user">
    <div class="chat-bubble chat-bubble-user">
        <div class="chat-speaker-tag">You</div>
        <div class="chat-bubble-content">"#;

/// A piece of the page part that a message is answered with.
pub const PARTIAL_1: &'static str = r#"</div>
    </div>
</div>
<div data-role="chat-stream-target"
     data-session-id=""#;

/// A piece of the page part that a message is answered with.
pub const PARTIAL_2: &'static str = r#""
     data-agent-name=""#;

/// A piece of the page part that a message is answered with.
pub const PARTIAL_3: &'static str = r#""
     data-agent-initial=""#;

/// A piece of the page part that a message is answered with.
pub const PARTIAL_4: &'static str = r#"">
    <div class="chat-thinking" data-role="chat-thinking-indicator">
        <div class="chat-thinking-dots"><span></span><span></span><span></span></div>
        <span class="muted">Thinking...</span>
    </div>
    <div data-role="chat-stream-response" class="chat-row chat-row-agent" style="display:none;">
        <div class="chat-agent-avatar" aria-hidden="true">"#;

/// A piece of the page part that a message is answered with.
pub const PARTIAL_5: &'static str = r#"</div>
        <div class="chat-agent-column">
            <div class="chat-agent-name">"#;

/// A piece of the page part that a message is answered with.
pub const PARTIAL_6: &'static str = r#"</div>
            <div class="chat-bubble chat-bubble-agent">
                <div data-role="chat-stream-content" class="chat-stream-content chat-streaming"></div>
                <div class="chat-bubble-meta chat-bubble-meta-left chat-stream-meta" data-role="chat-stream-meta" style="display:none;">
                    <span data-role="chat-stream-time">Streaming...</span>
                    <span data-role="chat-stream-tokens"></span>
                    <span data-role="chat-stream-cost"></span>
                    <button class="chat-msg-action" type="button"
                            data-role="chat-stream-stop"
                            data-stop-url="/chat/"#;

/// A piece of the page part that a message is answered with.
pub const PARTIAL_7: &'static str = r#"/stop">Stop</button>
                    <button class="chat-msg-action" type="button" data-role="chat-stream-copy">Copy</button>
                </div>
            </div>
        </div>
    </div>
</div>"#;

/// The page part that a message is answered with: the message itself, and where the reply will
/// stand. Whatever a person or an agent wrote is escaped in it.
pub open spec fn sent_html(
    message: Seq<char>,
    session_id: Seq<char>,
    agent_name: Seq<char>,
) -> Seq<char> {
    let msg = escaped(message, Entities::Hex27);
    let sid = escaped(session_id, Entities::Hex27);
    let agent = escaped(agent_name, Entities::Hex27);
    let initial = escaped(initial_of(agent_name, 'A'), Entities::Hex27);
    PARTIAL_0@ + msg + PARTIAL_1@ + sid + PARTIAL_2@ + agent + PARTIAL_3@ + initial + PARTIAL_4@ + initial + PARTIAL_5@ + agent + PARTIAL_6@ + sid + PARTIAL_7@
}

/// The page part that a message is answered with.
pub fn render_sent(message: &str, session_id: &str, agent_name: &str) -> (r: String)
    ensures
        r@ == sent_html(message@, session_id@, agent_name@),
{
    let msg: String = html_escape(message);
    let sid: String = html_escape(session_id);
    let agent: String = html_escape(agent_name);
    let letter: String = agent_initial(agent_name, 'A');
    let initial: String = html_escape(letter.as_str());
    let mut out: String = PARTIAL_0.to_owned();
    out.push_str(msg.as_str());
    out.push_str(PARTIAL_1);
    out.push_str(sid.as_str());
    out.push_str(PARTIAL_2);
    out.push_str(agent.as_str());
    out.push_str(PARTIAL_3);
    out.push_str(initial.as_str());
    out.push_str(PARTIAL_4);
    out.push_str(initial.as_str());
    out.push_str(PARTIAL_5);
    out.push_str(agent.as_str());
    out.push_str(PARTIAL_6);
    out.push_str(sid.as_str());
    out.push_str(PARTIAL_7);
    out
}

// ---------------------------------------------------------------------------
// Export
// ---------------------------------------------------------------------------

/// A block of JSON under a heading, where there is some.
pub open spec fn json_block(heading: Seq<char>, json: Option<String>) -> Seq<char> {
    match json {
        Some(s) => heading + s@ + "\n```\n\n"@,
        None => Seq::empty(),
    }
}

/// A message as Markdown.
pub open spec fn message_markdown(m: ChatMessage, agent: Seq<char>) -> Seq<char> {
    if m.role@ == "tool"@ {
        "### Tool: "@ + (match m.tool_name {
            Some(n) => n@,
            None => "tool"@,
        }) + "\n\n"@ + json_block("#### Input\n\n```json\n"@, m.tool_payload_json) + json_block(
            "#### Result\n\n```json\n"@,
            m.tool_result_json,
        )
    } else {
        (if m.role@ == "user"@ {
            "## You\n\n"@
        } else if m.role@ == "assistant"@ {
            "## "@ + agent + "\n\n"@
        } else {
            "## Message\n\n"@
        }) + m.content@ + "\n\n"@
    }
}

/// The messages as Markdown.
pub open spec fn messages_markdown(msgs: Seq<&ChatMessage>, agent: Seq<char>) -> Seq<char>
    decreases msgs.len(),
{
    if msgs.len() == 0 {
        Seq::empty()
    } else {
        messages_markdown(msgs.drop_last(), agent) + message_markdown(*msgs.last(), agent)
    }
}

fn push_block(out: &mut String, heading: &str, json: &Option<String>)
    ensures
        final(out)@ == old(out)@ + json_block(heading@, *json),
{
    let ghost before = out@;
    match json {
        Some(s) => {
            out.push_str(heading);
            out.push_str(s.as_str());
            out.push_str("\n```\n\n");
            assert(out@ =~= before + (heading@ + s@ + "\n```\n\n"@));
        },
        None => {
            assert(before + Seq::<char>::empty() =~= before);
        },
    }
}

fn markdown_of(m: &ChatMessage, agent: &str) -> (r: String)
    ensures
        r@ == message_markdown(*m, agent@),
{
    if same(m.role.as_str(), "tool") {
        let mut out: String = "### Tool: ".to_owned();
        match &m.tool_name {
            Some(n) => {
                out.push_str(n.as_str());
            },
            None => {
                out.push_str("tool");
            },
        }
        out.push_str("\n\n");
        push_block(&mut out, "#### Input\n\n```json\n", &m.tool_payload_json);
        push_block(&mut out, "#### Result\n\n```json\n", &m.tool_result_json);
        return out;
    }
    let mut out: String = if same(m.role.as_str(), "user") {
        "## You\n\n".to_owned()
    } else if same(m.role.as_str(), "assistant") {
        let mut h: String = "## ".to_owned();
        h.push_str(agent);
        h.push_str("\n\n");
        h
    } else {
        "## Message\n\n".to_owned()
    };
    out.push_str(m.content.as_str());
    out.push_str("\n\n");
    out
}

/// A session as a Markdown document.
pub fn export_markdown(session: &ChatSession, msgs: &Vec<&ChatMessage>) -> (r: String)
    ensures
        r@ == "# "@ + (match session.title {
            Some(t) => t@,
            None => "Chat with "@ + session.agent_name@,
        }) + "\n\n"@ + messages_markdown(msgs@, session.agent_name@),
{
    let title: String = match &session.title {
        Some(t) => t.clone(),
        None => {
            let mut t: String = "Chat with ".to_owned();
            t.push_str(session.agent_name.as_str());
            t
        },
    };
    let mut out: String = "# ".to_owned();
    out.push_str(title.as_str());
    out.push_str("\n\n");
    let ghost head = out@;
    let mut i: usize = 0;
    assert(msgs@.take(0) =~= Seq::<&ChatMessage>::empty());
    assert(head + messages_markdown(msgs@.take(0), session.agent_name@) =~= head);
    while i < msgs.len()
        invariant
            i <= msgs@.len(),
            out@ == head + messages_markdown(msgs@.take(i as int), session.agent_name@),
        decreases msgs.len() - i,
    {
        let ghost before = messages_markdown(msgs@.take(i as int), session.agent_name@);
        assert(msgs@.take(i + 1).drop_last() =~= msgs@.take(i as int));
        assert(msgs@.take(i + 1).last() == msgs@[i as int]);
        let text: String = markdown_of(msgs[i], session.agent_name.as_str());
        out.push_str(text.as_str());
        assert(out@ =~= head + (before + text@));
        i += 1;
    }
    assert(msgs@.take(i as int) =~= msgs@);
    out
}

/// The content disposition of an exported session.
pub fn export_disposition(session_id: &str) -> (r: String)
    ensures
        r@ == "attachment; filename=\"chat-"@ + short(session_id@) + ".md\""@,
{
    let id: String = short_id(session_id);
    let mut out: String = "attachment; filename=\"chat-".to_owned();
    out.push_str(id.as_str());
    out.push_str(".md\"");
    out
}

/// An exported chat tells every message, each behind the ones before it: what a person wrote
/// under `You`, what the agent answered under its name, and a tool call with its name, what was
/// handed to the tool and what came back.
pub proof fn law_exports_tell_every_message(
    msgs: Seq<&ChatMessage>,
    m: &ChatMessage,
    agent: Seq<char>,
)
    ensures
        messages_markdown(Seq::empty(), agent).len() == 0,
        messages_markdown(msgs.push(m), agent) == messages_markdown(msgs, agent)
            + message_markdown(*m, agent),
        m.role@ == "user"@ ==> message_markdown(*m, agent) == "## You\n\n"@ + m.content@ + "\n\n"@,
        m.role@ == "assistant"@ ==> message_markdown(*m, agent) == "## "@ + agent + "\n\n"@
            + m.content@ + "\n\n"@,
        m.role@ == "tool"@ && m.tool_name is Some ==> starts_with(
            message_markdown(*m, agent),
            "### Tool: "@ + m.tool_name->0@ + "\n\n"@,
        ),
        m.role@ == "tool"@ && m.tool_payload_json is Some ==> contains_text(
            message_markdown(*m, agent),
            "#### Input\n\n```json\n"@ + m.tool_payload_json->0@ + "\n```\n\n"@,
        ),
        m.role@ == "tool"@ && m.tool_result_json is Some ==> ends_with(
            message_markdown(*m, agent),
            "#### Result\n\n```json\n"@ + m.tool_result_json->0@ + "\n```\n\n"@,
        ),
{
    assert(msgs.push(m).drop_last() =~= msgs);
    lemma_roles();
    if m.role@ == "tool"@ {
        let name = match m.tool_name {
            Some(n) => n@,
            None => "tool"@,
        };
        let head = "### Tool: "@ + name + "\n\n"@;
        let input = json_block("#### Input\n\n```json\n"@, m.tool_payload_json);
        let result = json_block("#### Result\n\n```json\n"@, m.tool_result_json);
        let all = message_markdown(*m, agent);
        assert(all =~= head + input + result);
        assert(all.subrange(0, head.len() as int) =~= head);
        assert(all.subrange(head.len() as int, (head.len() + input.len()) as int) =~= input);
        assert(occurs_at(all, input, head.len() as int));
        assert(all.subrange(all.len() - result.len(), all.len() as int) =~= result);
    }
}

/// The totals of a conversation are sums: each reply adds the tokens that it took, and each tool
/// call counts as one.
pub proof fn law_conversation_totals_are_sums(entries: Seq<TimelineEntry>, e: TimelineEntry)
    ensures
        tokens_of(Seq::empty()) == 0,
        calls_of(Seq::empty()) == 0,
        e is Tool ==> calls_of(entries.push(e)) == calls_of(entries) + 1 && tokens_of(
            entries.push(e),
        ) == tokens_of(entries),
        e is User ==> calls_of(entries.push(e)) == calls_of(entries) && tokens_of(entries.push(e))
            == tokens_of(entries),
        e is Assistant ==> calls_of(entries.push(e)) == calls_of(entries),
        e is Assistant && e->tokens_used is Some ==> tokens_of(entries.push(e)) == tokens_of(entries)
            + e->tokens_used->0,
        e is Assistant && e->tokens_used is None ==> tokens_of(entries.push(e)) == tokens_of(
            entries,
        ),
{
    assert(entries.push(e).drop_last() =~= entries);
}

/// The parts of a message are told in order: text as it stands, and an image as a line of its own
/// that begins on a new line.
pub proof fn law_parts_are_told_in_order(parts: Seq<ContentPart>, part: ContentPart)
    ensures
        parts_text(Seq::empty()).len() == 0,
        part matches ContentPart::Text { text } ==> parts_text(parts.push(part)) == parts_text(
            parts,
        ) + text@,
        part is Image ==> starts_with(parts_text(parts.push(part)), parts_text(parts))
            && ends_with(parts_text(parts.push(part)), "[image attachment]\n"@),
        part is Image && parts_text(parts).len() > 0 && parts_text(parts).last() != '\n'
            ==> parts_text(parts.push(part)) == parts_text(parts) + seq!['\n']
            + "[image attachment]\n"@,
        part is Image && (parts_text(parts).len() == 0 || parts_text(parts).last() == '\n')
            ==> parts_text(parts.push(part)) == parts_text(parts) + "[image attachment]\n"@,
{
    assert(parts.push(part).drop_last() =~= parts);
    if part is Image {
        let before = parts_text(parts);
        let after = parts_text(parts.push(part));
        let mark = "[image attachment]\n"@;
        assert(before.push('\n') + mark =~= before + seq!['\n'] + mark);
        assert(after.subrange(0, before.len() as int) =~= before);
        assert(after.subrange(after.len() - mark.len(), after.len() as int) =~= mark);
    }
}

/// An agent stands where the first of its name stands; where none bears the name, behind them all.
pub proof fn law_agents_stand_where_they_are_listed(
    agents: Seq<AgentState>,
    name: Seq<char>,
    from: int,
    at: int,
)
    requires
        0 <= from <= at <= agents.len(),
        at < agents.len() ==> agents[at].name@ == name,
        forall|k: int| from <= k < at ==> (#[trigger] agents[k]).name@ != name,
    ensures
        agent_at(agents, name, from) == at,
    decreases at - from,
{
    if from < at {
        assert(agents[from].name@ != name);
        law_agents_stand_where_they_are_listed(agents, name, from + 1, at);
    }
}

/// What is told on one line has no line break left, and nothing else is changed in it.
pub proof fn law_one_line_is_one_line(s: Seq<char>, c: char)
    ensures
        !one_line(s).contains('\n'),
        !one_line(s).contains('\r'),
        c != '\n' && c != '\r' ==> one_line(s.push(c)) == one_line(s).push(c),
        one_line(s.push('\n')) == one_line(s) + seq!['\\', 'n'],
        one_line(s.push('\r')) == one_line(s) + seq!['\\', 'r'],
    decreases s.len(),
{
    reveal_strlit("\\n");
    reveal_strlit("\\r");
    assert(s.push(c).drop_last() =~= s);
    assert(s.push('\n').drop_last() =~= s);
    assert(s.push('\r').drop_last() =~= s);
    assert("\\n"@ =~= seq!['\\', 'n']);
    assert("\\r"@ =~= seq!['\\', 'r']);
    assert(one_line(s) + seq![c] =~= one_line(s).push(c));
    if s.len() > 0 {
        law_one_line_is_one_line(s.drop_last(), s.last());
    }
}

/// A call that failed is told as one that failed, and any other as one that went well, whatever
/// tool it was.
pub proof fn law_calls_tell_how_they_went(
    kind: Seq<char>,
    m: ChatMessage,
    name: Seq<char>,
    args_max: int,
    result_max: int,
)
    ensures
        m.tool_success == Some(false) ==> starts_with(
            call_line(kind, m, name, args_max, result_max),
            kind + name + " (FAILED) args=`"@,
        ),
        m.tool_success != Some(false) ==> starts_with(
            call_line(kind, m, name, args_max, result_max),
            kind + name + " (ok) args=`"@,
        ),
{
    reveal_strlit(" (");
    reveal_strlit("FAILED");
    reveal_strlit("ok");
    reveal_strlit(") args=`");
    reveal_strlit(" (FAILED) args=`");
    reveal_strlit(" (ok) args=`");
    let line = call_line(kind, m, name, args_max, result_max);
    if m.tool_success == Some(false) {
        let front = kind + name + " (FAILED) args=`"@;
        assert(kind + name + " ("@ + "FAILED"@ + ") args=`"@ =~= front);
        assert(line.subrange(0, front.len() as int) =~= front);
    } else {
        let front = kind + name + " (ok) args=`"@;
        assert(kind + name + " ("@ + "ok"@ + ") args=`"@ =~= front);
        assert(line.subrange(0, front.len() as int) =~= front);
    }
}

/// Of several calls in a row that only find out about tools, the last is told: the earlier ones
/// leave no trace.
pub proof fn law_the_last_discovery_counts(
    msgs: Seq<&ChatMessage>,
    expanded: Seq<Seq<char>>,
    meta_tools: Seq<Seq<char>>,
    earlier: &ChatMessage,
    later: &ChatMessage,
    e: Seq<char>,
)
    requires
        expanded.len() == msgs.len(),
        names_tool(*earlier) && meta_tools.contains(earlier.tool_name->0@),
        names_tool(*later) && meta_tools.contains(later.tool_name->0@),
    ensures
        history_of(msgs.push(earlier).push(later), expanded.push(e).push(e), meta_tools)
            == history_of(msgs.push(later), expanded.push(e), meta_tools),
{
    lemma_roles();
    let two = msgs.push(earlier).push(later);
    assert(two.drop_last() =~= msgs.push(earlier));
    assert(msgs.push(earlier).drop_last() =~= msgs);
    assert(msgs.push(later).drop_last() =~= msgs);
    assert(expanded.push(e).push(e).drop_last() =~= expanded.push(e));
    assert(expanded.push(e).drop_last() =~= expanded);
    reveal_with_fuel(told_of, 3);
}

/// The page part of a message holds the message and the session, each made harmless.
pub proof fn law_sent_messages_are_shown(
    message: Seq<char>,
    session_id: Seq<char>,
    agent_name: Seq<char>,
)
    ensures
        starts_with(
            sent_html(message, session_id, agent_name),
            PARTIAL_0@ + escaped(message, Entities::Hex27),
        ),
        ends_with(
            sent_html(message, session_id, agent_name),
            escaped(session_id, Entities::Hex27) + PARTIAL_7@,
        ),
        contains_text(
            sent_html(message, session_id, agent_name),
            escaped(agent_name, Entities::Hex27),
        ),
{
    let msg = escaped(message, Entities::Hex27);
    let sid = escaped(session_id, Entities::Hex27);
    let agent = escaped(agent_name, Entities::Hex27);
    let initial = escaped(initial_of(agent_name, 'A'), Entities::Hex27);
    let all = sent_html(message, session_id, agent_name);
    let front = PARTIAL_0@ + msg;
    let middle = front + PARTIAL_1@ + sid + PARTIAL_2@;
    let rest = PARTIAL_3@ + initial + PARTIAL_4@ + initial + PARTIAL_5@ + agent + PARTIAL_6@;
    let back = sid + PARTIAL_7@;
    assert(all =~= middle + agent + rest + back);
    assert(all.subrange(0, front.len() as int) =~= front);
    assert(all.subrange(middle.len() as int, (middle.len() + agent.len()) as int) =~= agent);
    assert(occurs_at(all, agent, middle.len() as int));
    assert(all.subrange(all.len() - back.len(), all.len() as int) =~= back);
}

/// What was handed to a tool or came back from it is told as JSON without its secrets where it is
/// JSON, and else as it stands, on one line.
pub proof fn law_other_text_is_told_on_one_line(raw: Seq<char>)
    ensures
        parsed(raw) is Err ==> told(raw) == one_line(raw) && !told(raw).contains('\n')
            && !told(raw).contains('\r'),
        parsed(raw) is Err && !raw.contains('\n') && !raw.contains('\r') ==> told(raw) == raw,
        parsed(raw) is Ok ==> told(raw) == compact_text(redacted(parsed(raw)->Ok_0)),
{
    law_one_line_is_one_line(raw, ' ');
    if !raw.contains('\n') && !raw.contains('\r') {
        lemma_already_one_line(raw);
    }
}

proof fn lemma_already_one_line(s: Seq<char>)
    requires
        !s.contains('\n'),
        !s.contains('\r'),
    ensures
        one_line(s) == s,
    decreases s.len(),
{
    if s.len() > 0 {
        let head = s.drop_last();
        assert(s.contains(s[s.len() - 1]));
        assert forall|i: int| 0 <= i < head.len() implies #[trigger] head[i] != '\n' && head[i]
            != '\r' by {
            assert(s[i] == head[i]);
            assert(s.contains(s[i]));
        }
        lemma_already_one_line(head);
        assert(head + seq![s.last()] =~= s);
    }
}

/// An agent stands under the capital of its first letter, and under the one that is given where it
/// has no name.
pub proof fn law_agents_stand_under_their_first_letter(c: char, rest: Seq<char>, default: char)
    ensures
        initial_of(seq![c] + rest, default) == uppercased(c),
        initial_of(Seq::empty(), default) == uppercased(default),
{
    assert((seq![c] + rest)[0] == c);
}

} // verus!
