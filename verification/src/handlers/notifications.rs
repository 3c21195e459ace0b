//! The inbox: notifications, and the answers to those that ask something.

use crate::clock::{Moment, STAMP_UTC_PATTERN};
use crate::escape::{escaped, html_escape, Entities};
use crate::ids::{format_uuid, short, short_id, uuid_text, uuid_value};
use crate::reply::{checked_id, Lookup, Reply};
use crate::text::{
    byte_len, chars_of, contains_text, decimal, decimal_text, first_chars, is_blank, lower_ascii,
    lower_ascii_chars, occurs_at, opt_text, starts_with, string_of, take_chars, texts, trim,
    trimmed, utf8_len,
};
use vstd::prelude::*;

verus! {

/// How many notifications are unread.
pub struct UnreadCount {
    pub count: usize,
}

/// The form that answers a notification.
pub struct RespondForm {
    pub response: String,
}

/// The most bytes that an answer has.
pub const MAX_RESPONSE_BYTES: usize = 8192;

/// How many notifications the inbox shows.
pub const INBOX_LIMIT: usize = 50;

/// Who sent a notification.
pub enum NotificationSource {
    Agent(u128),
    Kernel,
    System,
}

/// What a notification is.
pub enum UserMessageKind {
    Question { question: String, options: Option<Vec<String>> },
    TaskComplete,
    StatusUpdate,
    Notification,
}

/// A notification.
pub struct UserMessage {
    pub id: u128,
    pub from: NotificationSource,
    pub priority: String,
    pub subject: String,
    pub body: String,
    pub kind: UserMessageKind,
    /// Whether it can be answered.
    pub interactive: bool,
    /// The answer that was given.
    pub response: Option<String>,
    pub read: bool,
    pub created_at: Moment,
    pub expires_at: Option<Moment>,
}

/// How many of the notifications are unread.
pub open spec fn unread(messages: Seq<UserMessage>) -> nat
    decreases messages.len(),
{
    if messages.len() == 0 {
        0
    } else {
        unread(messages.drop_last()) + if messages.last().read {
            0nat
        } else {
            1nat
        }
    }
}

/// How many of the notifications are unread.
pub fn unread_count(messages: &Vec<UserMessage>) -> (r: UnreadCount)
    ensures
        r.count == unread(messages@),
{
    let mut n: usize = 0;
    let mut i: usize = 0;
    assert(messages@.take(0) =~= Seq::<UserMessage>::empty());
    while i < messages.len()
        invariant
            i <= messages@.len(),
            n <= i,
            n == unread(messages@.take(i as int)),
        decreases messages.len() - i,
    {
        assert(messages@.take(i + 1).drop_last() =~= messages@.take(i as int));
        if !messages[i].read {
            n += 1;
        }
        i += 1;
    }
    assert(messages@.take(i as int) =~= messages@);
    UnreadCount { count: n }
}

/// The sender of a notification as it is shown.
pub open spec fn sender(from: NotificationSource) -> Seq<char> {
    match from {
        NotificationSource::Agent(id) => "agent:"@ + short(uuid_text(id)),
        NotificationSource::Kernel => "kernel"@,
        NotificationSource::System => "system"@,
    }
}

/// The sender of a notification as it is shown.
pub fn sender_label(from: &NotificationSource) -> (r: String)
    ensures
        r@ == sender(*from),
{
    match from {
        NotificationSource::Agent(id) => {
            let full: String = format_uuid(*id);
            let head: String = short_id(full.as_str());
            let mut out: String = "agent:".to_owned();
            out.push_str(head.as_str());
            out
        },
        NotificationSource::Kernel => "kernel".to_owned(),
        NotificationSource::System => "system".to_owned(),
    }
}

/// A notification as it is shown.
pub struct NotificationView {
    pub id: String,
    pub from: String,
    pub priority: String,
    pub kind_tag: String,
    pub question: Option<String>,
    pub options: Option<Vec<String>>,
    pub response_text: Option<String>,
    pub read: bool,
    pub created_at: String,
    pub expires_at: Option<String>,
    pub requires_response: bool,
}

/// The word for what a notification is.
pub open spec fn kind_word(kind: UserMessageKind) -> Seq<char> {
    match kind {
        UserMessageKind::Question { .. } => "question"@,
        UserMessageKind::TaskComplete => "task_complete"@,
        UserMessageKind::StatusUpdate => "status_update"@,
        UserMessageKind::Notification => "notification"@,
    }
}

/// What a notification asks, if anything.
pub open spec fn asked(kind: UserMessageKind) -> Option<Seq<char>> {
    match kind {
        UserMessageKind::Question { question, .. } => Some(question@),
        _ => None,
    }
}

/// The answers that a notification offers, if any.
pub open spec fn offered(kind: UserMessageKind) -> Option<Seq<Seq<char>>> {
    match kind {
        UserMessageKind::Question { options: Some(o), .. } => Some(texts(o@)),
        _ => None,
    }
}

/// The texts of a list, where there is one.
pub open spec fn opt_texts(list: Option<Vec<String>>) -> Option<Seq<Seq<char>>> {
    match list {
        Some(o) => Some(texts(o@)),
        None => None,
    }
}

/// The moment as text, where there is one.
pub open spec fn opt_stamp(at: Option<Moment>) -> Option<Seq<char>> {
    match at {
        Some(m) => Some(m.stamped(STAMP_UTC_PATTERN@)),
        None => None,
    }
}

/// Whether the view shows the notification.
pub open spec fn shows(view: NotificationView, msg: UserMessage) -> bool {
    &&& view.id@ == uuid_text(msg.id)
    &&& view.from@ == sender(msg.from)
    &&& view.priority@ == lower_ascii(msg.priority@)
    &&& view.kind_tag@ == kind_word(msg.kind)
    &&& opt_text(view.question) == asked(msg.kind)
    &&& opt_texts(view.options) == offered(msg.kind)
    &&& opt_text(view.response_text) == opt_text(msg.response)
    &&& view.read == msg.read
    &&& view.created_at@ == msg.created_at.stamped(STAMP_UTC_PATTERN@)
    &&& opt_text(view.expires_at) == opt_stamp(msg.expires_at)
    &&& view.requires_response == (msg.interactive && msg.response is None)
}

fn copy_list(list: &Vec<String>) -> (r: Vec<String>)
    ensures
        texts(r@) == texts(list@),
{
    let mut out: Vec<String> = Vec::new();
    let mut i: usize = 0;
    while i < list.len()
        invariant
            i <= list@.len(),
            out@.len() == i,
            forall|k: int| 0 <= k < i ==> (#[trigger] out@[k])@ == list@[k]@,
        decreases list.len() - i,
    {
        out.push(list[i].clone());
        i += 1;
    }
    assert(texts(out@) =~= texts(list@));
    out
}

/// The notification as it is shown.
pub fn notification_view(msg: &UserMessage) -> (r: NotificationView)
    ensures
        shows(r, *msg),
{
    let kind_tag: &str = match &msg.kind {
        UserMessageKind::Question { .. } => "question",
        UserMessageKind::TaskComplete => "task_complete",
        UserMessageKind::StatusUpdate => "status_update",
        UserMessageKind::Notification => "notification",
    };
    let question: Option<String> = match &msg.kind {
        UserMessageKind::Question { question, .. } => Some(question.clone()),
        _ => None,
    };
    let options: Option<Vec<String>> = match &msg.kind {
        UserMessageKind::Question { options: Some(o), .. } => Some(copy_list(o)),
        _ => None,
    };
    let chars: Vec<char> = chars_of(msg.priority.as_str());
    let lower: Vec<char> = lower_ascii_chars(chars.as_slice());
    let expires_at: Option<String> = match msg.expires_at {
        Some(m) => Some(m.stamp(STAMP_UTC_PATTERN)),
        None => None,
    };
    NotificationView {
        id: format_uuid(msg.id),
        from: sender_label(&msg.from),
        priority: string_of(lower.as_slice()),
        kind_tag: kind_tag.to_owned(),
        question,
        options,
        response_text: crate::chat_store::copy_text(&msg.response),
        read: msg.read,
        created_at: msg.created_at.stamp(STAMP_UTC_PATTERN),
        expires_at,
        requires_response: msg.interactive && msg.response.is_none(),
    }
}

/// A notification that was answered asks for no answer.
pub proof fn law_answered_notifications_ask_nothing(view: NotificationView, msg: UserMessage)
    requires
        shows(view, msg),
        msg.response is Some,
    ensures
        !view.requires_response,
        view.response_text is Some,
{
}

/// The number of a notification's id.
pub fn check_notification_id(id: &str) -> (r: Result<u128, Reply>)
    ensures
        match r {
            Ok(n) => uuid_value(id@) == Some(n),
            Err(reply) => uuid_value(id@) is None && reply.is(400, "Invalid notification ID"@),
        },
{
    checked_id(id, "Invalid notification ID")
}

/// The answer where the inbox could not be loaded.
pub fn inbox_error(loaded: bool) -> (r: Option<Reply>)
    ensures
        if loaded {
            r is None
        } else {
            r matches Some(reply) && reply.is(500, "Unable to load notifications"@)
        },
{
    if loaded {
        None
    } else {
        Some(Reply::new(500, "Unable to load notifications"))
    }
}

/// The answer where a notification cannot be shown.
pub fn fetch_error(found: &Lookup<UserMessage>) -> (r: Option<Reply>)
    ensures
        match *found {
            Lookup::Found(_) => r is None,
            Lookup::Missing => r matches Some(reply) && reply.is(404, "Notification not found"@),
            Lookup::Failed => r matches Some(reply) && reply.is(500, "Internal error"@),
        },
{
    match found {
        Lookup::Found(_) => None,
        Lookup::Missing => Some(Reply::new(404, "Notification not found")),
        Lookup::Failed => Some(Reply::new(500, "Internal error")),
    }
}

/// The title of a notification's page.
pub fn notification_title(subject: &str) -> (r: String)
    ensures
        r@ == "Notification — "@ + subject@,
{
    let mut out: String = "Notification — ".to_owned();
    out.push_str(subject);
    out
}

/// The subject of a notification as it stands above its page.
pub fn breadcrumb(subject: &str) -> (r: String)
    ensures
        r@ == take_chars(subject@, 40),
{
    first_chars(subject, 40)
}

/// Reads the form that answers a notification.
pub fn respond(id: &str, form: &RespondForm) -> (r: Result<(u128, String), Reply>)
    ensures
        match r {
            Ok((n, text)) => {
                &&& uuid_value(id@) == Some(n)
                &&& text@ == trim(form.response@)
                &&& 0 < text@.len()
                &&& utf8_len(text@) <= MAX_RESPONSE_BYTES
            },
            Err(reply) => {
                ||| uuid_value(id@) is None && reply.is(400, "Invalid notification ID"@)
                ||| uuid_value(id@) is Some && trim(form.response@).len() == 0 && reply.is(
                    400,
                    "Response cannot be empty"@,
                )
                ||| uuid_value(id@) is Some && trim(form.response@).len() > 0 && utf8_len(
                    trim(form.response@),
                ) > MAX_RESPONSE_BYTES && reply.is(413, "Response exceeds maximum allowed length"@)
            },
        },
{
    let n: u128 = match check_notification_id(id) {
        Ok(n) => n,
        Err(reply) => {
            return Err(reply);
        },
    };
    if is_blank(form.response.as_str()) {
        return Err(Reply::new(400, "Response cannot be empty"));
    }
    let text: String = trimmed(form.response.as_str());
    if byte_len(text.as_str()) > MAX_RESPONSE_BYTES {
        return Err(Reply::new(413, "Response exceeds maximum allowed length"));
    }
    Ok((n, text))
}

/// The answer where what was said to a notification could not be passed on.
pub fn respond_error(passed_on: bool) -> (r: Option<Reply>)
    ensures
        if passed_on {
            r is None
        } else {
            r matches Some(reply) && reply.is(422, "Failed to submit response"@)
        },
{
    if passed_on {
        None
    } else {
        Some(Reply::new(422, "Failed to submit response"))
    }
}

/// The note that an answer was sent.
pub open spec fn responded_html(id: u128, text: Seq<char>) -> Seq<char> {
    "<article id=\"notif-"@ + escaped(uuid_text(id), Entities::Hex27)
        + "\" class=\"notification-responded\">\n                    <p><strong>Response submitted:</strong> "@
        + escaped(text, Entities::Hex27) + "</p>\n                </article>"@
}

/// The note that an answer was sent.
pub fn responded(id: u128, text: &str) -> (r: String)
    ensures
        r@ == responded_html(id, text@),
{
    let shown: String = format_uuid(id);
    let safe_id: String = html_escape(shown.as_str());
    let safe: String = html_escape(text);
    let mut out: String = "<article id=\"notif-".to_owned();
    out.push_str(safe_id.as_str());
    out.push_str(
        "\" class=\"notification-responded\">\n                    <p><strong>Response submitted:</strong> ",
    );
    out.push_str(safe.as_str());
    out.push_str("</p>\n                </article>");
    out
}

/// What came over the channel of new notifications.
pub enum Received {
    /// A notification, as JSON.
    Payload(String),
    /// So many were missed.
    Lagged(u64),
    Closed,
}

/// An event for the browser.
pub struct Pushed {
    pub event: String,
    pub data: String,
}

/// What the browser is sent: the notification, or that it is to count again. Nothing, once the
/// channel is closed.
pub fn push(received: Received) -> (r: Option<Pushed>)
    ensures
        match received {
            Received::Payload(data) => r matches Some(p) && p.event@ == "notification-new"@
                && p.data@ == data@,
            Received::Lagged(n) => r matches Some(p) && p.event@ == "notification-reload"@
                && p.data@ == decimal(n as nat),
            Received::Closed => r is None,
        },
{
    match received {
        Received::Payload(data) => Some(Pushed { event: "notification-new".to_owned(), data }),
        Received::Lagged(n) => Some(
            Pushed { event: "notification-reload".to_owned(), data: decimal_text(n) },
        ),
        Received::Closed => None,
    }
}

/// Each notification that was not read counts once, and one that was read does not count.
pub proof fn law_unread_notifications_count(messages: Seq<UserMessage>, msg: UserMessage)
    ensures
        unread(Seq::empty()) == 0,
        msg.read ==> unread(messages.push(msg)) == unread(messages),
        !msg.read ==> unread(messages.push(msg)) == unread(messages) + 1,
        unread(messages) <= messages.len(),
    decreases messages.len(),
{
    assert(messages.push(msg).drop_last() =~= messages);
    if messages.len() > 0 {
        law_unread_notifications_count(messages.drop_last(), msg);
    }
}

/// A notification is shown with what it is, what it asks, what was answered and whether it was
/// read. An answer is wanted where one can be given and none was.
pub proof fn law_notifications_show_what_they_say(view: NotificationView, msg: UserMessage)
    requires
        shows(view, msg),
    ensures
        view.id@ == uuid_text(msg.id),
        view.read == msg.read,
        view.requires_response <==> msg.interactive && msg.response is None,
        msg.response is Some ==> view.response_text is Some && view.response_text->0@
            == msg.response->0@,
        msg.response is None ==> view.response_text is None,
        msg.kind matches UserMessageKind::Question { question, options } ==> {
            &&& view.kind_tag@ == "question"@
            &&& view.question is Some && view.question->0@ == question@
            &&& options is Some ==> view.options is Some && texts(view.options->0@) == texts(
                options->0@,
            )
            &&& options is None ==> view.options is None
        },
        !(msg.kind is Question) ==> view.question is None && view.options is None,
        msg.kind is TaskComplete ==> view.kind_tag@ == "task_complete"@,
        msg.kind is StatusUpdate ==> view.kind_tag@ == "status_update"@,
        msg.kind is Notification ==> view.kind_tag@ == "notification"@,
        msg.from is Kernel ==> view.from@ == "kernel"@,
        msg.from is System ==> view.from@ == "system"@,
        msg.from matches NotificationSource::Agent(id) ==> view.from@ == "agent:"@ + take_chars(
            uuid_text(id),
            8,
        ),
        msg.expires_at is None <==> view.expires_at is None,
        view.created_at@ == msg.created_at.stamped(STAMP_UTC_PATTERN@),
{
}

/// A note that an answer was sent holds the answer, made harmless.
pub proof fn law_answers_are_shown_harmless(id: u128, text: Seq<char>)
    ensures
        contains_text(
            responded_html(id, text),
            "<p><strong>Response submitted:</strong> "@ + escaped(text, Entities::Hex27) + "</p>"@,
        ),
        starts_with(
            responded_html(id, text),
            "<article id=\"notif-"@ + escaped(uuid_text(id), Entities::Hex27) + "\""@,
        ),
{
    reveal_strlit("<p><strong>Response submitted:</strong> ");
    reveal_strlit("</p>");
    reveal_strlit("\"");
    reveal_strlit(
        "\" class=\"notification-responded\">\n                    <p><strong>Response submitted:</strong> ",
    );
    reveal_strlit("</p>\n                </article>");
    let s = responded_html(id, text);
    let head = "<article id=\"notif-"@ + escaped(uuid_text(id), Entities::Hex27);
    let open =
        "\" class=\"notification-responded\">\n                    <p><strong>Response submitted:</strong> "@;
    let said = "<p><strong>Response submitted:</strong> "@;
    let part = said + escaped(text, Entities::Hex27) + "</p>"@;
    let front = head + "\""@;
    assert(s.subrange(0, front.len() as int) =~= front);
    let at = head.len() + open.len() - said.len();
    assert(open.subrange(open.len() - said.len(), open.len() as int) =~= said);
    assert(s.subrange(at as int, at + part.len()) =~= part);
    assert(occurs_at(s, part, at as int));
}

} // verus!
