//! Mentions of tasks, pipelines, agents and schedules in chat messages.

use crate::escape::{
    block_escaped, byte_prefix, escape_html_attr, escape_user_data_close, escaped,
    law_byte_prefix_is_longest, truncate_utf8, Entities,
};
use crate::ids::{uuid_number, uuid_value};
use crate::reply::Reply;
use crate::text::{
    ascii_alnum, byte_len, chars_of, contains_text, decimal, decimal_text, ends_with, find_char,
    index_of, join, join_strings, lowercased, occurs_at, same, starts_with, str_contains, str_starts_with, string_of,
    sub_chars, texts, utf8_len,
};
use vstd::prelude::*;
use vstd::utf8::is_ascii_chars;

verus! {

/// How many entries a search gives.
pub const MAX_RESULTS: usize = 12;

/// The longest body of a context block, in bytes.
pub const MAX_BODY_BYTES: usize = 8_192;

/// The longest label of a task, in bytes.
pub const MAX_LABEL_BYTES: usize = 80;

/// The pattern of a name that can be mentioned.
pub const MENTION_PATTERN: &'static str = r"^[\w.\-]+$";

/// Whether a pattern is found in a text.
pub uninterp spec fn regex_found(pattern: Seq<char>, text: Seq<char>) -> bool;

/// Whether an ASCII character may stand in a name that can be mentioned.
pub open spec fn mention_char(c: char) -> bool {
    ascii_alnum(c) || c == '_' || c == '.' || c == '-'
}

/// `regex::Regex::new` and `is_match`: whether the pattern is found in the text, under a name.
/// The mention pattern is found in an ASCII text exactly where the text is not empty and made
/// of letters, digits, `_`, `.` and `-`.
#[verifier::external_body]
fn regex_is_match(pattern: &str, text: &str) -> (r: bool)
    requires
        pattern@ == MENTION_PATTERN@,
    ensures
        r == regex_found(pattern@, text@),
        is_ascii_chars(text@) ==> r == (text@.len() > 0 && forall|i: int|
            0 <= i < text@.len() ==> mention_char(#[trigger] text@[i])),
{
    regex::Regex::new(pattern).expect("static regex is valid").is_match(text)
}

/// Whether a name can be mentioned.
pub open spec fn mentionable(token: Seq<char>) -> bool {
    regex_found(MENTION_PATTERN@, token)
}

/// Whether a name can be mentioned: a mention of it reads back as the name.
pub fn mention_safe(token: &str) -> (r: bool)
    ensures
        r == mentionable(token@),
        is_ascii_chars(token@) ==> r == (token@.len() > 0 && forall|i: int|
            0 <= i < token@.len() ==> mention_char(#[trigger] token@[i])),
{
    regex_is_match(MENTION_PATTERN, token)
}

// ---------------------------------------------------------------------------
// Context blocks
// ---------------------------------------------------------------------------

/// The attributes of a block.
pub open spec fn attrs_text(attrs: Seq<(&str, &str)>) -> Seq<char>
    decreases attrs.len(),
{
    if attrs.len() == 0 {
        Seq::empty()
    } else {
        attrs_text(attrs.drop_last()) + " "@ + attrs.last().0@ + "=\""@ + escaped(
            attrs.last().1@,
            Entities::NoApostrophe,
        ) + "\""@
    }
}

/// What a block says where its body was cut.
pub open spec fn cut_text(body: Seq<char>) -> Seq<char> {
    if utf8_len(body) > MAX_BODY_BYTES {
        " truncated=\"true\" total_bytes=\""@ + decimal(utf8_len(body)) + "\""@
    } else {
        Seq::empty()
    }
}

/// A context block: what is mentioned, with its attributes and its body escaped.
pub open spec fn block_text(
    entity_type: Seq<char>,
    attrs: Seq<(&str, &str)>,
    body: Seq<char>,
) -> Seq<char> {
    "<user_data type=\""@ + escaped(entity_type, Entities::NoApostrophe) + "\""@ + attrs_text(attrs)
        + cut_text(body) + ">\n"@ + block_escaped(byte_prefix(body, MAX_BODY_BYTES as int), 0)
        + "\n</user_data>\n\n"@
}

/// A context block: what is mentioned, with its attributes and its body escaped.
pub fn user_data_block(entity_type: &str, attrs: &[(&str, &str)], body: &str) -> (r: String)
    ensures
        r@ == block_text(entity_type@, attrs@, body@),
{
    let mut out: String = "<user_data type=\"".to_owned();
    let kind: String = escape_html_attr(entity_type);
    out.push_str(kind.as_str());
    out.push_str("\"");
    let ghost head = out@;
    let mut i: usize = 0;
    assert(attrs@.take(0) =~= Seq::<(&str, &str)>::empty());
    assert(head + attrs_text(attrs@.take(0)) =~= head);
    while i < attrs.len()
        invariant
            i <= attrs@.len(),
            out@ == head + attrs_text(attrs@.take(i as int)),
        decreases attrs.len() - i,
    {
        let ghost before = attrs_text(attrs@.take(i as int));
        assert(attrs@.take(i + 1).drop_last() =~= attrs@.take(i as int));
        assert(attrs@.take(i + 1).last() == attrs@[i as int]);
        let value: String = escape_html_attr(attrs[i].1);
        out.push_str(" ");
        out.push_str(attrs[i].0);
        out.push_str("=\"");
        out.push_str(value.as_str());
        out.push_str("\"");
        assert(out@ =~= head + (before + " "@ + attrs@[i as int].0@ + "=\""@ + value@ + "\""@));
        i += 1;
    }
    assert(attrs@.take(i as int) =~= attrs@);
    let clipped: String = truncate_utf8(body, MAX_BODY_BYTES);
    let total: usize = byte_len(body);
    let ghost tagged = out@;
    if total > MAX_BODY_BYTES {
        let bytes: String = decimal_text(total as u64);
        out.push_str(" truncated=\"true\" total_bytes=\"");
        out.push_str(bytes.as_str());
        out.push_str("\"");
        assert(out@ =~= tagged + (" truncated=\"true\" total_bytes=\""@ + bytes@ + "\""@));
    } else {
        assert(tagged + Seq::<char>::empty() =~= tagged);
    }
    let inner: String = escape_user_data_close(clipped.as_str());
    out.push_str(">\n");
    out.push_str(inner.as_str());
    out.push_str("\n</user_data>\n\n");
    out
}

// ---------------------------------------------------------------------------
// Searching
// ---------------------------------------------------------------------------

/// What a search looks for.
#[derive(Clone, Copy, PartialEq, Eq, Structural)]
pub enum MentionKind {
    Task,
    Pipeline,
    Agent,
    Schedule,
}

/// The kind that a word names.
pub open spec fn kind_of(word: Seq<char>) -> Option<MentionKind> {
    if word == "task"@ {
        Some(MentionKind::Task)
    } else if word == "pipeline"@ {
        Some(MentionKind::Pipeline)
    } else if word == "agent"@ {
        Some(MentionKind::Agent)
    } else if word == "schedule"@ {
        Some(MentionKind::Schedule)
    } else {
        None
    }
}

/// The kind that a word names.
pub fn mention_kind(word: &str) -> (r: Option<MentionKind>)
    ensures
        r == kind_of(word@),
{
    if same(word, "task") {
        Some(MentionKind::Task)
    } else if same(word, "pipeline") {
        Some(MentionKind::Pipeline)
    } else if same(word, "agent") {
        Some(MentionKind::Agent)
    } else if same(word, "schedule") {
        Some(MentionKind::Schedule)
    } else {
        None
    }
}

/// What a query `<type>:<needle>` looks for, with its needle in lower case.
pub fn search_query(q: &str) -> (r: Result<(MentionKind, String), Reply>)
    ensures
        ({
            let colon = index_of(q@, ':');
            if colon >= q@.len() {
                r matches Err(reply) && reply.is(400, "query must be <type>:<needle>"@)
            } else {
                match kind_of(q@.subrange(0, colon)) {
                    Some(kind) => r matches Ok((k, needle)) && k == kind && needle@ == lowercased(
                        q@.subrange(colon + 1, q@.len() as int),
                    ),
                    None => r matches Err(reply) && reply.is(400, "unknown mention type"@),
                }
            }
        }),
{
    let v: Vec<char> = chars_of(q);
    let colon: usize = find_char(&v, ':');
    if colon == v.len() {
        return Err(Reply::new(400, "query must be <type>:<needle>"));
    }
    let word: Vec<char> = sub_chars(&v, 0, colon);
    let word: String = string_of(&word);
    let rest: Vec<char> = sub_chars(&v, colon + 1, v.len());
    let rest: String = string_of(&rest);
    match mention_kind(word.as_str()) {
        Some(kind) => Ok((kind, rest.as_str().to_lowercase())),
        None => Err(Reply::new(400, "unknown mention type")),
    }
}

/// An entry of a search.
pub struct MentionItem {
    pub kind: MentionKind,
    /// What is put into the message.
    pub insert: String,
    pub label: String,
    pub detail: String,
}

/// The text, or a dash where there is none.
pub open spec fn or_dash(s: Option<String>) -> Seq<char> {
    match s {
        Some(t) => t@,
        None => "-"@,
    }
}

fn text_or_dash(s: &Option<String>) -> (r: &str)
    ensures
        r@ == or_dash(*s),
{
    match s {
        Some(t) => t.as_str(),
        None => "-",
    }
}

/// Something that can be mentioned.
pub trait Mentioned: Sized {
    /// Whether the needle finds it.
    spec fn found(self, needle: Seq<char>) -> bool;

    /// Whether this is its entry.
    spec fn entered(self, item: MentionItem) -> bool;

    fn is_found(&self, needle: &str) -> (r: bool)
        ensures
            r == self.found(needle@),
    ;

    fn enter(&self) -> (r: MentionItem)
        ensures
            self.entered(r),
    ;
}

/// What the needle finds, in order.
pub open spec fn hits<T: Mentioned>(all: Seq<T>, needle: Seq<char>) -> Seq<T>
    decreases all.len(),
{
    if all.len() == 0 {
        all
    } else if all.last().found(needle) {
        hits(all.drop_last(), needle).push(all.last())
    } else {
        hits(all.drop_last(), needle)
    }
}

/// Whether the items are the entries of the first hits.
pub open spec fn first_hits<T: Mentioned>(found: Seq<T>, items: Seq<MentionItem>) -> bool {
    items.len() == (if found.len() > MAX_RESULTS {
        MAX_RESULTS as int
    } else {
        found.len() as int
    }) && forall|i: int| 0 <= i < items.len() ==> found[i].entered(#[trigger] items[i])
}

/// The entries of the first things that the needle finds.
pub fn search<T: Mentioned>(all: &Vec<T>, needle: &str) -> (r: Vec<MentionItem>)
    ensures
        first_hits(hits(all@, needle@), r@),
{
    let mut out: Vec<MentionItem> = Vec::new();
    let mut i: usize = 0;
    assert(all@.take(0) =~= Seq::<T>::empty());
    while i < all.len()
        invariant
            i <= all@.len(),
            first_hits(hits(all@.take(i as int), needle@), out@),
        decreases all.len() - i,
    {
        assert(all@.take(i + 1).drop_last() =~= all@.take(i as int));
        assert(all@.take(i + 1).last() == all@[i as int]);
        if all[i].is_found(needle) {
            if out.len() < MAX_RESULTS {
                out.push(all[i].enter());
            }
        }
        i += 1;
    }
    assert(all@.take(i as int) =~= all@);
    out
}

/// A task as searches see it.
pub struct TaskHit {
    /// The text of its id.
    pub id: String,
    pub prompt_preview: String,
    pub agent_name: Option<String>,
    pub status: String,
}

impl Mentioned for TaskHit {
    /// By the start of its id, or by a part of its prompt or of its agent's name.
    open spec fn found(self, needle: Seq<char>) -> bool {
        ||| starts_with(self.id@, needle)
        ||| contains_text(lowercased(self.prompt_preview@), needle)
        ||| self.agent_name matches Some(a) && contains_text(lowercased(a@), needle)
    }

    open spec fn entered(self, item: MentionItem) -> bool {
        &&& item.kind == MentionKind::Task
        &&& item.insert@ == "task:"@ + self.id@
        &&& item.label@ == byte_prefix(self.prompt_preview@, MAX_LABEL_BYTES as int)
        &&& item.detail@ == self.status@ + " · "@ + or_dash(self.agent_name)
    }

    fn is_found(&self, needle: &str) -> (r: bool) {
        if str_starts_with(self.id.as_str(), needle) {
            return true;
        }
        let preview: String = self.prompt_preview.as_str().to_lowercase();
        if str_contains(preview.as_str(), needle) {
            return true;
        }
        match &self.agent_name {
            Some(a) => {
                let name: String = a.as_str().to_lowercase();
                str_contains(name.as_str(), needle)
            },
            None => false,
        }
    }

    fn enter(&self) -> (r: MentionItem) {
        let mut insert: String = "task:".to_owned();
        insert.push_str(self.id.as_str());
        let mut detail: String = self.status.clone();
        detail.push_str(" · ");
        detail.push_str(text_or_dash(&self.agent_name));
        MentionItem {
            kind: MentionKind::Task,
            insert,
            label: truncate_utf8(self.prompt_preview.as_str(), MAX_LABEL_BYTES),
            detail,
        }
    }
}

/// A pipeline as searches see it.
pub struct PipelineHit {
    pub name: String,
    pub step_count: u64,
    pub description: Option<String>,
}

impl Mentioned for PipelineHit {
    /// By a part of its name, where it can be mentioned.
    open spec fn found(self, needle: Seq<char>) -> bool {
        mentionable(self.name@) && contains_text(lowercased(self.name@), needle)
    }

    open spec fn entered(self, item: MentionItem) -> bool {
        &&& item.kind == MentionKind::Pipeline
        &&& item.insert@ == "pipeline:"@ + self.name@
        &&& item.label@ == self.name@
        &&& item.detail@ == decimal(self.step_count as nat) + " steps · "@ + or_dash(
            self.description,
        )
    }

    fn is_found(&self, needle: &str) -> (r: bool) {
        let name: String = self.name.as_str().to_lowercase();
        mention_safe(self.name.as_str()) && str_contains(name.as_str(), needle)
    }

    fn enter(&self) -> (r: MentionItem) {
        let mut insert: String = "pipeline:".to_owned();
        insert.push_str(self.name.as_str());
        let mut detail: String = decimal_text(self.step_count);
        detail.push_str(" steps · ");
        detail.push_str(text_or_dash(&self.description));
        MentionItem { kind: MentionKind::Pipeline, insert, label: self.name.clone(), detail }
    }
}

/// An agent as searches see it.
pub struct AgentHit {
    pub name: String,
    pub model: String,
    pub status: String,
}

impl Mentioned for AgentHit {
    /// By a part of its name, where it can be mentioned.
    open spec fn found(self, needle: Seq<char>) -> bool {
        mentionable(self.name@) && contains_text(lowercased(self.name@), needle)
    }

    open spec fn entered(self, item: MentionItem) -> bool {
        &&& item.kind == MentionKind::Agent
        &&& item.insert@ == "agent:"@ + self.name@
        &&& item.label@ == self.name@
        &&& item.detail@ == self.model@ + " · "@ + self.status@
    }

    fn is_found(&self, needle: &str) -> (r: bool) {
        let name: String = self.name.as_str().to_lowercase();
        mention_safe(self.name.as_str()) && str_contains(name.as_str(), needle)
    }

    fn enter(&self) -> (r: MentionItem) {
        let mut insert: String = "agent:".to_owned();
        insert.push_str(self.name.as_str());
        let mut detail: String = self.model.clone();
        detail.push_str(" · ");
        detail.push_str(self.status.as_str());
        MentionItem { kind: MentionKind::Agent, insert, label: self.name.clone(), detail }
    }
}

/// A schedule as searches and mentions see it.
pub struct ScheduleHit {
    pub id: String,
    pub name: String,
    pub agent_name: String,
    pub kind: String,
    pub state: String,
    pub cron: Option<String>,
    pub prompt: String,
    pub run_count: u64,
    /// The time of the next run.
    pub next_run_at: Option<String>,
}

impl ScheduleHit {
    /// The name that it is mentioned by: its own, or its id.
    pub open spec fn token(self) -> Option<Seq<char>> {
        if mentionable(self.name@) {
            Some(self.name@)
        } else if mentionable(self.id@) {
            Some(self.id@)
        } else {
            None
        }
    }

    /// When it runs.
    pub open spec fn cadence(self) -> Seq<char> {
        match self.cron {
            Some(c) => c@,
            None => "once"@,
        }
    }

    fn runs(&self) -> (r: &str)
        ensures
            r@ == self.cadence(),
    {
        match &self.cron {
            Some(c) => c.as_str(),
            None => "once",
        }
    }
}

impl Mentioned for ScheduleHit {
    /// By a part of its name or the start of its id, where it can be mentioned.
    open spec fn found(self, needle: Seq<char>) -> bool {
        (contains_text(lowercased(self.name@), needle) || starts_with(lowercased(self.id@), needle))
            && self.token() is Some
    }

    open spec fn entered(self, item: MentionItem) -> bool {
        &&& item.kind == MentionKind::Schedule
        &&& self.token() is Some ==> item.insert@ == "schedule:"@ + self.token()->0
        &&& item.label@ == self.name@
        &&& item.detail@ == self.kind@ + " · "@ + self.state@ + " · "@ + self.cadence()
    }

    fn is_found(&self, needle: &str) -> (r: bool) {
        let name: String = self.name.as_str().to_lowercase();
        let id: String = self.id.as_str().to_lowercase();
        (str_contains(name.as_str(), needle) || str_starts_with(id.as_str(), needle)) && (
        mention_safe(self.name.as_str()) || mention_safe(self.id.as_str()))
    }

    fn enter(&self) -> (r: MentionItem) {
        let mut insert: String = "schedule:".to_owned();
        if mention_safe(self.name.as_str()) {
            insert.push_str(self.name.as_str());
        } else {
            insert.push_str(self.id.as_str());
        }
        let mut detail: String = self.kind.clone();
        detail.push_str(" · ");
        detail.push_str(self.state.as_str());
        detail.push_str(" · ");
        detail.push_str(self.runs());
        MentionItem { kind: MentionKind::Schedule, insert, label: self.name.clone(), detail }
    }
}

// ---------------------------------------------------------------------------
// Resolving
// ---------------------------------------------------------------------------

/// The block of a task; none for what is no id of a task.
pub fn resolve_task(
    id: &str,
    status: &str,
    agent_name: &Option<String>,
    created_at: &str,
    prompt: &str,
) -> (r: Option<String>)
    ensures
        r is Some <==> uuid_value(id@) is Some,
        r matches Some(block) ==> exists|attrs: Seq<(&str, &str)>|
            {
                &&& block@ == #[trigger] block_text("task"@, attrs, "Prompt: "@ + prompt@)
                &&& attrs.len() == 4
                &&& attrs[0].0@ == "task_id"@ && attrs[0].1@ == id@
                &&& attrs[1].0@ == "status"@ && attrs[1].1@ == status@
                &&& attrs[2].0@ == "agent"@ && attrs[2].1@ == or_dash(*agent_name)
                &&& attrs[3].0@ == "created_at"@ && attrs[3].1@ == created_at@
            },
{
    if uuid_number(id).is_none() {
        return None;
    }
    let mut body: String = "Prompt: ".to_owned();
    body.push_str(prompt);
    let attrs: [(&str, &str); 4] = [
        ("task_id", id),
        ("status", status),
        ("agent", text_or_dash(agent_name)),
        ("created_at", created_at),
    ];
    let r: String = user_data_block("task", &attrs, body.as_str());
    assert(attrs@.len() == 4);
    Some(r)
}

/// The block of a pipeline, from its definition as indented JSON.
pub fn resolve_pipeline(name: &str, definition: &str) -> (r: String)
    ensures
        exists|attrs: Seq<(&str, &str)>|
            {
                &&& r@ == #[trigger] block_text("pipeline"@, attrs, definition@)
                &&& attrs.len() == 1
                &&& attrs[0].0@ == "name"@ && attrs[0].1@ == name@
            },
{
    let attrs: [(&str, &str); 1] = [("name", name)];
    let r: String = user_data_block("pipeline", &attrs, definition);
    assert(attrs@.len() == 1);
    r
}

/// What a mention says of an agent.
pub struct AgentFacts {
    pub provider: String,
    pub model: String,
    pub status: String,
    pub roles: Vec<String>,
    /// The time of its last activity.
    pub last_active: String,
}

/// The block of an agent. Its permissions are not told.
pub fn resolve_agent(name: &str, facts: &AgentFacts) -> (r: String)
    ensures
        exists|attrs: Seq<(&str, &str)>|
            {
                &&& r@ == #[trigger] block_text(
                    "agent"@,
                    attrs,
                    "Provider: "@ + facts.provider@ + "\nModel: "@ + facts.model@ + "\nStatus: "@
                        + facts.status@ + "\nRoles: "@ + join(texts(facts.roles@), ", "@)
                        + "\nLast active: "@ + facts.last_active@,
                )
                &&& attrs.len() == 1
                &&& attrs[0].0@ == "name"@ && attrs[0].1@ == name@
            },
{
    let roles: String = join_strings(&facts.roles, ", ");
    let mut body: String = "Provider: ".to_owned();
    body.push_str(facts.provider.as_str());
    body.push_str("\nModel: ");
    body.push_str(facts.model.as_str());
    body.push_str("\nStatus: ");
    body.push_str(facts.status.as_str());
    body.push_str("\nRoles: ");
    body.push_str(roles.as_str());
    body.push_str("\nLast active: ");
    body.push_str(facts.last_active.as_str());
    let attrs: [(&str, &str); 1] = [("name", name)];
    let r: String = user_data_block("agent", &attrs, body.as_str());
    assert(attrs@.len() == 1);
    r
}

/// The place of the schedule that a name means: the one with this id, or else the first with
/// this name.
pub open spec fn schedule_at(all: Seq<ScheduleHit>, name: Seq<char>) -> int {
    if exists|i: int| 0 <= i < all.len() && (#[trigger] all[i]).id@ == name {
        id_at(all, name, 0)
    } else {
        name_at(all, name, 0)
    }
}

/// The first place from `i` on with this id, or the length.
pub open spec fn id_at(all: Seq<ScheduleHit>, name: Seq<char>, i: int) -> int
    decreases all.len() - i,
{
    if i < 0 || i >= all.len() || all[i].id@ == name {
        i
    } else {
        id_at(all, name, i + 1)
    }
}

/// The first place from `i` on with this name, or the length.
pub open spec fn name_at(all: Seq<ScheduleHit>, name: Seq<char>, i: int) -> int
    decreases all.len() - i,
{
    if i < 0 || i >= all.len() || all[i].name@ == name {
        i
    } else {
        name_at(all, name, i + 1)
    }
}

/// The schedule that a name means, where there is one.
pub fn find_schedule<'a>(all: &'a Vec<ScheduleHit>, name: &str) -> (r: Option<&'a ScheduleHit>)
    ensures
        match r {
            Some(s) => schedule_at(all@, name@) < all@.len() && *s == all@[schedule_at(
                all@,
                name@,
            )],
            None => schedule_at(all@, name@) >= all@.len(),
        },
{
    let mut i: usize = 0;
    while i < all.len()
        invariant
            i <= all@.len(),
            id_at(all@, name@, i as int) == id_at(all@, name@, 0),
            forall|k: int| 0 <= k < i ==> (#[trigger] all@[k]).id@ != name@,
        decreases all.len() - i,
    {
        if same(all[i].id.as_str(), name) {
            assert(all@[i as int].id@ == name@);
            return Some(&all[i]);
        }
        i += 1;
    }
    let mut k: usize = 0;
    while k < all.len()
        invariant
            k <= all@.len(),
            name_at(all@, name@, k as int) == name_at(all@, name@, 0),
            schedule_at(all@, name@) == name_at(all@, name@, 0),
        decreases all.len() - k,
    {
        if same(all[k].name.as_str(), name) {
            return Some(&all[k]);
        }
        k += 1;
    }
    None
}

/// The block of a schedule.
pub fn resolve_schedule(s: &ScheduleHit) -> (r: String)
    ensures
        exists|attrs: Seq<(&str, &str)>|
            {
                &&& r@ == #[trigger] block_text(
                    "schedule"@,
                    attrs,
                    "Prompt: "@ + s.prompt@ + "\nRuns so far: "@ + decimal(s.run_count as nat)
                        + "\nNext run: "@ + or_dash(s.next_run_at),
                )
                &&& attrs.len() == 6
                &&& attrs[0].0@ == "name"@ && attrs[0].1@ == s.name@
                &&& attrs[1].0@ == "schedule_id"@ && attrs[1].1@ == s.id@
                &&& attrs[2].0@ == "agent"@ && attrs[2].1@ == s.agent_name@
                &&& attrs[3].0@ == "kind"@ && attrs[3].1@ == s.kind@
                &&& attrs[4].0@ == "state"@ && attrs[4].1@ == s.state@
                &&& attrs[5].0@ == "cron"@ && attrs[5].1@ == s.cadence()
            },
{
    let runs: String = decimal_text(s.run_count);
    let mut body: String = "Prompt: ".to_owned();
    body.push_str(s.prompt.as_str());
    body.push_str("\nRuns so far: ");
    body.push_str(runs.as_str());
    body.push_str("\nNext run: ");
    body.push_str(text_or_dash(&s.next_run_at));
    let attrs: [(&str, &str); 6] = [
        ("name", s.name.as_str()),
        ("schedule_id", s.id.as_str()),
        ("agent", s.agent_name.as_str()),
        ("kind", s.kind.as_str()),
        ("state", s.state.as_str()),
        ("cron", s.runs()),
    ];
    let r: String = user_data_block("schedule", &attrs, body.as_str());
    assert(attrs@.len() == 6);
    r
}

// ---------------------------------------------------------------------------
// Laws of searching
// ---------------------------------------------------------------------------

/// Whether the places go up, and are places of a list of this length.
pub open spec fn going_up(places: Seq<int>, len: nat) -> bool {
    &&& forall|n: int| 0 <= n < places.len() ==> 0 <= #[trigger] places[n] < len
    &&& forall|n: int, m: int|
        0 <= n < m < places.len() ==> #[trigger] places[n] < #[trigger] places[m]
}

proof fn lemma_places_of_hits<T: Mentioned>(all: Seq<T>, needle: Seq<char>) -> (places: Seq<int>)
    ensures
        going_up(places, all.len()),
        places.len() == hits(all, needle).len(),
        forall|n: int|
            0 <= n < places.len() ==> hits(all, needle)[n] == all[#[trigger] places[n]]
                && all[places[n]].found(needle),
        forall|i: int|
            0 <= i < all.len() && (#[trigger] all[i]).found(needle) ==> places.contains(i),
    decreases all.len(),
{
    if all.len() == 0 {
        Seq::empty()
    } else {
        let head = all.drop_last();
        let before = lemma_places_of_hits(head, needle);
        let top = all.len() - 1;
        let places = if all.last().found(needle) {
            before.push(top)
        } else {
            before
        };
        assert forall|n: int| 0 <= n < places.len() implies hits(all, needle)[n]
            == all[#[trigger] places[n]] && all[places[n]].found(needle) by {
            if n < before.len() {
                assert(places[n] == before[n]);
                assert(head[before[n]] == all[before[n]]);
            }
        }
        assert forall|i: int| 0 <= i < all.len() && (#[trigger] all[i]).found(
            needle,
        ) implies places.contains(i) by {
            if i < top {
                assert(head[i] == all[i]);
                let n = choose|n: int| 0 <= n < before.len() && before[n] == i;
                assert(places[n] == i);
            } else {
                assert(places[places.len() - 1] == i);
            }
        }
        assert forall|n: int, m: int| 0 <= n < m < places.len() implies #[trigger] places[n]
            < #[trigger] places[m] by {
            assert(places[n] == before[n]);
            if m < before.len() {
                assert(places[m] == before[m]);
            }
        }
        places
    }
}

/// A search gives the entries of what it finds, in the order of the list. Nothing that is found is
/// left out, but that there are never more than twelve entries: then the first twelve count.
pub proof fn law_a_search_gives_the_first_hits<T: Mentioned>(
    all: Seq<T>,
    needle: Seq<char>,
    r: Seq<MentionItem>,
)
    requires
        first_hits(hits(all, needle), r),
    ensures
        r.len() <= 12,
        exists|places: Seq<int>|
            {
                &&& #[trigger] going_up(places, all.len())
                &&& places.len() == r.len()
                &&& forall|n: int|
                    0 <= n < r.len() ==> all[#[trigger] places[n]].found(needle)
                        && all[places[n]].entered(r[n])
                &&& forall|i: int|
                    0 <= i < all.len() && (#[trigger] all[i]).found(needle) ==> places.contains(i)
                        || (r.len() == 12 && places[11] < i)
            },
{
    let full = lemma_places_of_hits(all, needle);
    let places = full.take(r.len() as int);
    assert(going_up(places, all.len())) by {
        assert forall|n: int, m: int| 0 <= n < m < places.len() implies #[trigger] places[n]
            < #[trigger] places[m] by {
            assert(places[n] == full[n] && places[m] == full[m]);
        }
        assert forall|n: int| 0 <= n < places.len() implies 0 <= #[trigger] places[n]
            < all.len() by {
            assert(places[n] == full[n]);
        }
    }
    assert forall|n: int| 0 <= n < r.len() implies all[#[trigger] places[n]].found(needle)
        && all[places[n]].entered(r[n]) by {
        assert(places[n] == full[n]);
        assert(hits(all, needle)[n].entered(r[n]));
    }
    assert forall|i: int| 0 <= i < all.len() && (#[trigger] all[i]).found(
        needle,
    ) implies places.contains(i) || (r.len() == 12 && places[11] < i) by {
        let n = choose|n: int| 0 <= n < full.len() && full[n] == i;
        if n < r.len() {
            assert(places[n] == i);
        } else {
            assert(places[11] == full[11]);
        }
    }
}

/// Whatever is found stands in the result, as long as there is room for it.
proof fn lemma_found_is_given<T: Mentioned>(
    all: Seq<T>,
    needle: Seq<char>,
    r: Seq<MentionItem>,
    i: int,
) -> (n: int)
    requires
        first_hits(hits(all, needle), r),
        r.len() < 12,
        0 <= i < all.len(),
        all[i].found(needle),
    ensures
        0 <= n < r.len(),
        all[i].entered(r[n]),
{
    let full = lemma_places_of_hits(all, needle);
    let n = choose|n: int| 0 <= n < full.len() && full[n] == i;
    assert(hits(all, needle)[n] == all[full[n]]);
    assert(hits(all, needle)[n].entered(r[n]));
    n
}

/// Whatever stands in the result was found.
proof fn lemma_given_is_found<T: Mentioned>(
    all: Seq<T>,
    needle: Seq<char>,
    r: Seq<MentionItem>,
    n: int,
) -> (i: int)
    requires
        first_hits(hits(all, needle), r),
        0 <= n < r.len(),
    ensures
        0 <= i < all.len(),
        all[i].found(needle),
        all[i].entered(r[n]),
{
    let full = lemma_places_of_hits(all, needle);
    assert(hits(all, needle)[n] == all[full[n]]);
    assert(hits(all, needle)[n].entered(r[n]));
    full[n]
}

proof fn lemma_part(a: Seq<char>, needle: Seq<char>, b: Seq<char>)
    ensures
        contains_text(a + needle + b, needle),
        starts_with(needle + b, needle),
{
    let s = a + needle + b;
    assert(s.subrange(a.len() as int, (a.len() + needle.len()) as int) =~= needle);
    assert(occurs_at(s, needle, a.len() as int));
    assert((needle + b).subrange(0, needle.len() as int) =~= needle);
}

/// A task whose id begins with the needle is found by a search, and so is one whose prompt or
/// whose agent's name holds it in lower case. What is put into the message is the task's own id.
pub proof fn law_tasks_are_found(
    all: Seq<TaskHit>,
    needle: Seq<char>,
    r: Seq<MentionItem>,
    i: int,
    a: Seq<char>,
    b: Seq<char>,
)
    requires
        first_hits(hits(all, needle), r),
        r.len() < 12,
        0 <= i < all.len(),
        all[i].id@ == needle + b || lowercased(all[i].prompt_preview@) == a + needle + b || (
        all[i].agent_name is Some && lowercased(all[i].agent_name->0@) == a + needle + b),
    ensures
        exists|n: int|
            0 <= n < r.len() && (#[trigger] r[n]).kind == MentionKind::Task && r[n].insert@
                == "task:"@ + all[i].id@ && r[n].detail@ == all[i].status@ + " · "@ + (
            match all[i].agent_name {
                Some(name) => name@,
                None => "-"@,
            }),
{
    lemma_part(a, needle, b);
    let n = lemma_found_is_given(all, needle, r, i);
    assert(r[n].insert@ == "task:"@ + all[i].id@);
}

/// A search for tasks gives nothing but tasks whose id begins with the needle, or whose prompt or
/// agent's name holds it in lower case.
pub proof fn law_only_matching_tasks_are_found(
    all: Seq<TaskHit>,
    needle: Seq<char>,
    r: Seq<MentionItem>,
    n: int,
)
    requires
        first_hits(hits(all, needle), r),
        0 <= n < r.len(),
    ensures
        exists|i: int|
            0 <= i < all.len() && r[n].insert@ == "task:"@ + (#[trigger] all[i]).id@
                && r[n].label@ == byte_prefix(all[i].prompt_preview@, 80) && (starts_with(
                all[i].id@,
                needle,
            ) || contains_text(lowercased(all[i].prompt_preview@), needle) || (
            all[i].agent_name is Some && contains_text(lowercased(all[i].agent_name->0@), needle))),
{
    let i = lemma_given_is_found(all, needle, r, n);
    assert(r[n].insert@ == "task:"@ + all[i].id@);
}

/// A pipeline that can be mentioned is found by a part of its name in lower case, whatever the
/// case of the name, and by nothing else.
pub proof fn law_pipelines_are_found_by_name(
    all: Seq<PipelineHit>,
    needle: Seq<char>,
    r: Seq<MentionItem>,
    i: int,
    a: Seq<char>,
    b: Seq<char>,
)
    requires
        first_hits(hits(all, needle), r),
        0 <= i < all.len(),
    ensures
        r.len() < 12 && mentionable(all[i].name@) && lowercased(all[i].name@) == a + needle + b
            ==> exists|n: int|
            0 <= n < r.len() && (#[trigger] r[n]).kind == MentionKind::Pipeline && r[n].insert@
                == "pipeline:"@ + all[i].name@ && r[n].label@ == all[i].name@,
        forall|n: int|
            0 <= n < r.len() ==> exists|k: int|
                0 <= k < all.len() && (#[trigger] r[n]).insert@ == "pipeline:"@ + (
                #[trigger] all[k]).name@ && mentionable(all[k].name@) && contains_text(
                    lowercased(all[k].name@),
                    needle,
                ),
{
    lemma_part(a, needle, b);
    if r.len() < 12 && mentionable(all[i].name@) && lowercased(all[i].name@) == a + needle + b {
        let n = lemma_found_is_given(all, needle, r, i);
        assert(r[n].insert@ == "pipeline:"@ + all[i].name@);
    }
    assert forall|n: int| 0 <= n < r.len() implies exists|k: int|
        0 <= k < all.len() && (#[trigger] r[n]).insert@ == "pipeline:"@ + (#[trigger] all[k]).name@
            && mentionable(all[k].name@) && contains_text(lowercased(all[k].name@), needle) by {
        let k = lemma_given_is_found(all, needle, r, n);
        assert(r[n].insert@ == "pipeline:"@ + all[k].name@);
    }
}

/// An agent that can be mentioned is found by a part of its name in lower case, whatever the case
/// of the name, and by nothing else.
pub proof fn law_agents_are_found_by_name(
    all: Seq<AgentHit>,
    needle: Seq<char>,
    r: Seq<MentionItem>,
    i: int,
    a: Seq<char>,
    b: Seq<char>,
)
    requires
        first_hits(hits(all, needle), r),
        0 <= i < all.len(),
    ensures
        r.len() < 12 && mentionable(all[i].name@) && lowercased(all[i].name@) == a + needle + b
            ==> exists|n: int|
            0 <= n < r.len() && (#[trigger] r[n]).kind == MentionKind::Agent && r[n].insert@
                == "agent:"@ + all[i].name@ && r[n].label@ == all[i].name@ && r[n].detail@
                == all[i].model@ + " · "@ + all[i].status@,
        forall|n: int|
            0 <= n < r.len() ==> exists|k: int|
                0 <= k < all.len() && (#[trigger] r[n]).insert@ == "agent:"@ + (
                #[trigger] all[k]).name@ && mentionable(all[k].name@) && contains_text(
                    lowercased(all[k].name@),
                    needle,
                ),
{
    lemma_part(a, needle, b);
    if r.len() < 12 && mentionable(all[i].name@) && lowercased(all[i].name@) == a + needle + b {
        let n = lemma_found_is_given(all, needle, r, i);
        assert(r[n].insert@ == "agent:"@ + all[i].name@);
    }
    assert forall|n: int| 0 <= n < r.len() implies exists|k: int|
        0 <= k < all.len() && (#[trigger] r[n]).insert@ == "agent:"@ + (#[trigger] all[k]).name@
            && mentionable(all[k].name@) && contains_text(lowercased(all[k].name@), needle) by {
        let k = lemma_given_is_found(all, needle, r, n);
        assert(r[n].insert@ == "agent:"@ + all[k].name@);
    }
}

/// A schedule is found by a part of its name or the start of its id, in lower case. What is put
/// into the message is its name where that can be mentioned, and its id where only that can; one
/// that can be mentioned by neither is not found.
pub proof fn law_schedules_are_found(
    all: Seq<ScheduleHit>,
    needle: Seq<char>,
    r: Seq<MentionItem>,
    i: int,
    a: Seq<char>,
    b: Seq<char>,
)
    requires
        first_hits(hits(all, needle), r),
        0 <= i < all.len(),
    ensures
        r.len() < 12 && (lowercased(all[i].name@) == a + needle + b || lowercased(all[i].id@)
            == needle + b) && (mentionable(all[i].name@) || mentionable(all[i].id@))
            ==> exists|n: int|
            0 <= n < r.len() && (#[trigger] r[n]).kind == MentionKind::Schedule && r[n].insert@
                == "schedule:"@ + (if mentionable(all[i].name@) {
                all[i].name@
            } else {
                all[i].id@
            }) && r[n].label@ == all[i].name@,
        forall|n: int|
            0 <= n < r.len() ==> exists|k: int|
                0 <= k < all.len() && (#[trigger] r[n]).label@ == (#[trigger] all[k]).name@ && (
                mentionable(all[k].name@) || mentionable(all[k].id@)) && (contains_text(
                    lowercased(all[k].name@),
                    needle,
                ) || starts_with(lowercased(all[k].id@), needle)),
{
    lemma_part(a, needle, b);
    if r.len() < 12 && (lowercased(all[i].name@) == a + needle + b || lowercased(all[i].id@)
        == needle + b) && (mentionable(all[i].name@) || mentionable(all[i].id@)) {
        let n = lemma_found_is_given(all, needle, r, i);
        assert(r[n].label@ == all[i].name@);
    }
    assert forall|n: int| 0 <= n < r.len() implies exists|k: int|
        0 <= k < all.len() && (#[trigger] r[n]).label@ == (#[trigger] all[k]).name@ && (mentionable(
            all[k].name@,
        ) || mentionable(all[k].id@)) && (contains_text(lowercased(all[k].name@), needle)
            || starts_with(lowercased(all[k].id@), needle)) by {
        let k = lemma_given_is_found(all, needle, r, n);
        assert(r[n].label@ == all[k].name@);
    }
}

/// A word in front of the colon names what is looked for, and the words are those that a mention
/// begins with.
pub proof fn law_words_name_kinds(word: Seq<char>)
    ensures
        kind_of(word) == Some(MentionKind::Task) <==> word == "task"@,
        kind_of(word) == Some(MentionKind::Pipeline) <==> word == "pipeline"@,
        kind_of(word) == Some(MentionKind::Agent) <==> word == "agent"@,
        kind_of(word) == Some(MentionKind::Schedule) <==> word == "schedule"@,
        kind_of(word) is None <==> word != "task"@ && word != "pipeline"@ && word != "agent"@
            && word != "schedule"@,
{
    reveal_strlit("task");
    reveal_strlit("pipeline");
    reveal_strlit("agent");
    reveal_strlit("schedule");
    assert("task"@.len() == 4 && "pipeline"@.len() == 8 && "agent"@.len() == 5
        && "schedule"@.len() == 8);
    assert("pipeline"@[0] != "schedule"@[0]);
}

/// A schedule is meant by its id before it is meant by its name, and of several with the same name
/// the first is meant.
pub proof fn law_ids_mean_a_schedule_before_names_do(all: Seq<ScheduleHit>, name: Seq<char>)
    ensures
        ({
            let at = schedule_at(all, name);
            let by_id = exists|i: int| 0 <= i < all.len() && (#[trigger] all[i]).id@ == name;
            let by_name = exists|i: int| 0 <= i < all.len() && (#[trigger] all[i]).name@ == name;
            &&& by_id ==> 0 <= at < all.len() && all[at].id@ == name && forall|i: int|
                0 <= i < at ==> (#[trigger] all[i]).id@ != name
            &&& !by_id && by_name ==> 0 <= at < all.len() && all[at].name@ == name && forall|i: int|
                0 <= i < at ==> (#[trigger] all[i]).name@ != name
            &&& !by_id && !by_name ==> at >= all.len()
        }),
{
    lemma_id_at(all, name, 0);
    lemma_name_at(all, name, 0);
}

proof fn lemma_id_at(all: Seq<ScheduleHit>, name: Seq<char>, from: int)
    requires
        0 <= from <= all.len(),
    ensures
        from <= id_at(all, name, from) <= all.len(),
        id_at(all, name, from) < all.len() ==> all[id_at(all, name, from)].id@ == name,
        forall|i: int| from <= i < id_at(all, name, from) ==> (#[trigger] all[i]).id@ != name,
    decreases all.len() - from,
{
    if from < all.len() && all[from].id@ != name {
        lemma_id_at(all, name, from + 1);
    }
}

proof fn lemma_name_at(all: Seq<ScheduleHit>, name: Seq<char>, from: int)
    requires
        0 <= from <= all.len(),
    ensures
        from <= name_at(all, name, from) <= all.len(),
        name_at(all, name, from) < all.len() ==> all[name_at(all, name, from)].name@ == name,
        forall|i: int| from <= i < name_at(all, name, from) ==> (#[trigger] all[i]).name@ != name,
    decreases all.len() - from,
{
    if from < all.len() && all[from].name@ != name {
        lemma_name_at(all, name, from + 1);
    }
}

/// A block names what is mentioned and each of its attributes, all of it escaped, and holds its
/// text between its own tags. A text that is too long is cut, and the block says how long it was.
pub proof fn law_blocks_hold_what_is_mentioned(
    entity_type: Seq<char>,
    attrs: Seq<(&str, &str)>,
    body: Seq<char>,
    i: int,
)
    requires
        0 <= i < attrs.len(),
    ensures
        ({
            let block = block_text(entity_type, attrs, body);
            &&& starts_with(
                block,
                "<user_data type=\""@ + escaped(entity_type, Entities::NoApostrophe) + "\""@,
            )
            &&& contains_text(
                block,
                " "@ + attrs[i].0@ + "=\""@ + escaped(attrs[i].1@, Entities::NoApostrophe) + "\""@,
            )
            &&& ends_with(
                block,
                ">\n"@ + block_escaped(byte_prefix(body, 8192), 0) + "\n</user_data>\n\n"@,
            )
            &&& utf8_len(body) > 8192 ==> contains_text(
                block,
                " truncated=\"true\" total_bytes=\""@ + decimal(utf8_len(body)) + "\""@,
            )
        }),
{
    let block = block_text(entity_type, attrs, body);
    let head = "<user_data type=\""@ + escaped(entity_type, Entities::NoApostrophe) + "\""@;
    let list = attrs_text(attrs);
    let note = cut_text(body);
    let tail = ">\n"@ + block_escaped(byte_prefix(body, 8192), 0) + "\n</user_data>\n\n"@;
    assert(block =~= head + list + note + tail);
    assert(block.subrange(0, head.len() as int) =~= head);
    assert(block.subrange(block.len() - tail.len(), block.len() as int) =~= tail);
    let (a, b) = lemma_attr_stands(attrs, i);
    let attr = " "@ + attrs[i].0@ + "=\""@ + escaped(attrs[i].1@, Entities::NoApostrophe) + "\""@;
    assert(block =~= (head + a) + attr + (b + note + tail));
    lemma_part(head + a, attr, b + note + tail);
    lemma_part(head + list, note, tail);
}

proof fn lemma_attr_stands(attrs: Seq<(&str, &str)>, i: int) -> (r: (Seq<char>, Seq<char>))
    requires
        0 <= i < attrs.len(),
    ensures
        attrs_text(attrs) == r.0 + (" "@ + attrs[i].0@ + "=\""@ + escaped(
            attrs[i].1@,
            Entities::NoApostrophe,
        ) + "\""@) + r.1,
    decreases attrs.len(),
{
    let less = attrs.drop_last();
    let last = " "@ + attrs.last().0@ + "=\""@ + escaped(attrs.last().1@, Entities::NoApostrophe)
        + "\""@;
    assert(attrs_text(attrs) =~= attrs_text(less) + last);
    if i < less.len() {
        let (a, b) = lemma_attr_stands(less, i);
        let attr = " "@ + attrs[i].0@ + "=\""@ + escaped(attrs[i].1@, Entities::NoApostrophe)
            + "\""@;
        assert(less[i] == attrs[i]);
        assert(attrs_text(attrs) =~= a + attr + (b + last));
        (a, b + last)
    } else {
        assert(attrs_text(attrs) =~= attrs_text(less) + last + Seq::<char>::empty());
        (attrs_text(less), Seq::empty())
    }
}

/// An entry of the search says what it would mention: its kind, the word for it with the id or
/// the name behind a colon, the beginning of what it is called, and what is known of it. What is
/// not known is a dash, and a schedule without a rhythm runs once.
pub proof fn law_entries_say_what_they_mention(
    task: TaskHit,
    pipeline: PipelineHit,
    agent: AgentHit,
    schedule: ScheduleHit,
    item: MentionItem,
)
    ensures
        task.entered(item) ==> {
            &&& item.kind == MentionKind::Task && item.insert@ == "task:"@ + task.id@
            &&& starts_with(task.prompt_preview@, item.label@)
            &&& starts_with(item.detail@, task.status@)
            &&& task.agent_name is Some ==> ends_with(item.detail@, task.agent_name->0@)
            &&& task.agent_name is None ==> ends_with(item.detail@, "-"@)
        },
        pipeline.entered(item) ==> {
            &&& item.kind == MentionKind::Pipeline && item.insert@ == "pipeline:"@ + pipeline.name@
            &&& item.label@ == pipeline.name@
            &&& starts_with(item.detail@, decimal(pipeline.step_count as nat) + " steps"@)
            &&& pipeline.description is Some ==> ends_with(item.detail@, pipeline.description->0@)
        },
        agent.entered(item) ==> {
            &&& item.kind == MentionKind::Agent && item.insert@ == "agent:"@ + agent.name@
            &&& item.label@ == agent.name@
            &&& starts_with(item.detail@, agent.model@)
            &&& ends_with(item.detail@, agent.status@)
        },
        schedule.entered(item) ==> {
            &&& item.kind == MentionKind::Schedule
            &&& item.label@ == schedule.name@
            &&& starts_with(item.detail@, schedule.kind@)
            &&& schedule.cron is Some ==> ends_with(item.detail@, schedule.cron->0@)
            &&& schedule.cron is None ==> ends_with(item.detail@, "once"@)
        },
{
    let d = item.detail@;
    if task.entered(item) {
        law_byte_prefix_is_longest(task.prompt_preview@, MAX_LABEL_BYTES as nat);
        let back = or_dash(task.agent_name);
        assert(d.subrange(0, task.status@.len() as int) =~= task.status@);
        assert(d.subrange(d.len() - back.len(), d.len() as int) =~= back);
    }
    if pipeline.entered(item) {
        reveal_strlit(" steps");
        reveal_strlit(" steps · ");
        let front = decimal(pipeline.step_count as nat) + " steps"@;
        let back = or_dash(pipeline.description);
        assert(d.subrange(0, front.len() as int) =~= front);
        assert(d.subrange(d.len() - back.len(), d.len() as int) =~= back);
    }
    if agent.entered(item) {
        assert(d.subrange(0, agent.model@.len() as int) =~= agent.model@);
        assert(d.subrange(d.len() - agent.status@.len(), d.len() as int) =~= agent.status@);
    }
    if schedule.entered(item) {
        let back = schedule.cadence();
        assert(d.subrange(0, schedule.kind@.len() as int) =~= schedule.kind@);
        assert(d.subrange(d.len() - back.len(), d.len() as int) =~= back);
    }
}

/// A schedule is mentioned by its name where a mention of the name can be read back, else by its
/// id, and not at all where neither can.
pub proof fn law_schedules_are_mentioned_by_name_first(s: ScheduleHit)
    ensures
        mentionable(s.name@) ==> s.token() == Some(s.name@),
        !mentionable(s.name@) && mentionable(s.id@) ==> s.token() == Some(s.id@),
        !mentionable(s.name@) && !mentionable(s.id@) ==> s.token() is None,
{
}

/// A body that is cut says so, with the bytes that it had; one that is not cut says nothing.
pub proof fn law_cut_bodies_say_so(body: Seq<char>)
    ensures
        utf8_len(body) <= MAX_BODY_BYTES ==> cut_text(body).len() == 0,
        utf8_len(body) > MAX_BODY_BYTES ==> cut_text(body) == " truncated=\"true\" total_bytes=\""@
            + decimal(utf8_len(body)) + "\""@,
{
}

} // verus!
