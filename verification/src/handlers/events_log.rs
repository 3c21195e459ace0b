//! The events page: what was emitted, who subscribes to what, and events emitted by hand.

use crate::chat_store::first_of;
use crate::clock::{Moment, STAMP_PATTERN};
use crate::ids::{format_uuid, uuid_text};
use crate::json::{
    compact, compact_text, copied, entry_contents, object, parse_json, parsed, text_entry, Json, JsonV,
};
use crate::reply::Reply;
use crate::select::{choose_first, chosen, Picks};
use crate::text::{
    contains_text, law_trimming_cuts_the_ends, lowercased, opt_text, same, str_contains, trim,
    trimmed, whitespace,
};
use vstd::prelude::*;

verus! {

/// What the page is asked for.
pub struct EventsQuery {
    pub q: Option<String>,
    pub event_type: Option<String>,
    pub agent_id: Option<String>,
    pub limit: Option<u32>,
}

/// The least of two numbers.
pub open spec fn least(a: int, b: int) -> int {
    if a < b {
        a
    } else {
        b
    }
}

/// How many rows are shown: two hundred where nothing is asked for, and from one to a thousand.
pub open spec fn row_limit(asked: Option<u32>) -> u32 {
    match asked {
        Some(n) => if n < 1 {
            1
        } else if n > 1000 {
            1000
        } else {
            n
        },
        None => 200,
    }
}

/// How many rows are shown.
pub fn limit_of(asked: Option<u32>) -> (r: u32)
    ensures
        r == row_limit(asked),
        1 <= r <= 1000,
{
    match asked {
        Some(n) => if n < 1 {
            1
        } else if n > 1000 {
            1000
        } else {
            n
        },
        None => 200,
    }
}

/// How many entries of the audit log are looked through for so many rows.
pub fn fetch_limit(limit: u32) -> (r: u32)
    ensures
        r == least(limit * 5, 5000),
{
    if limit >= 1000 {
        5000
    } else {
        limit * 5
    }
}

/// An entry of the audit log.
pub struct EventEntry {
    /// Whether it records that an event was emitted.
    pub emitted: bool,
    pub at: Moment,
    pub trace_id: u128,
    pub severity: String,
    pub agent_id: Option<u128>,
    pub task_id: Option<u128>,
    pub details: Json,
}

/// Which entries are shown. The texts are in lower case; an empty one asks for nothing.
pub struct EventFilter {
    pub q: String,
    pub event_type: String,
    pub agent_id: String,
}

/// A text that is asked for, in lower case.
pub open spec fn asked_text(field: Option<Seq<char>>) -> Seq<char> {
    match field {
        Some(s) => lowercased(s),
        None => lowercased(""@),
    }
}

fn asked_for(field: &Option<String>) -> (r: String)
    ensures
        r@ == asked_text(opt_text(*field)),
{
    match field {
        Some(s) => s.as_str().to_lowercase(),
        None => "".to_lowercase(),
    }
}

/// What a query filters by.
pub fn event_filter(query: &EventsQuery) -> (r: EventFilter)
    ensures
        r.q@ == asked_text(opt_text(query.q)),
        r.event_type@ == asked_text(opt_text(query.event_type)),
        r.agent_id@ == asked_text(opt_text(query.agent_id)),
{
    EventFilter {
        q: asked_for(&query.q),
        event_type: asked_for(&query.event_type),
        agent_id: asked_for(&query.agent_id),
    }
}

fn is_empty(s: &str) -> (r: bool)
    ensures
        r == (s@.len() == 0),
{
    proof {
        reveal_strlit("");
    }
    assert(s@.len() == 0 ==> s@ =~= ""@);
    same(s, "")
}

impl Picks<EventEntry> for EventFilter {
    /// An emitted event whose details, type and agent hold what is asked for.
    open spec fn picks(&self, row: EventEntry) -> bool {
        &&& row.emitted
        &&& self.q@.len() > 0 ==> contains_text(lowercased(compact_text(row.details@)), self.q@)
        &&& self.event_type@.len() > 0 ==> (row.details@.text_at("event_type"@) matches Some(t)
            && contains_text(lowercased(t), self.event_type@))
        &&& self.agent_id@.len() > 0 ==> (row.agent_id matches Some(id) && contains_text(
            lowercased(uuid_text(id)),
            self.agent_id@,
        ))
    }

    fn takes(&self, row: &EventEntry) -> (r: bool) {
        if !row.emitted {
            return false;
        }
        if !is_empty(self.q.as_str()) {
            let details: String = compact(&row.details).as_str().to_lowercase();
            if !str_contains(details.as_str(), self.q.as_str()) {
                return false;
            }
        }
        if !is_empty(self.event_type.as_str()) {
            match row.details.text_at("event_type") {
                Some(t) => {
                    let t: String = t.to_lowercase();
                    if !str_contains(t.as_str(), self.event_type.as_str()) {
                        return false;
                    }
                },
                None => {
                    return false;
                },
            }
        }
        if !is_empty(self.agent_id.as_str()) {
            match row.agent_id {
                Some(id) => {
                    let id: String = format_uuid(id).as_str().to_lowercase();
                    if !str_contains(id.as_str(), self.agent_id.as_str()) {
                        return false;
                    }
                },
                None => {
                    return false;
                },
            }
        }
        true
    }
}

/// An event as it is shown.
pub struct EventRow {
    pub timestamp: String,
    pub trace_id: String,
    pub event_type: String,
    pub event_source: String,
    pub severity: String,
    pub agent_id: String,
    pub task_id: String,
    pub details: Json,
}

/// The text of an id, empty where there is none.
pub open spec fn id_text(id: Option<u128>) -> Seq<char> {
    match id {
        Some(id) => uuid_text(id),
        None => ""@,
    }
}

fn text_of_id(id: Option<u128>) -> (r: String)
    ensures
        r@ == id_text(id),
{
    match id {
        Some(id) => format_uuid(id),
        None => "".to_owned(),
    }
}

/// Whether the row shows the entry.
pub open spec fn row_of(row: EventRow, entry: EventEntry) -> bool {
    &&& row.timestamp@ == entry.at.stamped(STAMP_PATTERN@)
    &&& row.trace_id@ == uuid_text(entry.trace_id)
    &&& row.event_type@ == entry.details@.text_or("event_type"@, ""@)
    &&& row.event_source@ == entry.details@.text_or("source"@, ""@)
    &&& row.severity@ == entry.severity@
    &&& row.agent_id@ == id_text(entry.agent_id)
    &&& row.task_id@ == id_text(entry.task_id)
    &&& row.details@ == entry.details@
}

/// The entry as a row.
pub fn event_row(entry: &EventEntry) -> (r: EventRow)
    ensures
        row_of(r, *entry),
{
    EventRow {
        timestamp: entry.at.stamp(STAMP_PATTERN),
        trace_id: format_uuid(entry.trace_id),
        event_type: entry.details.text_or("event_type", ""),
        event_source: entry.details.text_or("source", ""),
        severity: entry.severity.clone(),
        agent_id: text_of_id(entry.agent_id),
        task_id: text_of_id(entry.task_id),
        details: copied(&entry.details),
    }
}

/// The rows of the page: those entries that meet the query, in order, as many as it asks for.
pub fn page(entries: &Vec<EventEntry>, filter: &EventFilter, limit: u32) -> (r: Vec<EventRow>)
    ensures
        ({
            let shown = first_of(
                chosen::<'static, EventEntry, EventFilter>(entries@, *filter),
                limit as int,
            );
            &&& r@.len() == shown.len()
            &&& forall|k: int| 0 <= k < shown.len() ==> row_of(#[trigger] r@[k], *shown[k])
        }),
{
    let picked: Vec<&EventEntry> = choose_first(entries, filter, limit as usize);
    let mut out: Vec<EventRow> = Vec::new();
    let mut i: usize = 0;
    while i < picked.len()
        invariant
            i <= picked@.len(),
            out@.len() == i,
            forall|k: int| 0 <= k < i ==> row_of(#[trigger] out@[k], *picked@[k]),
        decreases picked.len() - i,
    {
        out.push(event_row(picked[i]));
        i += 1;
    }
    out
}

/// An agent, and its name.
pub struct AgentName {
    pub id: u128,
    pub name: String,
}

/// The name of an agent, where it is known.
pub open spec fn name_of(agents: Seq<AgentName>, id: u128) -> Seq<char>
    decreases agents.len(),
{
    if agents.len() == 0 {
        "(unknown)"@
    } else if agents.last().id == id {
        agents.last().name@
    } else {
        name_of(agents.drop_last(), id)
    }
}

/// The name that a subscription is shown with.
pub fn subscriber_name(agents: &Vec<AgentName>, id: u128) -> (r: String)
    ensures
        r@ == name_of(agents@, id),
{
    let mut i: usize = agents.len();
    assert(agents@.take(i as int) =~= agents@);
    while i > 0
        invariant
            i <= agents@.len(),
            name_of(agents@, id) == name_of(agents@.take(i as int), id),
        decreases i,
    {
        assert(agents@.take(i as int).last() == agents@[i - 1]);
        assert(agents@.take(i as int).drop_last() =~= agents@.take(i - 1));
        i -= 1;
        if agents[i].id == id {
            return agents[i].name.clone();
        }
    }
    "(unknown)".to_owned()
}

/// How many of the categories are allowed.
pub open spec fn allowed_count(report: Seq<bool>) -> nat
    decreases report.len(),
{
    if report.len() == 0 {
        0
    } else {
        allowed_count(report.drop_last()) + if report.last() {
            1nat
        } else {
            0nat
        }
    }
}

/// How many of the categories an agent may subscribe to.
pub fn count_allowed(report: &Vec<bool>) -> (r: usize)
    ensures
        r == allowed_count(report@),
{
    let mut n: usize = 0;
    let mut i: usize = 0;
    assert(report@.take(0) =~= Seq::<bool>::empty());
    while i < report.len()
        invariant
            i <= report@.len(),
            n <= i,
            n == allowed_count(report@.take(i as int)),
        decreases report.len() - i,
    {
        assert(report@.take(i + 1).drop_last() =~= report@.take(i as int));
        if report[i] {
            n += 1;
        }
        i += 1;
    }
    assert(report@.take(i as int) =~= report@);
    n
}

/// The form that subscribes an agent.
pub struct CreateSubscriptionForm {
    pub agent_name: String,
    pub event_filter: String,
    pub payload_filter: Option<String>,
    pub throttle: Option<String>,
    pub priority: Option<String>,
}

/// What is subscribed to.
pub struct Subscription {
    pub agent_name: String,
    pub event_filter: String,
    pub payload_filter: Option<String>,
    pub throttle: Option<String>,
    pub priority: Option<String>,
}

/// A choice of the form: without the blanks around it, and none where it is empty or "none".
pub open spec fn choice(field: Option<Seq<char>>) -> Option<Seq<char>> {
    match field {
        Some(s) => if trim(s).len() == 0 || trim(s) == "none"@ {
            None
        } else {
            Some(trim(s))
        },
        None => None,
    }
}

fn chosen_value(field: &Option<String>) -> (r: Option<String>)
    ensures
        opt_text(r) == choice(opt_text(*field)),
{
    match field {
        Some(s) => {
            let t: String = trimmed(s.as_str());
            if is_empty(t.as_str()) || same(t.as_str(), "none") {
                None
            } else {
                Some(t)
            }
        },
        None => None,
    }
}

/// Reads the form that subscribes an agent.
pub fn create_subscription(form: &CreateSubscriptionForm) -> (r: Result<Subscription, Reply>)
    ensures
        match r {
            Ok(s) => {
                &&& trim(form.agent_name@).len() > 0
                &&& trim(form.event_filter@).len() > 0
                &&& s.agent_name@ == trim(form.agent_name@)
                &&& s.event_filter@ == trim(form.event_filter@)
                &&& opt_text(s.payload_filter) == choice(opt_text(form.payload_filter))
                &&& opt_text(s.throttle) == choice(opt_text(form.throttle))
                &&& opt_text(s.priority) == choice(opt_text(form.priority))
            },
            Err(reply) => (trim(form.agent_name@).len() == 0 || trim(form.event_filter@).len() == 0)
                && reply.is(400, "agent_name and event_filter required"@),
        },
{
    let agent_name: String = trimmed(form.agent_name.as_str());
    let event_filter: String = trimmed(form.event_filter.as_str());
    if is_empty(agent_name.as_str()) || is_empty(event_filter.as_str()) {
        return Err(Reply::new(400, "agent_name and event_filter required"));
    }
    Ok(
        Subscription {
            agent_name,
            event_filter,
            payload_filter: chosen_value(&form.payload_filter),
            throttle: chosen_value(&form.throttle),
            priority: chosen_value(&form.priority),
        },
    )
}

/// What the kernel answered.
pub enum KernelAnswer {
    Done,
    Error(String),
    /// An answer that is not expected, as it is written out.
    Other(String),
}

/// The answer where the kernel did not do what it was asked for.
pub fn kernel_error(answer: &KernelAnswer) -> (r: Option<Reply>)
    ensures
        match *answer {
            KernelAnswer::Done => r is None,
            KernelAnswer::Error(message) => r matches Some(reply) && reply.is(400, message@),
            KernelAnswer::Other(shown) => r matches Some(reply) && reply.is(
                500,
                "unexpected response: "@ + shown@,
            ),
        },
{
    match answer {
        KernelAnswer::Done => None,
        KernelAnswer::Error(message) => Some(Reply::new(400, message.as_str())),
        KernelAnswer::Other(shown) => {
            let mut body: String = "unexpected response: ".to_owned();
            body.push_str(shown.as_str());
            Some(Reply { status: 500, body })
        },
    }
}

/// The form that emits an event by hand.
pub struct EmitEventForm {
    pub event_type: String,
    pub severity: Option<String>,
    /// JSON, if any. An empty text stands for `{}`.
    pub payload: Option<String>,
}

/// How bad an event is.
#[derive(Clone, Copy, PartialEq, Eq, Structural, Debug)]
pub enum EventSeverity {
    Info,
    Warning,
    Critical,
}

/// The severity of this name.
pub open spec fn severity_named(name: Seq<char>) -> Option<EventSeverity> {
    if name == "info"@ || name == "Info"@ {
        Some(EventSeverity::Info)
    } else if name == "warning"@ || name == "Warning"@ {
        Some(EventSeverity::Warning)
    } else if name == "critical"@ || name == "Critical"@ {
        Some(EventSeverity::Critical)
    } else {
        None
    }
}

/// The severity of this name.
pub fn parse_severity(name: &str) -> (r: Option<EventSeverity>)
    ensures
        r == severity_named(name@),
{
    if same(name, "info") || same(name, "Info") {
        Some(EventSeverity::Info)
    } else if same(name, "warning") || same(name, "Warning") {
        Some(EventSeverity::Warning)
    } else if same(name, "critical") || same(name, "Critical") {
        Some(EventSeverity::Critical)
    } else {
        None
    }
}

/// The severity that is asked for: a warning, where nothing is said.
pub open spec fn asked_severity(field: Option<Seq<char>>) -> Seq<char> {
    match field {
        Some(s) => s,
        None => "warning"@,
    }
}

/// The payload that is asked for.
pub open spec fn asked_payload(field: Option<Seq<char>>) -> Result<JsonV, Seq<char>> {
    match field {
        None => Ok(JsonV::Object(seq![("source"@, JsonV::Text("web_ui_test_emit"@))])),
        Some(raw) => if raw.len() == 0 {
            Ok(JsonV::Object(Seq::empty()))
        } else {
            parsed(raw)
        },
    }
}

fn payload_of(field: &Option<String>) -> (r: Result<Json, String>)
    ensures
        match r {
            Ok(j) => asked_payload(opt_text(*field)) == Ok::<JsonV, Seq<char>>(j@),
            Err(e) => asked_payload(opt_text(*field)) == Err::<JsonV, Seq<char>>(e@),
        },
{
    match field {
        None => {
            let entries: Vec<(String, Json)> = vec![text_entry("source", "web_ui_test_emit")];
            assert(entry_contents(entries@) =~= seq![
                ("source"@, JsonV::Text("web_ui_test_emit"@)),
            ]);
            Ok(object(entries))
        },
        Some(raw) => if is_empty(raw.as_str()) {
            let entries: Vec<(String, Json)> = Vec::new();
            assert(entry_contents(entries@) =~= Seq::empty());
            Ok(object(entries))
        } else {
            parse_json(raw.as_str())
        },
    }
}

/// What is wrong with the form that emits an event, if anything: the first complaint that
/// applies. `known` says whether the catalog has the type.
pub open spec fn emit_complaint(form: EmitEventForm, known: bool) -> Option<Seq<char>> {
    if !known {
        Some(
            "unknown event type '"@ + form.event_type@
                + "'. Use one from the catalog (e.g. DiskSpaceLow, CPUSpikeDetected)."@,
        )
    } else if severity_named(asked_severity(opt_text(form.severity))) is None {
        Some(
            "unknown severity '"@ + asked_severity(opt_text(form.severity))
                + "'. Use info/warning/critical."@,
        )
    } else {
        match asked_payload(opt_text(form.payload)) {
            Ok(_) => None,
            Err(e) => Some("payload must be JSON: "@ + e),
        }
    }
}

/// Reads the form that emits an event. `known` says whether the catalog has the type.
pub fn emit_test_event(form: &EmitEventForm, known: bool) -> (r: Result<
    (EventSeverity, Json),
    Reply,
>)
    ensures
        match r {
            Ok((severity, payload)) => {
                &&& emit_complaint(*form, known) is None
                &&& severity_named(asked_severity(opt_text(form.severity))) == Some(severity)
                &&& asked_payload(opt_text(form.payload)) == Ok::<JsonV, Seq<char>>(payload@)
            },
            Err(reply) => emit_complaint(*form, known) matches Some(complaint) && reply.is(
                400,
                complaint,
            ),
        },
{
    if !known {
        let mut body: String = "unknown event type '".to_owned();
        body.push_str(form.event_type.as_str());
        body.push_str("'. Use one from the catalog (e.g. DiskSpaceLow, CPUSpikeDetected).");
        return Err(Reply { status: 400, body });
    }
    let name: &str = match &form.severity {
        Some(s) => s.as_str(),
        None => "warning",
    };
    let severity: EventSeverity = match parse_severity(name) {
        Some(s) => s,
        None => {
            let mut body: String = "unknown severity '".to_owned();
            body.push_str(name);
            body.push_str("'. Use info/warning/critical.");
            return Err(Reply { status: 400, body });
        },
    };
    match payload_of(&form.payload) {
        Ok(payload) => Ok((severity, payload)),
        Err(e) => {
            let mut body: String = "payload must be JSON: ".to_owned();
            body.push_str(e.as_str());
            Err(Reply { status: 400, body })
        },
    }
}

/// As many rows are shown as are asked for, but at least one and at most a thousand; two hundred
/// where nothing is asked for.
pub proof fn law_row_limits_are_kept(n: u32)
    ensures
        row_limit(None) == 200,
        1 <= n <= 1000 ==> row_limit(Some(n)) == n,
        n > 1000 ==> row_limit(Some(n)) == 1000,
        row_limit(Some(0)) == 1,
{
}

/// An agent is called by its name where one of that id is known, by the last one where several
/// are, and is unknown otherwise.
pub proof fn law_agents_are_called_by_name(agents: Seq<AgentName>, id: u128, at: int)
    requires
        -1 <= at < agents.len(),
        at >= 0 ==> agents[at].id == id,
        forall|k: int| at < k < agents.len() ==> (#[trigger] agents[k]).id != id,
    ensures
        at >= 0 ==> name_of(agents, id) == agents[at].name@,
        at < 0 ==> name_of(agents, id) == "(unknown)"@,
    decreases agents.len(),
{
    if agents.len() > 0 && at < agents.len() - 1 {
        assert(agents[agents.len() - 1].id != id);
        let rest = agents.drop_last();
        assert forall|k: int| at < k < rest.len() implies (#[trigger] rest[k]).id != id by {
            assert(rest[k] == agents[k]);
        }
        law_agents_are_called_by_name(rest, id, at);
    }
}

/// Each category that is allowed counts once.
pub proof fn law_allowed_categories_count(report: Seq<bool>)
    ensures
        allowed_count(Seq::empty()) == 0,
        allowed_count(report.push(true)) == allowed_count(report) + 1,
        allowed_count(report.push(false)) == allowed_count(report),
        allowed_count(report) <= report.len(),
    decreases report.len(),
{
    assert(report.push(true).drop_last() =~= report);
    assert(report.push(false).drop_last() =~= report);
    if report.len() > 0 {
        law_allowed_categories_count(report.drop_last());
    }
}

/// A choice is what was typed, without the blanks around it; nothing, blanks and the word `none`
/// are no choice.
pub proof fn law_choices_are_what_was_typed(front: Seq<char>, word: Seq<char>, back: Seq<char>)
    requires
        forall|i: int| 0 <= i < front.len() ==> whitespace(#[trigger] front[i]),
        forall|i: int| 0 <= i < back.len() ==> whitespace(#[trigger] back[i]),
        word.len() > 0 && !whitespace(word[0]) && !whitespace(word.last()),
    ensures
        choice(None) is None,
        choice(Some(front)) is None,
        word != "none"@ ==> choice(Some(front + word + back)) == Some(word),
        word == "none"@ ==> choice(Some(front + word + back)) is None,
{
    let nothing = Seq::<char>::empty();
    law_trimming_cuts_the_ends(front, nothing, nothing);
    assert(front + nothing + nothing =~= front);
    law_trimming_cuts_the_ends(front, word, back);
}

/// The three severities go by their names, with or without a capital; another word is none. Where
/// none is named it is a warning.
pub proof fn law_severities_go_by_name(name: Seq<char>)
    ensures
        severity_named(name) == Some(EventSeverity::Info) <==> name == "info"@ || name == "Info"@,
        severity_named(name) == Some(EventSeverity::Warning) <==> name == "warning"@ || name
            == "Warning"@,
        severity_named(name) == Some(EventSeverity::Critical) <==> name == "critical"@ || name
            == "Critical"@,
        severity_named(asked_severity(None)) == Some(EventSeverity::Warning),
{
    reveal_strlit("info");
    reveal_strlit("Info");
    reveal_strlit("warning");
    reveal_strlit("Warning");
    reveal_strlit("critical");
    reveal_strlit("Critical");
    assert("info"@.len() == 4 && "Info"@.len() == 4);
    assert("warning"@.len() == 7 && "Warning"@.len() == 7);
    assert("critical"@.len() == 8 && "Critical"@.len() == 8);
}

/// An event is emitted exactly where its type is known, its severity is one and its payload is
/// JSON, or left out.
pub proof fn law_sound_forms_are_emitted(form: EmitEventForm, known: bool)
    ensures
        emit_complaint(form, known) is None <==> {
            &&& known
            &&& severity_named(asked_severity(opt_text(form.severity))) is Some
            &&& form.payload is None || form.payload->0@.len() == 0 || parsed(
                form.payload->0@,
            ) is Ok
        },
{
}

/// An event is shown exactly where it was emitted and everything that is asked for holds of it:
/// the words stand in its details, and its type and its agent's id hold those that are named.
pub proof fn law_emitted_events_are_found(filter: EventFilter, row: EventEntry)
    ensures
        filter.picks(row) <==> {
            &&& row.emitted
            &&& filter.q@.len() == 0 || contains_text(
                lowercased(compact_text(row.details@)),
                filter.q@,
            )
            &&& filter.event_type@.len() == 0 || (row.details@.text_at("event_type"@) is Some
                && contains_text(
                lowercased(row.details@.text_at("event_type"@)->0),
                filter.event_type@,
            ))
            &&& filter.agent_id@.len() == 0 || (row.agent_id is Some && contains_text(
                lowercased(uuid_text(row.agent_id->0)),
                filter.agent_id@,
            ))
        },
{
}

/// A row shows its entry: its ids as text, empty where there is none, and the type and the source
/// that its details name.
pub proof fn law_event_rows_show_their_entry(row: EventRow, entry: EventEntry)
    requires
        row_of(row, entry),
    ensures
        row.trace_id@ == uuid_text(entry.trace_id),
        row.severity@ == entry.severity@,
        row.details@ == entry.details@,
        row.timestamp@ == entry.at.stamped(STAMP_PATTERN@),
        entry.agent_id is Some ==> row.agent_id@ == uuid_text(entry.agent_id->0),
        entry.agent_id is None ==> row.agent_id@ == ""@,
        entry.task_id is Some ==> row.task_id@ == uuid_text(entry.task_id->0),
        entry.task_id is None ==> row.task_id@ == ""@,
        entry.details@.text_at("event_type"@) is Some ==> row.event_type@ == entry.details@.text_at(
            "event_type"@,
        )->0,
        entry.details@.text_at("source"@) is Some ==> row.event_source@ == entry.details@.text_at(
            "source"@,
        )->0,
{
}

} // verus!
