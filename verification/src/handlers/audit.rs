//! The audit pages: the entries of the log, and one entry in full.

use crate::clock::{Moment, STAMP_PATTERN, STAMP_UTC_PATTERN};
use crate::ids::{short, short_id, uuid_like, is_uuid};
use crate::json::{pretty, pretty_text, Json};
use crate::reply::{Lookup, Reply};
use crate::select::{choose_rows, chosen, Picks};
use crate::text::{
    chars_of, contains_text, lemma_trim_ends, lemma_trim_is_part, lowercased, occurs_at, opt_text, same, str_contains, string_of, trim_by,
    trim_chars, Cut,
};
use vstd::prelude::*;

verus! {

/// What the list is asked for.
pub struct ListQuery {
    pub partial: Option<String>,
    pub limit: Option<u32>,
    pub event_type: Option<String>,
    pub severity: Option<String>,
    pub from_ts: Option<Moment>,
    pub to_ts: Option<Moment>,
}

/// What the log is asked for.
pub struct AuditFilter {
    pub limit: u32,
    pub severity: Option<String>,
    pub from: Option<Moment>,
    pub to: Option<Moment>,
}

/// What the log is asked for: fifty entries where nothing is said, and never more than a
/// thousand.
pub fn audit_filter(query: &ListQuery) -> (r: AuditFilter)
    ensures
        r.limit == match query.limit {
            Some(n) => if n > 1000 {
                1000
            } else {
                n
            },
            None => 50,
        },
        opt_text(r.severity) == match query.severity {
            Some(s) => if s@.len() > 0 {
                Some(s@)
            } else {
                None
            },
            None => None,
        },
        r.from == query.from_ts,
        r.to == query.to_ts,
{
    let limit: u32 = match query.limit {
        Some(n) => if n > 1000 {
            1000
        } else {
            n
        },
        None => 50,
    };
    proof {
        reveal_strlit("");
    }
    let severity: Option<String> = match &query.severity {
        Some(s) => {
            assert(s@.len() == 0 ==> s@ =~= ""@);
            if same(s.as_str(), "") {
                None
            } else {
                Some(s.clone())
            }
        },
        None => None,
    };
    AuditFilter { limit, severity, from: query.from_ts, to: query.to_ts }
}

/// Whether the lines alone are asked for.
pub fn wants_lines(query: &ListQuery) -> (r: bool)
    ensures
        r <==> opt_text(query.partial) == Some("list"@),
{
    match &query.partial {
        Some(p) => same(p.as_str(), "list"),
        None => false,
    }
}

/// An entry of the log.
pub struct AuditEntry {
    pub at: Moment,
    /// The type, perhaps in quotes.
    pub event_type: String,
    pub agent_id: Option<String>,
    pub details: String,
}

/// The type that is asked for.
pub struct TypeFilter {
    pub event_type: Option<String>,
}

impl Picks<AuditEntry> for TypeFilter {
    /// An entry whose type holds what is asked for, whatever the case.
    open spec fn picks(&self, row: AuditEntry) -> bool {
        match self.event_type {
            Some(t) => contains_text(lowercased(row.event_type@), lowercased(t@)),
            None => true,
        }
    }

    fn takes(&self, row: &AuditEntry) -> (r: bool) {
        match &self.event_type {
            Some(t) => {
                let kind: String = row.event_type.as_str().to_lowercase();
                let asked: String = t.as_str().to_lowercase();
                str_contains(kind.as_str(), asked.as_str())
            },
            None => true,
        }
    }
}

/// An entry as it is shown.
pub struct AuditRow {
    pub timestamp: String,
    pub event_type: String,
    pub agent_id: Option<String>,
    pub details: String,
}

/// The type of an entry, without the quotes around it.
pub open spec fn bare_type(event_type: Seq<char>) -> Seq<char> {
    trim_by(event_type, Cut::Is('"'))
}

/// The type of an entry, without the quotes around it.
pub fn unquoted(event_type: &str) -> (r: String)
    ensures
        r@ == bare_type(event_type@),
{
    let chars: Vec<char> = chars_of(event_type);
    let cut: Vec<char> = trim_chars(chars.as_slice(), Cut::Is('"'));
    string_of(cut.as_slice())
}

/// Whether the row shows the entry.
pub open spec fn row_of(row: AuditRow, entry: AuditEntry) -> bool {
    &&& row.timestamp@ == entry.at.stamped(STAMP_PATTERN@)
    &&& row.event_type@ == bare_type(entry.event_type@)
    &&& opt_text(row.agent_id) == opt_text(entry.agent_id)
    &&& row.details@ == entry.details@
}

/// The rows of the page: the entries whose type holds what is asked for, in order.
pub fn list(entries: &Vec<AuditEntry>, filter: &TypeFilter) -> (r: Vec<AuditRow>)
    ensures
        ({
            let kept = chosen::<'static, AuditEntry, TypeFilter>(entries@, *filter);
            &&& r@.len() == kept.len()
            &&& forall|k: int| 0 <= k < kept.len() ==> row_of(#[trigger] r@[k], *kept[k])
        }),
{
    let kept: Vec<&AuditEntry> = choose_rows(entries, filter);
    let mut out: Vec<AuditRow> = Vec::new();
    let mut i: usize = 0;
    while i < kept.len()
        invariant
            i <= kept@.len(),
            out@.len() == i,
            forall|k: int| 0 <= k < i ==> row_of(#[trigger] out@[k], *kept@[k]),
        decreases kept.len() - i,
    {
        let e: &AuditEntry = kept[i];
        out.push(
            AuditRow {
                timestamp: e.at.stamp(STAMP_PATTERN),
                event_type: unquoted(e.event_type.as_str()),
                agent_id: crate::chat_store::copy_text(&e.agent_id),
                details: e.details.clone(),
            },
        );
        i += 1;
    }
    out
}

/// The answer where an id is not that of a trace.
pub fn check_trace_id(id: &str) -> (r: Option<Reply>)
    ensures
        uuid_like(id@) ==> r is None,
        !uuid_like(id@) ==> (r matches Some(reply) && reply.is(400, "Invalid trace ID format"@)),
{
    if is_uuid(id) {
        None
    } else {
        Some(Reply::new(400, "Invalid trace ID format"))
    }
}

/// The answer where an entry cannot be shown.
pub fn detail_error(found: &Lookup<()>) -> (r: Option<Reply>)
    ensures
        match *found {
            Lookup::Found(_) => r is None,
            Lookup::Missing => r matches Some(reply) && reply.is(404, "Audit entry not found"@),
            Lookup::Failed => r matches Some(reply) && reply.is(500, "Database error"@),
        },
{
    match found {
        Lookup::Found(_) => None,
        Lookup::Missing => Some(Reply::new(404, "Audit entry not found")),
        Lookup::Failed => Some(Reply::new(500, "Database error")),
    }
}

/// One entry in full.
pub struct AuditDetail {
    pub timestamp: String,
    pub timestamp_iso: String,
    pub event_type: String,
    pub details: String,
    pub page_title: String,
    pub breadcrumb: String,
}

/// One entry in full.
pub fn detail(trace_id: &str, at: Moment, event_type: &str, metadata: &Json) -> (r: AuditDetail)
    ensures
        r.timestamp@ == at.stamped(STAMP_UTC_PATTERN@),
        r.timestamp_iso@ == at.iso(),
        r.event_type@ == bare_type(event_type@),
        r.details@ == pretty_text(metadata@),
        r.page_title@ == "Audit — "@ + short(trace_id@),
        r.breadcrumb@ == "Trace "@ + short(trace_id@),
{
    let head: String = short_id(trace_id);
    let mut page_title: String = "Audit — ".to_owned();
    page_title.push_str(head.as_str());
    let mut breadcrumb: String = "Trace ".to_owned();
    breadcrumb.push_str(head.as_str());
    AuditDetail {
        timestamp: at.stamp(STAMP_UTC_PATTERN),
        timestamp_iso: at.to_iso(),
        event_type: unquoted(event_type),
        details: pretty(metadata),
        page_title,
        breadcrumb,
    }
}

/// The type of an entry is shown without the quotes around it, and with those inside.
pub proof fn law_types_are_shown_without_quotes(kind: Seq<char>)
    requires
        kind.len() > 0 && kind[0] != '"' && kind.last() != '"',
    ensures
        bare_type(kind) == kind,
        bare_type(seq!['"'] + kind + seq!['"']) == kind,
{
    let cut = Cut::Is('"');
    let s = seq!['"'] + kind + seq!['"'];
    let (a, b) = lemma_trim_is_part(s, cut);
    lemma_trim_ends(s, cut);
    assert(s[1] == kind[0] && s[s.len() - 2] == kind.last());
    assert(a <= 1 && b >= s.len() - 1);
    let t = bare_type(s);
    assert(t[0] == s[a] && t.last() == s[b - 1]);
    assert(s[0] == '"' && s[s.len() - 1] == '"');
    assert(s.subrange(1, s.len() - 1) =~= kind);
}

/// A search takes the entries whose type holds the word, in upper or lower case, and all entries
/// where no word is given.
pub proof fn law_entries_are_found_by_type(
    filter: TypeFilter,
    row: AuditEntry,
    front: Seq<char>,
    back: Seq<char>,
)
    ensures
        filter.event_type is None ==> filter.picks(row),
        filter.event_type is Some && lowercased(row.event_type@) == front + lowercased(
            filter.event_type->0@,
        ) + back ==> filter.picks(row),
        filter.event_type is Some && (forall|i: int|
            !occurs_at(lowercased(row.event_type@), lowercased(filter.event_type->0@), i))
            ==> !filter.picks(row),
{
    if filter.event_type is Some {
        let hay = lowercased(row.event_type@);
        let needle = lowercased(filter.event_type->0@);
        if hay == front + needle + back {
            assert(hay.subrange(front.len() as int, (front.len() + needle.len()) as int)
                =~= needle);
            assert(occurs_at(hay, needle, front.len() as int));
        }
    }
}

} // verus!
